//! The study queues of a deck: new cards in ID order and due cards in due
//! order, each cut to the day's limit.
use vstd::prelude::*;
use crate::types::CardStatus;

verus! {

/// A card as the queues see it: its ID, its status if it has a state yet,
/// and its due day (a day number) if it has one.
#[derive(Debug, Clone, Copy, PartialEq, Eq, Structural)]
pub struct QueueEntry {
    pub card_id: i64,
    pub status: Option<CardStatus>,
    pub due_day: Option<i32>,
}

/// Whether `a` comes before `b`: by first component, then by second.
pub open spec fn before(a: (i64, i64), b: (i64, i64)) -> bool {
    a.0 < b.0 || (a.0 == b.0 && a.1 < b.1)
}

/// The first of the keys in `s` that come after `bound` (all keys when there
/// is no bound).
pub open spec fn first_after(s: Seq<(i64, i64)>, bound: Option<(i64, i64)>) -> Option<(i64, i64)>
    decreases s.len(),
{
    if s.len() == 0 {
        None
    } else {
        let rest = first_after(s.drop_last(), bound);
        let x = s.last();
        if bound matches Some(b) && !before(b, x) {
            rest
        } else {
            match rest {
                Some(r) => if before(x, r) {
                    Some(x)
                } else {
                    Some(r)
                },
                None => Some(x),
            }
        }
    }
}

/// The first `k` keys of `s` in order, starting after `bound`.
pub open spec fn first_keys(s: Seq<(i64, i64)>, bound: Option<(i64, i64)>, k: nat) -> Seq<(i64, i64)>
    decreases k,
{
    if k == 0 {
        Seq::empty()
    } else {
        match first_after(s, bound) {
            Some(m) => seq![m] + first_keys(s, Some(m), (k - 1) as nat),
            None => Seq::empty(),
        }
    }
}

/// Whether a card belongs in the new queue: it has no state, or is new.
pub open spec fn is_new_entry(e: QueueEntry) -> bool {
    e.status is None || e.status == Some(CardStatus::New)
}

/// Whether a card belongs in the review queue on study day `today`.
pub open spec fn is_due_entry(e: QueueEntry, today: i32) -> bool {
    e.status is Some && e.status != Some(CardStatus::New) && e.due_day is Some && e.due_day->0
        <= today
}

/// The keys of the new cards: each card's ID, twice.
pub open spec fn new_keys(cards: Seq<QueueEntry>) -> Seq<(i64, i64)>
    decreases cards.len(),
{
    if cards.len() == 0 {
        Seq::empty()
    } else {
        let e = cards.last();
        let rest = new_keys(cards.drop_last());
        if is_new_entry(e) {
            rest.push((e.card_id, e.card_id))
        } else {
            rest
        }
    }
}

/// The keys of the due cards: due day, then ID.
pub open spec fn due_keys(cards: Seq<QueueEntry>, today: i32) -> Seq<(i64, i64)>
    decreases cards.len(),
{
    if cards.len() == 0 {
        Seq::empty()
    } else {
        let e = cards.last();
        let rest = due_keys(cards.drop_last(), today);
        if is_due_entry(e, today) {
            rest.push((e.due_day->0 as i64, e.card_id))
        } else {
            rest
        }
    }
}

/// The second components of keys.
pub open spec fn ids_of(keys: Seq<(i64, i64)>) -> Seq<i64> {
    keys.map_values(|k: (i64, i64)| k.1)
}

fn first_after_exec(s: &Vec<(i64, i64)>, bound: Option<(i64, i64)>) -> (r: Option<(i64, i64)>)
    ensures
        r == first_after(s@, bound),
{
    let mut best: Option<(i64, i64)> = None;
    let mut i: usize = 0;
    while i < s.len()
        invariant
            0 <= i <= s@.len(),
            best == first_after(s@.take(i as int), bound),
        decreases s@.len() - i,
    {
        assert(s@.take(i + 1).drop_last() =~= s@.take(i as int));
        let x = s[i];
        let skip = match bound {
            Some(b) => !(b.0 < x.0 || (b.0 == x.0 && b.1 < x.1)),
            None => false,
        };
        if !skip {
            best = match best {
                Some(r) => if x.0 < r.0 || (x.0 == r.0 && x.1 < r.1) {
                    Some(x)
                } else {
                    Some(r)
                },
                None => Some(x),
            };
        }
        i += 1;
    }
    assert(s@.take(s@.len() as int) =~= s@);
    best
}

fn first_ids(keys: &Vec<(i64, i64)>, limit: usize) -> (r: Vec<i64>)
    ensures
        r@ == ids_of(first_keys(keys@, None, limit as nat)),
{
    let mut out: Vec<i64> = Vec::new();
    let mut bound: Option<(i64, i64)> = None;
    let mut t: usize = 0;
    let ghost all = first_keys(keys@, None, limit as nat);
    while t < limit
        invariant
            0 <= t <= limit,
            all == first_keys(keys@, None, limit as nat),
            ids_of(all) == out@ + ids_of(first_keys(keys@, bound, (limit - t) as nat)),
        decreases limit - t,
    {
        let ghost rest = first_keys(keys@, bound, (limit - t) as nat);
        match first_after_exec(keys, bound) {
            Some(m) => {
                assert(rest == seq![m] + first_keys(keys@, Some(m), (limit - t - 1) as nat));
                assert(ids_of(rest) =~= seq![m.1] + ids_of(first_keys(keys@, Some(m), (limit - t - 1) as nat)));
                out.push(m.1);
                bound = Some(m);
                t += 1;
                assert(ids_of(all) =~= out@ + ids_of(first_keys(keys@, bound, (limit - t) as nat)));
            },
            None => {
                assert(rest == Seq::<(i64, i64)>::empty());
                assert(ids_of(rest) =~= Seq::<i64>::empty());
                assert(out@ + ids_of(rest) =~= out@);
                return out;
            },
        }
    }
    assert(first_keys(keys@, bound, 0) == Seq::<(i64, i64)>::empty());
    assert(ids_of(Seq::<(i64, i64)>::empty()) =~= Seq::<i64>::empty());
    assert(out@ + Seq::<i64>::empty() =~= out@);
    out
}

/// The new queue: the IDs of cards without a state or still new, in
/// ascending ID order, at most `limit` of them.
pub fn new_queue(cards: &[QueueEntry], limit: usize) -> (r: Vec<i64>)
    ensures
        r@ == ids_of(first_keys(new_keys(cards@), None, limit as nat)),
{
    let mut keys: Vec<(i64, i64)> = Vec::new();
    let mut i: usize = 0;
    while i < cards.len()
        invariant
            0 <= i <= cards@.len(),
            keys@ == new_keys(cards@.take(i as int)),
        decreases cards@.len() - i,
    {
        assert(cards@.take(i + 1).drop_last() =~= cards@.take(i as int));
        let e = cards[i];
        let fresh = match e.status {
            None => true,
            Some(CardStatus::New) => true,
            _ => false,
        };
        if fresh {
            keys.push((e.card_id, e.card_id));
        }
        i += 1;
    }
    assert(cards@.take(cards@.len() as int) =~= cards@);
    first_ids(&keys, limit)
}

/// The review queue on study day `today`: the IDs of cards past the new
/// stage that are due on or before `today`, earliest due first (then by
/// ID), at most `limit` of them.
pub fn review_queue(cards: &[QueueEntry], today: i32, limit: usize) -> (r: Vec<i64>)
    ensures
        r@ == ids_of(first_keys(due_keys(cards@, today), None, limit as nat)),
{
    let mut keys: Vec<(i64, i64)> = Vec::new();
    let mut i: usize = 0;
    while i < cards.len()
        invariant
            0 <= i <= cards@.len(),
            keys@ == due_keys(cards@.take(i as int), today),
        decreases cards@.len() - i,
    {
        assert(cards@.take(i + 1).drop_last() =~= cards@.take(i as int));
        let e = cards[i];
        let due = match e.status {
            None => false,
            Some(CardStatus::New) => false,
            _ => match e.due_day {
                Some(d) => d <= today,
                None => false,
            },
        };
        if due {
            keys.push((e.due_day.unwrap() as i64, e.card_id));
        }
        i += 1;
    }
    assert(cards@.take(cards@.len() as int) =~= cards@);
    first_ids(&keys, limit)
}

/// What is left of a daily limit once `returned` cards are shown.
pub fn remaining(limit: usize, returned: usize) -> (r: usize)
    ensures
        r == if returned >= limit {
            0
        } else {
            limit - returned
        },
{
    if returned >= limit {
        0
    } else {
        limit - returned
    }
}

/// The first key after a bound comes after it and is one of the keys.
proof fn lemma_first_after_bound(s: Seq<(i64, i64)>, bound: Option<(i64, i64)>)
    ensures
        first_after(s, bound) matches Some(m) ==> s.contains(m) && (bound matches Some(b) ==> before(
            b,
            m,
        )),
    decreases s.len(),
{
    if s.len() > 0 {
        lemma_first_after_bound(s.drop_last(), bound);
        if let Some(m) = first_after(s, bound) {
            if m == s.last() {
                assert(s[s.len() - 1] == m);
            } else {
                let i = choose|i: int| 0 <= i < s.drop_last().len() && s.drop_last()[i] == m;
                assert(s[i] == m);
            }
        }
    }
}

/// Each queue comes in strictly increasing key order, and holds only keys of
/// eligible cards.
pub proof fn lemma_first_keys_ordered(s: Seq<(i64, i64)>, bound: Option<(i64, i64)>, k: nat)
    ensures
        forall|i: int|
            0 <= i < first_keys(s, bound, k).len() ==> s.contains(#[trigger] first_keys(s, bound, k)[i]),
        forall|i: int|
            0 <= i < first_keys(s, bound, k).len() - 1 ==> before(
                #[trigger] first_keys(s, bound, k)[i],
                first_keys(s, bound, k)[i + 1],
            ),
        first_keys(s, bound, k).len() <= k,
        bound matches Some(b) ==> forall|i: int|
            0 <= i < first_keys(s, bound, k).len() ==> before(b, #[trigger] first_keys(s, bound, k)[i]),
    decreases k,
{
    if k > 0 {
        lemma_first_after_bound(s, bound);
        if let Some(m) = first_after(s, bound) {
            lemma_first_keys_ordered(s, Some(m), (k - 1) as nat);
            let rest = first_keys(s, Some(m), (k - 1) as nat);
            let all = first_keys(s, bound, k);
            assert(all == seq![m] + rest);
            assert forall|i: int| 0 <= i < all.len() implies s.contains(#[trigger] all[i]) by {
                if i > 0 {
                    assert(all[i] == rest[i - 1]);
                }
            }
            assert forall|i: int| 0 <= i < all.len() - 1 implies before(#[trigger] all[i], all[i + 1]) by {
                if i > 0 {
                    assert(all[i] == rest[i - 1]);
                }
                assert(all[i + 1] == rest[i]);
            }
            if let Some(b) = bound {
                assert forall|i: int| 0 <= i < all.len() implies before(b, #[trigger] all[i]) by {
                    if i > 0 {
                        assert(all[i] == rest[i - 1]);
                        assert(before(m, rest[i - 1]));
                    }
                }
            }
        }
    }
}

} // verus!
