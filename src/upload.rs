//! Server-side planning of an upload: which cards of a file need new IDs,
//! which ID each card ends up with, and which known cards were not uploaded.
use vstd::prelude::*;
use crate::filesync::ParsedCard;
use crate::models::NewIdAssignment;

verus! {

/// The number of cards without an ID.
pub open spec fn missing_count(cards: Seq<ParsedCard>) -> nat
    decreases cards.len(),
{
    if cards.len() == 0 {
        0
    } else {
        missing_count(cards.drop_last()) + if cards.last().id is None {
            1nat
        } else {
            0nat
        }
    }
}

/// The ID card `k` ends up with: its own, or the next of the fresh IDs
/// handed out in card order.
pub open spec fn final_id(cards: Seq<ParsedCard>, fresh: Seq<i64>, k: int) -> i64 {
    match cards[k].id {
        Some(x) => x,
        None => fresh[missing_count(cards.take(k)) as int],
    }
}

/// The `(line, id)` of each card that receives a fresh ID, in card order.
pub open spec fn new_assignments(cards: Seq<ParsedCard>, fresh: Seq<i64>) -> Seq<(usize, i64)>
    decreases cards.len(),
{
    if cards.len() == 0 {
        Seq::empty()
    } else {
        let pre = new_assignments(cards.drop_last(), fresh);
        match cards.last().id {
            Some(_) => pre,
            None => pre.push((cards.last().line, fresh[missing_count(cards.drop_last()) as int])),
        }
    }
}

/// The IDs of the cards of a file, and the assignments of the cards that had
/// none. `fresh` holds one newly allocated ID per card without an ID.
pub struct IdPlan {
    pub card_ids: Vec<i64>,
    pub new_ids: Vec<NewIdAssignment>,
}

/// The number of cards of a file that need a new ID.
pub fn count_missing_ids(cards: &[ParsedCard]) -> (r: usize)
    ensures
        r == missing_count(cards@),
{
    let mut n: usize = 0;
    let mut k: usize = 0;
    while k < cards.len()
        invariant
            0 <= k <= cards@.len(),
            n == missing_count(cards@.take(k as int)),
            n <= k,
        decreases cards@.len() - k,
    {
        assert(cards@.take(k + 1).drop_last() =~= cards@.take(k as int));
        if cards[k].id.is_none() {
            n += 1;
        }
        k += 1;
    }
    assert(cards@.take(cards@.len() as int) =~= cards@);
    n
}

proof fn lemma_missing_count_prefix(cards: Seq<ParsedCard>, k: int)
    requires
        0 <= k <= cards.len(),
    ensures
        missing_count(cards.take(k)) <= missing_count(cards),
    decreases cards.len(),
{
    if k < cards.len() {
        assert(cards.drop_last().take(k) =~= cards.take(k));
        lemma_missing_count_prefix(cards.drop_last(), k);
    } else {
        assert(cards.take(k) =~= cards);
    }
}

/// Give every card of the file at `path` its ID: its own, or the next of
/// `fresh`. Each card that takes a fresh ID is listed as an assignment of its
/// line.
pub fn assign_card_ids(path: &str, cards: &[ParsedCard], fresh: &[i64]) -> (r: IdPlan)
    requires
        fresh@.len() == missing_count(cards@),
    ensures
        r.card_ids@.len() == cards@.len(),
        forall|k: int| 0 <= k < cards@.len() ==> r.card_ids@[k] == final_id(cards@, fresh@, k),
        r.new_ids@.len() == missing_count(cards@),
        r.new_ids@.map_values(|a: NewIdAssignment| (a.line, a.id)) == new_assignments(cards@, fresh@),
        forall|k: int| 0 <= k < r.new_ids@.len() ==> (#[trigger] r.new_ids@[k]).path@ == path@,
{
    let mut ids: Vec<i64> = Vec::new();
    let mut news: Vec<NewIdAssignment> = Vec::new();
    let mut used: usize = 0;
    let mut k: usize = 0;
    while k < cards.len()
        invariant
            0 <= k <= cards@.len(),
            fresh@.len() == missing_count(cards@),
            used == missing_count(cards@.take(k as int)),
            used <= fresh@.len(),
            ids@.len() == k,
            forall|t: int| 0 <= t < k ==> ids@[t] == final_id(cards@, fresh@, t),
            news@.len() == used,
            news@.map_values(|a: NewIdAssignment| (a.line, a.id)) == new_assignments(
                cards@.take(k as int),
                fresh@,
            ),
            forall|t: int| 0 <= t < news@.len() ==> (#[trigger] news@[t]).path@ == path@,
        decreases cards@.len() - k,
    {
        let ghost pre = cards@.take(k as int);
        assert(cards@.take(k + 1).drop_last() =~= pre);
        assert(cards@.take(k + 1).last() == cards@[k as int]);
        proof {
            lemma_missing_count_prefix(cards@, k + 1);
        }
        let ghost before = news@;
        match cards[k].id {
            Some(x) => {
                ids.push(x);
            },
            None => {
                let id = fresh[used];
                ids.push(id);
                news.push(
                    NewIdAssignment {
                        path: crate::text::from_chars(crate::text::to_chars(path).as_slice()),
                        line: cards[k].line,
                        id,
                    },
                );
                assert(news@.map_values(|a: NewIdAssignment| (a.line, a.id)) =~= before.map_values(
                    |a: NewIdAssignment| (a.line, a.id),
                ).push((cards@[k as int].line, id)));
                used += 1;
            },
        }
        k += 1;
    }
    assert(cards@.take(cards@.len() as int) =~= cards@);
    IdPlan { card_ids: ids, new_ids: news }
}

/// The known IDs that are not among the present ones, in the order known.
pub open spec fn orphans_of(known: Seq<i64>, present: Seq<i64>) -> Seq<i64>
    decreases known.len(),
{
    if known.len() == 0 {
        Seq::empty()
    } else {
        let r = orphans_of(known.drop_last(), present);
        if present.contains(known.last()) {
            r
        } else {
            r.push(known.last())
        }
    }
}

/// The cards known for a device that an upload did not reference.
pub fn orphan_ids(known: &[i64], present: &[i64]) -> (r: Vec<i64>)
    ensures
        r@ == orphans_of(known@, present@),
{
    let mut out: Vec<i64> = Vec::new();
    let mut k: usize = 0;
    while k < known.len()
        invariant
            0 <= k <= known@.len(),
            out@ == orphans_of(known@.take(k as int), present@),
        decreases known@.len() - k,
    {
        assert(known@.take(k + 1).drop_last() =~= known@.take(k as int));
        let x = known[k];
        let mut found = false;
        let mut t: usize = 0;
        while t < present.len()
            invariant
                0 <= t <= present@.len(),
                found == (exists|u: int| 0 <= u < t && present@[u] == x),
            decreases present@.len() - t,
        {
            if present[t] == x {
                found = true;
            }
            t += 1;
        }
        if !found {
            out.push(x);
        }
        k += 1;
    }
    assert(known@.take(known@.len() as int) =~= known@);
    out
}

/// Uploading a file whose cards all carry IDs hands out no new IDs.
pub proof fn lemma_known_ids_need_no_new_ones(cards: Seq<ParsedCard>, fresh: Seq<i64>)
    requires
        forall|k: int| 0 <= k < cards.len() ==> (#[trigger] cards[k]).id is Some,
    ensures
        missing_count(cards) == 0,
        new_assignments(cards, fresh).len() == 0,
    decreases cards.len(),
{
    if cards.len() > 0 {
        let pre = cards.drop_last();
        assert forall|k: int| 0 <= k < pre.len() implies (#[trigger] pre[k]).id is Some by {
            assert(pre[k] == cards[k]);
        }
        lemma_known_ids_need_no_new_ones(pre, fresh);
        assert(cards.last() == cards[cards.len() - 1]);
    }
}

/// A known card whose ID an upload does not reference is reported as an
/// orphan.
pub proof fn lemma_unreferenced_card_is_orphan(known: Seq<i64>, present: Seq<i64>, id: i64)
    requires
        known.contains(id),
        !present.contains(id),
    ensures
        orphans_of(known, present).contains(id),
    decreases known.len(),
{
    if known.last() == id {
        let r = orphans_of(known.drop_last(), present);
        assert(r.push(id)[r.len() as int] == id);
    } else {
        let i = choose|i: int| 0 <= i < known.len() && known[i] == id;
        assert(known.drop_last()[i] == id);
        lemma_unreferenced_card_is_orphan(known.drop_last(), present, id);
        let r = orphans_of(known.drop_last(), present);
        let j = choose|j: int| 0 <= j < r.len() && r[j] == id;
        if !present.contains(known.last()) {
            assert(r.push(known.last())[j] == id);
        }
    }
}

} // verus!
