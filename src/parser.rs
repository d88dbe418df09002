//! Parsing card files into cards, and writing IDs back into them.
use vstd::prelude::*;
use crate::cardfile::{scan, scan_cards, CardModel, ScannedCard, card_models};
use crate::error::ParseError;
use crate::text::{int_text, from_chars, push_i64_text};
use crate::types::RawCard;

verus! {

/// Whether card `j` repeats the ID of an earlier card.
pub open spec fn dup_at(cards: Seq<CardModel>, j: int) -> bool {
    cards[j].id is Some && exists|i: int| 0 <= i < j && cards[i].id == cards[j].id
}

/// The first of the first `n` cards that repeats an earlier card's ID.
pub open spec fn first_dup(cards: Seq<CardModel>, n: nat) -> Option<int>
    decreases n,
{
    if n == 0 {
        None
    } else {
        match first_dup(cards, (n - 1) as nat) {
            Some(j) => Some(j),
            None => if dup_at(cards, n - 1) {
                Some(n - 1)
            } else {
                None
            },
        }
    }
}

/// `v` holds exactly the cards `m`, in order.
pub open spec fn raw_cards_match(v: Seq<RawCard>, m: Seq<CardModel>) -> bool {
    &&& v.len() == m.len()
    &&& forall|k: int|
        0 <= k < v.len() ==> {
            &&& (#[trigger] v[k]).id == m[k].id
            &&& v[k].question@ == m[k].question
            &&& v[k].answer@ == m[k].answer
            &&& v[k].line_number as int == m[k].line
        }
}

/// What `parse` returns for `content`: the cards of the file; the line and
/// text of the first malformed `ID:` line; or the ID and line of the first
/// card that repeats an earlier card's ID.
pub open spec fn parse_ok(content: Seq<char>, r: Result<Vec<RawCard>, ParseError>) -> bool {
    match scan(content) {
        Err((line, value)) => r matches Err(ParseError::InvalidId { line: l, value: v }) && l
            == line && v@ == value,
        Ok(cards) => match first_dup(cards, cards.len()) {
            Some(j) => r matches Err(ParseError::DuplicateId { id, line }) && cards[j].id == Some(
                id,
            ) && line as int == cards[j].line,
            None => r matches Ok(v) && raw_cards_match(v@, cards),
        },
    }
}

proof fn lemma_first_dup_none(cards: Seq<CardModel>, n: nat)
    requires
        n <= cards.len(),
        first_dup(cards, n) is None,
    ensures
        forall|j: int| 0 <= j < n ==> !dup_at(cards, j),
    decreases n,
{
    if n > 0 {
        lemma_first_dup_none(cards, (n - 1) as nat);
    }
}

proof fn lemma_first_dup_stays(cards: Seq<CardModel>, j: nat, n: nat)
    requires
        j <= n,
        first_dup(cards, j) is Some,
    ensures
        first_dup(cards, n) == first_dup(cards, j),
    decreases n,
{
    if n > j {
        lemma_first_dup_stays(cards, j, (n - 1) as nat);
    }
}

/// The ID and line of the first card that repeats an earlier card's ID.
pub fn find_duplicate(scanned: &Vec<ScannedCard>) -> (r: Option<(i64, usize)>)
    ensures
        match first_dup(card_models(scanned@), scanned@.len()) {
            Some(j) => r matches Some((id, line)) && card_models(scanned@)[j].id == Some(id)
                && line as int == card_models(scanned@)[j].line,
            None => r is None,
        },
{
    let ghost cards = card_models(scanned@);
    let mut j: usize = 0;
    while j < scanned.len()
        invariant
            0 <= j <= scanned@.len(),
            cards == card_models(scanned@),
            cards.len() == scanned@.len(),
            first_dup(cards, j as nat) is None,
        decreases scanned@.len() - j,
    {
        if let Some(id) = scanned[j].id {
            let mut i: usize = 0;
            while i < j
                invariant
                    0 <= i <= j < scanned@.len(),
                    cards == card_models(scanned@),
                    cards.len() == scanned@.len(),
                    cards[j as int].id == Some(id),
                    first_dup(cards, j as nat) is None,
                    forall|k: int| 0 <= k < i ==> cards[k].id != Some(id),
                decreases j - i,
            {
                if scanned[i].id == Some(id) {
                    assert(cards[i as int].id == Some(id));
                    assert(dup_at(cards, j as int));
                    assert(first_dup(cards, (j + 1) as nat) == Some(j as int));
                    proof {
                        lemma_first_dup_stays(cards, (j + 1) as nat, cards.len());
                    }
                    return Some((id, scanned[j].line));
                }
                i += 1;
            }
            assert(!dup_at(cards, j as int));
        }
        j += 1;
    }
    None
}

/// Parse the text of a card file into its cards.
///
/// Cards come in file order, each with its optional ID, its question and
/// answer trimmed, and the line its block starts on. A block without both a
/// question and an answer is left out. An `ID:` line whose text is neither
/// empty nor an integer is an `InvalidId` error; a second card with the ID of
/// an earlier one is a `DuplicateId` error at that second card's line.
pub fn parse(content: &str) -> (r: Result<Vec<RawCard>, ParseError>)
    ensures
        parse_ok(content@, r),
{
    let chars = crate::text::to_chars(content);
    let scanned = match scan_cards(chars.as_slice()) {
        Ok(v) => v,
        Err((line, value)) => {
            return Err(ParseError::InvalidId { line, value: from_chars(value.as_slice()) });
        },
    };
    let ghost cards = card_models(scanned@);
    if let Some((id, line)) = find_duplicate(&scanned) {
        return Err(ParseError::DuplicateId { id, line });
    }
    let mut out: Vec<RawCard> = Vec::new();
    let mut k: usize = 0;
    while k < scanned.len()
        invariant
            0 <= k <= scanned@.len(),
            cards == card_models(scanned@),
            cards.len() == scanned@.len(),
            scan(content@) == Ok::<Seq<CardModel>, (int, Seq<char>)>(cards),
            raw_cards_match(out@, cards.take(k as int)),
        decreases scanned@.len() - k,
    {
        let c = &scanned[k];
        out.push(
            RawCard {
                id: c.id,
                question: from_chars(c.question.as_slice()),
                answer: from_chars(c.answer.as_slice()),
                line_number: c.line,
            },
        );
        assert(cards[k as int] == c@);
        k += 1;
    }
    assert(cards.take(cards.len() as int) =~= cards);
    Ok(out)
}

/// The ID assigned to line `k`: that of the last entry for the line.
pub open spec fn assigned(asg: Seq<(usize, i64)>, k: int) -> Option<i64>
    decreases asg.len(),
{
    if asg.len() == 0 {
        None
    } else if asg.last().0 as int == k {
        Some(asg.last().1)
    } else {
        assigned(asg.drop_last(), k)
    }
}

/// The number of `'\n'` characters in `s`.
pub open spec fn count_nl(s: Seq<char>) -> nat
    decreases s.len(),
{
    if s.len() == 0 {
        0
    } else {
        count_nl(s.drop_last()) + if s.last() == '\n' {
            1nat
        } else {
            0nat
        }
    }
}

/// Whether a line of `c` starts at position `p`.
pub open spec fn line_start(c: Seq<char>, p: int) -> bool {
    p == 0 || c[p - 1] == '\n'
}

/// The line `ID: <v>` with its line break.
pub open spec fn id_line(v: i64) -> Seq<char> {
    seq!['I', 'D', ':', ' '] + int_text(v as int) + seq!['\n']
}

/// The first `i` characters of `c`, each line start preceded by the `ID:`
/// line of the ID assigned to that line's number, if any.
pub open spec fn inject_upto(c: Seq<char>, asg: Seq<(usize, i64)>, i: nat) -> Seq<char>
    decreases i,
{
    if i == 0 {
        Seq::empty()
    } else {
        let p = i - 1;
        let ins = if line_start(c, p) {
            match assigned(asg, count_nl(c.take(p)) + 1int) {
                Some(v) => id_line(v),
                None => Seq::empty(),
            }
        } else {
            Seq::empty()
        };
        inject_upto(c, asg, p as nat) + ins + seq![c[p]]
    }
}

/// `c` with an `ID:` line inserted before each line that has an assigned ID;
/// every other character is kept, a final line break or its absence too.
pub open spec fn inject_spec(c: Seq<char>, asg: Seq<(usize, i64)>) -> Seq<char> {
    inject_upto(c, asg, c.len())
}

fn lookup_assigned(asg: &[(usize, i64)], k: usize) -> (r: Option<i64>)
    ensures
        r == assigned(asg@, k as int),
{
    let mut idx = asg.len();
    assert(asg@.take(asg@.len() as int) =~= asg@);
    while idx > 0
        invariant
            0 <= idx <= asg@.len(),
            assigned(asg@, k as int) == assigned(asg@.take(idx as int), k as int),
        decreases idx,
    {
        let ghost pre = asg@.take(idx as int);
        assert(pre.drop_last() =~= asg@.take(idx - 1));
        if asg[idx - 1].0 == k {
            return Some(asg[idx - 1].1);
        }
        idx -= 1;
    }
    None
}

/// Write IDs into the text of a card file: for each `(line, id)` entry an
/// `ID: <id>` line is inserted directly before line `line` (numbered from 1);
/// where a line has several entries the last one counts. All other
/// characters, the final line break or its absence included, are kept.
pub fn inject_ids(content: &str, id_assignments: &[(usize, i64)]) -> (r: String)
    ensures
        r@ == inject_spec(content@, id_assignments@),
{
    let c = crate::text::to_chars(content);
    let mut out: Vec<char> = Vec::new();
    let mut p: usize = 0;
    let mut nl: usize = 0;
    while p < c.len()
        invariant
            0 <= p <= c@.len(),
            c@ == content@,
            out@ == inject_upto(c@, id_assignments@, p as nat),
            nl as int == count_nl(c@.take(p as int)),
            nl <= p,
        decreases c@.len() - p,
    {
        if p == 0 || c[p - 1] == '\n' {
            match lookup_assigned(id_assignments, nl + 1) {
                Some(v) => {
                    let ghost before = out@;
                    out.push('I');
                    out.push('D');
                    out.push(':');
                    out.push(' ');
                    push_i64_text(v, &mut out);
                    out.push('\n');
                    assert(out@ =~= before + id_line(v));
                },
                None => {},
            }
        }
        let ghost mid = out@;
        out.push(c[p]);
        assert(c@.take(p + 1).drop_last() =~= c@.take(p as int));
        assert(out@ =~= inject_upto(c@, id_assignments@, (p + 1) as nat));
        if c[p] == '\n' {
            nl += 1;
        }
        p += 1;
    }
    from_chars(out.as_slice())
}

/// Injecting no IDs gives back the text unchanged.
pub proof fn lemma_inject_nothing(c: Seq<char>)
    ensures
        inject_spec(c, Seq::empty()) == c,
{
    lemma_inject_upto_nothing(c, c.len());
    assert(c.take(c.len() as int) =~= c);
}

proof fn lemma_inject_upto_nothing(c: Seq<char>, i: nat)
    requires
        i <= c.len(),
    ensures
        inject_upto(c, Seq::empty(), i) == c.take(i as int),
    decreases i,
{
    if i > 0 {
        lemma_inject_upto_nothing(c, (i - 1) as nat);
        assert(c.take(i as int) =~= c.take(i - 1).push(c[i - 1]));
        assert(inject_upto(c, Seq::empty(), i) =~= c.take(i - 1) + Seq::empty() + seq![c[i - 1]]);
    }
}

} // verus!
