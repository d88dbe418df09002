//! The line machine that reads card files.
//!
//! A card is a block of lines: an optional `ID:` line, a `Q:` line and an
//! `A:` line. Other lines continue the field last opened, or are ignored when
//! no field is open. A block starts at an `ID:` line, and at a `Q:` line
//! unless the block was opened by an `ID:` line and has seen no field line
//! since.
use vstd::prelude::*;
use crate::text::{trim, lines_of, parse_i64_spec, views};

verus! {

/// The field that continuation lines are appended to.
#[derive(Debug, Clone, Copy, PartialEq, Eq, Structural)]
pub enum CardField {
    Question,
    Answer,
}

/// A card as the machine emits it.
pub struct CardModel {
    pub id: Option<i64>,
    pub question: Seq<char>,
    pub answer: Seq<char>,
    pub line: int,
}

/// A block under construction.
pub struct BlockModel {
    pub id: Option<i64>,
    pub question: Option<Seq<char>>,
    pub answer: Option<Seq<char>>,
    pub line: int,
}

/// State of the line machine.
pub struct ScanModel {
    pub done: Seq<CardModel>,
    pub cur: Option<BlockModel>,
    pub field: Option<CardField>,
    pub buf: Seq<char>,
}

/// What a line is, by its leading token.
pub enum LineKind {
    Id(Seq<char>),
    Question(Seq<char>),
    Answer(Seq<char>),
    Text,
}

/// Classifies a line: after trimming, `ID:`, `Q:` or `A:` followed by the
/// field's text (itself trimmed); anything else is text.
pub open spec fn classify(line: Seq<char>) -> LineKind {
    let t = trim(line);
    if t.len() >= 3 && t[0] == 'I' && t[1] == 'D' && t[2] == ':' {
        LineKind::Id(trim(t.skip(3)))
    } else if t.len() >= 2 && t[0] == 'Q' && t[1] == ':' {
        LineKind::Question(trim(t.skip(2)))
    } else if t.len() >= 2 && t[0] == 'A' && t[1] == ':' {
        LineKind::Answer(trim(t.skip(2)))
    } else {
        LineKind::Text
    }
}

/// Stores the trimmed buffer into the open field, unless it is empty.
pub open spec fn flush(b: BlockModel, field: Option<CardField>, buf: Seq<char>) -> BlockModel {
    let c = trim(buf);
    if c.len() == 0 {
        b
    } else {
        match field {
            Some(CardField::Question) => BlockModel { question: Some(c), ..b },
            Some(CardField::Answer) => BlockModel { answer: Some(c), ..b },
            None => b,
        }
    }
}

/// The cards after the open block is closed: it is emitted when it has both
/// a question and an answer.
pub open spec fn close(st: ScanModel) -> Seq<CardModel> {
    match st.cur {
        None => st.done,
        Some(b) => {
            let f = flush(b, st.field, st.buf);
            if f.question is Some && f.answer is Some {
                st.done.push(
                    CardModel {
                        id: f.id,
                        question: f.question->0,
                        answer: f.answer->0,
                        line: f.line,
                    },
                )
            } else {
                st.done
            }
        },
    }
}

/// A fresh block that starts at line `num`.
pub open spec fn new_block(id: Option<i64>, num: int) -> BlockModel {
    BlockModel { id, question: None, answer: None, line: num }
}

/// One step of the machine on line `line`, numbered `num` from 1. An `ID:`
/// line whose text is not empty and not an integer fails with its number and
/// text.
pub open spec fn step(st: ScanModel, line: Seq<char>, num: int) -> Result<ScanModel, (int, Seq<char>)> {
    match classify(line) {
        LineKind::Id(body) => {
            if body.len() == 0 {
                Ok(
                    ScanModel {
                        done: close(st),
                        cur: Some(new_block(None, num)),
                        field: None,
                        buf: Seq::empty(),
                    },
                )
            } else {
                match parse_i64_spec(body) {
                    Some(v) => Ok(
                        ScanModel {
                            done: close(st),
                            cur: Some(new_block(Some(v), num)),
                            field: None,
                            buf: Seq::empty(),
                        },
                    ),
                    None => Err((num, body)),
                }
            }
        },
        LineKind::Question(text) => {
            if st.cur is Some && st.field is None {
                Ok(ScanModel { field: Some(CardField::Question), buf: text, ..st })
            } else {
                Ok(
                    ScanModel {
                        done: close(st),
                        cur: Some(new_block(None, num)),
                        field: Some(CardField::Question),
                        buf: text,
                    },
                )
            }
        },
        LineKind::Answer(text) => {
            let cur = match st.cur {
                Some(b) => Some(flush(b, st.field, st.buf)),
                None => None,
            };
            Ok(ScanModel { done: st.done, cur, field: Some(CardField::Answer), buf: text })
        },
        LineKind::Text => {
            if st.field is Some {
                let buf = if st.buf.len() == 0 {
                    line
                } else {
                    st.buf.push('\n') + line
                };
                Ok(ScanModel { buf, ..st })
            } else {
                Ok(st)
            }
        },
    }
}

/// The machine's state before any line.
pub open spec fn initial_scan() -> ScanModel {
    ScanModel { done: Seq::empty(), cur: None, field: None, buf: Seq::empty() }
}

/// The machine run over the first `k` lines.
pub open spec fn run(lines: Seq<Seq<char>>, k: nat) -> Result<ScanModel, (int, Seq<char>)>
    decreases k,
{
    if k == 0 {
        Ok(initial_scan())
    } else {
        match run(lines, (k - 1) as nat) {
            Ok(st) => step(st, lines[k - 1], k as int),
            Err(e) => Err(e),
        }
    }
}

/// The cards of a card file, or the line and text of its first malformed ID.
pub open spec fn scan(content: Seq<char>) -> Result<Seq<CardModel>, (int, Seq<char>)> {
    let lines = lines_of(content);
    match run(lines, lines.len()) {
        Ok(st) => Ok(close(st)),
        Err(e) => Err(e),
    }
}

/// Once the machine has failed, it stays failed with the same error.
pub proof fn lemma_run_error_stays(lines: Seq<Seq<char>>, j: nat, k: nat)
    requires
        j <= k,
        run(lines, j) is Err,
    ensures
        run(lines, k) == run(lines, j),
    decreases k,
{
    if k > j {
        lemma_run_error_stays(lines, j, (k - 1) as nat);
    }
}

/// A card as the machine emits it, with its text still as characters.
pub struct ScannedCard {
    pub id: Option<i64>,
    pub question: Vec<char>,
    pub answer: Vec<char>,
    pub line: usize,
}

impl View for ScannedCard {
    type V = CardModel;

    open spec fn view(&self) -> CardModel {
        CardModel {
            id: self.id,
            question: self.question@,
            answer: self.answer@,
            line: self.line as int,
        }
    }
}

struct Block {
    id: Option<i64>,
    question: Option<Vec<char>>,
    answer: Option<Vec<char>>,
    line: usize,
}

impl View for Block {
    type V = BlockModel;

    closed spec fn view(&self) -> BlockModel {
        BlockModel {
            id: self.id,
            question: match self.question {
                Some(q) => Some(q@),
                None => None,
            },
            answer: match self.answer {
                Some(a) => Some(a@),
                None => None,
            },
            line: self.line as int,
        }
    }
}

/// The models of a sequence of scanned cards.
pub open spec fn card_models(v: Seq<ScannedCard>) -> Seq<CardModel> {
    v.map_values(|c: ScannedCard| c@)
}

spec fn block_model(b: Option<Block>) -> Option<BlockModel> {
    match b {
        Some(x) => Some(x@),
        None => None,
    }
}

enum Kind {
    Id,
    Question,
    Answer,
    Text,
}

/// Classifies `line`; for a field line, also the bounds of its text.
fn classify_exec(line: &[char]) -> (r: (Kind, usize, usize))
    ensures
        r.1 <= r.2 <= line@.len(),
        match classify(line@) {
            LineKind::Id(b) => r.0 is Id && b == line@.subrange(r.1 as int, r.2 as int),
            LineKind::Question(b) => r.0 is Question && b == line@.subrange(r.1 as int, r.2 as int),
            LineKind::Answer(b) => r.0 is Answer && b == line@.subrange(r.1 as int, r.2 as int),
            LineKind::Text => r.0 is Text,
        },
{
    let (lo, hi) = crate::text::trim_bounds(line, 0, line.len());
    assert(line@.subrange(0, line@.len() as int) =~= line@);
    let ghost t = line@.subrange(lo as int, hi as int);
    if hi - lo >= 3 && line[lo] == 'I' && line[lo + 1] == 'D' && line[lo + 2] == ':' {
        let (a, b) = crate::text::trim_bounds(line, lo + 3, hi);
        assert(t.skip(3) =~= line@.subrange(lo + 3, hi as int));
        (Kind::Id, a, b)
    } else if hi - lo >= 2 && line[lo] == 'Q' && line[lo + 1] == ':' {
        let (a, b) = crate::text::trim_bounds(line, lo + 2, hi);
        assert(t.skip(2) =~= line@.subrange(lo + 2, hi as int));
        (Kind::Question, a, b)
    } else if hi - lo >= 2 && line[lo] == 'A' && line[lo + 1] == ':' {
        let (a, b) = crate::text::trim_bounds(line, lo + 2, hi);
        assert(t.skip(2) =~= line@.subrange(lo + 2, hi as int));
        (Kind::Answer, a, b)
    } else {
        (Kind::Text, 0, 0)
    }
}

fn flush_exec(b: &mut Block, field: Option<CardField>, buf: &[char])
    ensures
        final(b)@ == flush(old(b)@, field, buf@),
{
    let c = crate::text::trimmed(buf);
    if c.len() == 0 {
        return;
    }
    match field {
        Some(CardField::Question) => {
            b.question = Some(c);
        },
        Some(CardField::Answer) => {
            b.answer = Some(c);
        },
        None => {},
    }
}

fn close_exec(done: &mut Vec<ScannedCard>, cur: Option<Block>, field: Option<CardField>, buf: &[char])
    ensures
        card_models(final(done)@) == close(
            ScanModel { done: card_models(old(done)@), cur: block_model(cur), field, buf: buf@ },
        ),
{
    match cur {
        None => {},
        Some(b) => {
            let mut b = b;
            flush_exec(&mut b, field, buf);
            let ghost before = done@;
            match (b.question, b.answer) {
                (Some(q), Some(a)) => {
                    done.push(ScannedCard { id: b.id, question: q, answer: a, line: b.line });
                    assert(card_models(done@) =~= card_models(before).push(done@.last()@));
                },
                _ => {},
            }
        },
    }
}

/// Runs the machine over the lines of `content`: the cards in file order, or
/// the line number and text of the first `ID:` line whose text is not an
/// integer.
pub fn scan_cards(content: &[char]) -> (r: Result<Vec<ScannedCard>, (usize, Vec<char>)>)
    ensures
        match (r, scan(content@)) {
            (Ok(v), Ok(m)) => card_models(v@) == m,
            (Err(e), Err(m)) => e.0 as int == m.0 && e.1@ == m.1,
            _ => false,
        },
{
    let lines = crate::text::split_lines(content);
    let ghost ls = lines_of(content@);
    let mut done: Vec<ScannedCard> = Vec::new();
    let mut cur: Option<Block> = None;
    let mut field: Option<CardField> = None;
    let mut buf: Vec<char> = Vec::new();
    let mut i: usize = 0;
    assert(card_models(done@) =~= Seq::empty());
    while i < lines.len()
        invariant
            0 <= i <= lines@.len(),
            views(lines@) == ls,
            ls == lines_of(content@),
            ls.len() == lines@.len(),
            run(ls, i as nat) == Ok::<ScanModel, (int, Seq<char>)>(
                ScanModel { done: card_models(done@), cur: block_model(cur), field, buf: buf@ },
            ),
        decreases lines@.len() - i,
    {
        let line = &lines[i];
        assert(ls[i as int] == line@);
        let num = i + 1;
        let (kind, a, b) = classify_exec(line.as_slice());
        let ghost st = ScanModel { done: card_models(done@), cur: block_model(cur), field, buf: buf@ };
        match kind {
            Kind::Id => {
                let id = if a == b {
                    None
                } else {
                    match crate::text::parse_i64(line.as_slice(), a, b) {
                        Some(v) => Some(v),
                        None => {
                            let value = crate::text::copy_range(line.as_slice(), a, b);
                            assert(run(ls, (i + 1) as nat) == step(st, ls[i as int], (i + 1) as int));
                            assert(step(st, ls[i as int], (i + 1) as int) == Err::<ScanModel, (int, Seq<char>)>((num as int, value@)));
                            proof {
                                lemma_run_error_stays(ls, (i + 1) as nat, ls.len());
                            }
                            return Err((num, value));
                        },
                    }
                };
                close_exec(&mut done, cur, field, buf.as_slice());
                cur = Some(Block { id, question: None, answer: None, line: num });
                field = None;
                buf = Vec::new();
                assert(buf@ =~= Seq::empty());
            },
            Kind::Question => {
                let text = crate::text::copy_range(line.as_slice(), a, b);
                if cur.is_some() && field.is_none() {
                    field = Some(CardField::Question);
                    buf = text;
                } else {
                    close_exec(&mut done, cur, field, buf.as_slice());
                    cur = Some(Block { id: None, question: None, answer: None, line: num });
                    field = Some(CardField::Question);
                    buf = text;
                }
            },
            Kind::Answer => {
                let text = crate::text::copy_range(line.as_slice(), a, b);
                match cur {
                    Some(bl) => {
                        let mut bl = bl;
                        flush_exec(&mut bl, field, buf.as_slice());
                        cur = Some(bl);
                    },
                    None => {},
                }
                field = Some(CardField::Answer);
                buf = text;
            },
            Kind::Text => {
                if field.is_some() {
                    if buf.len() == 0 {
                        buf = crate::text::copy_range(line.as_slice(), 0, line.len());
                        assert(line@.subrange(0, line@.len() as int) =~= line@);
                    } else {
                        let ghost old_buf = buf@;
                        buf.push('\n');
                        let mut k: usize = 0;
                        while k < line.len()
                            invariant
                                0 <= k <= line@.len(),
                                buf@ == old_buf.push('\n') + line@.take(k as int),
                            decreases line@.len() - k,
                        {
                            buf.push(line[k]);
                            assert(line@.take(k + 1) =~= line@.take(k as int).push(line@[k as int]));
                            assert(buf@ =~= old_buf.push('\n') + line@.take(k + 1));
                            k += 1;
                        }
                        assert(line@.take(line@.len() as int) =~= line@);
                    }
                }
            },
        }
        i += 1;
    }
    Ok(close_exec_into(done, cur, field, buf))
}

fn close_exec_into(done: Vec<ScannedCard>, cur: Option<Block>, field: Option<CardField>, buf: Vec<char>) -> (r: Vec<ScannedCard>)
    ensures
        card_models(r@) == close(
            ScanModel { done: card_models(done@), cur: block_model(cur), field, buf: buf@ },
        ),
{
    let mut done = done;
    close_exec(&mut done, cur, field, buf.as_slice());
    done
}

} // verus!
