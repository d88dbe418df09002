//! Card-file handling on the sync server: reading uploaded files, writing
//! assigned IDs back, deck paths and content digests.
use vstd::prelude::*;
use crate::cardfile::{scan, scan_cards, CardModel, card_models};
use crate::error::ParseError;
use crate::models::NewIdAssignment;
use crate::parser::{find_duplicate, first_dup, inject_ids, inject_spec};
use crate::text::from_chars;
use vstd::string::StringSliceAdditionalSpecFns;

verus! {

/// A card read from an uploaded file.
#[derive(Debug, Clone)]
pub struct ParsedCard {
    pub id: Option<i64>,
    pub question: String,
    pub answer: String,
    /// Line number where this card starts (1-indexed).
    pub line: usize,
}

/// The cards of an uploaded file.
#[derive(Debug)]
pub struct ParsedMdFile {
    pub cards: Vec<ParsedCard>,
}

/// `v` holds exactly the cards `m`, in order.
pub open spec fn parsed_cards_match(v: Seq<ParsedCard>, m: Seq<CardModel>) -> bool {
    &&& v.len() == m.len()
    &&& forall|k: int|
        0 <= k < v.len() ==> {
            &&& (#[trigger] v[k]).id == m[k].id
            &&& v[k].question@ == m[k].question
            &&& v[k].answer@ == m[k].answer
            &&& v[k].line as int == m[k].line
        }
}

/// Read the cards of an uploaded card file, under the same rules as
/// `parse`: a malformed `ID:` line is an `InvalidId` error, and a card that
/// repeats an earlier card's ID is a `DuplicateId` error at its line.
pub fn parse_md_content(content: &str) -> (r: Result<ParsedMdFile, ParseError>)
    ensures
        match scan(content@) {
            Err((line, value)) => r matches Err(ParseError::InvalidId { line: l, value: v }) && l
                == line && v@ == value,
            Ok(cards) => match first_dup(cards, cards.len()) {
                Some(j) => r matches Err(ParseError::DuplicateId { id, line }) && cards[j].id
                    == Some(id) && line as int == cards[j].line,
                None => r matches Ok(f) && parsed_cards_match(f.cards@, cards),
            },
        },
{
    let chars = crate::text::to_chars(content);
    let scanned = match scan_cards(chars.as_slice()) {
        Ok(v) => v,
        Err((line, value)) => {
            return Err(ParseError::InvalidId { line, value: from_chars(value.as_slice()) });
        },
    };
    let ghost cards = card_models(scanned@);
    if let Some((id, line)) = find_duplicate(&scanned) {
        return Err(ParseError::DuplicateId { id, line });
    }
    let mut out: Vec<ParsedCard> = Vec::new();
    let mut k: usize = 0;
    while k < scanned.len()
        invariant
            0 <= k <= scanned@.len(),
            cards == card_models(scanned@),
            cards.len() == scanned@.len(),
            scan(content@) == Ok::<Seq<CardModel>, (int, Seq<char>)>(cards),
            parsed_cards_match(out@, cards.take(k as int)),
        decreases scanned@.len() - k,
    {
        let c = &scanned[k];
        out.push(
            ParsedCard {
                id: c.id,
                question: from_chars(c.question.as_slice()),
                answer: from_chars(c.answer.as_slice()),
                line: c.line,
            },
        );
        assert(cards[k as int] == c@);
        k += 1;
    }
    assert(cards.take(cards.len() as int) =~= cards);
    Ok(ParsedMdFile { cards: out })
}

/// The `(line, id)` pairs of a list of assignments.
pub open spec fn assignment_pairs(a: Seq<NewIdAssignment>) -> Seq<(usize, i64)> {
    a.map_values(|x: NewIdAssignment| (x.line, x.id))
}

/// Rewrite an uploaded file with `ID:` lines for its newly assigned IDs.
pub fn regenerate_md_with_ids(content: &str, new_ids: &[NewIdAssignment]) -> (r: String)
    ensures
        r@ == inject_spec(content@, assignment_pairs(new_ids@)),
{
    let mut pairs: Vec<(usize, i64)> = Vec::new();
    let mut k: usize = 0;
    while k < new_ids.len()
        invariant
            0 <= k <= new_ids@.len(),
            pairs@ == assignment_pairs(new_ids@.take(k as int)),
        decreases new_ids@.len() - k,
    {
        pairs.push((new_ids[k].line, new_ids[k].id));
        assert(assignment_pairs(new_ids@.take(k + 1)) =~= assignment_pairs(
            new_ids@.take(k as int),
        ).push((new_ids@[k as int].line, new_ids@[k as int].id)));
        k += 1;
    }
    assert(new_ids@.take(new_ids@.len() as int) =~= new_ids@);
    inject_ids(content, pairs.as_slice())
}

/// The part of a path before its last `'/'`; empty when it has none.
pub open spec fn parent_dir(s: Seq<char>) -> Seq<char>
    decreases s.len(),
{
    if s.len() == 0 {
        Seq::empty()
    } else if s.last() == '/' {
        s.drop_last()
    } else {
        parent_dir(s.drop_last())
    }
}

/// The deck of a card file: the directory that holds it.
pub fn extract_deck_path(file_path: &str) -> (r: String)
    ensures
        r@ == parent_dir(file_path@),
{
    let c = crate::text::to_chars(file_path);
    let mut n = c.len();
    assert(c@.take(c@.len() as int) =~= c@);
    while n > 0 && c[n - 1] != '/'
        invariant
            0 <= n <= c@.len(),
            parent_dir(c@) == parent_dir(c@.take(n as int)),
        decreases n,
    {
        assert(c@.take(n as int).drop_last() =~= c@.take(n - 1));
        n -= 1;
    }
    assert(c@.take(c@.len() as int) =~= c@);
    if n == 0 {
        assert(c@.take(0) =~= Seq::<char>::empty());
        from_chars(&[])
    } else {
        assert(c@.take(n as int).drop_last() =~= c@.take(n - 1));
        let p = crate::text::copy_range(c.as_slice(), 0, n - 1);
        assert(c@.subrange(0, n - 1) =~= c@.take(n - 1));
        from_chars(p.as_slice())
    }
}

/// `s` with every trailing `.md` removed.
pub open spec fn strip_md(s: Seq<char>) -> Seq<char>
    decreases s.len(),
{
    if s.len() >= 3 && s[s.len() - 3] == '.' && s[s.len() - 2] == 'm' && s[s.len() - 1] == 'd' {
        strip_md(s.take(s.len() - 3))
    } else {
        s
    }
}

/// The deck path under which the cards of an uploaded file are stored: its
/// directory, or for a file at the root its name without `.md`.
pub open spec fn deck_path_spec(path: Seq<char>) -> Seq<char> {
    if parent_dir(path).len() == 0 {
        strip_md(path)
    } else {
        parent_dir(path)
    }
}

/// The deck path for the cards of an uploaded file.
pub fn deck_path_for_file(file_path: &str) -> (r: String)
    ensures
        r@ == deck_path_spec(file_path@),
{
    let d = extract_deck_path(file_path);
    if d.as_str().unicode_len() > 0 {
        return d;
    }
    let c = crate::text::to_chars(file_path);
    let mut n = c.len();
    assert(c@.take(c@.len() as int) =~= c@);
    while n >= 3 && c[n - 3] == '.' && c[n - 2] == 'm' && c[n - 1] == 'd'
        invariant
            0 <= n <= c@.len(),
            strip_md(c@) == strip_md(c@.take(n as int)),
        decreases n,
    {
        assert(c@.take(n as int).take(n - 3) =~= c@.take(n - 3));
        n -= 3;
    }
    assert(c@.take(c@.len() as int) =~= c@);
    let p = crate::text::copy_range(c.as_slice(), 0, n);
    assert(c@.subrange(0, n as int) =~= c@.take(n as int));
    from_chars(p.as_slice())
}

/// The SHA-256 digest of a byte string.
pub uninterp spec fn sha256_of(data: Seq<u8>) -> Seq<u8>;

/// Relies on `sha2::Sha256::digest`: the 32-byte SHA-256 digest of `data`.
#[verifier::external_body]
fn sha256_digest(data: &[u8]) -> (r: Vec<u8>)
    ensures
        r@ == sha256_of(data@),
        r@.len() == 32,
{
    <sha2::Sha256 as sha2::Digest>::digest(data).to_vec()
}

/// The lowercase hexadecimal digit for `d` in `0..16`.
pub open spec fn hex_char(d: int) -> char {
    seq!['0', '1', '2', '3', '4', '5', '6', '7', '8', '9', 'a', 'b', 'c', 'd', 'e', 'f'][d]
}

/// Two lowercase hexadecimal digits per byte, high nibble first.
pub open spec fn hex_of(b: Seq<u8>) -> Seq<char>
    decreases b.len(),
{
    if b.len() == 0 {
        Seq::empty()
    } else {
        hex_of(b.drop_last()) + seq![hex_char(b.last() as int / 16), hex_char(b.last() as int % 16)]
    }
}

fn hex_digit(d: u8) -> (c: char)
    requires
        d < 16,
    ensures
        c == hex_char(d as int),
{
    let digits = ['0', '1', '2', '3', '4', '5', '6', '7', '8', '9', 'a', 'b', 'c', 'd', 'e', 'f'];
    assert(digits@ =~= seq!['0', '1', '2', '3', '4', '5', '6', '7', '8', '9', 'a', 'b', 'c', 'd', 'e', 'f']);
    digits[d as usize]
}

/// The lowercase hexadecimal text of a byte string.
pub fn hex_lower(bytes: &[u8]) -> (r: String)
    ensures
        r@ == hex_of(bytes@),
{
    let mut out: Vec<char> = Vec::new();
    let mut k: usize = 0;
    while k < bytes.len()
        invariant
            0 <= k <= bytes@.len(),
            out@ == hex_of(bytes@.take(k as int)),
        decreases bytes@.len() - k,
    {
        let b = bytes[k];
        let hi = hex_digit(b / 16);
        let lo = hex_digit(b % 16);
        out.push(hi);
        out.push(lo);
        assert(bytes@.take(k + 1).drop_last() =~= bytes@.take(k as int));
        k += 1;
    }
    assert(bytes@.take(bytes@.len() as int) =~= bytes@);
    from_chars(out.as_slice())
}

/// The SHA-256 digest of a file's content, as 64 lowercase hex digits.
pub fn hash_content(content: &str) -> (r: String)
    ensures
        r@ == hex_of(sha256_of(content.spec_bytes())),
{
    let d = sha256_digest(content.as_bytes());
    hex_lower(d.as_slice())
}

} // verus!
