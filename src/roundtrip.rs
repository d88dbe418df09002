//! Round trips through the card-file format: a card written as text, its
//! question and answer possibly spanning several lines, reads back as itself.
//! Also the line and decimal facts that the ID round trip builds on.
use vstd::prelude::*;
use crate::cardfile::{classify, run, scan, initial_scan, close, CardModel, LineKind, ScanModel, BlockModel, CardField, new_block, flush};
use crate::text::{
    is_ws, trim, trim_start, trim_end, split_nl, strip_cr, lines_of, int_text, dec_digits,
    digits_value, parse_i64_spec, all_digits, has_sign, unsigned_part, is_digit,
};

verus! {

/// A single-line field text: no line breaks, and no whitespace at either end.
pub open spec fn clean_text(s: Seq<char>) -> bool {
    &&& s.len() > 0
    &&& !is_ws(s[0])
    &&& !is_ws(s.last())
    &&& forall|i: int| 0 <= i < s.len() ==> s[i] != '\n' && s[i] != '\r'
}

/// The line `Q: <q>`.
pub open spec fn question_line(q: Seq<char>) -> Seq<char> {
    seq!['Q', ':', ' '] + q
}

/// The line `A: <a>`.
pub open spec fn answer_line(a: Seq<char>) -> Seq<char> {
    seq!['A', ':', ' '] + a
}

/// A one-card file: its question line, a line break and its answer line.
pub open spec fn card_text(q: Seq<char>, a: Seq<char>) -> Seq<char> {
    question_line(q).push('\n') + answer_line(a)
}

proof fn lemma_split_nl_append(s: Seq<char>, t: Seq<char>)
    requires
        forall|i: int| 0 <= i < t.len() ==> t[i] != '\n',
    ensures
        split_nl(s + t) == split_nl(s).update(split_nl(s).len() - 1, split_nl(s).last() + t),
    decreases t.len(),
{
    crate::text::lemma_split_nl_nonempty(s);
    if t.len() == 0 {
        assert(s + t =~= s);
        assert(split_nl(s).last() + t =~= split_nl(s).last());
        assert(split_nl(s).update(split_nl(s).len() - 1, split_nl(s).last()) =~= split_nl(s));
    } else {
        let t0 = t.drop_last();
        lemma_split_nl_append(s, t0);
        assert((s + t).drop_last() =~= s + t0);
        assert((s + t).last() == t.last());
        let p = split_nl(s + t0);
        assert(t.last() == t[t.len() - 1]);
        assert(p.last() =~= split_nl(s).last() + t0);
        assert((split_nl(s).last() + t0).push(t.last()) =~= split_nl(s).last() + t);
        assert(p.update(p.len() - 1, p.last().push(t.last())) =~= split_nl(s).update(
            split_nl(s).len() - 1,
            split_nl(s).last() + t,
        ));
    }
}

proof fn lemma_split_nl_line(s: Seq<char>)
    requires
        forall|i: int| 0 <= i < s.len() ==> s[i] != '\n',
    ensures
        split_nl(s) == seq![s],
{
    lemma_split_nl_append(Seq::empty(), s);
    assert(Seq::<char>::empty() + s =~= s);
    assert(seq![Seq::<char>::empty()].update(0, Seq::<char>::empty() + s) =~= seq![s]);
}



/// A field line reads back as its clean text.
proof fn lemma_classify_field(tag: char, s: Seq<char>)
    requires
        clean_text(s),
        tag == 'Q' || tag == 'A',
    ensures
        classify(seq![tag, ':', ' '] + s) == if tag == 'Q' {
            LineKind::Question(s)
        } else {
            LineKind::Answer(s)
        },
{
    let l = seq![tag, ':', ' '] + s;
    assert(l[0] == tag);
    assert(l.last() == s.last());
    assert(trim_start(l) == l);
    assert(trim_end(l) == l);
    assert(trim(l) == l);
    let rest = l.skip(2);
    assert(rest =~= seq![' '] + s);
    assert(rest.drop_first() =~= s);
    assert(trim_start(rest) == trim_start(s));
    assert(trim_start(s) == s);
    assert(trim_end(s) == s);
}

proof fn lemma_dec_digits_shape(n: nat)
    ensures
        dec_digits(n).len() > 0,
        all_digits(dec_digits(n)),
        digits_value(dec_digits(n)) == n,
    decreases n,
{
    let d = dec_digits(n);
    let table = seq!['0', '1', '2', '3', '4', '5', '6', '7', '8', '9'];
    assert(forall|k: int| 0 <= k < 10 ==> is_digit(#[trigger] table[k]) && table[k] as int - '0' as int == k) by {
        assert(table[0] == '0' && table[1] == '1' && table[2] == '2' && table[3] == '3');
        assert(table[4] == '4' && table[5] == '5' && table[6] == '6' && table[7] == '7');
        assert(table[8] == '8' && table[9] == '9');
    }
    if n < 10 {
        assert(d[0] == table[n as int]);
        assert(d.drop_last() =~= Seq::<char>::empty());
        assert(d.last() == d[0]);
        assert(digits_value(Seq::<char>::empty()) == 0);
    } else {
        vstd::arithmetic::div_mod::lemma_fundamental_div_mod(n as int, 10);
        lemma_dec_digits_shape(n / 10);
        let p = dec_digits(n / 10);
        assert(d.drop_last() =~= p);
        assert(d.last() == table[n as int % 10]);
        assert forall|k: int| 0 <= k < d.len() implies is_digit(#[trigger] d[k]) by {
            if k < p.len() {
                assert(d[k] == p[k]);
            }
        }
    }
}

/// The decimal text of an integer parses back to it.
pub proof fn lemma_int_text_parses(v: i64)
    ensures
        parse_i64_spec(int_text(v as int)) == Some(v),
        int_text(v as int).len() > 0,
        !is_ws(int_text(v as int)[0]),
        !is_ws(int_text(v as int).last()),
        forall|i: int| 0 <= i < int_text(v as int).len() ==> int_text(v as int)[i] != '\n' && int_text(v as int)[i] != '\r',
{
    let t = int_text(v as int);
    if v < 0 {
        let m = (-(v as int)) as nat;
        lemma_dec_digits_shape(m);
        let d = dec_digits(m);
        assert(t == seq!['-'] + d);
        assert(has_sign(t));
        assert(t.drop_first() =~= d);
        assert(unsigned_part(t) == d);
        assert(t.last() == d.last());
        assert(is_digit(d[d.len() - 1]));
        assert forall|i: int| 0 <= i < t.len() implies t[i] != '\n' && t[i] != '\r' by {
            if i > 0 {
                assert(t[i] == d[i - 1]);
                assert(is_digit(d[i - 1]));
            }
        }
    } else {
        lemma_dec_digits_shape(v as nat);
        let d = dec_digits(v as nat);
        assert(is_digit(d[0]));
        assert(!has_sign(t));
        assert(unsigned_part(t) == d);
        assert(is_digit(d[d.len() - 1]));
        assert forall|i: int| 0 <= i < t.len() implies t[i] != '\n' && t[i] != '\r' by {
            assert(is_digit(d[i]));
        }
    }
}

/// The line `ID: <v>` reads back as an ID line with the text of `v`, which
/// parses back to `v`.
pub proof fn lemma_id_line_reads(v: i64)
    ensures
        classify(seq!['I', 'D', ':', ' '] + int_text(v as int)) == LineKind::Id(int_text(v as int)),
        int_text(v as int).len() > 0,
        parse_i64_spec(int_text(v as int)) == Some(v),
{
    lemma_classify_id(v);
    lemma_int_text_parses(v);
}

/// The line `ID: <v>` reads back as an ID line with the text of `v`.
proof fn lemma_classify_id(v: i64)
    ensures
        classify(seq!['I', 'D', ':', ' '] + int_text(v as int)) == LineKind::Id(int_text(v as int)),
{
    lemma_int_text_parses(v);
    let s = int_text(v as int);
    let l = seq!['I', 'D', ':', ' '] + s;
    assert(l[0] == 'I');
    assert(l.last() == s.last());
    assert(trim_start(l) == l);
    assert(trim_end(l) == l);
    let rest = l.skip(3);
    assert(rest =~= seq![' '] + s);
    assert(rest.drop_first() =~= s);
    assert(trim_start(rest) == trim_start(s));
    assert(trim_start(s) == s);
    assert(trim_end(s) == s);
}



/// The two lines of a one-card file are plain lines that read as its fields.
pub proof fn lemma_field_lines(q: Seq<char>, a: Seq<char>)
    requires
        clean_text(q),
        clean_text(a),
    ensures
        forall|i: int| 0 <= i < question_line(q).len() ==> question_line(q)[i] != '\n',
        forall|i: int| 0 <= i < answer_line(a).len() ==> answer_line(a)[i] != '\n',
        question_line(q).len() > 0 && question_line(q).last() != '\r',
        answer_line(a).len() > 0 && answer_line(a).last() != '\r',
        classify(question_line(q)) == LineKind::Question(q),
        classify(answer_line(a)) == LineKind::Answer(a),
        trim(q) == q,
        trim(a) == a,
{
    let ql = question_line(q);
    let al = answer_line(a);
    assert forall|i: int| 0 <= i < ql.len() implies ql[i] != '\n' by {
        if i >= 3 {
            assert(ql[i] == q[i - 3]);
        }
    }
    assert forall|i: int| 0 <= i < al.len() implies al[i] != '\n' by {
        if i >= 3 {
            assert(al[i] == a[i - 3]);
        }
    }
    assert(ql.last() == q.last() && q.last() == q[q.len() - 1]);
    assert(al.last() == a.last() && a.last() == a[a.len() - 1]);
    lemma_classify_field('Q', q);
    lemma_classify_field('A', a);
    assert(trim_start(q) == q);
    assert(trim_end(q) == q);
    assert(trim_start(a) == a);
    assert(trim_end(a) == a);
}




/// Lines joined by line breaks.
pub open spec fn join_lines(ls: Seq<Seq<char>>) -> Seq<char>
    decreases ls.len(),
{
    if ls.len() <= 1 {
        if ls.len() == 1 {
            ls[0]
        } else {
            Seq::empty()
        }
    } else {
        join_lines(ls.drop_last()).push('\n') + ls.last()
    }
}

/// Whether every line is free of line breaks and does not end in `'\r'`.
pub open spec fn plain_lines(ls: Seq<Seq<char>>) -> bool {
    forall|k: int|
        0 <= k < ls.len() ==> {
            &&& forall|i: int| 0 <= i < (#[trigger] ls[k]).len() ==> ls[k][i] != '\n'
            &&& (ls[k].len() > 0 ==> ls[k].last() != '\r')
        }
}

/// Whether no line of `ls` holds a line break.
pub open spec fn nl_free(ls: Seq<Seq<char>>) -> bool {
    forall|k: int| 0 <= k < ls.len() ==> forall|i: int| 0 <= i < (#[trigger] ls[k]).len() ==> ls[k][i] != '\n'
}

pub proof fn lemma_plain_is_nl_free(ls: Seq<Seq<char>>)
    requires
        plain_lines(ls),
    ensures
        nl_free(ls),
{
    assert forall|k: int| 0 <= k < ls.len() implies forall|i: int| 0 <= i < (#[trigger] ls[k]).len() ==> ls[k][i] != '\n' by {
        let l = ls[k];
        assert(forall|i: int| 0 <= i < l.len() ==> l[i] != '\n');
    }
}

pub proof fn lemma_split_join(ls: Seq<Seq<char>>)
    requires
        ls.len() >= 1,
        nl_free(ls),
    ensures
        split_nl(join_lines(ls)) == ls,
    decreases ls.len(),
{
    if ls.len() == 1 {
        let l0 = ls[0];
        assert(forall|i: int| 0 <= i < l0.len() ==> l0[i] != '\n');
        lemma_split_nl_line(ls[0]);
        assert(seq![ls[0]] =~= ls);
    } else {
        let pre = ls.drop_last();
        assert forall|k: int| 0 <= k < pre.len() implies forall|i: int| 0 <= i < (#[trigger] pre[k]).len() ==> pre[k][i] != '\n' by {
            assert(pre[k] == ls[k]);
        }
        lemma_split_join(pre);
        let x = join_lines(pre);
        let xn = x.push('\n');
        assert(xn.drop_last() =~= x);
        assert(split_nl(xn) == pre.push(Seq::<char>::empty()));
        let last = ls[ls.len() - 1];
        assert(ls.last() == last);
        assert(forall|i: int| 0 <= i < last.len() ==> last[i] != '\n');
        lemma_split_nl_append(xn, last);
        assert(Seq::<char>::empty() + last =~= last);
        assert(pre.push(Seq::<char>::empty()).update(pre.len() as int, Seq::<char>::empty() + last) =~= ls);
    }
}

pub proof fn lemma_lines_of_join(ls: Seq<Seq<char>>)
    requires
        ls.len() >= 1,
        plain_lines(ls),
        ls.last().len() > 0,
    ensures
        lines_of(join_lines(ls)) == ls,
{
    lemma_plain_is_nl_free(ls);
    lemma_split_join(ls);
    let j = join_lines(ls);
    if ls.len() == 1 {
        assert(j == ls[0]);
    } else {
        assert(j.last() == ls.last().last());
    }
    assert(j.len() > 0);
    let last = ls[ls.len() - 1];
    assert(last.len() > 0 && last[last.len() - 1] != '\n');
    assert(j.last() != '\n');
    let pre = ls.drop_last();
    assert(pre.map_values(|l: Seq<char>| strip_cr(l)) =~= pre) by {
        assert forall|k: int| 0 <= k < pre.len() implies strip_cr(pre[k]) == pre[k] by {
            assert(pre[k] == ls[k]);
            assert(ls[k].len() > 0 ==> ls[k].last() != '\r');
        }
    }
    assert(pre.push(ls.last()) =~= ls);
}

proof fn lemma_join_starts(ls: Seq<Seq<char>>)
    requires
        ls.len() >= 1,
    ensures
        join_lines(ls).len() >= ls[0].len(),
        forall|i: int| 0 <= i < ls[0].len() ==> join_lines(ls)[i] == ls[0][i],
    decreases ls.len(),
{
    if ls.len() > 1 {
        lemma_join_starts(ls.drop_last());
    }
}

/// After the question line and the first `j` continuation lines, the machine
/// holds one open block whose question buffer is those lines joined.
proof fn lemma_question_lines(q1: Seq<char>, conts: Seq<Seq<char>>, rest: Seq<Seq<char>>, j: int)
    requires
        0 <= j <= conts.len(),
        clean_text(q1),
        classify(question_line(q1)) == LineKind::Question(q1),
        forall|k: int| 0 <= k < conts.len() ==> classify(#[trigger] conts[k]) is Text,
    ensures
        run(seq![question_line(q1)] + conts + rest, (j + 1) as nat) == Ok::<ScanModel, (int, Seq<char>)>(
            ScanModel {
                done: Seq::empty(),
                cur: Some(new_block(None, 1)),
                field: Some(CardField::Question),
                buf: join_lines(seq![q1] + conts.take(j)),
            },
        ),
    decreases j,
{
    let ls = seq![question_line(q1)] + conts + rest;
    if j == 0 {
        assert(run(ls, 0) == Ok::<ScanModel, (int, Seq<char>)>(initial_scan()));
        assert(close(initial_scan()) == Seq::<CardModel>::empty());
        assert(ls[0] == question_line(q1));
        assert(seq![q1] + conts.take(0) =~= seq![q1]);
    } else {
        lemma_question_lines(q1, conts, rest, j - 1);
        let prev = seq![q1] + conts.take(j - 1);
        lemma_join_starts(prev);
        assert(prev[0] == q1);
        assert(join_lines(prev).len() > 0);
        assert(ls[j] == conts[j - 1]);
        let next = seq![q1] + conts.take(j);
        assert(next.drop_last() =~= prev);
        assert(next.last() == conts[j - 1]);
    }
}

/// After the answer line and the first `j` of its continuation lines, the
/// machine holds one open block with the question `qt` and an answer buffer
/// of those lines joined.
proof fn lemma_answer_lines(
    q1: Seq<char>,
    qconts: Seq<Seq<char>>,
    a1: Seq<char>,
    aconts: Seq<Seq<char>>,
    j: int,
)
    requires
        0 <= j <= aconts.len(),
        clean_text(q1),
        clean_text(a1),
        classify(question_line(q1)) == LineKind::Question(q1),
        classify(answer_line(a1)) == LineKind::Answer(a1),
        forall|k: int| 0 <= k < qconts.len() ==> classify(#[trigger] qconts[k]) is Text,
        forall|k: int| 0 <= k < aconts.len() ==> classify(#[trigger] aconts[k]) is Text,
        trim(join_lines(seq![q1] + qconts)) == join_lines(seq![q1] + qconts),
    ensures
        run(
            seq![question_line(q1)] + qconts + seq![answer_line(a1)] + aconts,
            (qconts.len() + 2 + j) as nat,
        ) == Ok::<ScanModel, (int, Seq<char>)>(
            ScanModel {
                done: Seq::empty(),
                cur: Some(
                    BlockModel {
                        id: None,
                        question: Some(join_lines(seq![q1] + qconts)),
                        answer: None,
                        line: 1,
                    },
                ),
                field: Some(CardField::Answer),
                buf: join_lines(seq![a1] + aconts.take(j)),
            },
        ),
    decreases j,
{
    let ql = question_line(q1);
    let al = answer_line(a1);
    let ls = seq![ql] + qconts + seq![al] + aconts;
    let n = qconts.len() as int;
    let qt = join_lines(seq![q1] + qconts);
    if j == 0 {
        assert(ls =~= seq![ql] + qconts + (seq![al] + aconts));
        lemma_question_lines(q1, qconts, seq![al] + aconts, n);
        assert(qconts.take(n) =~= qconts);
        lemma_join_starts(seq![q1] + qconts);
        assert((seq![q1] + qconts)[0] == q1);
        assert(qt.len() > 0);
        assert(ls[n + 1] == al);
        let blk = new_block(None, 1);
        let b = BlockModel { id: None, question: Some(qt), answer: None, line: 1 };
        assert(flush(blk, Some(CardField::Question), qt) == b);
        assert(seq![a1] + aconts.take(0) =~= seq![a1]);
    } else {
        lemma_answer_lines(q1, qconts, a1, aconts, j - 1);
        let prev = seq![a1] + aconts.take(j - 1);
        lemma_join_starts(prev);
        assert(prev[0] == a1);
        assert(join_lines(prev).len() > 0);
        assert(ls[n + 1 + j] == aconts[j - 1]);
        let next = seq![a1] + aconts.take(j);
        assert(next.drop_last() =~= prev);
        assert(next.last() == aconts[j - 1]);
    }
}

proof fn lemma_joined_clean(first: Seq<char>, conts: Seq<Seq<char>>)
    requires
        clean_text(first),
        !is_ws(join_lines(seq![first] + conts).last()),
    ensures
        trim(join_lines(seq![first] + conts)) == join_lines(seq![first] + conts),
        conts.len() > 0 ==> conts.last().len() > 0,
{
    let all = seq![first] + conts;
    let t = join_lines(all);
    lemma_join_starts(all);
    assert(all[0] == first);
    assert(t[0] == first[0]);
    assert(trim_start(t) == t);
    assert(trim_end(t) == t);
    if conts.len() > 0 {
        assert(all.len() > 1);
        assert(all.last() == conts.last());
        assert(t == join_lines(all.drop_last()).push('\n') + conts.last());
        if conts.last().len() == 0 {
            assert(t =~= join_lines(all.drop_last()).push('\n'));
        }
    }
}

/// A card written as a question line `Q: <q1>` with continuation lines
/// `qconts`, then an answer line `A: <a1>` with continuation lines `aconts`,
/// reads back as one card on line 1 without an ID, whose question and answer
/// are exactly the written lines joined by line breaks. This holds when each
/// field's text has no whitespace at either end and no continuation line
/// begins with a field token.
pub proof fn lemma_card_round_trip(
    q1: Seq<char>,
    qconts: Seq<Seq<char>>,
    a1: Seq<char>,
    aconts: Seq<Seq<char>>,
)
    requires
        clean_text(q1),
        clean_text(a1),
        plain_lines(qconts),
        plain_lines(aconts),
        forall|k: int| 0 <= k < qconts.len() ==> classify(#[trigger] qconts[k]) is Text,
        forall|k: int| 0 <= k < aconts.len() ==> classify(#[trigger] aconts[k]) is Text,
        !is_ws(join_lines(seq![q1] + qconts).last()),
        !is_ws(join_lines(seq![a1] + aconts).last()),
    ensures
        scan(join_lines(seq![question_line(q1)] + qconts + seq![answer_line(a1)] + aconts))
            == Ok::<Seq<CardModel>, (int, Seq<char>)>(
            seq![
                CardModel {
                    id: None,
                    question: join_lines(seq![q1] + qconts),
                    answer: join_lines(seq![a1] + aconts),
                    line: 1,
                },
            ],
        ),
{
    let ql = question_line(q1);
    let al = answer_line(a1);
    let ls = seq![ql] + qconts + seq![al] + aconts;
    let n = qconts.len() as int;
    let m = aconts.len() as int;
    lemma_field_lines(q1, a1);
    lemma_joined_clean(q1, qconts);
    lemma_joined_clean(a1, aconts);
    assert(plain_lines(ls)) by {
        assert forall|k: int| 0 <= k < ls.len() implies {
            &&& forall|i: int| 0 <= i < (#[trigger] ls[k]).len() ==> ls[k][i] != '\n'
            &&& (ls[k].len() > 0 ==> ls[k].last() != '\r')
        } by {
            if k == 0 {
                assert(ls[k] == ql);
            } else if k <= n {
                assert(ls[k] == qconts[k - 1]);
            } else if k == n + 1 {
                assert(ls[k] == al);
            } else {
                assert(ls[k] == aconts[k - n - 2]);
            }
        }
    }
    if m > 0 {
        assert(ls.last() == aconts.last());
    } else {
        assert(ls.last() == al);
    }
    lemma_lines_of_join(ls);
    lemma_answer_lines(q1, qconts, a1, aconts, m);
    assert(aconts.take(m) =~= aconts);
    assert(ls.len() == n + 2 + m);
    let at = join_lines(seq![a1] + aconts);
    lemma_join_starts(seq![a1] + aconts);
    assert((seq![a1] + aconts)[0] == a1);
    assert(at.len() > 0);
    let qt = join_lines(seq![q1] + qconts);
    let fin = ScanModel {
        done: Seq::empty(),
        cur: Some(BlockModel { id: None, question: Some(qt), answer: None, line: 1 }),
        field: Some(CardField::Answer),
        buf: at,
    };
    assert(close(fin) =~= seq![CardModel { id: None, question: qt, answer: at, line: 1 }]);
}

/// Whether a line is empty or ends in something other than whitespace.
pub open spec fn no_trailing_ws(l: Seq<char>) -> bool {
    l.len() == 0 || !is_ws(l.last())
}

/// A field written as a first line `first` and continuation lines `conts`:
/// no line breaks inside lines, no line ending in whitespace, and no
/// continuation line that begins with a field token.
pub open spec fn field_lines(first: Seq<char>, conts: Seq<Seq<char>>) -> bool {
    &&& forall|i: int| 0 <= i < first.len() ==> first[i] != '\n'
    &&& no_trailing_ws(first)
    &&& nl_free(conts)
    &&& forall|k: int| 0 <= k < conts.len() ==> no_trailing_ws(#[trigger] conts[k])
    &&& forall|k: int| 0 <= k < conts.len() ==> classify(#[trigger] conts[k]) is Text
}

/// The machine's buffer for a field after its first line and `j`
/// continuation lines.
pub open spec fn buf_after(first: Seq<char>, conts: Seq<Seq<char>>, j: int) -> Seq<char>
    decreases j,
{
    if j <= 0 {
        trim(first)
    } else {
        let b = buf_after(first, conts, j - 1);
        if b.len() == 0 {
            conts[j - 1]
        } else {
            b.push('\n') + conts[j - 1]
        }
    }
}

/// Whether every character of `s` is whitespace.
pub open spec fn all_ws(s: Seq<char>) -> bool {
    forall|i: int| 0 <= i < s.len() ==> is_ws(#[trigger] s[i])
}

proof fn lemma_trim_ws_prefix(p: Seq<char>, x: Seq<char>)
    requires
        all_ws(p),
    ensures
        trim(p + x) == trim(x),
    decreases p.len(),
{
    if p.len() > 0 {
        assert(is_ws(p[0]));
        assert((p + x)[0] == p[0]);
        assert((p + x).drop_first() =~= p.drop_first() + x);
        lemma_trim_ws_prefix(p.drop_first(), x);
        assert(trim_start(p + x) == trim_start(p.drop_first() + x));
    } else {
        assert(p + x =~= x);
    }
}

proof fn lemma_trim_start_split(s: Seq<char>)
    ensures
        exists|p: Seq<char>| all_ws(p) && s == p + trim_start(s),
    decreases s.len(),
{
    if s.len() > 0 && is_ws(s[0]) {
        lemma_trim_start_split(s.drop_first());
        let p = choose|p: Seq<char>| all_ws(p) && s.drop_first() == p + trim_start(s.drop_first());
        let q = seq![s[0]] + p;
        assert forall|i: int| 0 <= i < q.len() implies is_ws(#[trigger] q[i]) by {
            if i > 0 {
                assert(q[i] == p[i - 1]);
            }
        }
        assert(trim_start(s) == trim_start(s.drop_first()));
        assert(s =~= seq![s[0]] + s.drop_first());
        assert(s =~= q + trim_start(s));
        assert(all_ws(q) && s == q + trim_start(s));
    } else {
        assert(trim_start(s) == s);
        assert(s =~= Seq::<char>::empty() + s);
        assert(all_ws(Seq::<char>::empty()) && s == Seq::<char>::empty() + trim_start(s));
    }
}

/// The joined lines are the buffer behind a whitespace prefix.
proof fn lemma_buf_prefix(first: Seq<char>, conts: Seq<Seq<char>>, j: int)
    requires
        0 <= j <= conts.len(),
        no_trailing_ws(first),
    ensures
        exists|p: Seq<char>| all_ws(p) && join_lines(seq![first] + conts.take(j)) == p + buf_after(first, conts, j),
    decreases j,
{
    if j == 0 {
        assert(seq![first] + conts.take(0) =~= seq![first]);
        assert(join_lines(seq![first]) == first);
        lemma_trim_start_split(first);
        let p = choose|p: Seq<char>| all_ws(p) && first == p + trim_start(first);
        let t = trim_start(first);
        if t.len() > 0 {
            assert(first.last() == t.last());
            assert(!is_ws(first.last()));
        }
        assert(trim_end(t) == t);
        assert(buf_after(first, conts, 0) == t);
        assert(all_ws(p) && join_lines(seq![first] + conts.take(0)) == p + buf_after(first, conts, 0));
    } else {
        lemma_buf_prefix(first, conts, j - 1);
        let prev = seq![first] + conts.take(j - 1);
        let next = seq![first] + conts.take(j);
        assert(next.drop_last() =~= prev);
        assert(next.last() == conts[j - 1]);
        assert(join_lines(next) == join_lines(prev).push('\n') + conts[j - 1]);
        let b = buf_after(first, conts, j - 1);
        let p = choose|p: Seq<char>| all_ws(p) && join_lines(prev) == p + b;
        if b.len() == 0 {
            let q = p.push('\n');
            assert forall|i: int| 0 <= i < q.len() implies is_ws(#[trigger] q[i]) by {
                if i < p.len() {
                    assert(q[i] == p[i]);
                }
            }
            assert(join_lines(next) =~= q + buf_after(first, conts, j));
            assert(all_ws(q) && join_lines(next) == q + buf_after(first, conts, j));
        } else {
            assert(join_lines(next) =~= p + buf_after(first, conts, j));
            assert(all_ws(p) && join_lines(next) == p + buf_after(first, conts, j));
        }
    }
}

/// A field line with text `t` reads as that field holding `trim(t)`.
proof fn lemma_classify_padded(tag: char, t: Seq<char>)
    requires
        tag == 'Q' || tag == 'A',
        no_trailing_ws(t),
    ensures
        classify(seq![tag, ':', ' '] + t) == if tag == 'Q' {
            LineKind::Question(trim(t))
        } else {
            LineKind::Answer(trim(t))
        },
{
    let l = seq![tag, ':', ' '] + t;
    assert(l[0] == tag);
    assert(trim_start(l) == l);
    if t.len() > 0 {
        assert(l.last() == t.last());
        assert(trim_end(l) == l);
        let rest = l.skip(2);
        assert(rest =~= seq![' '] + t);
        assert(rest.drop_first() =~= t);
        assert(trim_start(rest) == trim_start(t));
    } else {
        assert(l =~= seq![tag, ':', ' ']);
        assert(l.drop_last() =~= seq![tag, ':']);
        assert(trim_end(l) == trim_end(seq![tag, ':']));
        assert(seq![tag, ':'].last() == ':');
        assert(trim_end(seq![tag, ':']) == seq![tag, ':']);
        assert(trim(l).skip(2) =~= Seq::<char>::empty());
        assert(trim_start(Seq::<char>::empty()) == Seq::<char>::empty());
        assert(trim_end(Seq::<char>::empty()) == Seq::<char>::empty());
        assert(trim(t) == Seq::<char>::empty()) by {
            assert(t =~= Seq::<char>::empty());
        }
    }
}

proof fn lemma_field_line_plain(tag: char, t: Seq<char>)
    requires
        forall|i: int| 0 <= i < t.len() ==> t[i] != '\n',
        no_trailing_ws(t),
    ensures
        forall|i: int| 0 <= i < (seq![tag, ':', ' '] + t).len() ==> (seq![tag, ':', ' '] + t)[i] != '\n'
            || i < 3,
        (seq![tag, ':', ' '] + t).last() != '\r',
        (seq![tag, ':', ' '] + t).len() > 0,
{
    let l = seq![tag, ':', ' '] + t;
    assert forall|i: int| 0 <= i < l.len() implies l[i] != '\n' || i < 3 by {
        if i >= 3 {
            assert(l[i] == t[i - 3]);
        }
    }
    if t.len() > 0 {
        assert(l.last() == t.last());
    }
}

proof fn lemma_padded_question_lines(q1: Seq<char>, qc: Seq<Seq<char>>, rest: Seq<Seq<char>>, j: int)
    requires
        0 <= j <= qc.len(),
        field_lines(q1, qc),
    ensures
        run(seq![seq!['Q', ':', ' '] + q1] + qc + rest, (j + 1) as nat) == Ok::<ScanModel, (int, Seq<char>)>(
            ScanModel {
                done: Seq::empty(),
                cur: Some(new_block(None, 1)),
                field: Some(CardField::Question),
                buf: buf_after(q1, qc, j),
            },
        ),
    decreases j,
{
    let ls = seq![seq!['Q', ':', ' '] + q1] + qc + rest;
    lemma_classify_padded('Q', q1);
    if j == 0 {
        assert(run(ls, 0) == Ok::<ScanModel, (int, Seq<char>)>(initial_scan()));
        assert(close(initial_scan()) == Seq::<CardModel>::empty());
        assert(ls[0] == seq!['Q', ':', ' '] + q1);
    } else {
        lemma_padded_question_lines(q1, qc, rest, j - 1);
        assert(ls[j] == qc[j - 1]);
    }
}

proof fn lemma_padded_answer_lines(
    q1: Seq<char>,
    qc: Seq<Seq<char>>,
    a1: Seq<char>,
    ac: Seq<Seq<char>>,
    j: int,
)
    requires
        0 <= j <= ac.len(),
        field_lines(q1, qc),
        field_lines(a1, ac),
        trim(buf_after(q1, qc, qc.len() as int)).len() > 0,
    ensures
        run(
            seq![seq!['Q', ':', ' '] + q1] + qc + seq![seq!['A', ':', ' '] + a1] + ac,
            (qc.len() + 2 + j) as nat,
        ) == Ok::<ScanModel, (int, Seq<char>)>(
            ScanModel {
                done: Seq::empty(),
                cur: Some(
                    BlockModel {
                        id: None,
                        question: Some(trim(buf_after(q1, qc, qc.len() as int))),
                        answer: None,
                        line: 1,
                    },
                ),
                field: Some(CardField::Answer),
                buf: buf_after(a1, ac, j),
            },
        ),
    decreases j,
{
    let al = seq!['A', ':', ' '] + a1;
    let ls = seq![seq!['Q', ':', ' '] + q1] + qc + seq![al] + ac;
    let n = qc.len() as int;
    lemma_classify_padded('A', a1);
    if j == 0 {
        assert(ls =~= seq![seq!['Q', ':', ' '] + q1] + qc + (seq![al] + ac));
        lemma_padded_question_lines(q1, qc, seq![al] + ac, n);
        assert(ls[n + 1] == al);
    } else {
        lemma_padded_answer_lines(q1, qc, a1, ac, j - 1);
        assert(ls[n + 1 + j] == ac[j - 1]);
    }
}

/// A card written as `Q: <q1>` with continuation lines `qconts`, then
/// `A: <a1>` with continuation lines `aconts`, reads back as one card on line
/// 1 without an ID, whose question and answer are the written field texts
/// (each field's lines joined by line breaks) with surrounding whitespace
/// trimmed. Field lines may be blank or start with whitespace; no line ends
/// in whitespace, no continuation line begins with a field token, both
/// fields have some text, and the file's last line is not empty.
pub proof fn lemma_padded_card_round_trip(
    q1: Seq<char>,
    qconts: Seq<Seq<char>>,
    a1: Seq<char>,
    aconts: Seq<Seq<char>>,
)
    requires
        field_lines(q1, qconts),
        field_lines(a1, aconts),
        trim(join_lines(seq![q1] + qconts)).len() > 0,
        trim(join_lines(seq![a1] + aconts)).len() > 0,
        aconts.len() > 0 ==> aconts.last().len() > 0,
    ensures
        scan(
            join_lines(
                seq![seq!['Q', ':', ' '] + q1] + qconts + seq![seq!['A', ':', ' '] + a1] + aconts,
            ),
        ) == Ok::<Seq<CardModel>, (int, Seq<char>)>(
            seq![
                CardModel {
                    id: None,
                    question: trim(join_lines(seq![q1] + qconts)),
                    answer: trim(join_lines(seq![a1] + aconts)),
                    line: 1,
                },
            ],
        ),
{
    let ql = seq!['Q', ':', ' '] + q1;
    let al = seq!['A', ':', ' '] + a1;
    let ls = seq![ql] + qconts + seq![al] + aconts;
    let n = qconts.len() as int;
    let m = aconts.len() as int;
    lemma_field_line_plain('Q', q1);
    lemma_field_line_plain('A', a1);
    assert(plain_lines(ls)) by {
        assert forall|k: int| 0 <= k < ls.len() implies {
            &&& forall|i: int| 0 <= i < (#[trigger] ls[k]).len() ==> ls[k][i] != '\n'
            &&& (ls[k].len() > 0 ==> ls[k].last() != '\r')
        } by {
            if k == 0 {
                assert(ls[k] == ql);
                assert forall|i: int| 0 <= i < ql.len() implies ql[i] != '\n' by {
                    if i >= 3 {
                        assert(ql[i] == q1[i - 3]);
                    }
                }
            } else if k <= n {
                assert(ls[k] == qconts[k - 1]);
                let l = qconts[k - 1];
                assert(forall|i: int| 0 <= i < l.len() ==> l[i] != '\n');
                assert(no_trailing_ws(l));
            } else if k == n + 1 {
                assert(ls[k] == al);
                assert forall|i: int| 0 <= i < al.len() implies al[i] != '\n' by {
                    if i >= 3 {
                        assert(al[i] == a1[i - 3]);
                    }
                }
            } else {
                assert(ls[k] == aconts[k - n - 2]);
                let l = aconts[k - n - 2];
                assert(forall|i: int| 0 <= i < l.len() ==> l[i] != '\n');
                assert(no_trailing_ws(l));
            }
        }
    }
    if m > 0 {
        assert(ls.last() == aconts.last());
    } else {
        assert(ls.last() == al);
    }
    lemma_lines_of_join(ls);
    // Each field's buffer is its joined text behind a whitespace prefix.
    lemma_buf_prefix(q1, qconts, n);
    lemma_buf_prefix(a1, aconts, m);
    assert(qconts.take(n) =~= qconts);
    assert(aconts.take(m) =~= aconts);
    let qp = choose|p: Seq<char>| all_ws(p) && join_lines(seq![q1] + qconts.take(n)) == p + buf_after(q1, qconts, n);
    lemma_trim_ws_prefix(qp, buf_after(q1, qconts, n));
    let ap = choose|p: Seq<char>| all_ws(p) && join_lines(seq![a1] + aconts.take(m)) == p + buf_after(a1, aconts, m);
    lemma_trim_ws_prefix(ap, buf_after(a1, aconts, m));
    lemma_padded_answer_lines(q1, qconts, a1, aconts, m);
    assert(ls.len() == n + 2 + m);
    let qt = trim(join_lines(seq![q1] + qconts));
    let at = trim(join_lines(seq![a1] + aconts));
    let fin = ScanModel {
        done: Seq::empty(),
        cur: Some(BlockModel { id: None, question: Some(qt), answer: None, line: 1 }),
        field: Some(CardField::Answer),
        buf: buf_after(a1, aconts, m),
    };
    assert(close(fin) =~= seq![CardModel { id: None, question: qt, answer: at, line: 1 }]);
}

} // verus!
