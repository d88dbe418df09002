//! Writing IDs into a card file without any, line by line: the machine reads
//! the same cards back, each with the ID written before its question line.
use vstd::prelude::*;
use crate::cardfile::{classify, run, scan, step, close, flush, initial_scan, CardModel, BlockModel, ScanModel, LineKind, CardField};
use crate::parser::{assigned, first_dup, dup_at, count_nl, id_line, inject_spec, inject_upto, line_start};
use crate::roundtrip::{join_lines, plain_lines, nl_free, lemma_int_text_parses, clean_text, card_text, question_line, answer_line};
use crate::text::{lines_of, split_nl, strip_cr};
use crate::text::int_text;

verus! {

/// The line `ID: <v>` without its line break.
pub open spec fn id_text(v: i64) -> Seq<char> {
    seq!['I', 'D', ':', ' '] + int_text(v as int)
}

/// How many of the lines numbered `1..=n` have an assigned ID.
pub open spec fn assigned_before(asg: Seq<(usize, i64)>, n: int) -> nat
    decreases n,
{
    if n <= 0 {
        0
    } else {
        assigned_before(asg, n - 1) + if assigned(asg, n) is Some {
            1nat
        } else {
            0nat
        }
    }
}

/// The first `n` lines, each assigned line preceded by its `ID:` line.
pub open spec fn with_id_lines(ls: Seq<Seq<char>>, asg: Seq<(usize, i64)>, n: int) -> Seq<Seq<char>>
    decreases n,
{
    if n <= 0 {
        Seq::empty()
    } else {
        let pre = with_id_lines(ls, asg, n - 1);
        match assigned(asg, n) {
            Some(v) => pre.push(id_text(v)).push(ls[n - 1]),
            None => pre.push(ls[n - 1]),
        }
    }
}

/// Where original line `l` lands once the `ID:` lines are in.
pub open spec fn moved_line(asg: Seq<(usize, i64)>, l: int) -> int {
    l + assigned_before(asg, l - 1)
}

/// A card read from the original lines, as read from the lines with IDs.
pub open spec fn with_id(asg: Seq<(usize, i64)>, c: CardModel) -> CardModel {
    CardModel { id: assigned(asg, c.line), line: moved_line(asg, c.line), ..c }
}

/// A block of the original lines, as seen in the lines with IDs.
pub open spec fn block_with_id(asg: Seq<(usize, i64)>, b: BlockModel) -> BlockModel {
    BlockModel { id: assigned(asg, b.line), line: moved_line(asg, b.line), ..b }
}

/// A machine state on the original lines, as on the lines with IDs.
pub open spec fn state_with_ids(asg: Seq<(usize, i64)>, s: ScanModel) -> ScanModel {
    ScanModel {
        done: s.done.map_values(|c: CardModel| with_id(asg, c)),
        cur: match s.cur {
            Some(b) => Some(block_with_id(asg, b)),
            None => None,
        },
        field: s.field,
        buf: s.buf,
    }
}

/// States reached on lines without `ID:` lines: no IDs anywhere, and an open
/// block always has an open field.
pub open spec fn id_free(s: ScanModel) -> bool {
    &&& (s.cur is Some ==> s.field is Some)
    &&& (s.cur matches Some(b) ==> b.id is None)
}

/// The conditions under which the IDs read back: no `ID:` lines, and IDs
/// assigned only to question lines.
pub open spec fn injectable(ls: Seq<Seq<char>>, asg: Seq<(usize, i64)>) -> bool {
    &&& forall|k: int| 0 <= k < ls.len() ==> !(classify(#[trigger] ls[k]) is Id)
    &&& forall|l: int|
        1 <= l <= ls.len() && (#[trigger] assigned(asg, l)) is Some ==> classify(ls[l - 1]) is Question
}

proof fn lemma_with_id_lines_len(ls: Seq<Seq<char>>, asg: Seq<(usize, i64)>, n: int)
    requires
        0 <= n,
    ensures
        with_id_lines(ls, asg, n).len() == n + assigned_before(asg, n),
    decreases n,
{
    if n > 0 {
        lemma_with_id_lines_len(ls, asg, n - 1);
    }
}

proof fn lemma_with_id_lines_prefix(ls: Seq<Seq<char>>, asg: Seq<(usize, i64)>, m: int, n: int)
    requires
        0 <= m <= n,
    ensures
        with_id_lines(ls, asg, m).len() <= with_id_lines(ls, asg, n).len(),
        forall|i: int|
            0 <= i < with_id_lines(ls, asg, m).len() ==> with_id_lines(ls, asg, n)[i]
                == with_id_lines(ls, asg, m)[i],
    decreases n,
{
    if m < n {
        lemma_with_id_lines_prefix(ls, asg, m, n - 1);
    }
}

/// `run` reads only as many lines as it runs over.
proof fn lemma_run_prefix(a: Seq<Seq<char>>, b: Seq<Seq<char>>, k: nat)
    requires
        k <= a.len(),
        k <= b.len(),
        forall|i: int| 0 <= i < k ==> a[i] == b[i],
    ensures
        run(a, k) == run(b, k),
    decreases k,
{
    if k > 0 {
        lemma_run_prefix(a, b, (k - 1) as nat);
    }
}

proof fn lemma_flush_with_id(asg: Seq<(usize, i64)>, b: BlockModel, f: Option<CardField>, buf: Seq<char>)
    ensures
        flush(block_with_id(asg, b), f, buf) == block_with_id(asg, flush(b, f, buf)),
{
}

proof fn lemma_close_with_id(asg: Seq<(usize, i64)>, s: ScanModel)
    ensures
        close(state_with_ids(asg, s)) == close(s).map_values(|c: CardModel| with_id(asg, c)),
{
    match s.cur {
        None => {},
        Some(b) => {
            lemma_flush_with_id(asg, b, s.field, s.buf);
            let f = flush(b, s.field, s.buf);
            if f.question is Some && f.answer is Some {
                let card = CardModel { id: f.id, question: f.question->0, answer: f.answer->0, line: f.line };
                assert(s.done.push(card).map_values(|c: CardModel| with_id(asg, c)) =~= s.done.map_values(
                    |c: CardModel| with_id(asg, c),
                ).push(with_id(asg, card)));
            }
        },
    }
}

/// After the first `j` original lines, the machine on the lines with IDs is in
/// the mapped state of the machine on the original lines.
proof fn lemma_simulation(ls: Seq<Seq<char>>, asg: Seq<(usize, i64)>, j: int)
    requires
        0 <= j <= ls.len(),
        injectable(ls, asg),
    ensures
        run(ls, j as nat) is Ok,
        id_free(run(ls, j as nat)->Ok_0),
        run(with_id_lines(ls, asg, j), (j + assigned_before(asg, j)) as nat) == Ok::<ScanModel, (int, Seq<char>)>(
            state_with_ids(asg, run(ls, j as nat)->Ok_0),
        ),
    decreases j,
{
    let t = with_id_lines(ls, asg, j);
    lemma_with_id_lines_len(ls, asg, j);
    if j == 0 {
        assert(Seq::<CardModel>::empty().map_values(|c: CardModel| with_id(asg, c)) =~= Seq::<CardModel>::empty());
        assert(state_with_ids(asg, initial_scan()) == initial_scan());
    } else {
        lemma_simulation(ls, asg, j - 1);
        let s = run(ls, (j - 1) as nat)->Ok_0;
        let tm = state_with_ids(asg, s);
        let pre = with_id_lines(ls, asg, j - 1);
        let k = (j - 1 + assigned_before(asg, j - 1)) as nat;
        lemma_with_id_lines_len(ls, asg, j - 1);
        lemma_with_id_lines_prefix(ls, asg, j - 1, j);
        lemma_run_prefix(pre, t, k);
        assert(run(t, k) == Ok::<ScanModel, (int, Seq<char>)>(tm));
        let x = ls[j - 1];
        lemma_close_with_id(asg, s);
        match classify(x) {
            LineKind::Id(_) => {
                assert(false);
            },
            LineKind::Question(text) => {
                match assigned(asg, j) {
                    Some(v) => {
                        crate::roundtrip::lemma_id_line_reads(v);
                        let ki = k as int;
                        assert(t[ki] == id_text(v));
                        assert(t[ki + 1] == x);
                        assert(run(t, (ki + 1) as nat) == step(tm, id_text(v), ki + 1));
                        assert(run(t, (ki + 2) as nat) == step(run(t, (ki + 1) as nat)->Ok_0, x, ki + 2));
                    },
                    None => {
                        let ki = k as int;
                        assert(t[ki] == x);
                        assert(run(t, (ki + 1) as nat) == step(tm, x, ki + 1));
                    },
                }
                let s2 = run(ls, j as nat)->Ok_0;
                assert(state_with_ids(asg, s2) =~= run(t, (j + assigned_before(asg, j)) as nat)->Ok_0);
            },
            LineKind::Answer(text) => {
                assert(assigned(asg, j) is None);
                assert(t[k as int] == x);
                match s.cur {
                    Some(b) => lemma_flush_with_id(asg, b, s.field, s.buf),
                    None => {},
                }
                let s2 = run(ls, j as nat)->Ok_0;
                assert(state_with_ids(asg, s2) =~= run(t, (j + assigned_before(asg, j)) as nat)->Ok_0);
            },
            LineKind::Text => {
                assert(assigned(asg, j) is None);
                assert(t[k as int] == x);
                let s2 = run(ls, j as nat)->Ok_0;
                assert(state_with_ids(asg, s2) =~= run(t, (j + assigned_before(asg, j)) as nat)->Ok_0);
            },
        }
    }
}

/// Reading lines that have no `ID:` lines, after an `ID:` line has been put
/// before each question line that has an assigned ID, gives the same cards:
/// each with the ID assigned to its starting line, and its line number moved
/// down by the number of `ID:` lines put before it.
pub proof fn lemma_id_lines_read_back(ls: Seq<Seq<char>>, asg: Seq<(usize, i64)>)
    requires
        injectable(ls, asg),
    ensures
        run(ls, ls.len()) is Ok,
        ({
            let t = with_id_lines(ls, asg, ls.len() as int);
            run(t, t.len()) is Ok && close(run(t, t.len())->Ok_0) == close(run(ls, ls.len())->Ok_0).map_values(
                |c: CardModel| with_id(asg, c),
            )
        }),
{
    lemma_simulation(ls, asg, ls.len() as int);
    lemma_with_id_lines_len(ls, asg, ls.len() as int);
    lemma_close_with_id(asg, run(ls, ls.len())->Ok_0);
}

/// What is inserted before line `l`: its `ID:` line, if it has an ID.
pub open spec fn insertion(asg: Seq<(usize, i64)>, l: int) -> Seq<char> {
    match assigned(asg, l) {
        Some(v) => id_line(v),
        None => Seq::empty(),
    }
}

/// Where line `m` (from 1) of the joined first lines starts.
pub open spec fn line_pos(ls: Seq<Seq<char>>, m: int) -> int {
    if m <= 1 {
        0
    } else {
        join_lines(ls.take(m - 1)).len() + 1int
    }
}

proof fn lemma_join_step(ls: Seq<Seq<char>>, m: int)
    requires
        1 <= m < ls.len(),
    ensures
        join_lines(ls.take(m + 1)) == join_lines(ls.take(m)).push('\n') + ls[m],
{
    let t = ls.take(m + 1);
    assert(t.drop_last() =~= ls.take(m));
    assert(t.last() == ls[m]);
}

proof fn lemma_join_first(ls: Seq<Seq<char>>)
    requires
        1 <= ls.len(),
    ensures
        join_lines(ls.take(1)) == ls[0],
{
    assert(ls.take(1).len() == 1);
}

proof fn lemma_count_nl_append(x: Seq<char>, y: Seq<char>)
    ensures
        count_nl(x + y) == count_nl(x) + count_nl(y),
    decreases y.len(),
{
    if y.len() == 0 {
        assert(x + y =~= x);
    } else {
        lemma_count_nl_append(x, y.drop_last());
        assert((x + y).drop_last() =~= x + y.drop_last());
        assert((x + y).last() == y.last());
    }
}

proof fn lemma_count_nl_none(y: Seq<char>)
    requires
        forall|i: int| 0 <= i < y.len() ==> y[i] != '\n',
    ensures
        count_nl(y) == 0,
    decreases y.len(),
{
    if y.len() > 0 {
        lemma_count_nl_none(y.drop_last());
        assert(y.last() == y[y.len() - 1]);
    }
}

proof fn lemma_nl_free_line(ls: Seq<Seq<char>>, k: int)
    requires
        0 <= k < ls.len(),
        nl_free(ls),
    ensures
        forall|i: int| 0 <= i < ls[k].len() ==> #[trigger] ls[k][i] != '\n',
{
    let l = ls[k];
    assert(forall|i: int| 0 <= i < l.len() ==> l[i] != '\n');
}

/// The joined first `m` lines: their line count, and that they begin the
/// whole joined text.
proof fn lemma_join_prefix(ls: Seq<Seq<char>>, m: int)
    requires
        1 <= m <= ls.len(),
        nl_free(ls),
    ensures
        count_nl(join_lines(ls.take(m))) == m - 1,
        join_lines(ls.take(m)).len() <= join_lines(ls).len(),
        join_lines(ls).take(join_lines(ls.take(m)).len() as int) == join_lines(ls.take(m)),
        join_lines(ls.take(m)).len() == line_pos(ls, m) + ls[m - 1].len(),
    decreases ls.len() - m,
{
    let cm = join_lines(ls.take(m));
    lemma_nl_free_line(ls, m - 1);
    lemma_count_nl_none(ls[m - 1]);
    if m == 1 {
        lemma_join_first(ls);
    } else {
        lemma_join_step(ls, m - 1);
        let cp = join_lines(ls.take(m - 1));
        lemma_count_nl_append(cp.push('\n'), ls[m - 1]);
        assert(cp.push('\n').drop_last() =~= cp);
        lemma_join_count(ls, m - 1);
    }
    if m == ls.len() {
        assert(ls.take(m) =~= ls);
        assert(join_lines(ls).take(cm.len() as int) =~= cm);
    } else {
        lemma_join_prefix(ls, m + 1);
        lemma_join_step(ls, m);
        let cn = join_lines(ls.take(m + 1));
        assert(cn.take(cm.len() as int) =~= cm);
        assert(join_lines(ls).take(cm.len() as int) =~= cn.take(cm.len() as int));
    }
}

proof fn lemma_join_count(ls: Seq<Seq<char>>, m: int)
    requires
        1 <= m <= ls.len(),
        nl_free(ls),
    ensures
        count_nl(join_lines(ls.take(m))) == m - 1,
    decreases m,
{
    lemma_nl_free_line(ls, m - 1);
    lemma_count_nl_none(ls[m - 1]);
    if m == 1 {
        lemma_join_first(ls);
    } else {
        lemma_join_count(ls, m - 1);
        lemma_join_step(ls, m - 1);
        let cp = join_lines(ls.take(m - 1));
        lemma_count_nl_append(cp.push('\n'), ls[m - 1]);
        assert(cp.push('\n').drop_last() =~= cp);
    }
}

/// The characters of line `m` and the line break after it, where they stand
/// in the joined text.
proof fn lemma_line_chars(ls: Seq<Seq<char>>, m: int)
    requires
        1 <= m <= ls.len(),
        nl_free(ls),
    ensures
        line_pos(ls, m) + ls[m - 1].len() <= join_lines(ls).len(),
        forall|k: int|
            0 <= k < ls[m - 1].len() ==> join_lines(ls)[line_pos(ls, m) + k] == #[trigger] ls[m
                - 1][k],
        m < ls.len() ==> join_lines(ls)[line_pos(ls, m) + ls[m - 1].len()] == '\n',
        m < ls.len() ==> line_pos(ls, m + 1) == line_pos(ls, m) + ls[m - 1].len() + 1,
        count_nl(join_lines(ls).take(line_pos(ls, m))) == m - 1,
        line_start(join_lines(ls), line_pos(ls, m)),
{
    let c = join_lines(ls);
    lemma_join_prefix(ls, m);
    let cm = join_lines(ls.take(m));
    let p = line_pos(ls, m);
    if m == 1 {
        lemma_join_first(ls);
        assert(c.take(0) =~= Seq::<char>::empty());
        assert forall|k: int| 0 <= k < ls[0].len() implies c[p + k] == #[trigger] ls[0][k] by {
            assert(c.take(cm.len() as int)[k] == c[k]);
        }
    } else {
        lemma_join_step(ls, m - 1);
        let cp = join_lines(ls.take(m - 1));
        lemma_join_count(ls, m - 1);
        assert forall|k: int| 0 <= k < ls[m - 1].len() implies c[p + k] == #[trigger] ls[m - 1][k] by {
            assert(c.take(cm.len() as int)[p + k] == c[p + k]);
            assert(cm[p + k] == ls[m - 1][k]);
        }
        assert(c[p - 1] == cm[p - 1]);
        assert(c.take(p) =~= cp.push('\n')) by {
            assert forall|i: int| 0 <= i < p implies c.take(p)[i] == cp.push('\n')[i] by {
                assert(c.take(cm.len() as int)[i] == c[i]);
            }
        }
        assert(cp.push('\n').drop_last() =~= cp);
    }
    if m < ls.len() {
        lemma_join_prefix(ls, m + 1);
        lemma_join_step(ls, m);
        let cn = join_lines(ls.take(m + 1));
        assert(c.take(cn.len() as int)[cm.len() as int] == c[cm.len() as int]);
        assert(cn[cm.len() as int] == '\n');
    }
}

/// Inside line `m`, injection copies the line after the line's insertion.
proof fn lemma_inject_in_line(ls: Seq<Seq<char>>, asg: Seq<(usize, i64)>, m: int, k: int)
    requires
        1 <= m <= ls.len(),
        nl_free(ls),
        1 <= k <= ls[m - 1].len(),
    ensures
        inject_upto(join_lines(ls), asg, (line_pos(ls, m) + k) as nat) == inject_upto(
            join_lines(ls),
            asg,
            line_pos(ls, m) as nat,
        ) + insertion(asg, m) + ls[m - 1].take(k),
    decreases k,
{
    let c = join_lines(ls);
    let p = line_pos(ls, m);
    lemma_line_chars(ls, m);
    let base = inject_upto(c, asg, p as nat);
    if k == 1 {
        assert(ls[m - 1].take(1) =~= seq![c[p]]);
        assert(count_nl(c.take(p)) + 1 == m);
    } else {
        lemma_inject_in_line(ls, asg, m, k - 1);
        let q = p + k - 1;
        assert(c[q - 1] == ls[m - 1][k - 2]);
        assert(ls[m - 1][k - 2] != '\n');
        assert(!line_start(c, q));
        assert(ls[m - 1].take(k) =~= ls[m - 1].take(k - 1).push(c[q]));
        assert(inject_upto(c, asg, (q + 1) as nat) =~= base + insertion(asg, m) + ls[m - 1].take(k));
    }
}

/// The injected text of the first `m` lines: each line after its insertion.
pub open spec fn injected_lines_text(ls: Seq<Seq<char>>, asg: Seq<(usize, i64)>, m: int) -> Seq<char>
    decreases m,
{
    if m <= 0 {
        Seq::empty()
    } else if m == 1 {
        insertion(asg, 1) + ls[0]
    } else {
        injected_lines_text(ls, asg, m - 1).push('\n') + insertion(asg, m) + ls[m - 1]
    }
}

proof fn lemma_inject_lines(ls: Seq<Seq<char>>, asg: Seq<(usize, i64)>, m: int)
    requires
        1 <= m <= ls.len(),
        nl_free(ls),
        ls[m - 1].len() > 0 || m < ls.len(),
    ensures
        m < ls.len() ==> inject_upto(join_lines(ls), asg, line_pos(ls, m + 1) as nat) == injected_lines_text(ls, asg, m).push('\n'),
        ls[m - 1].len() > 0 ==> inject_upto(join_lines(ls), asg, (line_pos(ls, m) + ls[m - 1].len()) as nat)
            == injected_lines_text(ls, asg, m),
    decreases m,
{
    let c = join_lines(ls);
    let p = line_pos(ls, m);
    let len = ls[m - 1].len() as int;
    lemma_line_chars(ls, m);
    let base = inject_upto(c, asg, p as nat);
    if m == 1 {
        assert(base =~= Seq::<char>::empty());
    } else {
        lemma_inject_lines(ls, asg, m - 1);
    }
    let prev_text = if m == 1 {
        Seq::<char>::empty()
    } else {
        injected_lines_text(ls, asg, m - 1).push('\n')
    };
    assert(base == prev_text);
    assert(injected_lines_text(ls, asg, m) =~= prev_text + insertion(asg, m) + ls[m - 1]);
    if len > 0 {
        lemma_inject_in_line(ls, asg, m, len as int);
        assert(ls[m - 1].take(len as int) =~= ls[m - 1]);
    }
    if m < ls.len() {
        let q = p + len;
        assert(c[q] == '\n');
        if len > 0 {
            assert(c[q - 1] == ls[m - 1][len - 1]);
            assert(!line_start(c, q));
            assert(inject_upto(c, asg, (q + 1) as nat) =~= prev_text + insertion(asg, m) + ls[m - 1] + seq!['\n']);
        } else {
            assert(count_nl(c.take(p)) + 1 == m);
            assert(ls[m - 1] =~= Seq::<char>::empty());
            assert(inject_upto(c, asg, (q + 1) as nat) =~= prev_text + insertion(asg, m) + seq!['\n']);
        }
        assert((prev_text + insertion(asg, m) + ls[m - 1]).push('\n') =~= prev_text + insertion(asg, m) + ls[m - 1] + seq!['\n']);
    }
}

proof fn lemma_injected_text_is_join(ls: Seq<Seq<char>>, asg: Seq<(usize, i64)>, m: int)
    requires
        1 <= m <= ls.len(),
    ensures
        with_id_lines(ls, asg, m).len() >= 1,
        injected_lines_text(ls, asg, m) == join_lines(with_id_lines(ls, asg, m)),
        with_id_lines(ls, asg, m).last() == ls[m - 1],
    decreases m,
{
    let w = with_id_lines(ls, asg, m);
    let pre = with_id_lines(ls, asg, m - 1);
    if m > 1 {
        lemma_injected_text_is_join(ls, asg, m - 1);
    } else {
        assert(pre =~= Seq::<Seq<char>>::empty());
    }
    match assigned(asg, m) {
        Some(v) => {
            let x = pre.push(id_text(v));
            assert(w == x.push(ls[m - 1]));
            assert(w.drop_last() =~= x);
            assert(x.drop_last() =~= pre);
            if m == 1 {
                assert(x =~= seq![id_text(v)]);
                assert(join_lines(x) == id_text(v));
            }
            assert(id_line(v) =~= id_text(v).push('\n'));
            if m == 1 {
                assert(join_lines(w) =~= insertion(asg, 1) + ls[0]);
            } else {
                assert(x.len() > 1);
                assert(x.last() == id_text(v));
                assert(join_lines(x) == join_lines(pre).push('\n') + id_text(v));
                assert(join_lines(w) == join_lines(x).push('\n') + ls[m - 1]);
                assert(join_lines(w) =~= injected_lines_text(ls, asg, m - 1).push('\n') + insertion(asg, m) + ls[m - 1]);
            }
        },
        None => {
            assert(w.drop_last() =~= pre);
            if m == 1 {
                assert(w =~= seq![ls[0]]);
                assert(insertion(asg, 1) + ls[0] =~= ls[0]);
            } else {
                assert(injected_lines_text(ls, asg, m) =~= injected_lines_text(ls, asg, m - 1).push('\n') + ls[m - 1]);
            }
        },
    }
}

proof fn lemma_lines_of_final_break(x: Seq<char>)
    requires
        x.len() > 0,
        x.last() != '\n',
        split_nl(x).last().len() > 0 ==> split_nl(x).last().last() != '\r',
    ensures
        lines_of(x.push('\n')) == lines_of(x),
{
    crate::text::lemma_split_nl_nonempty(x);
    let d = x.push('\n');
    assert(d.drop_last() =~= x);
    let p = split_nl(x);
    assert(split_nl(d) == p.push(Seq::<char>::empty()));
    assert(split_nl(d).drop_last() =~= p);
    assert(p =~= p.drop_last().push(p.last()));
    assert(strip_cr(p.last()) == p.last());
    assert(p.map_values(|l: Seq<char>| strip_cr(l)) =~= p.drop_last().map_values(|l: Seq<char>| strip_cr(l)).push(p.last()));
}


/// Every block and card of a machine state starts on a question line among
/// the first `j` lines.
pub open spec fn starts_on_questions(ls: Seq<Seq<char>>, s: ScanModel, j: int) -> bool {
    &&& forall|k: int|
        0 <= k < s.done.len() ==> 1 <= (#[trigger] s.done[k]).line <= j && classify(
            ls[s.done[k].line - 1],
        ) is Question
    &&& (s.cur matches Some(b) ==> 1 <= b.line <= j && classify(ls[b.line - 1]) is Question)
}

proof fn lemma_close_starts(ls: Seq<Seq<char>>, s: ScanModel, j: int)
    requires
        starts_on_questions(ls, s, j),
    ensures
        forall|k: int|
            0 <= k < close(s).len() ==> 1 <= (#[trigger] close(s)[k]).line <= j && classify(
                ls[close(s)[k].line - 1],
            ) is Question,
{
}

proof fn lemma_blocks_start_on_questions(ls: Seq<Seq<char>>, j: int)
    requires
        0 <= j <= ls.len(),
        forall|k: int| 0 <= k < ls.len() ==> !(classify(#[trigger] ls[k]) is Id),
    ensures
        run(ls, j as nat) is Ok,
        starts_on_questions(ls, run(ls, j as nat)->Ok_0, j),
    decreases j,
{
    if j > 0 {
        lemma_blocks_start_on_questions(ls, j - 1);
        let s = run(ls, (j - 1) as nat)->Ok_0;
        lemma_close_starts(ls, s, j - 1);
        let x = ls[j - 1];
        assert(!(classify(x) is Id));
        let s2 = run(ls, j as nat)->Ok_0;
        assert forall|k: int| 0 <= k < s2.done.len() implies 1 <= (#[trigger] s2.done[k]).line <= j
            && classify(ls[s2.done[k].line - 1]) is Question by {
            if s2.done == s.done {
                assert(s2.done[k] == s.done[k]);
            } else {
                assert(s2.done == close(s));
            }
        }
    }
}


/// A new one-card file `Q: <q>`, `A: <a>` with a final line break reads as
/// that card on line 1 without an ID; with ID `n` written in at line 1, it
/// reads as the same card with ID `n`, still starting on line 1.
pub proof fn lemma_new_card_gets_id(q: Seq<char>, a: Seq<char>, n: i64)
    requires
        clean_text(q),
        clean_text(a),
    ensures
        scan(card_text(q, a).push('\n')) == Ok::<Seq<CardModel>, (int, Seq<char>)>(
            seq![CardModel { id: None, question: q, answer: a, line: 1 }],
        ),
        scan(inject_spec(card_text(q, a).push('\n'), seq![(1usize, n)])) == Ok::<
            Seq<CardModel>,
            (int, Seq<char>),
        >(seq![CardModel { id: Some(n), question: q, answer: a, line: 1 }]),
{
    let ql = question_line(q);
    let al = answer_line(a);
    let ls = seq![ql, al];
    let asg = seq![(1usize, n)];
    crate::roundtrip::lemma_card_round_trip(q, Seq::empty(), a, Seq::empty());
    assert(seq![ql] + Seq::<Seq<char>>::empty() + seq![al] + Seq::<Seq<char>>::empty() =~= ls);
    assert(seq![q] + Seq::<Seq<char>>::empty() =~= seq![q]);
    assert(seq![a] + Seq::<Seq<char>>::empty() =~= seq![a]);
    assert(join_lines(seq![q]) == q);
    assert(join_lines(seq![a]) == a);
    assert(ls.drop_last() =~= seq![ql]);
    assert(join_lines(seq![ql]) == ql);
    assert(ls.last() == al);
    assert(join_lines(ls) == join_lines(seq![ql]).push('\n') + al);
    assert(join_lines(ls) =~= card_text(q, a));
    let card = CardModel { id: None, question: q, answer: a, line: 1 };
    assert(scan(join_lines(ls)) == Ok::<Seq<CardModel>, (int, Seq<char>)>(seq![card]));
    crate::roundtrip::lemma_field_lines(q, a);
    assert(plain_lines(ls)) by {
        assert forall|k: int| 0 <= k < ls.len() implies {
            &&& forall|i: int| 0 <= i < (#[trigger] ls[k]).len() ==> ls[k][i] != '\n'
            &&& (ls[k].len() > 0 ==> ls[k].last() != '\r')
        } by {
            if k == 0 {
                assert(ls[k] == ql);
            } else {
                assert(ls[k] == al);
            }
        }
    }
    assert(ls.last() == al);
    assert(forall|k: int| 0 <= k < ls.len() ==> !(classify(#[trigger] ls[k]) is Id)) by {
        assert forall|k: int| 0 <= k < ls.len() implies !(classify(#[trigger] ls[k]) is Id) by {
            if k == 0 {
                assert(ls[k] == ql);
            } else {
                assert(ls[k] == al);
            }
        }
    }
    assert(asg.drop_last() =~= Seq::<(usize, i64)>::empty());
    assert forall|l: int| (#[trigger] assigned(asg, l)) is Some implies exists|k: int|
        0 <= k < scan(join_lines(ls))->Ok_0.len() && scan(join_lines(ls))->Ok_0[k].line == l by {
        assert(assigned(Seq::<(usize, i64)>::empty(), l) is None);
        assert(l == 1);
        assert(scan(join_lines(ls))->Ok_0[0].line == 1);
    }
    // The file with its final line break has the same lines.
    crate::roundtrip::lemma_split_join(ls);
    let c = join_lines(ls);
    assert(c.last() == al.last());
    assert(split_nl(c).last() == al);
    lemma_lines_of_final_break(c);
    assert(scan(c.push('\n')) == scan(c));
    assert(lines_of(c) == ls);
    lemma_file_ids_read_back(c.push('\n'), asg);
    assert(assigned(asg, 1) == Some(n));
    assert(assigned_before(asg, 0) == 0);
    assert(seq![card].map_values(|x: CardModel| with_id(asg, x)) =~= seq![
        CardModel { id: Some(n), question: q, answer: a, line: 1 },
    ]);
}

/// The lines `str::lines` yields from a text that is the given pieces joined
/// by line breaks: each piece but the last loses a final `'\r'`, and an
/// empty last piece is no line.
pub open spec fn visible_lines(w: Seq<Seq<char>>) -> Seq<Seq<char>> {
    if w.last().len() == 0 {
        w.drop_last().map_values(|l: Seq<char>| strip_cr(l))
    } else {
        w.drop_last().map_values(|l: Seq<char>| strip_cr(l)).push(w.last())
    }
}

proof fn lemma_join_split(c: Seq<char>)
    ensures
        split_nl(c).len() >= 1,
        nl_free(split_nl(c)),
        join_lines(split_nl(c)) == c,
    decreases c.len(),
{
    crate::text::lemma_split_nl_nonempty(c);
    if c.len() == 0 {
        assert(split_nl(c) == seq![Seq::<char>::empty()]);
        assert(c =~= Seq::<char>::empty());
    } else {
        let d = c.drop_last();
        lemma_join_split(d);
        let p = split_nl(d);
        if c.last() == '\n' {
            let q = p.push(Seq::<char>::empty());
            assert(q.drop_last() =~= p);
            assert(join_lines(q) =~= join_lines(p).push('\n') + Seq::<char>::empty());
            assert(c =~= d.push('\n'));
            assert forall|k: int| 0 <= k < q.len() implies forall|i: int|
                0 <= i < (#[trigger] q[k]).len() ==> q[k][i] != '\n' by {
                if k < p.len() {
                    assert(q[k] == p[k]);
                }
            }
        } else {
            let x = c.last();
            let q = p.update(p.len() - 1, p.last().push(x));
            assert(q.len() == p.len());
            if p.len() == 1 {
                assert(join_lines(q) == q[0]);
                assert(join_lines(p) == p[0]);
                assert(c =~= d.push(x));
            } else {
                assert(q.drop_last() =~= p.drop_last());
                assert(join_lines(q) == join_lines(q.drop_last()).push('\n') + q.last());
                assert(join_lines(p) == join_lines(p.drop_last()).push('\n') + p.last());
                assert(join_lines(q) =~= join_lines(p).push(x));
                assert(c =~= d.push(x));
            }
            assert forall|k: int| 0 <= k < q.len() implies forall|i: int|
                0 <= i < (#[trigger] q[k]).len() ==> q[k][i] != '\n' by {
                if k < p.len() - 1 {
                    assert(q[k] == p[k]);
                } else {
                    let l = p.last();
                    assert(p[p.len() - 1] == l);
                    assert(forall|i: int| 0 <= i < l.len() ==> l[i] != '\n');
                    assert(q[k] == l.push(x));
                }
            }
        }
    }
}

proof fn lemma_lines_of_pieces(w: Seq<Seq<char>>)
    requires
        w.len() >= 1,
        nl_free(w),
    ensures
        lines_of(join_lines(w)) == visible_lines(w),
{
    crate::roundtrip::lemma_split_join(w);
    let s = join_lines(w);
    let last = w[w.len() - 1];
    assert(w.last() == last);
    if w.len() == 1 {
        assert(s == last);
        if last.len() == 0 {
            assert(w.drop_last().map_values(|l: Seq<char>| strip_cr(l)) =~= Seq::<Seq<char>>::empty());
        } else {
            lemma_nl_free_line(w, 0);
            assert(s.last() == last[last.len() - 1]);
        }
    } else {
        assert(s == join_lines(w.drop_last()).push('\n') + last);
        if last.len() == 0 {
            assert(s.last() == '\n');
        } else {
            lemma_nl_free_line(w, w.len() - 1);
            assert(s.last() == last[last.len() - 1]);
        }
    }
}

proof fn lemma_with_id_lines_same_prefix(x: Seq<Seq<char>>, y: Seq<Seq<char>>, asg: Seq<(usize, i64)>, m: int)
    requires
        0 <= m <= x.len(),
        m <= y.len(),
        forall|k: int| 0 <= k < m ==> x[k] == y[k],
    ensures
        with_id_lines(x, asg, m) == with_id_lines(y, asg, m),
    decreases m,
{
    if m > 0 {
        lemma_with_id_lines_same_prefix(x, y, asg, m - 1);
    }
}

proof fn lemma_strip_with_id_lines(p: Seq<Seq<char>>, v: Seq<Seq<char>>, asg: Seq<(usize, i64)>, m: int)
    requires
        0 <= m <= p.len(),
        m <= v.len(),
        forall|k: int| 0 <= k < m ==> v[k] == strip_cr(p[k]),
    ensures
        with_id_lines(p, asg, m).map_values(|l: Seq<char>| strip_cr(l)) == with_id_lines(v, asg, m),
    decreases m,
{
    if m > 0 {
        lemma_strip_with_id_lines(p, v, asg, m - 1);
        let pre = with_id_lines(p, asg, m - 1);
        let pv = with_id_lines(v, asg, m - 1);
        match assigned(asg, m) {
            Some(id) => {
                lemma_int_text_parses(id);
                let t = int_text(id as int);
                assert(id_text(id).last() == t.last());
                assert(t.last() == t[t.len() - 1]);
                assert(strip_cr(id_text(id)) == id_text(id));
                assert(pre.push(id_text(id)).push(p[m - 1]).map_values(|l: Seq<char>| strip_cr(l))
                    =~= pv.push(id_text(id)).push(v[m - 1]));
            },
            None => {
                assert(pre.push(p[m - 1]).map_values(|l: Seq<char>| strip_cr(l)) =~= pv.push(v[m - 1]));
            },
        }
    }
}

/// The lines of the pieces with `ID:` lines put in are the lines of the
/// pieces with `ID:` lines put in.
proof fn lemma_visible_with_ids(p: Seq<Seq<char>>, asg: Seq<(usize, i64)>)
    requires
        p.len() >= 1,
        p.last().len() == 0 ==> assigned(asg, p.len() as int) is None,
    ensures
        visible_lines(with_id_lines(p, asg, p.len() as int)) == with_id_lines(
            visible_lines(p),
            asg,
            visible_lines(p).len() as int,
        ),
{
    let n = p.len() as int;
    let v = visible_lines(p);
    let w = with_id_lines(p, asg, n);
    assert(forall|k: int| 0 <= k < n - 1 ==> v[k] == strip_cr(p[k]));
    lemma_strip_with_id_lines(p, v, asg, n - 1);
    let pre = with_id_lines(p, asg, n - 1);
    assert(p.last() == p[n - 1]);
    if p.last().len() == 0 {
        assert(w == pre.push(p[n - 1]));
        assert(w.drop_last() =~= pre);
        assert(w.last() == p[n - 1]);
        assert(v.len() == n - 1);
    } else {
        assert(v.len() == n);
        assert(v[n - 1] == p[n - 1]);
        match assigned(asg, n) {
            Some(id) => {
                lemma_int_text_parses(id);
                let t = int_text(id as int);
                assert(id_text(id).last() == t.last());
                assert(t.last() == t[t.len() - 1]);
                assert(strip_cr(id_text(id)) == id_text(id));
                assert(w.drop_last() =~= pre.push(id_text(id)));
                assert(pre.push(id_text(id)).map_values(|l: Seq<char>| strip_cr(l)) =~= pre.map_values(
                    |l: Seq<char>| strip_cr(l),
                ).push(id_text(id)));
            },
            None => {
                assert(w.drop_last() =~= pre);
            },
        }
        assert(w.last() == p[n - 1]);
    }
}

/// Injection into pieces joined by line breaks equals joining the pieces with
/// their `ID:` lines put in, unless an ID is assigned to an empty last piece.
proof fn lemma_inject_pieces(p: Seq<Seq<char>>, asg: Seq<(usize, i64)>)
    requires
        p.len() >= 1,
        nl_free(p),
        p.last().len() == 0 ==> assigned(asg, p.len() as int) is None,
    ensures
        inject_spec(join_lines(p), asg) == join_lines(with_id_lines(p, asg, p.len() as int)),
{
    let n = p.len() as int;
    let c = join_lines(p);
    assert(p.last() == p[n - 1]);
    lemma_join_prefix(p, n);
    assert(p.take(n) =~= p);
    if p[n - 1].len() > 0 {
        lemma_inject_lines(p, asg, n);
        lemma_injected_text_is_join(p, asg, n);
    } else if n == 1 {
        assert(c == p[0]);
        assert(c =~= Seq::<char>::empty());
        assert(with_id_lines(p, asg, 0) =~= Seq::<Seq<char>>::empty());
        assert(with_id_lines(p, asg, 1) =~= seq![p[0]]);
        assert(join_lines(seq![p[0]]) == p[0]);
    } else {
        lemma_inject_lines(p, asg, n - 1);
        lemma_injected_text_is_join(p, asg, n - 1);
        assert(line_pos(p, n) == c.len());
        assert(c.take(c.len() as int) =~= c);
        let pre = with_id_lines(p, asg, n - 1);
        let w = with_id_lines(p, asg, n);
        assert(w == pre.push(p[n - 1]));
        assert(w.drop_last() =~= pre);
        assert(join_lines(w) == join_lines(pre).push('\n') + p[n - 1]);
        assert(join_lines(w) =~= join_lines(pre).push('\n'));
    }
}

/// Writing IDs into any card file without `ID:` lines, each at the line of
/// one of its cards, gives back on reading the same cards, each with the ID
/// written for its line and its line number moved down by the `ID:` lines
/// written above it.
pub proof fn lemma_file_ids_read_back(c: Seq<char>, asg: Seq<(usize, i64)>)
    requires
        forall|k: int| 0 <= k < lines_of(c).len() ==> !(classify(#[trigger] lines_of(c)[k]) is Id),
        forall|l: int|
            (#[trigger] assigned(asg, l)) is Some ==> exists|k: int|
                0 <= k < scan(c)->Ok_0.len() && scan(c)->Ok_0[k].line == l,
    ensures
        scan(c) is Ok,
        scan(inject_spec(c, asg)) == Ok::<Seq<CardModel>, (int, Seq<char>)>(
            scan(c)->Ok_0.map_values(|card: CardModel| with_id(asg, card)),
        ),
{
    let p = split_nl(c);
    lemma_join_split(c);
    lemma_lines_of_pieces(p);
    let v = lines_of(c);
    assert(v == visible_lines(p));
    lemma_blocks_start_on_questions(v, v.len() as int);
    let st = run(v, v.len())->Ok_0;
    lemma_close_starts(v, st, v.len() as int);
    assert(scan(c) == Ok::<Seq<CardModel>, (int, Seq<char>)>(close(st)));
    assert forall|l: int| 1 <= l <= v.len() && (#[trigger] assigned(asg, l)) is Some implies classify(
        v[l - 1],
    ) is Question by {
        let k = choose|k: int| 0 <= k < close(st).len() && close(st)[k].line == l;
        assert(1 <= close(st)[k].line <= v.len());
    }
    assert(injectable(v, asg));
    let n = p.len() as int;
    if p.last().len() == 0 {
        assert(v.len() == n - 1);
        if assigned(asg, n) is Some {
            let k = choose|k: int| 0 <= k < close(st).len() && close(st)[k].line == n;
            assert(close(st)[k].line <= v.len());
        }
    }
    lemma_inject_pieces(p, asg);
    let w = with_id_lines(p, asg, n);
    lemma_with_id_lines_len(p, asg, n);
    lemma_with_id_lines_nl_free(p, asg, n);
    lemma_lines_of_pieces(w);
    lemma_visible_with_ids(p, asg);
    assert(lines_of(inject_spec(c, asg)) == with_id_lines(v, asg, v.len() as int));
    lemma_id_lines_read_back(v, asg);
    lemma_with_id_lines_len(v, asg, v.len() as int);
}

proof fn lemma_with_id_lines_nl_free(ls: Seq<Seq<char>>, asg: Seq<(usize, i64)>, m: int)
    requires
        0 <= m <= ls.len(),
        nl_free(ls),
    ensures
        nl_free(with_id_lines(ls, asg, m)),
        m >= 1 ==> with_id_lines(ls, asg, m).len() >= 1,
    decreases m,
{
    if m > 0 {
        lemma_with_id_lines_nl_free(ls, asg, m - 1);
        let pre = with_id_lines(ls, asg, m - 1);
        lemma_nl_free_line(ls, m - 1);
        let l = ls[m - 1];
        match assigned(asg, m) {
            Some(v) => {
                lemma_int_text_parses(v);
                let it = id_text(v);
                let t = int_text(v as int);
                assert forall|i: int| 0 <= i < it.len() implies it[i] != '\n' by {
                    if i >= 4 {
                        assert(it[i] == t[i - 4]);
                    }
                }
                let w = pre.push(it).push(l);
                assert forall|k: int| 0 <= k < w.len() implies forall|i: int|
                    0 <= i < (#[trigger] w[k]).len() ==> w[k][i] != '\n' by {
                    if k < pre.len() {
                        assert(w[k] == pre[k]);
                    } else if k == pre.len() {
                        assert(w[k] == it);
                    } else {
                        assert(w[k] == l);
                    }
                }
            },
            None => {
                let w = pre.push(l);
                assert forall|k: int| 0 <= k < w.len() implies forall|i: int|
                    0 <= i < (#[trigger] w[k]).len() ==> w[k][i] != '\n' by {
                    if k < pre.len() {
                        assert(w[k] == pre[k]);
                    } else {
                        assert(w[k] == l);
                    }
                }
            },
        }
    }
}

/// Cards in strictly increasing line order, all on lines `1..=j`, and an
/// open block after them, with an open field.
pub open spec fn lines_ordered(s: ScanModel, j: int) -> bool {
    &&& forall|a: int, b: int| 0 <= a < b < s.done.len() ==> s.done[a].line < s.done[b].line
    &&& forall|a: int| 0 <= a < s.done.len() ==> 1 <= #[trigger] s.done[a].line <= j
    &&& forall|a: int| 0 <= a < s.done.len() ==> (#[trigger] s.done[a]).id is None
    &&& (s.cur matches Some(bl) ==> 1 <= bl.line <= j && s.field is Some && bl.id is None && forall|a: int|
        0 <= a < s.done.len() ==> #[trigger] s.done[a].line < bl.line)
}

proof fn lemma_close_ordered(s: ScanModel, j: int)
    requires
        lines_ordered(s, j),
    ensures
        forall|a: int, b: int| 0 <= a < b < close(s).len() ==> close(s)[a].line < close(s)[b].line,
        forall|a: int| 0 <= a < close(s).len() ==> 1 <= #[trigger] close(s)[a].line <= j,
        forall|a: int| 0 <= a < close(s).len() ==> (#[trigger] close(s)[a]).id is None,
{
}

proof fn lemma_lines_increase(ls: Seq<Seq<char>>, j: int)
    requires
        0 <= j <= ls.len(),
        forall|k: int| 0 <= k < ls.len() ==> !(classify(#[trigger] ls[k]) is Id),
    ensures
        run(ls, j as nat) is Ok,
        lines_ordered(run(ls, j as nat)->Ok_0, j),
    decreases j,
{
    if j > 0 {
        lemma_lines_increase(ls, j - 1);
        let s = run(ls, (j - 1) as nat)->Ok_0;
        lemma_close_ordered(s, j - 1);
        assert(!(classify(ls[j - 1]) is Id));
    }
}

/// The number of the given lines that are at most `m`.
pub open spec fn count_upto(lines: Seq<int>, m: int) -> nat
    decreases lines.len(),
{
    if lines.len() == 0 {
        0
    } else {
        count_upto(lines.drop_last(), m) + if lines.last() <= m {
            1nat
        } else {
            0nat
        }
    }
}

proof fn lemma_count_step(lines: Seq<int>, m: int)
    requires
        forall|a: int, b: int| 0 <= a < b < lines.len() ==> lines[a] != lines[b],
    ensures
        count_upto(lines, m) == count_upto(lines, m - 1) + if lines.contains(m) {
            1nat
        } else {
            0nat
        },
    decreases lines.len(),
{
    if lines.len() > 0 {
        let pre = lines.drop_last();
        lemma_count_step(pre, m);
        if lines.last() == m {
            assert(lines[lines.len() - 1] == m);
            if pre.contains(m) {
                let i = choose|i: int| 0 <= i < pre.len() && pre[i] == m;
                assert(lines[i] == m);
            }
        } else if pre.contains(m) {
            let i = choose|i: int| 0 <= i < pre.len() && pre[i] == m;
            assert(lines[i] == m);
        } else if lines.contains(m) {
            let i = choose|i: int| 0 <= i < lines.len() && lines[i] == m;
            assert(i < lines.len() - 1);
            assert(pre[i] == m);
        }
    }
}

proof fn lemma_count_zero(lines: Seq<int>)
    requires
        forall|a: int| 0 <= a < lines.len() ==> lines[a] >= 1,
    ensures
        count_upto(lines, 0) == 0,
    decreases lines.len(),
{
    if lines.len() > 0 {
        lemma_count_zero(lines.drop_last());
        assert(lines.last() == lines[lines.len() - 1]);
    }
}

proof fn lemma_count_below(lines: Seq<int>, k: int)
    requires
        0 <= k < lines.len(),
        forall|a: int, b: int| 0 <= a < b < lines.len() ==> lines[a] < lines[b],
    ensures
        count_upto(lines, lines[k] - 1) == k,
    decreases lines.len(),
{
    let pre = lines.drop_last();
    assert(lines.last() == lines[lines.len() - 1]);
    if k == lines.len() - 1 {
        lemma_count_all(pre, lines[k] - 1);
    } else {
        lemma_count_below(pre, k);
        assert(pre[k] == lines[k]);
    }
}

proof fn lemma_count_all(lines: Seq<int>, m: int)
    requires
        forall|a: int| 0 <= a < lines.len() ==> lines[a] <= m,
    ensures
        count_upto(lines, m) == lines.len(),
    decreases lines.len(),
{
    if lines.len() > 0 {
        lemma_count_all(lines.drop_last(), m);
        assert(lines.last() == lines[lines.len() - 1]);
    }
}

/// The entry's line numbers, as integers.
pub open spec fn entry_lines(asg: Seq<(usize, i64)>) -> Seq<int> {
    asg.map_values(|e: (usize, i64)| e.0 as int)
}

proof fn lemma_assigned_entry(asg: Seq<(usize, i64)>, k: int)
    requires
        0 <= k < asg.len(),
        forall|a: int, b: int| 0 <= a < b < asg.len() ==> asg[a].0 != asg[b].0,
    ensures
        assigned(asg, asg[k].0 as int) == Some(asg[k].1),
    decreases asg.len(),
{
    if k < asg.len() - 1 {
        let pre = asg.drop_last();
        lemma_assigned_entry(pre, k);
        assert(pre[k] == asg[k]);
        assert(asg.last() == asg[asg.len() - 1]);
    }
}

proof fn lemma_assigned_absent(asg: Seq<(usize, i64)>, l: int)
    requires
        forall|a: int| 0 <= a < asg.len() ==> asg[a].0 as int != l,
    ensures
        assigned(asg, l) is None,
    decreases asg.len(),
{
    if asg.len() > 0 {
        lemma_assigned_absent(asg.drop_last(), l);
        assert(asg.last() == asg[asg.len() - 1]);
    }
}

proof fn lemma_assigned_before_counts(asg: Seq<(usize, i64)>, m: int)
    requires
        0 <= m,
        forall|a: int, b: int| 0 <= a < b < asg.len() ==> asg[a].0 != asg[b].0,
        forall|a: int| 0 <= a < asg.len() ==> asg[a].0 >= 1,
    ensures
        assigned_before(asg, m) == count_upto(entry_lines(asg), m),
    decreases m,
{
    let lines = entry_lines(asg);
    assert forall|a: int, b: int| 0 <= a < b < lines.len() implies lines[a] != lines[b] by {
        assert(lines[a] == asg[a].0 as int && lines[b] == asg[b].0 as int);
    }
    if m == 0 {
        assert forall|a: int| 0 <= a < lines.len() implies lines[a] >= 1 by {
            assert(lines[a] == asg[a].0 as int);
        }
        lemma_count_zero(lines);
    } else {
        lemma_assigned_before_counts(asg, m - 1);
        lemma_count_step(lines, m);
        if lines.contains(m) {
            let k = choose|k: int| 0 <= k < lines.len() && lines[k] == m;
            lemma_assigned_entry(asg, k);
        } else {
            assert forall|a: int| 0 <= a < asg.len() implies asg[a].0 as int != m by {
                assert(lines[a] == asg[a].0 as int);
            }
            lemma_assigned_absent(asg, m);
        }
    }
}

proof fn lemma_no_dup(cards: Seq<CardModel>, n: nat)
    requires
        n <= cards.len(),
        forall|j: int| 0 <= j < n ==> !dup_at(cards, j),
    ensures
        first_dup(cards, n) is None,
    decreases n,
{
    if n > 0 {
        lemma_no_dup(cards, (n - 1) as nat);
    }
}

/// For a card file without `ID:` lines, `parse` succeeds; writing one ID per
/// card at its line, the IDs all distinct, and parsing again succeeds too,
/// with the same cards, card `k` carrying the `k`-th ID and starting `k`
/// lines further down.
pub proof fn lemma_parse_after_inject(c: Seq<char>, asg: Seq<(usize, i64)>)
    requires
        forall|k: int| 0 <= k < lines_of(c).len() ==> !(classify(#[trigger] lines_of(c)[k]) is Id),
        asg.len() == scan(c)->Ok_0.len(),
        forall|k: int| 0 <= k < asg.len() ==> asg[k].0 as int == (#[trigger] scan(c)->Ok_0[k]).line,
        forall|a: int, b: int| 0 <= a < b < asg.len() ==> asg[a].1 != asg[b].1,
    ensures
        scan(c) is Ok,
        first_dup(scan(c)->Ok_0, scan(c)->Ok_0.len()) is None,
        scan(inject_spec(c, asg)) is Ok,
        ({
            let cards = scan(c)->Ok_0;
            let cs = scan(inject_spec(c, asg))->Ok_0;
            &&& cs.len() == cards.len()
            &&& first_dup(cs, cs.len()) is None
            &&& forall|k: int|
                0 <= k < cs.len() ==> #[trigger] cs[k] == (CardModel {
                    id: Some(asg[k].1),
                    line: cards[k].line + k,
                    ..cards[k]
                })
        }),
{
    let v = lines_of(c);
    lemma_lines_increase(v, v.len() as int);
    let st = run(v, v.len())->Ok_0;
    lemma_close_ordered(st, v.len() as int);
    assert(scan(c) == Ok::<Seq<CardModel>, (int, Seq<char>)>(close(st)));
    let cards = close(st);
    // Card lines, and the entries' lines, increase strictly.
    let lines = entry_lines(asg);
    assert forall|a: int, b: int| 0 <= a < b < asg.len() implies asg[a].0 != asg[b].0 by {
        assert(asg[a].0 as int == cards[a].line);
        assert(asg[b].0 as int == cards[b].line);
    }
    assert forall|a: int| 0 <= a < asg.len() implies asg[a].0 >= 1 by {
        assert(asg[a].0 as int == cards[a].line);
    }
    assert forall|a: int, b: int| 0 <= a < b < lines.len() implies lines[a] < lines[b] by {
        assert(asg[a].0 as int == cards[a].line);
        assert(asg[b].0 as int == cards[b].line);
    }
    // The reading has no duplicate: it has no IDs.
    assert forall|j: int| 0 <= j < cards.len() implies !dup_at(cards, j) by {
        assert(cards[j].id is None);
    }
    lemma_no_dup(cards, cards.len());
    // Each assigned line is a card line.
    assert forall|l: int| (#[trigger] assigned(asg, l)) is Some implies exists|k: int|
        0 <= k < scan(c)->Ok_0.len() && scan(c)->Ok_0[k].line == l by {
        if !(exists|k: int| 0 <= k < asg.len() && asg[k].0 as int == l) {
            lemma_assigned_absent(asg, l);
        } else {
            let k = choose|k: int| 0 <= k < asg.len() && asg[k].0 as int == l;
            assert(cards[k].line == l);
        }
    }
    lemma_file_ids_read_back(c, asg);
    let cs = scan(inject_spec(c, asg))->Ok_0;
    assert forall|k: int| 0 <= k < cs.len() implies #[trigger] cs[k] == (CardModel {
        id: Some(asg[k].1),
        line: cards[k].line + k,
        ..cards[k]
    }) by {
        lemma_assigned_entry(asg, k);
        assert(lines[k] == cards[k].line);
        lemma_count_below(lines, k);
        lemma_assigned_before_counts(asg, cards[k].line - 1);
        assert(cs[k] == with_id(asg, cards[k]));
    }
    assert forall|j: int| 0 <= j < cs.len() implies !dup_at(cs, j) by {
        if dup_at(cs, j) {
            let i = choose|i: int| 0 <= i < j && cs[i].id == cs[j].id;
            assert(cs[i].id == Some(asg[i].1));
            assert(cs[j].id == Some(asg[j].1));
        }
    }
    lemma_no_dup(cs, cs.len());
}

} // verus!
