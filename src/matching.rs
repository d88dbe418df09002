//! Typed-answer matching: whitespace normalisation, Levenshtein distance and
//! a word-level diff.
use vstd::prelude::*;
use crate::text::{is_ws, views, from_chars, to_chars};
use crate::types::MatchingMode;

verus! {

/// Edit distance with unit cost for insertion, deletion and substitution.
pub open spec fn lev(a: Seq<char>, b: Seq<char>) -> nat
    decreases a.len() + b.len(),
{
    if a.len() == 0 {
        b.len()
    } else if b.len() == 0 {
        a.len()
    } else {
        let del = lev(a.drop_last(), b) + 1;
        let ins = lev(a, b.drop_last()) + 1;
        let sub = lev(a.drop_last(), b.drop_last()) + if a.last() == b.last() {
            0nat
        } else {
            1nat
        };
        if del <= ins && del <= sub {
            del
        } else if ins <= sub {
            ins
        } else {
            sub
        }
    }
}

/// The larger of two lengths.
pub open spec fn max_len(a: Seq<char>, b: Seq<char>) -> nat {
    if a.len() >= b.len() {
        a.len()
    } else {
        b.len()
    }
}

/// The distance never exceeds the longer length.
pub proof fn lemma_lev_bounded(a: Seq<char>, b: Seq<char>)
    ensures
        lev(a, b) <= max_len(a, b),
    decreases a.len() + b.len(),
{
    if a.len() > 0 && b.len() > 0 {
        lemma_lev_bounded(a.drop_last(), b.drop_last());
    }
}

/// Edit distance is symmetric.
pub proof fn lemma_lev_symmetric(a: Seq<char>, b: Seq<char>)
    ensures
        lev(a, b) == lev(b, a),
    decreases a.len() + b.len(),
{
    if a.len() > 0 && b.len() > 0 {
        lemma_lev_symmetric(a.drop_last(), b);
        lemma_lev_symmetric(a, b.drop_last());
        lemma_lev_symmetric(a.drop_last(), b.drop_last());
    }
}

/// The distance is zero exactly when the sequences are equal.
pub proof fn lemma_lev_zero_iff_equal(a: Seq<char>, b: Seq<char>)
    ensures
        lev(a, b) == 0 <==> a == b,
    decreases a.len() + b.len(),
{
    if a.len() > 0 && b.len() > 0 {
        lemma_lev_zero_iff_equal(a.drop_last(), b.drop_last());
        if a == b {
            assert(a.drop_last() == b.drop_last());
        }
        if lev(a, b) == 0 {
            assert(a =~= a.drop_last().push(a.last()));
            assert(b =~= b.drop_last().push(b.last()));
        }
    } else if a.len() == 0 && b.len() == 0 {
        assert(a =~= b);
    }
}

/// Levenshtein distance between the characters of two strings.
pub fn levenshtein_distance(a: &str, b: &str) -> (r: usize)
    ensures
        r == lev(a@, b@),
{
    let ac = to_chars(a);
    let bc = to_chars(b);
    let m = ac.len();
    let n = bc.len();
    if m == 0 {
        return n;
    }
    if n == 0 {
        return m;
    }
    let mut prev: Vec<usize> = Vec::new();
    let mut j: usize = 0;
    while j < n
        invariant
            0 <= j <= n,
            n == bc@.len(),
            prev@.len() == j,
            forall|k: int| 0 <= k < j ==> prev@[k] == lev(Seq::<char>::empty(), bc@.take(k)),
        decreases n - j,
    {
        prev.push(j);
        j += 1;
    }
    prev.push(n);
    assert(prev@[n as int] == lev(Seq::<char>::empty(), bc@.take(n as int)));
    assert(ac@.take(0) =~= Seq::<char>::empty());
    let mut i: usize = 0;
    while i < m
        invariant
            0 <= i <= m,
            m == ac@.len(),
            n == bc@.len(),
            0 < m,
            0 < n,
            ac@ == a@,
            bc@ == b@,
            prev@.len() == n + 1,
            forall|k: int| 0 <= k <= n ==> prev@[k] == lev(ac@.take(i as int), bc@.take(k)),
        decreases m - i,
    {
        let mut curr: Vec<usize> = Vec::new();
        curr.push(i + 1);
        assert(curr@[0] == lev(ac@.take(i + 1), bc@.take(0)));
        let mut j: usize = 0;
        while j < n
            invariant
                0 <= i < m,
                0 <= j <= n,
                m == ac@.len(),
                n == bc@.len(),
                prev@.len() == n + 1,
                curr@.len() == j + 1,
                forall|k: int| 0 <= k <= n ==> prev@[k] == lev(ac@.take(i as int), bc@.take(k)),
                forall|k: int| 0 <= k <= j ==> curr@[k] == lev(ac@.take(i + 1), bc@.take(k)),
            decreases n - j,
        {
            let ghost x = ac@.take(i + 1);
            let ghost y = bc@.take(j + 1);
            assert(x.drop_last() =~= ac@.take(i as int));
            assert(y.drop_last() =~= bc@.take(j as int));
            proof {
                lemma_lev_bounded(ac@.take(i as int), bc@.take(j as int));
            }
            let cost: usize = if ac[i] == bc[j] {
                0
            } else {
                1
            };
            let mut best = prev[j] + cost;
            if prev[j + 1] < best {
                best = prev[j + 1] + 1;
            }
            if curr[j] < best {
                best = curr[j] + 1;
            }
            curr.push(best);
            j += 1;
        }
        prev = curr;
        i += 1;
    }
    assert(ac@.take(m as int) =~= ac@);
    assert(bc@.take(n as int) =~= bc@);
    prev[n]
}

/// The words of `s`: its maximal runs of non-whitespace characters.
pub open spec fn words_of(s: Seq<char>) -> Seq<Seq<char>>
    decreases s.len(),
{
    if s.len() == 0 {
        Seq::empty()
    } else {
        let w = words_of(s.drop_last());
        let c = s.last();
        if is_ws(c) {
            w
        } else if s.len() >= 2 && !is_ws(s[s.len() - 2]) {
            w.update(w.len() - 1, w.last().push(c))
        } else {
            w.push(seq![c])
        }
    }
}

proof fn lemma_words_nonempty(s: Seq<char>)
    requires
        s.len() > 0,
        !is_ws(s.last()),
    ensures
        words_of(s).len() >= 1,
    decreases s.len(),
{
    if s.len() >= 2 && !is_ws(s[s.len() - 2]) {
        assert(s.drop_last().last() == s[s.len() - 2]);
        lemma_words_nonempty(s.drop_last());
    }
}

/// The words of a character sequence.
pub fn split_words(s: &[char]) -> (r: Vec<Vec<char>>)
    ensures
        views(r@) == words_of(s@),
{
    let mut words: Vec<Vec<char>> = Vec::new();
    let mut i: usize = 0;
    assert(views(words@) =~= words_of(s@.take(0)));
    while i < s.len()
        invariant
            0 <= i <= s@.len(),
            views(words@) == words_of(s@.take(i as int)),
        decreases s@.len() - i,
    {
        let c = s[i];
        let ghost pre = s@.take(i as int);
        assert(s@.take(i + 1).drop_last() =~= pre);
        if crate::text::is_whitespace(c) {
        } else if i >= 1 && !crate::text::is_whitespace(s[i - 1]) {
            proof {
                lemma_words_nonempty(pre);
            }
            let ghost before = words@;
            let mut last = words.pop().unwrap();
            last.push(c);
            words.push(last);
            assert(views(words@) =~= views(before).update(
                views(before).len() - 1,
                views(before).last().push(c),
            ));
        } else {
            let ghost before = words@;
            let mut w: Vec<char> = Vec::new();
            w.push(c);
            words.push(w);
            assert(views(words@) =~= views(before).push(seq![c]));
        }
        i += 1;
    }
    assert(s@.take(s@.len() as int) =~= s@);
    words
}

/// Words joined by single spaces.
pub open spec fn join_words(ws: Seq<Seq<char>>) -> Seq<char>
    decreases ws.len(),
{
    if ws.len() == 0 {
        Seq::empty()
    } else if ws.len() == 1 {
        ws[0]
    } else {
        join_words(ws.drop_last()).push(' ') + ws.last()
    }
}

/// `s` trimmed, with every inner run of whitespace replaced by one space.
pub open spec fn normalize(s: Seq<char>) -> Seq<char> {
    join_words(words_of(s))
}

fn normalize_chars(s: &[char]) -> (r: Vec<char>)
    ensures
        r@ == normalize(s@),
{
    let words = split_words(s);
    let mut out: Vec<char> = Vec::new();
    let mut k: usize = 0;
    while k < words.len()
        invariant
            0 <= k <= words@.len(),
            views(words@) == words_of(s@),
            out@ == join_words(views(words@).take(k as int)),
        decreases words@.len() - k,
    {
        let ghost before = out@;
        if k > 0 {
            out.push(' ');
        }
        let w = &words[k];
        let mut t: usize = 0;
        while t < w.len()
            invariant
                0 <= t <= w@.len(),
                out@ == (if k > 0 {
                    before.push(' ')
                } else {
                    before
                }) + w@.take(t as int),
            decreases w@.len() - t,
        {
            out.push(w[t]);
            assert(w@.take(t + 1) =~= w@.take(t as int).push(w@[t as int]));
            t += 1;
        }
        let ghost ws = views(words@);
        assert(ws.take(k + 1).drop_last() =~= ws.take(k as int));
        assert(ws[k as int] == w@);
        assert(w@.take(w@.len() as int) =~= w@);
        if k == 0 {
            assert(out@ =~= ws.take(1)[0]);
        }
        k += 1;
    }
    assert(views(words@).take(words@.len() as int) =~= views(words@));
    out
}

/// Trim a string and collapse each inner run of whitespace to one space.
pub fn normalize_whitespace(s: &str) -> (r: String)
    ensures
        r@ == normalize(s@),
{
    let c = to_chars(s);
    let n = normalize_chars(c.as_slice());
    from_chars(n.as_slice())
}

/// What `str::to_lowercase` makes of a string.
pub uninterp spec fn lower_of(s: Seq<char>) -> Seq<char>;

/// Relies on `str::to_lowercase`: the lowercase form of `s`, which depends on
/// its characters alone.
#[verifier::external_body]
fn lowercase(s: &str) -> (r: String)
    ensures
        r@ == lower_of(s@),
{
    s.to_lowercase()
}

fn lower_chars(s: &[char]) -> (r: Vec<char>)
    ensures
        r@ == lower_of(s@),
{
    let st = from_chars(s);
    let l = lowercase(st.as_str());
    to_chars(l.as_str())
}

/// How a typed answer and the expected one compare, as whole numbers: the
/// similarity is `1 - distance / scale`, or 1 when `scale` is 0.
pub struct AnswerCheck {
    /// The typed answer, normalised.
    pub typed_normalized: String,
    /// The expected answer, normalised.
    pub correct_normalized: String,
    pub distance: usize,
    pub scale: usize,
}

/// The distance between two answers under a matching mode: 0 or 1 for the
/// exact modes, the edit distance of the lowercased normalised answers for
/// the fuzzy one.
pub open spec fn answer_distance(typed: Seq<char>, correct: Seq<char>, mode: MatchingMode) -> nat {
    let t = normalize(typed);
    let c = normalize(correct);
    match mode {
        MatchingMode::Exact => if t == c {
            0
        } else {
            1
        },
        MatchingMode::CaseInsensitive => if lower_of(t) == lower_of(c) {
            0
        } else {
            1
        },
        MatchingMode::Fuzzy => lev(lower_of(t), lower_of(c)),
    }
}

/// The length the distance is measured against.
pub open spec fn answer_scale(typed: Seq<char>, correct: Seq<char>, mode: MatchingMode) -> nat {
    match mode {
        MatchingMode::Fuzzy => max_len(lower_of(normalize(typed)), lower_of(normalize(correct))),
        _ => 1,
    }
}

/// Distance and scale of two answers already put in the form `mode`
/// compares (normalised, and lowercased for the case-insensitive and fuzzy
/// modes): 0 or 1 against a scale of 1 for the exact modes, the edit
/// distance against the longer length for the fuzzy one.
pub open spec fn measure_spec(t: Seq<char>, c: Seq<char>, mode: MatchingMode) -> (nat, nat) {
    match mode {
        MatchingMode::Fuzzy => (lev(t, c), max_len(t, c)),
        _ => (if t == c {
            0
        } else {
            1
        }, 1),
    }
}

/// Distance and scale of two answers in the form `mode` compares.
pub fn measure_keys(t: &str, c: &str, mode: MatchingMode) -> (r: (usize, usize))
    ensures
        (r.0 as nat, r.1 as nat) == measure_spec(t@, c@, mode),
{
    match mode {
        MatchingMode::Fuzzy => {
            let d = levenshtein_distance(t, c);
            let tn = t.unicode_len();
            let cn = c.unicode_len();
            (d, if tn >= cn {
                tn
            } else {
                cn
            })
        },
        _ => {
            let tv = to_chars(t);
            let cv = to_chars(c);
            if crate::text::chars_eq(tv.as_slice(), cv.as_slice()) {
                (0, 1)
            } else {
                (1, 1)
            }
        },
    }
}

/// Compare a typed answer with the expected one under `mode`.
pub fn check_answer(typed: &str, correct: &str, mode: MatchingMode) -> (r: AnswerCheck)
    ensures
        r.typed_normalized@ == normalize(typed@),
        r.correct_normalized@ == normalize(correct@),
        r.distance == answer_distance(typed@, correct@, mode),
        r.scale == answer_scale(typed@, correct@, mode),
{
    let t = normalize_chars(to_chars(typed).as_slice());
    let c = normalize_chars(to_chars(correct).as_slice());
    let (tk, ck) = match mode {
        MatchingMode::Exact => (from_chars(t.as_slice()), from_chars(c.as_slice())),
        _ => (
            from_chars(lower_chars(t.as_slice()).as_slice()),
            from_chars(lower_chars(c.as_slice()).as_slice()),
        ),
    };
    let (distance, scale) = measure_keys(tk.as_str(), ck.as_str(), mode);
    AnswerCheck {
        typed_normalized: from_chars(t.as_slice()),
        correct_normalized: from_chars(c.as_slice()),
        distance,
        scale,
    }
}

/// An answer compared with itself is at distance 0, whatever the mode.
pub proof fn lemma_same_answer_matches(x: Seq<char>, mode: MatchingMode)
    ensures
        answer_distance(x, x, mode) == 0,
{
    lemma_lev_zero_iff_equal(lower_of(normalize(x)), lower_of(normalize(x)));
}

/// The distance never exceeds the scale, so the similarity lies in [0, 1];
/// it is 0 (similarity 1) exactly when the lowercased normalised answers are
/// equal, for the fuzzy mode.
pub proof fn lemma_similarity_range(typed: Seq<char>, correct: Seq<char>, mode: MatchingMode)
    ensures
        answer_distance(typed, correct, mode) <= answer_scale(typed, correct, mode),
        mode == MatchingMode::Fuzzy ==> (answer_distance(typed, correct, mode) == 0 <==> lower_of(
            normalize(typed),
        ) == lower_of(normalize(correct))),
{
    lemma_lev_bounded(lower_of(normalize(typed)), lower_of(normalize(correct)));
    lemma_lev_zero_iff_equal(lower_of(normalize(typed)), lower_of(normalize(correct)));
}

/// How a word of the diff relates the typed answer to the expected one.
#[derive(Debug, Clone, Copy, PartialEq, Eq, Structural)]
pub enum DiffType {
    /// In both answers.
    Same,
    /// In the expected answer only.
    Added,
    /// In the typed answer only.
    Removed,
}

/// One word of a diff.
#[derive(Debug, Clone)]
pub struct DiffSegment {
    pub text: String,
    pub diff_type: DiffType,
}

/// Whether typed word `i` and expected word `j` are equal, ignoring case.
pub open spec fn same_word(tw: Seq<Seq<char>>, cw: Seq<Seq<char>>, i: int, j: int) -> bool {
    lower_of(tw[i]) == lower_of(cw[j])
}

/// The diff of typed words `tw[i..]` against expected words `cw[j..]`.
///
/// Equal words (ignoring case) are `Same`. Otherwise, if the typed word
/// matches one of the next two expected words, the skipped expected words
/// are `Added`; else if the expected word matches one of the next two typed
/// words, the skipped typed words are `Removed`; else the typed word is
/// `Removed` and the expected word `Added`. Leftover words on either side are
/// `Removed` or `Added`.
pub open spec fn diff_from(tw: Seq<Seq<char>>, cw: Seq<Seq<char>>, i: int, j: int) -> Seq<
    (Seq<char>, DiffType),
>
    decreases (tw.len() - i) + (cw.len() - j),
{
    if i < 0 || j < 0 || i > tw.len() || j > cw.len() {
        Seq::empty()
    } else if i < tw.len() && j < cw.len() {
        if same_word(tw, cw, i, j) {
            seq![(tw[i], DiffType::Same)] + diff_from(tw, cw, i + 1, j + 1)
        } else if j + 1 < cw.len() && same_word(tw, cw, i, j + 1) {
            seq![(cw[j], DiffType::Added)] + diff_from(tw, cw, i, j + 1)
        } else if j + 2 < cw.len() && same_word(tw, cw, i, j + 2) {
            seq![(cw[j], DiffType::Added), (cw[j + 1], DiffType::Added)] + diff_from(
                tw,
                cw,
                i,
                j + 2,
            )
        } else if i + 1 < tw.len() && same_word(tw, cw, i + 1, j) {
            seq![(tw[i], DiffType::Removed)] + diff_from(tw, cw, i + 1, j)
        } else if i + 2 < tw.len() && same_word(tw, cw, i + 2, j) {
            seq![(tw[i], DiffType::Removed), (tw[i + 1], DiffType::Removed)] + diff_from(
                tw,
                cw,
                i + 2,
                j,
            )
        } else {
            seq![(tw[i], DiffType::Removed), (cw[j], DiffType::Added)] + diff_from(
                tw,
                cw,
                i + 1,
                j + 1,
            )
        }
    } else if i < tw.len() {
        seq![(tw[i], DiffType::Removed)] + diff_from(tw, cw, i + 1, j)
    } else if j < cw.len() {
        seq![(cw[j], DiffType::Added)] + diff_from(tw, cw, i, j + 1)
    } else {
        Seq::empty()
    }
}

/// The word diff of a typed answer against the expected one.
pub open spec fn word_diff_spec(typed: Seq<char>, correct: Seq<char>) -> Seq<(Seq<char>, DiffType)> {
    diff_from(words_of(typed), words_of(correct), 0, 0)
}

/// The text and kind of each segment.
pub open spec fn segment_views(v: Seq<DiffSegment>) -> Seq<(Seq<char>, DiffType)> {
    v.map_values(|d: DiffSegment| (d.text@, d.diff_type))
}

fn lower_all(ws: &Vec<Vec<char>>) -> (r: Vec<Vec<char>>)
    ensures
        r@.len() == ws@.len(),
        forall|k: int| 0 <= k < ws@.len() ==> (#[trigger] r@[k])@ == lower_of(ws@[k]@),
{
    let mut r: Vec<Vec<char>> = Vec::new();
    let mut k: usize = 0;
    while k < ws.len()
        invariant
            0 <= k <= ws@.len(),
            r@.len() == k,
            forall|t: int| 0 <= t < k ==> (#[trigger] r@[t])@ == lower_of(ws@[t]@),
        decreases ws@.len() - k,
    {
        r.push(lower_chars(ws[k].as_slice()));
        k += 1;
    }
    r
}

fn push_segment(out: &mut Vec<DiffSegment>, w: &Vec<char>, t: DiffType)
    ensures
        segment_views(final(out)@) == segment_views(old(out)@).push((w@, t)),
{
    out.push(DiffSegment { text: from_chars(w.as_slice()), diff_type: t });
    assert(segment_views(final(out)@) =~= segment_views(old(out)@).push((w@, t)));
}

/// Word-level diff between a typed answer and the expected one.
pub fn word_diff(typed: &str, correct: &str) -> (r: Vec<DiffSegment>)
    ensures
        segment_views(r@) == word_diff_spec(typed@, correct@),
{
    let tw = split_words(to_chars(typed).as_slice());
    let cw = split_words(to_chars(correct).as_slice());
    let tl = lower_all(&tw);
    let cl = lower_all(&cw);
    let ghost tv = views(tw@);
    let ghost cv = views(cw@);
    let n = tw.len();
    let m = cw.len();
    let mut out: Vec<DiffSegment> = Vec::new();
    let mut i: usize = 0;
    let mut j: usize = 0;
    while i < n || j < m
        invariant
            0 <= i <= n,
            0 <= j <= m,
            n == tw@.len(),
            m == cw@.len(),
            tv == views(tw@),
            cv == views(cw@),
            tv == words_of(typed@),
            cv == words_of(correct@),
            tl@.len() == n,
            cl@.len() == m,
            forall|k: int| 0 <= k < n ==> (#[trigger] tl@[k])@ == lower_of(tw@[k]@),
            forall|k: int| 0 <= k < m ==> (#[trigger] cl@[k])@ == lower_of(cw@[k]@),
            segment_views(out@) + diff_from(tv, cv, i as int, j as int) == diff_from(tv, cv, 0, 0),
        decreases (n - i) + (m - j),
    {
        let ghost before = segment_views(out@);
        if i < n && j < m {
            assert(tv[i as int] == tw@[i as int]@);
            assert(cv[j as int] == cw@[j as int]@);
            if crate::text::chars_eq(tl[i].as_slice(), cl[j].as_slice()) {
                push_segment(&mut out, &tw[i], DiffType::Same);
                i += 1;
                j += 1;
            } else if j + 1 < m && crate::text::chars_eq(tl[i].as_slice(), cl[j + 1].as_slice()) {
                push_segment(&mut out, &cw[j], DiffType::Added);
                j += 1;
            } else if m - j > 2 && crate::text::chars_eq(tl[i].as_slice(), cl[j + 2].as_slice()) {
                assert(cv[j + 1] == cw@[j + 1]@);
                push_segment(&mut out, &cw[j], DiffType::Added);
                push_segment(&mut out, &cw[j + 1], DiffType::Added);
                j += 2;
            } else if i + 1 < n && crate::text::chars_eq(cl[j].as_slice(), tl[i + 1].as_slice()) {
                push_segment(&mut out, &tw[i], DiffType::Removed);
                i += 1;
            } else if n - i > 2 && crate::text::chars_eq(cl[j].as_slice(), tl[i + 2].as_slice()) {
                assert(tv[i + 1] == tw@[i + 1]@);
                push_segment(&mut out, &tw[i], DiffType::Removed);
                push_segment(&mut out, &tw[i + 1], DiffType::Removed);
                i += 2;
            } else {
                push_segment(&mut out, &tw[i], DiffType::Removed);
                push_segment(&mut out, &cw[j], DiffType::Added);
                i += 1;
                j += 1;
            }
        } else if i < n {
            assert(tv[i as int] == tw@[i as int]@);
            push_segment(&mut out, &tw[i], DiffType::Removed);
            i += 1;
        } else {
            assert(cv[j as int] == cw@[j as int]@);
            push_segment(&mut out, &cw[j], DiffType::Added);
            j += 1;
        }
        assert(segment_views(out@) + diff_from(tv, cv, i as int, j as int) =~= diff_from(tv, cv, 0, 0));
    }
    assert(segment_views(out@) =~= diff_from(tv, cv, 0, 0));
    out
}

} // verus!
