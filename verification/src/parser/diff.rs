//! Structural line and word diff.
//!
//! Produces a line-level unified diff that keeps unchanged context lines, and for each pair of
//! changed lines the intra-line word-level changes: the words of both lines are aligned along a
//! longest common subsequence, and lines that share too few words are not aligned at all.

use vstd::prelude::*;
use vstd::string::StringExecFns;

use crate::text;

verus! {

/// Beyond this many cells the line alignment is skipped in favour of a plain "all removed, then
/// all added" rendering.
pub const MAX_LCS_CELLS: usize = 40_000;

#[derive(Debug, Clone, Copy, PartialEq, Eq, Structural)]
pub enum DiffLineKind {
    Context,
    Removed,
    Added,
}

#[derive(Debug, Clone, PartialEq)]
pub struct DiffSegment {
    pub text: String,
    /// True when this span differs from the paired line (word-level highlight).
    pub changed: bool,
}

#[derive(Debug, Clone, PartialEq)]
pub struct DiffLine {
    pub kind: DiffLineKind,
    pub segments: Vec<DiffSegment>,
}

/// A line classified as context, removed or added, before word-level segmenting.
#[derive(Debug, Clone, PartialEq)]
pub struct LineOp {
    pub kind: DiffLineKind,
    pub text: String,
}

/// The contents of a [`DiffSegment`].
#[verifier::ext_equal]
pub struct SegmentView {
    pub text: Seq<char>,
    pub changed: bool,
}

/// The contents of a [`DiffLine`].
#[verifier::ext_equal]
pub struct LineView {
    pub kind: DiffLineKind,
    pub segments: Seq<SegmentView>,
}

/// The contents of a [`LineOp`].
#[verifier::ext_equal]
pub struct OpView {
    pub kind: DiffLineKind,
    pub text: Seq<char>,
}

impl DeepView for DiffSegment {
    type V = SegmentView;

    open spec fn deep_view(&self) -> SegmentView {
        SegmentView { text: self.text@, changed: self.changed }
    }
}

impl DeepView for DiffLine {
    type V = LineView;

    open spec fn deep_view(&self) -> LineView {
        LineView { kind: self.kind, segments: self.segments.deep_view() }
    }
}

impl DeepView for LineOp {
    type V = OpView;

    open spec fn deep_view(&self) -> OpView {
        OpView { kind: self.kind, text: self.text@ }
    }
}

/// What a character belongs to: a word, white space or punctuation.
#[derive(Debug, Clone, Copy, PartialEq, Eq, Structural)]
pub enum CharClass {
    Word,
    Whitespace,
    Punct,
}

/// The class of a character: letters, digits and the underscore make words.
pub open spec fn char_class(c: char) -> CharClass {
    if text::letter_or_digit(c) || c == '_' {
        CharClass::Word
    } else if text::white_space(c) {
        CharClass::Whitespace
    } else {
        CharClass::Punct
    }
}

/// The maximal runs of characters of one class, in order.
pub open spec fn tokens(s: Seq<char>) -> Seq<Seq<char>>
    decreases s.len(),
{
    if s.len() == 0 {
        seq![]
    } else {
        let before = tokens(s.drop_last());
        if s.len() >= 2 && char_class(s[s.len() - 2]) == char_class(s.last()) {
            before.drop_last().push(before.last().push(s.last()))
        } else {
            before.push(seq![s.last()])
        }
    }
}

fn classify(c: char) -> (r: CharClass)
    ensures
        r == char_class(c),
{
    if c.is_alphanumeric() || c == '_' {
        CharClass::Word
    } else if c.is_whitespace() {
        CharClass::Whitespace
    } else {
        CharClass::Punct
    }
}

/// Words (letters, digits, underscore), white space runs and punctuation runs.
pub fn tokenize(s: &str) -> (r: Vec<String>)
    ensures
        r.deep_view() == tokens(s@),
{
    let mut out: Vec<String> = Vec::new();
    let mut current = String::new();
    let mut current_class: Option<CharClass> = None;
    for c in it: s.chars()
        invariant
            it.seq() == s@,
            it.index() <= s@.len(),
            it.index() == 0 ==> current_class is None && current@.len() == 0 && out@.len() == 0,
            it.index() > 0 ==> {
                &&& current_class == Some(char_class(s@[it.index() - 1]))
                &&& current@.len() > 0
                &&& tokens(s@.take(it.index() as int)) == out.deep_view().push(current@)
            },
    {
        let class = classify(c);
        let ghost k = it.index() as int;
        let ghost upto = s@.take(k + 1);
        proof {
            assert(upto.drop_last() =~= s@.take(k));
            assert(upto.last() == c);
            if k > 0 {
                assert(upto[upto.len() - 2] == s@[k - 1]);
            }
        }
        match current_class {
            Some(cc) if cc == class => {
                current.push(c);
                assert(tokens(upto) == out.deep_view().push(current@));
            },
            _ => {
                let ghost before = out.deep_view();
                if !current.as_str().is_empty() {
                    out.push(current);
                    current = String::new();
                    assert(out.deep_view() =~= tokens(s@.take(k)));
                } else {
                    assert(k == 0);
                    assert(out.deep_view() =~= tokens(s@.take(k)));
                }
                current.push(c);
                current_class = Some(class);
                assert(current@ =~= seq![c]);
            },
        }
    }
    assert(s@.take(s@.len() as int) =~= s@);
    if !current.as_str().is_empty() {
        let ghost before = out.deep_view();
        let ghost last = current@;
        out.push(current);
        assert(out.deep_view() =~= before.push(last));
    }
    out
}

/// The length of a longest common subsequence of `a` from `i` on and `b` from `j` on.
pub open spec fn lcs_len(a: Seq<Seq<char>>, b: Seq<Seq<char>>, i: int, j: int) -> nat
    decreases a.len() - i, b.len() - j,
{
    if i < 0 || j < 0 || i >= a.len() || j >= b.len() {
        0
    } else if a[i] == b[j] {
        1 + lcs_len(a, b, i + 1, j + 1)
    } else {
        let skip_a = lcs_len(a, b, i + 1, j);
        let skip_b = lcs_len(a, b, i, j + 1);
        if skip_a >= skip_b {
            skip_a
        } else {
            skip_b
        }
    }
}

/// The positions that the alignment of `a` from `i` on and `b` from `j` on matches: equal
/// elements are matched at once, and otherwise the side is advanced whose rest keeps the longer
/// common subsequence, `a` where both keep equally long ones.
pub open spec fn lcs_pairs(a: Seq<Seq<char>>, b: Seq<Seq<char>>, i: int, j: int) -> Seq<(int, int)>
    decreases a.len() - i, b.len() - j,
{
    if i < 0 || j < 0 || i >= a.len() || j >= b.len() {
        seq![]
    } else if a[i] == b[j] {
        seq![(i, j)] + lcs_pairs(a, b, i + 1, j + 1)
    } else if lcs_len(a, b, i + 1, j) >= lcs_len(a, b, i, j + 1) {
        lcs_pairs(a, b, i + 1, j)
    } else {
        lcs_pairs(a, b, i, j + 1)
    }
}

/// Whether the alignment matches position `k` of `a`.
pub open spec fn matched_old(a: Seq<Seq<char>>, b: Seq<Seq<char>>, k: int) -> bool {
    exists|p: int|
        0 <= p < lcs_pairs(a, b, 0, 0).len() && (#[trigger] lcs_pairs(a, b, 0, 0)[p]).0 == k
}

/// Whether the alignment matches position `k` of `b`.
pub open spec fn matched_new(a: Seq<Seq<char>>, b: Seq<Seq<char>>, k: int) -> bool {
    exists|p: int|
        0 <= p < lcs_pairs(a, b, 0, 0).len() && (#[trigger] lcs_pairs(a, b, 0, 0)[p]).1 == k
}

/// The lengths of the longest common subsequences of all tails: entry `[k][l]` is that of the
/// last `k` elements of `a` and the last `l` elements of `b`.
fn lcs_table(a: &[String], b: &[String]) -> (t: Vec<Vec<usize>>)
    ensures
        t@.len() == a@.len() + 1,
        forall|k: int, l: int|
            0 <= k <= a@.len() && 0 <= l <= b@.len() ==> (#[trigger] t@[k]@[l]) == lcs_len(
                a.deep_view(),
                b.deep_view(),
                a@.len() - k,
                b@.len() - l,
            ),
        forall|k: int| 0 <= k <= a@.len() ==> (#[trigger] t@[k])@.len() == b@.len() + 1,
{
    let n = a.len();
    let m = b.len();
    let ghost av = a.deep_view();
    let ghost bv = b.deep_view();
    let mut t: Vec<Vec<usize>> = Vec::new();
    let mut first: Vec<usize> = Vec::new();
    first.push(0);
    let mut l: usize = 0;
    while l < m
        invariant
            l <= m,
            first@.len() == l + 1,
            forall|x: int| 0 <= x <= l ==> first@[x] == 0,
        decreases m - l,
    {
        first.push(0);
        l += 1;
    }
    t.push(first);
    let mut k: usize = 0;
    while k < n
        invariant
            k <= n,
            n == a@.len(),
            m == b@.len(),
            av == a.deep_view(),
            bv == b.deep_view(),
            t@.len() == k + 1,
            forall|x: int| 0 <= x <= k ==> (#[trigger] t@[x])@.len() == m + 1,
            forall|x: int, y: int|
                0 <= x <= k && 0 <= y <= m ==> (#[trigger] t@[x]@[y]) == lcs_len(
                    av,
                    bv,
                    n - x,
                    m - y,
                ),
        decreases n - k,
    {
        let i: usize = n - 1 - k;
        let mut row: Vec<usize> = Vec::new();
        row.push(0);
        let mut l: usize = 0;
        while l < m
            invariant
                l <= m,
                k < n,
                i == n - 1 - k,
                n == a@.len(),
                m == b@.len(),
                av == a.deep_view(),
                bv == b.deep_view(),
                t@.len() == k + 1,
                t@[k as int]@.len() == m + 1,
                forall|y: int|
                    0 <= y <= m ==> (#[trigger] t@[k as int]@[y]) == lcs_len(av, bv, i + 1, m - y),
                row@.len() == l + 1,
                forall|y: int| 0 <= y <= l ==> (#[trigger] row@[y]) == lcs_len(av, bv, i as int, m - y),
            decreases m - l,
        {
            let j: usize = m - 1 - l;
            assert(av[i as int] == a@[i as int]@ && bv[j as int] == b@[j as int]@);
            proof {
                lemma_lcs_len_bound(av, bv, i + 1, j + 1);
                assert(t@[k as int]@[l as int] == lcs_len(av, bv, i + 1, j + 1));
                assert(t@[k as int]@[l + 1] == lcs_len(av, bv, i + 1, j as int));
                assert(row@[l as int] == lcs_len(av, bv, i as int, j + 1));
            }
            let value: usize = if a[i] == b[j] {
                t[k][l] + 1
            } else {
                let skip_a: usize = t[k][l + 1];
                let skip_b: usize = row[l];
                if skip_a >= skip_b {
                    skip_a
                } else {
                    skip_b
                }
            };
            row.push(value);
            l += 1;
        }
        t.push(row);
        k += 1;
    }
    t
}

proof fn lemma_lcs_len_bound(a: Seq<Seq<char>>, b: Seq<Seq<char>>, i: int, j: int)
    requires
        0 <= i,
        0 <= j,
    ensures
        lcs_len(a, b, i, j) <= if i <= a.len() {
            a.len() - i
        } else {
            0
        },
    decreases a.len() - i, b.len() - j,
{
    if i < a.len() && j < b.len() {
        lemma_lcs_len_bound(a, b, i + 1, j + 1);
        lemma_lcs_len_bound(a, b, i + 1, j);
        lemma_lcs_len_bound(a, b, i, j + 1);
    }
}

/// Marks which elements of `a` and of `b` the alignment along their longest common subsequence
/// matches.
fn lcs_matched(a: &[String], b: &[String]) -> (r: (Vec<bool>, Vec<bool>))
    ensures
        r.0@ == Seq::new(a@.len(), |k: int| matched_old(a.deep_view(), b.deep_view(), k)),
        r.1@ == Seq::new(b@.len(), |k: int| matched_new(a.deep_view(), b.deep_view(), k)),
{
    let n = a.len();
    let m = b.len();
    let ghost av = a.deep_view();
    let ghost bv = b.deep_view();
    let ghost all = lcs_pairs(av, bv, 0, 0);
    let t = lcs_table(a, b);
    let mut a_matched: Vec<bool> = Vec::new();
    let mut b_matched: Vec<bool> = Vec::new();
    let mut i: usize = 0;
    let mut j: usize = 0;
    let ghost mut done: Seq<(int, int)> = seq![];
    proof {
        assert(all =~= done + lcs_pairs(av, bv, 0, 0));
    }
    while i < n && j < m
        invariant
            i <= n,
            j <= m,
            n == a@.len(),
            m == b@.len(),
            av == a.deep_view(),
            bv == b.deep_view(),
            t@.len() == n + 1,
            forall|k: int, l: int|
                0 <= k <= n && 0 <= l <= m ==> (#[trigger] t@[k]@[l]) == lcs_len(
                    av,
                    bv,
                    n - k,
                    m - l,
                ),
            forall|k: int| 0 <= k <= n ==> (#[trigger] t@[k])@.len() == m + 1,
            all == lcs_pairs(av, bv, 0, 0),
            all == done + lcs_pairs(av, bv, i as int, j as int),
            forall|p: int| 0 <= p < done.len() ==> (#[trigger] done[p]).0 < i && done[p].1 < j,
            a_matched@.len() == i,
            b_matched@.len() == j,
            forall|k: int| 0 <= k < i ==> #[trigger] a_matched@[k] == has_first(done, k),
            forall|k: int| 0 <= k < j ==> #[trigger] b_matched@[k] == has_second(done, k),
        decreases (n - i) + (m - j),
    {
        assert(av[i as int] == a@[i as int]@ && bv[j as int] == b@[j as int]@);
        let ghost old_done = done;
        proof {
            assert(t@[n - i - 1]@[m - j] == lcs_len(av, bv, i + 1, j as int));
            assert(t@[n - i]@[m - j - 1] == lcs_len(av, bv, i as int, j + 1));
        }
        if a[i] == b[j] {
            proof {
                done = done.push((i as int, j as int));
                assert(all =~= done + lcs_pairs(av, bv, i + 1, j + 1));
                lemma_pairs_push(old_done, i as int, j as int);
            }
            a_matched.push(true);
            b_matched.push(true);
            i += 1;
            j += 1;
        } else if t[n - i - 1][m - j] >= t[n - i][m - j - 1] {
            a_matched.push(false);
            i += 1;
        } else {
            b_matched.push(false);
            j += 1;
        }
    }
    proof {
        assert(lcs_pairs(av, bv, i as int, j as int) =~= seq![]);
        assert(all =~= done);
    }
    while i < n
        invariant
            i <= n,
            n == a@.len(),
            a_matched@.len() == i,
            forall|k: int| 0 <= k < i ==> #[trigger] a_matched@[k] == has_first(done, k),
            forall|p: int| 0 <= p < done.len() ==> (#[trigger] done[p]).0 < i,
        decreases n - i,
    {
        a_matched.push(false);
        i += 1;
    }
    while j < m
        invariant
            j <= m,
            m == b@.len(),
            b_matched@.len() == j,
            forall|k: int| 0 <= k < j ==> #[trigger] b_matched@[k] == has_second(done, k),
            forall|p: int| 0 <= p < done.len() ==> (#[trigger] done[p]).1 < j,
        decreases m - j,
    {
        b_matched.push(false);
        j += 1;
    }
    proof {
        assert forall|k: int| has_first(all, k) == matched_old(av, bv, k) by {}
        assert forall|k: int| has_second(all, k) == matched_new(av, bv, k) by {}
    }
    (a_matched, b_matched)
}

spec fn has_first(pairs: Seq<(int, int)>, k: int) -> bool {
    exists|p: int| 0 <= p < pairs.len() && (#[trigger] pairs[p]).0 == k
}

spec fn has_second(pairs: Seq<(int, int)>, k: int) -> bool {
    exists|p: int| 0 <= p < pairs.len() && (#[trigger] pairs[p]).1 == k
}

proof fn lemma_pairs_push(pairs: Seq<(int, int)>, i: int, j: int)
    ensures
        forall|k: int|
            #[trigger] has_first(pairs.push((i, j)), k) == (has_first(pairs, k) || k == i),
        forall|k: int|
            #[trigger] has_second(pairs.push((i, j)), k) == (has_second(pairs, k) || k == j),
{
    let more = pairs.push((i, j));
    assert(more[pairs.len() as int] == (i, j));
    assert forall|k: int| #[trigger] has_first(more, k) == (has_first(pairs, k) || k == i) by {
        if has_first(pairs, k) {
            let p = choose|p: int| 0 <= p < pairs.len() && (#[trigger] pairs[p]).0 == k;
            assert(more[p].0 == k);
        }
        if has_first(more, k) && k != i {
            let p = choose|p: int| 0 <= p < more.len() && (#[trigger] more[p]).0 == k;
            assert(pairs[p].0 == k);
        }
    }
    assert forall|k: int| #[trigger] has_second(more, k) == (has_second(pairs, k) || k == j) by {
        if has_second(pairs, k) {
            let p = choose|p: int| 0 <= p < pairs.len() && (#[trigger] pairs[p]).1 == k;
            assert(more[p].1 == k);
        }
        if has_second(more, k) && k != j {
            let p = choose|p: int| 0 <= p < more.len() && (#[trigger] more[p]).1 == k;
            assert(pairs[p].1 == k);
        }
    }
}

/// Tokens merged into segments, neighbours with the same flag into one.
pub open spec fn merged_segments(toks: Seq<Seq<char>>, changed: Seq<bool>) -> Seq<SegmentView>
    decreases toks.len(),
{
    if toks.len() == 0 {
        seq![]
    } else {
        let before = merged_segments(toks.drop_last(), changed.drop_last());
        if before.len() > 0 && before.last().changed == changed.last() {
            before.drop_last().push(
                SegmentView { text: before.last().text + toks.last(), changed: changed.last() },
            )
        } else {
            before.push(SegmentView { text: toks.last(), changed: changed.last() })
        }
    }
}

/// Which tokens count as changed: those that are not matched, white space excepted.
pub open spec fn changed_flags(toks: Seq<Seq<char>>, matched: Seq<bool>) -> Seq<bool> {
    Seq::new(toks.len(), |k: int| !matched[k] && !text::all_white(toks[k]))
}

/// Merges adjacent tokens with the same changed flag. White space is never flagged changed, so
/// leading and trailing spaces are not highlighted on their own.
fn build_segments(toks: &[String], matched: &[bool]) -> (segs: Vec<DiffSegment>)
    requires
        toks@.len() == matched@.len(),
    ensures
        segs.deep_view() == merged_segments(
            toks.deep_view(),
            changed_flags(toks.deep_view(), matched@),
        ),
{
    let ghost tv = toks.deep_view();
    let ghost flags = changed_flags(tv, matched@);
    let mut segs: Vec<DiffSegment> = Vec::new();
    let mut i: usize = 0;
    assert(segs.deep_view() =~= merged_segments(tv.take(0), flags.take(0)));
    while i < toks.len()
        invariant
            i <= toks@.len(),
            toks@.len() == matched@.len(),
            tv == toks.deep_view(),
            flags == changed_flags(tv, matched@),
            segs.deep_view() == merged_segments(tv.take(i as int), flags.take(i as int)),
        decreases toks@.len() - i,
    {
        let changed = !matched[i] && !text::is_blank(toks[i].as_str());
        let ghost before = segs.deep_view();
        proof {
            assert(tv.take(i + 1).drop_last() =~= tv.take(i as int));
            assert(flags.take(i + 1).drop_last() =~= flags.take(i as int));
            assert(tv[i as int] == toks@[i as int]@);
            assert(changed == flags[i as int]);
        }
        let len = segs.len();
        if len > 0 && segs[len - 1].changed == changed {
            segs[len - 1].text.append(toks[i].as_str());
            assert(segs.deep_view() =~= before.drop_last().push(
                SegmentView { text: before.last().text + tv[i as int], changed },
            ));
        } else {
            segs.push(DiffSegment { text: toks[i].clone(), changed });
            assert(segs.deep_view() =~= before.push(
                SegmentView { text: tv[i as int], changed },
            ));
        }
        i += 1;
    }
    proof {
        assert(tv.take(i as int) =~= tv);
        assert(flags.take(i as int) =~= flags);
    }
    segs
}

/// How many flags are set.
pub open spec fn count_set(flags: Seq<bool>) -> nat
    decreases flags.len(),
{
    if flags.len() == 0 {
        0
    } else {
        count_set(flags.drop_last()) + if flags.last() {
            1nat
        } else {
            0nat
        }
    }
}

/// Which tokens are not white space.
pub open spec fn word_flags(toks: Seq<Seq<char>>) -> Seq<bool> {
    Seq::new(toks.len(), |k: int| !text::all_white(toks[k]))
}

/// Which tokens are matched and not white space.
pub open spec fn shared_flags(toks: Seq<Seq<char>>, matched: Seq<bool>) -> Seq<bool> {
    Seq::new(toks.len(), |k: int| matched[k] && !text::all_white(toks[k]))
}

/// The flags of the tokens of `a` that the alignment with `b` matches.
pub open spec fn old_flags(a: Seq<Seq<char>>, b: Seq<Seq<char>>) -> Seq<bool> {
    Seq::new(a.len(), |k: int| matched_old(a, b, k))
}

/// The flags of the tokens of `b` that the alignment with `a` matches.
pub open spec fn new_flags(a: Seq<Seq<char>>, b: Seq<Seq<char>>) -> Seq<bool> {
    Seq::new(b.len(), |k: int| matched_new(a, b, k))
}

/// Whether two token lists share enough for their lines to count as an edit of each other: the
/// matched tokens that are not white space make at least three tenths of those of the longer
/// list, and there is one to share.
pub open spec fn similar(a: Seq<Seq<char>>, b: Seq<Seq<char>>) -> bool {
    let wa = count_set(word_flags(a));
    let wb = count_set(word_flags(b));
    let longer = if wa >= wb {
        wa
    } else {
        wb
    };
    longer > 0 && 10 * count_set(shared_flags(a, old_flags(a, b))) >= 3 * longer
}

/// The segments of both lines, where they are similar.
pub open spec fn word_diff_of(old_line: Seq<char>, new_line: Seq<char>) -> Option<
    (Seq<SegmentView>, Seq<SegmentView>),
> {
    let a = tokens(old_line);
    let b = tokens(new_line);
    if similar(a, b) {
        Some(
            (
                merged_segments(a, changed_flags(a, old_flags(a, b))),
                merged_segments(b, changed_flags(b, new_flags(a, b))),
            ),
        )
    } else {
        None
    }
}

/// Counts the tokens that are not white space, of those with a set flag alone where flags are
/// given.
fn count_words(toks: &[String], matched: Option<&[bool]>) -> (n: usize)
    requires
        matched matches Some(f) ==> f@.len() == toks@.len(),
    ensures
        matched matches Some(f) ==> n == count_set(shared_flags(toks.deep_view(), f@)),
        matched is None ==> n == count_set(word_flags(toks.deep_view())),
{
    let ghost tv = toks.deep_view();
    let ghost flags = match matched {
        Some(f) => shared_flags(tv, f@),
        None => word_flags(tv),
    };
    let mut n: usize = 0;
    let mut i: usize = 0;
    while i < toks.len()
        invariant
            n <= i <= toks@.len(),
            tv == toks.deep_view(),
            matched matches Some(f) ==> f@.len() == toks@.len() && flags == shared_flags(tv, f@),
            matched is None ==> flags == word_flags(tv),
            n == count_set(flags.take(i as int)),
        decreases toks@.len() - i,
    {
        proof {
            assert(flags.take(i + 1).drop_last() =~= flags.take(i as int));
            assert(tv[i as int] == toks@[i as int]@);
        }
        let counted = match matched {
            Some(f) => f[i],
            None => true,
        };
        if counted && !text::is_blank(toks[i].as_str()) {
            n += 1;
        }
        i += 1;
    }
    assert(flags.take(i as int) =~= flags);
    n
}

/// Word-level diff of two lines. Returns `None` when the lines are too dissimilar to be
/// considered a single edit (the caller then shows them wholly removed and added).
pub fn word_diff(old_line: &str, new_line: &str) -> (r: Option<
    (Vec<DiffSegment>, Vec<DiffSegment>),
>)
    ensures
        r.deep_view() == word_diff_of(old_line@, new_line@),
{
    let a = tokenize(old_line);
    let b = tokenize(new_line);
    let a_slice = a.as_slice();
    let b_slice = b.as_slice();
    let (a_matched, b_matched) = lcs_matched(a_slice, b_slice);
    let ghost av = a.deep_view();
    let ghost bv = b.deep_view();
    proof {
        assert(a_slice.deep_view() =~= av);
        assert(b_slice.deep_view() =~= bv);
        assert(a_matched@ =~= old_flags(av, bv));
        assert(b_matched@ =~= new_flags(av, bv));
    }
    let a_words = count_words(a_slice, None);
    let b_words = count_words(b_slice, None);
    let longer: usize = if a_words >= b_words {
        a_words
    } else {
        b_words
    };
    if longer == 0 {
        return None;
    }
    let shared = count_words(a_slice, Some(a_matched.as_slice()));
    if (shared as u128) * 10 < (longer as u128) * 3 {
        return None;
    }
    Some(
        (
            build_segments(a_slice, a_matched.as_slice()),
            build_segments(b_slice, b_matched.as_slice()),
        ),
    )
}

/// The lines as operations of one kind.
pub open spec fn ops_of(kind: DiffLineKind, lines: Seq<Seq<char>>) -> Seq<OpView> {
    Seq::new(lines.len(), |k: int| OpView { kind, text: lines[k] })
}

/// The edit that turns `a` from `i` on into `b` from `j` on: matched lines are kept as context,
/// and where two lines differ the side is advanced whose rest keeps the longer common
/// subsequence, the old one where both keep equally long ones.
pub open spec fn edit_script(a: Seq<Seq<char>>, b: Seq<Seq<char>>, i: int, j: int) -> Seq<OpView>
    decreases a.len() - i, b.len() - j,
{
    if i < 0 || j < 0 || i > a.len() || j > b.len() {
        seq![]
    } else if i == a.len() {
        ops_of(DiffLineKind::Added, b.skip(j))
    } else if j == b.len() {
        ops_of(DiffLineKind::Removed, a.skip(i))
    } else if a[i] == b[j] {
        seq![OpView { kind: DiffLineKind::Context, text: a[i] }] + edit_script(a, b, i + 1, j + 1)
    } else if lcs_len(a, b, i + 1, j) >= lcs_len(a, b, i, j + 1) {
        seq![OpView { kind: DiffLineKind::Removed, text: a[i] }] + edit_script(a, b, i + 1, j)
    } else {
        seq![OpView { kind: DiffLineKind::Added, text: b[j] }] + edit_script(a, b, i, j + 1)
    }
}

/// The line operations of an edit: the edit script, or everything removed and then everything
/// added where the alignment would take too many cells.
pub open spec fn line_ops(a: Seq<Seq<char>>, b: Seq<Seq<char>>) -> Seq<OpView> {
    if a.len() * b.len() > MAX_LCS_CELLS {
        ops_of(DiffLineKind::Removed, a) + ops_of(DiffLineKind::Added, b)
    } else {
        edit_script(a, b, 0, 0)
    }
}

/// Appends the lines from `from` on as operations of one kind.
fn push_ops(ops: &mut Vec<LineOp>, kind: DiffLineKind, lines: &[String], from: usize)
    requires
        from <= lines@.len(),
    ensures
        final(ops).deep_view() == old(ops).deep_view() + ops_of(
            kind,
            lines.deep_view().skip(from as int),
        ),
{
    let ghost start = ops.deep_view();
    let ghost lv = lines.deep_view();
    let mut i: usize = from;
    while i < lines.len()
        invariant
            from <= i <= lines@.len(),
            lv == lines.deep_view(),
            ops.deep_view() == start + ops_of(kind, lv.subrange(from as int, i as int)),
        decreases lines@.len() - i,
    {
        let ghost before = ops.deep_view();
        ops.push(LineOp { kind, text: lines[i].clone() });
        proof {
            assert(ops.deep_view() =~= before.push(OpView { kind, text: lv[i as int] }));
            assert(start + ops_of(kind, lv.subrange(from as int, i + 1)) =~= before.push(
                OpView { kind, text: lv[i as int] },
            ));
        }
        i += 1;
    }
    assert(lv.subrange(from as int, i as int) =~= lv.skip(from as int));
}

/// Classifies the lines of an edit.
pub fn line_diff_ops(old_lines: &[String], new_lines: &[String]) -> (ops: Vec<LineOp>)
    ensures
        ops.deep_view() == line_ops(old_lines.deep_view(), new_lines.deep_view()),
{
    let n = old_lines.len();
    let m = new_lines.len();
    let ghost av = old_lines.deep_view();
    let ghost bv = new_lines.deep_view();
    let mut ops: Vec<LineOp> = Vec::new();
    let too_many = match n.checked_mul(m) {
        Some(cells) => cells > MAX_LCS_CELLS,
        None => true,
    };
    if too_many {
        push_ops(&mut ops, DiffLineKind::Removed, old_lines, 0);
        push_ops(&mut ops, DiffLineKind::Added, new_lines, 0);
        proof {
            assert(av.skip(0) =~= av);
            assert(bv.skip(0) =~= bv);
            assert(ops.deep_view() =~= line_ops(av, bv));
        }
        return ops;
    }
    let t = lcs_table(old_lines, new_lines);
    let mut i: usize = 0;
    let mut j: usize = 0;
    assert(ops.deep_view() + edit_script(av, bv, 0, 0) =~= edit_script(av, bv, 0, 0));
    while i < n && j < m
        invariant
            i <= n,
            j <= m,
            n == old_lines@.len(),
            m == new_lines@.len(),
            av == old_lines.deep_view(),
            bv == new_lines.deep_view(),
            t@.len() == n + 1,
            forall|k: int, l: int|
                0 <= k <= n && 0 <= l <= m ==> (#[trigger] t@[k]@[l]) == lcs_len(
                    av,
                    bv,
                    n - k,
                    m - l,
                ),
            forall|k: int| 0 <= k <= n ==> (#[trigger] t@[k])@.len() == m + 1,
            ops.deep_view() + edit_script(av, bv, i as int, j as int) == edit_script(av, bv, 0, 0),
        decreases (n - i) + (m - j),
    {
        let ghost before = ops.deep_view();
        let ghost rest = edit_script(av, bv, i as int, j as int);
        proof {
            assert(av[i as int] == old_lines@[i as int]@ && bv[j as int] == new_lines@[j as int]@);
            assert(t@[n - i - 1]@[m - j] == lcs_len(av, bv, i + 1, j as int));
            assert(t@[n - i]@[m - j - 1] == lcs_len(av, bv, i as int, j + 1));
        }
        if old_lines[i] == new_lines[j] {
            ops.push(LineOp { kind: DiffLineKind::Context, text: old_lines[i].clone() });
            assert(ops.deep_view() =~= before.push(rest[0]));
            assert(before + rest =~= ops.deep_view() + edit_script(av, bv, i + 1, j + 1));
            i += 1;
            j += 1;
        } else if t[n - i - 1][m - j] >= t[n - i][m - j - 1] {
            ops.push(LineOp { kind: DiffLineKind::Removed, text: old_lines[i].clone() });
            assert(ops.deep_view() =~= before.push(rest[0]));
            assert(before + rest =~= ops.deep_view() + edit_script(av, bv, i + 1, j as int));
            i += 1;
        } else {
            ops.push(LineOp { kind: DiffLineKind::Added, text: new_lines[j].clone() });
            assert(ops.deep_view() =~= before.push(rest[0]));
            assert(before + rest =~= ops.deep_view() + edit_script(av, bv, i as int, j + 1));
            j += 1;
        }
    }
    let ghost before = ops.deep_view();
    push_ops(&mut ops, DiffLineKind::Removed, old_lines, i);
    push_ops(&mut ops, DiffLineKind::Added, new_lines, j);
    proof {
        assert(ops.deep_view() =~= before + edit_script(av, bv, i as int, j as int));
    }
    ops
}

/// How many operations at the front are of one kind.
pub open spec fn leading(ops: Seq<OpView>, kind: DiffLineKind) -> nat
    decreases ops.len(),
{
    if ops.len() == 0 || ops[0].kind != kind {
        0
    } else {
        1 + leading(ops.skip(1), kind)
    }
}

/// How many operations at the front are changes.
pub open spec fn leading_changes(ops: Seq<OpView>) -> nat
    decreases ops.len(),
{
    if ops.len() == 0 || ops[0].kind == DiffLineKind::Context {
        0
    } else {
        1 + leading_changes(ops.skip(1))
    }
}

proof fn lemma_leading_bound(ops: Seq<OpView>, kind: DiffLineKind)
    ensures
        leading(ops, kind) <= ops.len(),
    decreases ops.len(),
{
    if ops.len() > 0 && ops[0].kind == kind {
        lemma_leading_bound(ops.skip(1), kind);
    }
}

/// The changes at the front are among the operations.
pub proof fn lemma_leading_changes_bound(ops: Seq<OpView>)
    ensures
        leading_changes(ops) <= ops.len(),
    decreases ops.len(),
{
    if ops.len() > 0 && ops[0].kind != DiffLineKind::Context {
        lemma_leading_changes_bound(ops.skip(1));
    }
}

/// The operations of one kind, in order.
pub open spec fn of_kind(ops: Seq<OpView>, kind: DiffLineKind) -> Seq<OpView> {
    ops.filter(|op: OpView| op.kind == kind)
}

/// The operations with every maximal run of changes reordered: removed lines first, then added
/// ones.
pub open spec fn grouped(ops: Seq<OpView>) -> Seq<OpView>
    decreases ops.len(),
{
    if ops.len() == 0 {
        seq![]
    } else if ops[0].kind == DiffLineKind::Context {
        seq![ops[0]] + grouped(ops.skip(1))
    } else {
        proof {
            lemma_leading_changes_bound(ops);
        }
        let n = leading_changes(ops) as int;
        let run = ops.take(n);
        of_kind(run, DiffLineKind::Removed) + of_kind(run, DiffLineKind::Added) + grouped(
            ops.skip(n),
        )
    }
}

/// Appending an operation appends it to those of its kind.
pub proof fn lemma_of_kind_push(ops: Seq<OpView>, op: OpView, kind: DiffLineKind)
    ensures
        of_kind(ops.push(op), kind) == if op.kind == kind {
            of_kind(ops, kind).push(op)
        } else {
            of_kind(ops, kind)
        },
{
    reveal(Seq::filter);
    assert(ops.push(op).drop_last() =~= ops);
}

/// Within each maximal run of changes, emits all removed lines before all added lines, so that
/// removed and added lines can be paired for word-diffing.
pub fn group_runs(ops: Vec<LineOp>) -> (out: Vec<LineOp>)
    ensures
        out.deep_view() == grouped(ops.deep_view()),
{
    let ghost ov = ops.deep_view();
    let mut out: Vec<LineOp> = Vec::new();
    let mut k: usize = 0;
    assert(ov.skip(0) =~= ov);
    assert(out.deep_view() + grouped(ov.skip(0)) =~= grouped(ov));
    while k < ops.len()
        invariant
            k <= ops@.len(),
            ov == ops.deep_view(),
            out.deep_view() + grouped(ov.skip(k as int)) == grouped(ov),
        decreases ops@.len() - k,
    {
        let ghost before = out.deep_view();
        let ghost start = k as int;
        let ghost rest = ov.skip(start);
        assert(rest[0] == ops@[start].deep_view());
        if ops[k].kind == DiffLineKind::Context {
            out.push(LineOp { kind: ops[k].kind, text: ops[k].text.clone() });
            k += 1;
            proof {
                assert(rest.skip(1) =~= ov.skip(start + 1));
                assert(out.deep_view() =~= before.push(rest[0]));
                assert(before + grouped(rest) =~= out.deep_view() + grouped(ov.skip(k as int)));
            }
        } else {
            let mut removed: Vec<LineOp> = Vec::new();
            let mut added: Vec<LineOp> = Vec::new();
            proof {
                reveal(Seq::filter);
                assert(ov.subrange(start, start) =~= seq![]);
                assert(removed.deep_view() =~= of_kind(seq![], DiffLineKind::Removed));
                assert(added.deep_view() =~= of_kind(seq![], DiffLineKind::Added));
            }
            while k < ops.len() && ops[k].kind != DiffLineKind::Context
                invariant
                    0 <= start <= k <= ops@.len(),
                    ov == ops.deep_view(),
                    removed.deep_view() == of_kind(
                        ov.subrange(start, k as int),
                        DiffLineKind::Removed,
                    ),
                    added.deep_view() == of_kind(ov.subrange(start, k as int), DiffLineKind::Added),
                    leading_changes(ov.skip(start)) == (k - start) + leading_changes(
                        ov.skip(k as int),
                    ),
                ensures
                    k == ops@.len() || ov[k as int].kind == DiffLineKind::Context,
                decreases ops@.len() - k,
            {
                let ghost seen = ov.subrange(start, k as int);
                let ghost op = ov[k as int];
                let ghost removed_before = removed.deep_view();
                let ghost added_before = added.deep_view();
                proof {
                    assert(ov.subrange(start, k + 1) =~= seen.push(op));
                    lemma_of_kind_push(seen, op, DiffLineKind::Removed);
                    lemma_of_kind_push(seen, op, DiffLineKind::Added);
                    assert(ov.skip(k as int).skip(1) =~= ov.skip(k + 1));
                    assert(ov.skip(k as int)[0] == op);
                }
                let copy = LineOp { kind: ops[k].kind, text: ops[k].text.clone() };
                if ops[k].kind == DiffLineKind::Removed {
                    removed.push(copy);
                    assert(removed.deep_view() =~= removed_before.push(op));
                } else {
                    added.push(copy);
                    assert(added.deep_view() =~= added_before.push(op));
                }
                k += 1;
            }
            let ghost removed_all = removed.deep_view();
            let ghost added_all = added.deep_view();
            out.append(&mut removed);
            out.append(&mut added);
            proof {
                assert(leading_changes(ov.skip(k as int)) == 0);
                assert(out.deep_view() =~= before + removed_all + added_all);
                assert(rest.take(k - start) =~= ov.subrange(start, k as int));
                assert(rest.skip(k - start) =~= ov.skip(k as int));
                assert(k > start);
                assert(before + grouped(rest) =~= out.deep_view() + grouped(ov.skip(k as int)));
            }
        }
    }
    assert(ov.skip(k as int) =~= seq![]);
    assert(out.deep_view() =~= grouped(ov));
    out
}

/// A line shown as one unhighlighted segment.
pub open spec fn whole_line(kind: DiffLineKind, text: Seq<char>) -> LineView {
    LineView { kind, segments: seq![SegmentView { text, changed: false }] }
}

/// The `i`-th removed line of a run, paired with the `i`-th added one where there is one and the
/// two are similar.
pub open spec fn removed_line(removed: Seq<OpView>, added: Seq<OpView>, i: int) -> LineView {
    if i < added.len() {
        match word_diff_of(removed[i].text, added[i].text) {
            Some((old_segments, new_segments)) => LineView {
                kind: DiffLineKind::Removed,
                segments: old_segments,
            },
            None => whole_line(DiffLineKind::Removed, removed[i].text),
        }
    } else {
        whole_line(DiffLineKind::Removed, removed[i].text)
    }
}

/// The `i`-th added line of a run, paired with the `i`-th removed one where there is one and the
/// two are similar.
pub open spec fn added_line(removed: Seq<OpView>, added: Seq<OpView>, i: int) -> LineView {
    if i < removed.len() {
        match word_diff_of(removed[i].text, added[i].text) {
            Some((old_segments, new_segments)) => LineView {
                kind: DiffLineKind::Added,
                segments: new_segments,
            },
            None => whole_line(DiffLineKind::Added, added[i].text),
        }
    } else {
        whole_line(DiffLineKind::Added, added[i].text)
    }
}

/// The lines of a run of removed lines followed by added ones.
pub open spec fn run_lines(removed: Seq<OpView>, added: Seq<OpView>) -> Seq<LineView> {
    Seq::new(removed.len(), |i: int| removed_line(removed, added, i)) + Seq::new(
        added.len(),
        |i: int| added_line(removed, added, i),
    )
}

/// The rendered lines of a list of operations: context lines whole, and in each run of removed
/// lines followed by added ones the lines at the same place paired.
pub open spec fn segmented(ops: Seq<OpView>) -> Seq<LineView>
    decreases ops.len(),
{
    if ops.len() == 0 {
        seq![]
    } else if ops[0].kind == DiffLineKind::Context {
        seq![whole_line(DiffLineKind::Context, ops[0].text)] + segmented(ops.skip(1))
    } else {
        let r = leading(ops, DiffLineKind::Removed) as int;
        let a = leading(ops.skip(r), DiffLineKind::Added) as int;
        proof {
            lemma_run_bound(ops);
        }
        run_lines(ops.take(r), ops.subrange(r, r + a)) + segmented(ops.skip(r + a))
    }
}

/// A list that starts with a change starts with a non-empty run.
pub proof fn lemma_run_bound(ops: Seq<OpView>)
    requires
        ops.len() > 0,
        ops[0].kind != DiffLineKind::Context,
    ensures
        ({
            let r = leading(ops, DiffLineKind::Removed);
            let a = leading(ops.skip(r as int), DiffLineKind::Added);
            0 < r + a <= ops.len()
        }),
{
    let r = leading(ops, DiffLineKind::Removed);
    lemma_leading_bound(ops, DiffLineKind::Removed);
    lemma_leading_bound(ops.skip(r as int), DiffLineKind::Added);
    if ops[0].kind == DiffLineKind::Added {
        assert(ops.skip(0) =~= ops);
    }
}

/// A line of one unhighlighted segment.
fn plain_line(kind: DiffLineKind, line: &String) -> (r: DiffLine)
    ensures
        r.deep_view() == whole_line(kind, line@),
{
    let mut segments: Vec<DiffSegment> = Vec::new();
    segments.push(DiffSegment { text: line.clone(), changed: false });
    let r = DiffLine { kind, segments };
    assert(r.deep_view().segments =~= whole_line(kind, line@).segments);
    r
}

/// Counts the operations of one kind from position `from` on.
fn count_leading(ops: &Vec<LineOp>, from: usize, kind: DiffLineKind) -> (n: usize)
    requires
        from <= ops@.len(),
    ensures
        n == leading(ops.deep_view().skip(from as int), kind),
        from + n <= ops@.len(),
{
    let ghost ov = ops.deep_view();
    let total = ops.len();
    let mut n: usize = 0;
    while from + n < total && ops[from + n].kind == kind
        invariant
            total == ops@.len(),
            from + n <= total,
            ov == ops.deep_view(),
            leading(ov.skip(from as int), kind) == n + leading(ov.skip(from + n), kind),
        ensures
            from + n == ops@.len() || ov[from + n].kind != kind,
        decreases ops@.len() - from - n,
    {
        proof {
            assert(ov.skip(from + n).skip(1) =~= ov.skip(from + n + 1));
            assert(ov.skip(from + n)[0] == ov[from + n]);
        }
        n += 1;
    }
    n
}

/// The rendered lines of the run of `r` removed and `a` added lines at position `k`.
fn render_run(ops: &Vec<LineOp>, k: usize, r: usize, a: usize) -> (lines: Vec<DiffLine>)
    requires
        k + r + a <= ops@.len(),
    ensures
        lines.deep_view() == run_lines(
            ops.deep_view().subrange(k as int, k + r),
            ops.deep_view().subrange(k + r, k + r + a),
        ),
{
    let ghost removed = ops.deep_view().subrange(k as int, k + r);
    let ghost added = ops.deep_view().subrange(k + r, k + r + a);
    let mut old_side: Vec<DiffLine> = Vec::new();
    let mut new_side: Vec<DiffLine> = Vec::new();
    let total = ops.len();
    let longer: usize = if r >= a {
        r
    } else {
        a
    };
    let mut i: usize = 0;
    while i < longer
        invariant
            i <= longer,
            k + r + a <= total,
            total == ops@.len(),
            longer == if r >= a {
                r
            } else {
                a
            },
            removed == ops.deep_view().subrange(k as int, k + r),
            added == ops.deep_view().subrange(k + r, k + r + a),
            old_side.deep_view() == Seq::new(
                if i < r {
                    i as nat
                } else {
                    r as nat
                },
                |x: int| removed_line(removed, added, x),
            ),
            new_side.deep_view() == Seq::new(
                if i < a {
                    i as nat
                } else {
                    a as nat
                },
                |x: int| added_line(removed, added, x),
            ),
        decreases longer - i,
    {
        let ghost old_before = old_side.deep_view();
        let ghost new_before = new_side.deep_view();
        if i < r && i < a {
            assert(removed[i as int].text == ops@[k + i].text@);
            assert(added[i as int].text == ops@[k + r + i].text@);
            match word_diff(ops[k + i].text.as_str(), ops[k + r + i].text.as_str()) {
                Some((old_segments, new_segments)) => {
                    old_side.push(
                        DiffLine { kind: DiffLineKind::Removed, segments: old_segments },
                    );
                    new_side.push(DiffLine { kind: DiffLineKind::Added, segments: new_segments });
                },
                None => {
                    old_side.push(plain_line(DiffLineKind::Removed, &ops[k + i].text));
                    new_side.push(plain_line(DiffLineKind::Added, &ops[k + r + i].text));
                },
            }
            assert(old_side.deep_view() =~= old_before.push(
                removed_line(removed, added, i as int),
            ));
            assert(new_side.deep_view() =~= new_before.push(added_line(removed, added, i as int)));
        } else if i < r {
            assert(removed[i as int].text == ops@[k + i].text@);
            old_side.push(plain_line(DiffLineKind::Removed, &ops[k + i].text));
            assert(old_side.deep_view() =~= old_before.push(
                removed_line(removed, added, i as int),
            ));
        } else {
            assert(added[i as int].text == ops@[k + r + i].text@);
            new_side.push(plain_line(DiffLineKind::Added, &ops[k + r + i].text));
            assert(new_side.deep_view() =~= new_before.push(added_line(removed, added, i as int)));
        }
        i += 1;
    }
    let ghost old_all = old_side.deep_view();
    let ghost new_all = new_side.deep_view();
    old_side.append(&mut new_side);
    assert(old_side.deep_view() =~= old_all + new_all);
    old_side
}

/// Turns line operations into rendered diff lines, pairing the removed and added lines of each
/// change run place by place for word-level highlighting. The operations are expected grouped
/// (see [`group_runs`]).
pub fn segmentize(ops: Vec<LineOp>) -> (result: Vec<DiffLine>)
    ensures
        result.deep_view() == segmented(ops.deep_view()),
{
    let ghost ov = ops.deep_view();
    let n = ops.len();
    let mut result: Vec<DiffLine> = Vec::new();
    let mut k: usize = 0;
    assert(ov.skip(0) =~= ov);
    assert(result.deep_view() + segmented(ov.skip(0)) =~= segmented(ov));
    while k < n
        invariant
            k <= n,
            n == ops@.len(),
            ov == ops.deep_view(),
            result.deep_view() + segmented(ov.skip(k as int)) == segmented(ov),
        decreases n - k,
    {
        let ghost before = result.deep_view();
        let ghost rest = ov.skip(k as int);
        assert(rest[0] == ops@[k as int].deep_view());
        if ops[k].kind == DiffLineKind::Context {
            result.push(plain_line(DiffLineKind::Context, &ops[k].text));
            proof {
                assert(rest.skip(1) =~= ov.skip(k + 1));
                assert(result.deep_view() =~= before.push(
                    whole_line(DiffLineKind::Context, rest[0].text),
                ));
                assert(before + segmented(rest) =~= result.deep_view() + segmented(ov.skip(k + 1)));
            }
            k += 1;
        } else {
            let r = count_leading(&ops, k, DiffLineKind::Removed);
            let a = count_leading(&ops, k + r, DiffLineKind::Added);
            let mut run = render_run(&ops, k, r, a);
            let ghost run_view = run.deep_view();
            result.append(&mut run);
            proof {
                lemma_run_bound(rest);
                assert(rest.skip(r as int) =~= ov.skip(k + r));
                assert(rest.take(r as int) =~= ov.subrange(k as int, k + r));
                assert(rest.subrange(r as int, r + a) =~= ov.subrange(k + r, k + r + a));
                assert(rest.skip(r + a) =~= ov.skip(k + r + a));
                assert(result.deep_view() =~= before + run_view);
                assert(before + segmented(rest) =~= result.deep_view() + segmented(
                    ov.skip(k + r + a),
                ));
            }
            k += r + a;
        }
    }
    assert(ov.skip(k as int) =~= seq![]);
    assert(result.deep_view() =~= segmented(ov));
    result
}

/// The rendered diff of an edit.
pub open spec fn edit_diff(old_lines: Seq<Seq<char>>, new_lines: Seq<Seq<char>>) -> Seq<LineView> {
    segmented(grouped(line_ops(old_lines, new_lines)))
}

/// The rendered diff of two versions of some lines.
pub fn compute_edit_diff(old_lines: &[String], new_lines: &[String]) -> (r: Vec<DiffLine>)
    ensures
        r.deep_view() == edit_diff(old_lines.deep_view(), new_lines.deep_view()),
{
    segmentize(group_runs(line_diff_ops(old_lines, new_lines)))
}

} // verus!
