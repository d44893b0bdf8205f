//! What holds of every diff.

use vstd::prelude::*;

use crate::parser::diff;
use crate::parser::diff::{CharClass, DiffLineKind, LineView, OpView, SegmentView};
use crate::text;

verus! {

/// The parts strung together.
pub open spec fn joined(parts: Seq<Seq<char>>) -> Seq<char>
    decreases parts.len(),
{
    if parts.len() == 0 {
        seq![]
    } else {
        joined(parts.drop_last()) + parts.last()
    }
}

/// The tokens of a line strung together are the line.
pub proof fn tokens_cover_the_line(s: Seq<char>)
    ensures
        joined(diff::tokens(s)) == s,
    decreases s.len(),
{
    if s.len() > 0 {
        let before = diff::tokens(s.drop_last());
        tokens_cover_the_line(s.drop_last());
        tokens_are_maximal_runs(s.drop_last());
        if s.len() >= 2 && diff::char_class(s[s.len() - 2]) == diff::char_class(s.last()) {
            let longer = before.last().push(s.last());
            assert(diff::tokens(s).drop_last() =~= before.drop_last());
            assert(joined(diff::tokens(s)) =~= joined(before.drop_last()) + longer);
            assert(joined(before) =~= joined(before.drop_last()) + before.last());
            assert(joined(diff::tokens(s)) =~= s.drop_last().push(s.last()));
        } else {
            assert(diff::tokens(s).drop_last() =~= before);
            assert(joined(diff::tokens(s)) =~= s.drop_last() + seq![s.last()]);
        }
        assert(s.drop_last().push(s.last()) =~= s);
    }
}

/// Whether every character of a token is of one class.
pub open spec fn of_class(token: Seq<char>, class: CharClass) -> bool {
    forall|i: int| 0 <= i < token.len() ==> diff::char_class(#[trigger] token[i]) == class
}

/// Whether every token is a non-empty run of characters of one class, and neighbouring tokens
/// are of different classes.
pub open spec fn maximal_runs(toks: Seq<Seq<char>>) -> bool {
    &&& forall|k: int| 0 <= k < toks.len() ==> (#[trigger] toks[k]).len() > 0
    &&& forall|k: int| 0 <= k < toks.len() ==> of_class(#[trigger] toks[k], diff::char_class(toks[k][0]))
    &&& forall|k: int, l: int|
        0 <= k && l == k + 1 && l < toks.len() ==> diff::char_class((#[trigger] toks[k])[0])
            != diff::char_class((#[trigger] toks[l])[0])
}

/// The tokens of a line are its maximal runs of characters of one class.
pub proof fn tokens_are_maximal_runs(s: Seq<char>)
    ensures
        maximal_runs(diff::tokens(s)),
        s.len() > 0 ==> diff::tokens(s).len() > 0 && diff::tokens(s).last().last() == s.last(),
    decreases s.len(),
{
    if s.len() > 0 {
        let p = s.drop_last();
        let before = diff::tokens(p);
        let all = diff::tokens(s);
        tokens_are_maximal_runs(p);
        if s.len() >= 2 && diff::char_class(s[s.len() - 2]) == diff::char_class(s.last()) {
            assert(p.last() == s[s.len() - 2]);
            assert(all == before.drop_last().push(before.last().push(s.last())));
            lemma_extend_last(before, s.last());
        } else {
            assert(all == before.push(seq![s.last()]));
            if s.len() >= 2 {
                assert(p.last() == s[s.len() - 2]);
                assert(before.last() == before[before.len() - 1]);
            }
            lemma_push_token(before, s.last());
        }
    }
}

proof fn lemma_extend_last(toks: Seq<Seq<char>>, c: char)
    requires
        maximal_runs(toks),
        toks.len() > 0,
        diff::char_class(toks.last().last()) == diff::char_class(c),
    ensures
        maximal_runs(toks.drop_last().push(toks.last().push(c))),
{
    let last = toks.last();
    let longer = last.push(c);
    let all = toks.drop_last().push(longer);
    assert(last == toks[toks.len() - 1]);
    assert(last[last.len() - 1] == last.last());
    assert(longer[0] == last[0]);
    assert(of_class(longer, diff::char_class(longer[0]))) by {
        assert forall|i: int| 0 <= i < longer.len() implies diff::char_class(#[trigger] longer[i])
            == diff::char_class(longer[0]) by {
            if i < last.len() {
                assert(longer[i] == last[i]);
            }
        }
    }
    assert(forall|k: int| 0 <= k < toks.len() - 1 ==> #[trigger] all[k] == toks[k]);
    assert(forall|k: int| 0 <= k < toks.len() ==> (#[trigger] all[k])[0] == toks[k][0]);
}

proof fn lemma_push_token(toks: Seq<Seq<char>>, c: char)
    requires
        maximal_runs(toks),
        toks.len() > 0 ==> diff::char_class(toks.last().last()) != diff::char_class(c),
    ensures
        maximal_runs(toks.push(seq![c])),
{
    let all = toks.push(seq![c]);
    assert(forall|k: int| 0 <= k < toks.len() ==> #[trigger] all[k] == toks[k]);
    if toks.len() > 0 {
        let last = toks[toks.len() - 1];
        assert(last[last.len() - 1] == last.last());
        assert(diff::char_class(last[0]) != diff::char_class(c));
    }
}

/// Whether `pairs` matches equal elements of `a` and `b`, from `i` and `j` on, in an order that
/// increases on both sides: a common subsequence with the places that it takes.
pub open spec fn is_matching(
    a: Seq<Seq<char>>,
    b: Seq<Seq<char>>,
    i: int,
    j: int,
    pairs: Seq<(int, int)>,
) -> bool {
    &&& forall|p: int|
        0 <= p < pairs.len() ==> {
            let (x, y) = #[trigger] pairs[p];
            i <= x < a.len() && j <= y < b.len() && a[x] == b[y]
        }
    &&& forall|p: int, q: int|
        0 <= p < q < pairs.len() ==> (#[trigger] pairs[p]).0 < (#[trigger] pairs[q]).0
            && pairs[p].1 < pairs[q].1
}

/// The alignment is a common subsequence, as long as stated.
pub proof fn alignment_is_a_common_subsequence(
    a: Seq<Seq<char>>,
    b: Seq<Seq<char>>,
    i: int,
    j: int,
)
    requires
        0 <= i,
        0 <= j,
    ensures
        is_matching(a, b, i, j, diff::lcs_pairs(a, b, i, j)),
        diff::lcs_pairs(a, b, i, j).len() == diff::lcs_len(a, b, i, j),
    decreases a.len() - i, b.len() - j,
{
    if i < a.len() && j < b.len() {
        if a[i] == b[j] {
            alignment_is_a_common_subsequence(a, b, i + 1, j + 1);
            let rest = diff::lcs_pairs(a, b, i + 1, j + 1);
            let all = diff::lcs_pairs(a, b, i, j);
            assert forall|p: int| 0 <= p < all.len() implies {
                let (x, y) = #[trigger] all[p];
                i <= x < a.len() && j <= y < b.len() && a[x] == b[y]
            } by {
                if p > 0 {
                    assert(all[p] == rest[p - 1]);
                }
            }
            assert forall|p: int, q: int| 0 <= p < q < all.len() implies (#[trigger] all[p]).0 < (
            #[trigger] all[q]).0 && all[p].1 < all[q].1 by {
                assert(all[q] == rest[q - 1]);
                if p > 0 {
                    assert(all[p] == rest[p - 1]);
                }
            }
        } else if diff::lcs_len(a, b, i + 1, j) >= diff::lcs_len(a, b, i, j + 1) {
            alignment_is_a_common_subsequence(a, b, i + 1, j);
        } else {
            alignment_is_a_common_subsequence(a, b, i, j + 1);
        }
    }
}

/// No common subsequence is longer than the alignment.
pub proof fn alignment_is_longest(
    a: Seq<Seq<char>>,
    b: Seq<Seq<char>>,
    i: int,
    j: int,
    pairs: Seq<(int, int)>,
)
    requires
        0 <= i,
        0 <= j,
        is_matching(a, b, i, j, pairs),
    ensures
        pairs.len() <= diff::lcs_len(a, b, i, j),
    decreases a.len() - i, b.len() - j,
{
    if pairs.len() > 0 {
        let (x, y) = pairs[0];
        if a[i] == b[j] {
            let rest = pairs.drop_first();
            assert forall|p: int| 0 <= p < rest.len() implies {
                let (x, y) = #[trigger] rest[p];
                i + 1 <= x < a.len() && j + 1 <= y < b.len() && a[x] == b[y]
            } by {
                assert(rest[p] == pairs[p + 1]);
                assert(pairs[0].0 < pairs[p + 1].0);
            }
            assert(is_matching(a, b, i + 1, j + 1, rest)) by {
                assert forall|p: int, q: int| 0 <= p < q < rest.len() implies (
                #[trigger] rest[p]).0 < (#[trigger] rest[q]).0 && rest[p].1 < rest[q].1 by {
                    assert(rest[p] == pairs[p + 1] && rest[q] == pairs[q + 1]);
                }
            }
            alignment_is_longest(a, b, i + 1, j + 1, rest);
        } else if x > i {
            assert(is_matching(a, b, i + 1, j, pairs)) by {
                assert forall|p: int| 0 <= p < pairs.len() implies {
                    let (x, y) = #[trigger] pairs[p];
                    i + 1 <= x < a.len() && j <= y < b.len() && a[x] == b[y]
                } by {
                    if p > 0 {
                        assert(pairs[0].0 < pairs[p].0);
                    }
                }
            }
            alignment_is_longest(a, b, i + 1, j, pairs);
        } else {
            assert(is_matching(a, b, i, j + 1, pairs)) by {
                assert forall|p: int| 0 <= p < pairs.len() implies {
                    let (x, y) = #[trigger] pairs[p];
                    i <= x < a.len() && j + 1 <= y < b.len() && a[x] == b[y]
                } by {
                    if p > 0 {
                        assert(pairs[0].1 < pairs[p].1);
                    }
                }
            }
            alignment_is_longest(a, b, i, j + 1, pairs);
        }
    }
}

/// The texts of some segments.
pub open spec fn segment_texts(segments: Seq<SegmentView>) -> Seq<Seq<char>> {
    Seq::new(segments.len(), |k: int| segments[k].text)
}

/// The text of a rendered line.
pub open spec fn line_text(line: LineView) -> Seq<char> {
    joined(segment_texts(line.segments))
}

/// Merging tokens into segments loses no text, and neighbouring segments have different flags.
pub proof fn merging_keeps_the_text(toks: Seq<Seq<char>>, changed: Seq<bool>)
    requires
        toks.len() == changed.len(),
    ensures
        joined(segment_texts(diff::merged_segments(toks, changed))) == joined(toks),
        forall|k: int, l: int|
            0 <= k && l == k + 1 && l < diff::merged_segments(toks, changed).len() ==> (
            #[trigger] diff::merged_segments(toks, changed)[k]).changed != (
            #[trigger] diff::merged_segments(toks, changed)[l]).changed,
    decreases toks.len(),
{
    if toks.len() > 0 {
        let before = diff::merged_segments(toks.drop_last(), changed.drop_last());
        let all = diff::merged_segments(toks, changed);
        merging_keeps_the_text(toks.drop_last(), changed.drop_last());
        if before.len() > 0 && before.last().changed == changed.last() {
            assert(segment_texts(all).drop_last() =~= segment_texts(before).drop_last());
            assert(joined(segment_texts(all)) =~= joined(segment_texts(before)) + toks.last());
            assert(forall|k: int| 0 <= k < before.len() ==> (#[trigger] all[k]).changed == before[k].changed);
        } else {
            assert(segment_texts(all).drop_last() =~= segment_texts(before));
            assert(forall|k: int| 0 <= k < before.len() ==> #[trigger] all[k] == before[k]);
        }
    } else {
        assert(segment_texts(diff::merged_segments(toks, changed)) =~= toks);
    }
}

/// The segments of a word diff strung together are the two lines.
pub proof fn word_diff_keeps_the_lines(old_line: Seq<char>, new_line: Seq<char>)
    ensures
        diff::word_diff_of(old_line, new_line) matches Some((o, n)) ==> joined(segment_texts(o))
            == old_line && joined(segment_texts(n)) == new_line,
{
    let a = diff::tokens(old_line);
    let b = diff::tokens(new_line);
    tokens_cover_the_line(old_line);
    tokens_cover_the_line(new_line);
    merging_keeps_the_text(a, diff::changed_flags(a, diff::old_flags(a, b)));
    merging_keeps_the_text(b, diff::changed_flags(b, diff::new_flags(a, b)));
}

/// Whether no highlighted segment holds white space.
pub open spec fn highlights_no_white_space(segments: Seq<SegmentView>) -> bool {
    forall|k: int, c: int|
        0 <= k < segments.len() && segments[k].changed && 0 <= c < segments[k].text.len()
            ==> !text::white_space(#[trigger] segments[k].text[c])
}

proof fn lemma_merged_highlights(toks: Seq<Seq<char>>, changed: Seq<bool>)
    requires
        toks.len() == changed.len(),
        forall|k: int, c: int|
            0 <= k < toks.len() && changed[k] && 0 <= c < toks[k].len() ==> !text::white_space(
                #[trigger] toks[k][c],
            ),
    ensures
        highlights_no_white_space(diff::merged_segments(toks, changed)),
    decreases toks.len(),
{
    if toks.len() > 0 {
        let n = toks.len() - 1;
        let before = diff::merged_segments(toks.drop_last(), changed.drop_last());
        let all = diff::merged_segments(toks, changed);
        assert forall|k: int, c: int|
            0 <= k < n && changed.drop_last()[k] && 0 <= c
                < toks.drop_last()[k].len() implies !text::white_space(
            #[trigger] toks.drop_last()[k][c],
        ) by {
            assert(toks[k][c] == toks.drop_last()[k][c]);
        }
        lemma_merged_highlights(toks.drop_last(), changed.drop_last());
        assert forall|k: int, c: int|
            0 <= k < all.len() && all[k].changed && 0 <= c
                < all[k].text.len() implies !text::white_space(#[trigger] all[k].text[c]) by {
            if k < all.len() - 1 {
                assert(all[k] == before[k]);
                assert(before[k].text[c] == all[k].text[c]);
            } else if before.len() > 0 && before.last().changed == changed.last() {
                let head = before[before.len() - 1].text;
                if c < head.len() {
                    assert(all[k].text[c] == before[before.len() - 1].text[c]);
                } else {
                    assert(all[k].text[c] == toks[n][c - head.len()]);
                }
            } else {
                assert(all[k].text[c] == toks[n][c]);
            }
        }
    }
}

proof fn lemma_changed_tokens_hold_no_white_space(line: Seq<char>, matched: Seq<bool>)
    ensures
        highlights_no_white_space(
            diff::merged_segments(
                diff::tokens(line),
                diff::changed_flags(diff::tokens(line), matched),
            ),
        ),
{
    let toks = diff::tokens(line);
    let changed = diff::changed_flags(toks, matched);
    tokens_are_maximal_runs(line);
    assert forall|k: int, c: int|
        0 <= k < toks.len() && changed[k] && 0 <= c < toks[k].len() implies !text::white_space(
        #[trigger] toks[k][c],
    ) by {
        let t = toks[k];
        assert(of_class(t, diff::char_class(t[0])));
        if text::white_space(t[c]) {
            assert(diff::char_class(t[c]) == CharClass::Whitespace);
            assert forall|i: int| 0 <= i < t.len() implies text::white_space(#[trigger] t[i]) by {
                assert(diff::char_class(t[i]) == diff::char_class(t[0]));
            }
            assert(text::all_white(t));
        }
    }
    lemma_merged_highlights(toks, changed);
}

/// A word diff never highlights white space.
pub proof fn white_space_is_never_highlighted(old_line: Seq<char>, new_line: Seq<char>)
    ensures
        diff::word_diff_of(old_line, new_line) matches Some((o, n)) ==> highlights_no_white_space(o)
            && highlights_no_white_space(n),
{
    let a = diff::tokens(old_line);
    let b = diff::tokens(new_line);
    lemma_changed_tokens_hold_no_white_space(old_line, diff::old_flags(a, b));
    lemma_changed_tokens_hold_no_white_space(new_line, diff::new_flags(a, b));
}

/// The texts of the operations, those of one kind left out.
pub open spec fn texts_without(ops: Seq<OpView>, dropped: DiffLineKind) -> Seq<Seq<char>>
    decreases ops.len(),
{
    if ops.len() == 0 {
        seq![]
    } else if ops[0].kind == dropped {
        texts_without(ops.skip(1), dropped)
    } else {
        seq![ops[0].text] + texts_without(ops.skip(1), dropped)
    }
}

/// What the operations leave of the old version: context and removed lines.
pub open spec fn old_version(ops: Seq<OpView>) -> Seq<Seq<char>> {
    texts_without(ops, DiffLineKind::Added)
}

/// What the operations make of the new version: context and added lines.
pub open spec fn new_version(ops: Seq<OpView>) -> Seq<Seq<char>> {
    texts_without(ops, DiffLineKind::Removed)
}

proof fn lemma_texts_without_prepend(op: OpView, ops: Seq<OpView>, dropped: DiffLineKind)
    ensures
        texts_without(seq![op] + ops, dropped) == if op.kind == dropped {
            texts_without(ops, dropped)
        } else {
            seq![op.text] + texts_without(ops, dropped)
        },
{
    assert((seq![op] + ops).skip(1) =~= ops);
}

/// The texts of two lists of operations, one behind the other.
pub proof fn lemma_texts_without_concat(x: Seq<OpView>, y: Seq<OpView>, dropped: DiffLineKind)
    ensures
        texts_without(x + y, dropped) == texts_without(x, dropped) + texts_without(y, dropped),
    decreases x.len(),
{
    if x.len() == 0 {
        assert(x + y =~= y);
        assert(texts_without(x, dropped) + texts_without(y, dropped) =~= texts_without(y, dropped));
    } else {
        assert((x + y).skip(1) =~= x.skip(1) + y);
        lemma_texts_without_concat(x.skip(1), y, dropped);
        assert(texts_without(x + y, dropped) =~= texts_without(x, dropped) + texts_without(
            y,
            dropped,
        ));
    }
}

proof fn lemma_texts_of_one_kind(kind: DiffLineKind, lines: Seq<Seq<char>>, dropped: DiffLineKind)
    ensures
        texts_without(diff::ops_of(kind, lines), dropped) == if kind == dropped {
            seq![]
        } else {
            lines
        },
    decreases lines.len(),
{
    if lines.len() > 0 {
        let ops = diff::ops_of(kind, lines);
        assert(ops.skip(1) =~= diff::ops_of(kind, lines.skip(1)));
        lemma_texts_of_one_kind(kind, lines.skip(1), dropped);
        assert(seq![lines[0]] + lines.skip(1) =~= lines);
    } else {
        assert(lines =~= seq![]);
    }
}

proof fn lemma_edit_script_versions(a: Seq<Seq<char>>, b: Seq<Seq<char>>, i: int, j: int)
    requires
        0 <= i <= a.len(),
        0 <= j <= b.len(),
    ensures
        old_version(diff::edit_script(a, b, i, j)) == a.skip(i),
        new_version(diff::edit_script(a, b, i, j)) == b.skip(j),
    decreases a.len() - i, b.len() - j,
{
    if i == a.len() {
        lemma_texts_of_one_kind(DiffLineKind::Added, b.skip(j), DiffLineKind::Added);
        lemma_texts_of_one_kind(DiffLineKind::Added, b.skip(j), DiffLineKind::Removed);
        assert(a.skip(i) =~= seq![]);
    } else if j == b.len() {
        lemma_texts_of_one_kind(DiffLineKind::Removed, a.skip(i), DiffLineKind::Added);
        lemma_texts_of_one_kind(DiffLineKind::Removed, a.skip(i), DiffLineKind::Removed);
        assert(b.skip(j) =~= seq![]);
    } else {
        let (op, i2, j2) = if a[i] == b[j] {
            (OpView { kind: DiffLineKind::Context, text: a[i] }, i + 1, j + 1)
        } else if diff::lcs_len(a, b, i + 1, j) >= diff::lcs_len(a, b, i, j + 1) {
            (OpView { kind: DiffLineKind::Removed, text: a[i] }, i + 1, j)
        } else {
            (OpView { kind: DiffLineKind::Added, text: b[j] }, i, j + 1)
        };
        lemma_edit_script_versions(a, b, i2, j2);
        let rest = diff::edit_script(a, b, i2, j2);
        lemma_texts_without_prepend(op, rest, DiffLineKind::Added);
        lemma_texts_without_prepend(op, rest, DiffLineKind::Removed);
        assert(seq![a[i]] + a.skip(i + 1) =~= a.skip(i));
        assert(seq![b[j]] + b.skip(j + 1) =~= b.skip(j));
    }
}

/// The line operations of an edit hold both versions whole and in order: context and removed
/// lines are the old one, context and added lines the new one.
pub proof fn line_ops_hold_both_versions(a: Seq<Seq<char>>, b: Seq<Seq<char>>)
    ensures
        old_version(diff::line_ops(a, b)) == a,
        new_version(diff::line_ops(a, b)) == b,
{
    if a.len() * b.len() > diff::MAX_LCS_CELLS {
        let x = diff::ops_of(DiffLineKind::Removed, a);
        let y = diff::ops_of(DiffLineKind::Added, b);
        lemma_texts_without_concat(x, y, DiffLineKind::Added);
        lemma_texts_without_concat(x, y, DiffLineKind::Removed);
        lemma_texts_of_one_kind(DiffLineKind::Removed, a, DiffLineKind::Added);
        lemma_texts_of_one_kind(DiffLineKind::Removed, a, DiffLineKind::Removed);
        lemma_texts_of_one_kind(DiffLineKind::Added, b, DiffLineKind::Added);
        lemma_texts_of_one_kind(DiffLineKind::Added, b, DiffLineKind::Removed);
        assert(a + Seq::<Seq<char>>::empty() =~= a);
        assert(Seq::<Seq<char>>::empty() + b =~= b);
    } else {
        lemma_edit_script_versions(a, b, 0, 0);
        assert(a.skip(0) =~= a);
        assert(b.skip(0) =~= b);
    }
}

/// How many operations keep a line as context.
pub open spec fn context_lines(ops: Seq<OpView>) -> nat
    decreases ops.len(),
{
    if ops.len() == 0 {
        0
    } else {
        context_lines(ops.skip(1)) + if ops[0].kind == DiffLineKind::Context {
            1nat
        } else {
            0nat
        }
    }
}

proof fn lemma_no_context(kind: DiffLineKind, lines: Seq<Seq<char>>)
    requires
        kind != DiffLineKind::Context,
    ensures
        context_lines(diff::ops_of(kind, lines)) == 0,
    decreases lines.len(),
{
    if lines.len() > 0 {
        assert(diff::ops_of(kind, lines).skip(1) =~= diff::ops_of(kind, lines.skip(1)));
        lemma_no_context(kind, lines.skip(1));
    }
}

/// An aligned edit keeps as many lines as context as a longest common subsequence has.
pub proof fn edit_script_keeps_the_most_context(a: Seq<Seq<char>>, b: Seq<Seq<char>>, i: int, j: int)
    requires
        0 <= i <= a.len(),
        0 <= j <= b.len(),
    ensures
        context_lines(diff::edit_script(a, b, i, j)) == diff::lcs_len(a, b, i, j),
    decreases a.len() - i, b.len() - j,
{
    if i == a.len() {
        lemma_no_context(DiffLineKind::Added, b.skip(j));
    } else if j == b.len() {
        lemma_no_context(DiffLineKind::Removed, a.skip(i));
    } else {
        let (i2, j2) = if a[i] == b[j] {
            (i + 1, j + 1)
        } else if diff::lcs_len(a, b, i + 1, j) >= diff::lcs_len(a, b, i, j + 1) {
            (i + 1, j)
        } else {
            (i, j + 1)
        };
        edit_script_keeps_the_most_context(a, b, i2, j2);
        assert(diff::edit_script(a, b, i, j).skip(1) =~= diff::edit_script(a, b, i2, j2));
    }
}

/// Whether every operation is a change.
pub open spec fn all_changes(ops: Seq<OpView>) -> bool {
    forall|k: int| 0 <= k < ops.len() ==> (#[trigger] ops[k]).kind != DiffLineKind::Context
}

/// Whether no removed line directly follows an added one.
#[verifier::opaque]
pub open spec fn is_grouped(ops: Seq<OpView>) -> bool {
    forall|k: int, l: int|
        0 <= k && l == k + 1 && l < ops.len() && (#[trigger] ops[k]).kind == DiffLineKind::Added
            ==> (#[trigger] ops[l]).kind != DiffLineKind::Removed
}

proof fn lemma_of_kind_all(ops: Seq<OpView>, kind: DiffLineKind)
    ensures
        forall|k: int|
            0 <= k < diff::of_kind(ops, kind).len() ==> (#[trigger] diff::of_kind(ops, kind)[k]).kind
                == kind,
    decreases ops.len(),
{
    reveal(Seq::filter);
    if ops.len() > 0 {
        lemma_of_kind_all(ops.drop_last(), kind);
    }
}

proof fn lemma_leading_changes_are_changes(ops: Seq<OpView>)
    ensures
        all_changes(ops.take(diff::leading_changes(ops) as int)),
        diff::leading_changes(ops) < ops.len() ==> ops[diff::leading_changes(ops) as int].kind
            == DiffLineKind::Context,
    decreases ops.len(),
{
    diff::lemma_leading_changes_bound(ops);
    if ops.len() > 0 && ops[0].kind != DiffLineKind::Context {
        let n = diff::leading_changes(ops) as int;
        lemma_leading_changes_are_changes(ops.skip(1));
        diff::lemma_leading_changes_bound(ops.skip(1));
        assert forall|k: int| 0 <= k < n implies (#[trigger] ops.take(n)[k]).kind
            != DiffLineKind::Context by {
            if k > 0 {
                assert(ops.take(n)[k] == ops.skip(1).take(n - 1)[k - 1]);
            }
        }
    }
}

proof fn lemma_run_versions(run: Seq<OpView>, dropped: DiffLineKind)
    requires
        all_changes(run),
        dropped != DiffLineKind::Context,
    ensures
        texts_without(
            diff::of_kind(run, DiffLineKind::Removed) + diff::of_kind(run, DiffLineKind::Added),
            dropped,
        ) == texts_without(run, dropped),
    decreases run.len(),
{
    let removed = diff::of_kind(run, DiffLineKind::Removed);
    let added = diff::of_kind(run, DiffLineKind::Added);
    lemma_texts_without_concat(removed, added, dropped);
    if run.len() > 0 {
        let before = run.drop_last();
        let last = run.last();
        assert(last == run[run.len() - 1]);
        assert(all_changes(before)) by {
            assert forall|k: int| 0 <= k < before.len() implies (#[trigger] before[k]).kind
                != DiffLineKind::Context by {
                assert(before[k] == run[k]);
            }
        }
        let removed_before = diff::of_kind(before, DiffLineKind::Removed);
        let added_before = diff::of_kind(before, DiffLineKind::Added);
        lemma_run_versions(before, dropped);
        lemma_texts_without_concat(removed_before, added_before, dropped);
        assert(run =~= before.push(last));
        diff::lemma_of_kind_push(before, last, DiffLineKind::Removed);
        diff::lemma_of_kind_push(before, last, DiffLineKind::Added);
        assert(run =~= before + seq![last]);
        lemma_texts_without_concat(before, seq![last], dropped);
        lemma_texts_without_prepend(last, seq![], dropped);
        assert(seq![last] + Seq::<OpView>::empty() =~= seq![last]);
        assert(texts_without(Seq::<OpView>::empty(), dropped) =~= seq![]);
        lemma_of_kind_all(before, DiffLineKind::Removed);
        lemma_of_kind_all(before, DiffLineKind::Added);
        lemma_only_dropped(removed_before, DiffLineKind::Removed, dropped);
        lemma_only_dropped(added_before, DiffLineKind::Added, dropped);
        if last.kind == DiffLineKind::Removed {
            assert(removed =~= removed_before + seq![last]);
            lemma_texts_without_concat(removed_before, seq![last], dropped);
        } else {
            assert(added =~= added_before + seq![last]);
            lemma_texts_without_concat(added_before, seq![last], dropped);
        }
        assert(texts_without(removed, dropped) + texts_without(added, dropped) =~= texts_without(
            run,
            dropped,
        ));
    } else {
        reveal(Seq::filter);
        assert(removed + added =~= run);
    }
}

proof fn lemma_only_dropped(ops: Seq<OpView>, kind: DiffLineKind, dropped: DiffLineKind)
    requires
        forall|k: int| 0 <= k < ops.len() ==> (#[trigger] ops[k]).kind == kind,
    ensures
        kind == dropped ==> texts_without(ops, dropped).len() == 0,
    decreases ops.len(),
{
    if ops.len() > 0 {
        assert(ops[0].kind == kind);
        assert forall|k: int| 0 <= k < ops.skip(1).len() implies (#[trigger] ops.skip(1)[k]).kind
            == kind by {
            assert(ops.skip(1)[k] == ops[k + 1]);
        }
        lemma_only_dropped(ops.skip(1), kind, dropped);
    }
}

/// Grouping runs keeps both versions whole and in order.
pub proof fn grouping_keeps_both_versions(ops: Seq<OpView>)
    ensures
        old_version(diff::grouped(ops)) == old_version(ops),
        new_version(diff::grouped(ops)) == new_version(ops),
    decreases ops.len(),
{
    if ops.len() > 0 {
        if ops[0].kind == DiffLineKind::Context {
            grouping_keeps_both_versions(ops.skip(1));
            lemma_texts_without_prepend(ops[0], diff::grouped(ops.skip(1)), DiffLineKind::Added);
            lemma_texts_without_prepend(ops[0], diff::grouped(ops.skip(1)), DiffLineKind::Removed);
        } else {
            diff::lemma_leading_changes_bound(ops);
            lemma_leading_changes_are_changes(ops);
            let n = diff::leading_changes(ops) as int;
            let run = ops.take(n);
            let rest = ops.skip(n);
            let regrouped = diff::of_kind(run, DiffLineKind::Removed) + diff::of_kind(
                run,
                DiffLineKind::Added,
            );
            grouping_keeps_both_versions(rest);
            assert(run + rest =~= ops);
            lemma_run_versions(run, DiffLineKind::Added);
            lemma_run_versions(run, DiffLineKind::Removed);
            lemma_texts_without_concat(run, rest, DiffLineKind::Added);
            lemma_texts_without_concat(run, rest, DiffLineKind::Removed);
            lemma_texts_without_concat(regrouped, diff::grouped(rest), DiffLineKind::Added);
            lemma_texts_without_concat(regrouped, diff::grouped(rest), DiffLineKind::Removed);
        }
    }
}

/// In grouped operations no removed line directly follows an added one.
pub proof fn grouping_puts_removed_lines_first(ops: Seq<OpView>)
    ensures
        is_grouped(diff::grouped(ops)),
        ops.len() > 0 && ops[0].kind == DiffLineKind::Context ==> diff::grouped(ops).len() > 0
            && diff::grouped(ops)[0].kind == DiffLineKind::Context,
    decreases ops.len(),
{
    reveal(is_grouped);
    if ops.len() > 0 {
        let all = diff::grouped(ops);
        if ops[0].kind == DiffLineKind::Context {
            let rest = diff::grouped(ops.skip(1));
            grouping_puts_removed_lines_first(ops.skip(1));
            assert forall|k: int, l: int|
                0 <= k && l == k + 1 && l < all.len() && (#[trigger] all[k]).kind
                    == DiffLineKind::Added implies (#[trigger] all[l]).kind
                != DiffLineKind::Removed by {
                if k > 0 {
                    assert(all[k] == rest[k - 1] && all[l] == rest[l - 1]);
                }
            }
        } else {
            diff::lemma_leading_changes_bound(ops);
            lemma_leading_changes_are_changes(ops);
            let n = diff::leading_changes(ops) as int;
            let run = ops.take(n);
            let removed = diff::of_kind(run, DiffLineKind::Removed);
            let added = diff::of_kind(run, DiffLineKind::Added);
            let rest = diff::grouped(ops.skip(n));
            lemma_of_kind_all(run, DiffLineKind::Removed);
            lemma_of_kind_all(run, DiffLineKind::Added);
            grouping_puts_removed_lines_first(ops.skip(n));
            assert forall|k: int, l: int|
                0 <= k && l == k + 1 && l < all.len() && (#[trigger] all[k]).kind
                    == DiffLineKind::Added implies (#[trigger] all[l]).kind
                != DiffLineKind::Removed by {
                let r = removed.len();
                let m = r + added.len();
                if k < r {
                    assert(all[k] == removed[k]);
                } else if l < m {
                    assert(all[l] == added[l - r]);
                } else if k < m {
                    assert(all[l] == rest[0]);
                } else {
                    assert(all[k] == rest[k - m] && all[l] == rest[l - m]);
                }
            }
        }
    }
}

proof fn lemma_grouped_part(ops: Seq<OpView>, i: int, j: int)
    requires
        is_grouped(ops),
        0 <= i <= j <= ops.len(),
    ensures
        is_grouped(ops.subrange(i, j)),
{
    reveal(is_grouped);
    let part = ops.subrange(i, j);
    assert forall|k: int, l: int|
        0 <= k && l == k + 1 && l < part.len() && (#[trigger] part[k]).kind
            == DiffLineKind::Added implies (#[trigger] part[l]).kind != DiffLineKind::Removed by {
        assert(ops[i + k].kind == DiffLineKind::Added);
        assert(part[l] == ops[i + l]);
    }
}

proof fn lemma_no_removed_after_added(ops: Seq<OpView>, k: int)
    requires
        is_grouped(ops),
        0 <= k < ops.len() - 1,
        ops[k].kind == DiffLineKind::Added,
    ensures
        ops[k + 1].kind != DiffLineKind::Removed,
{
    reveal(is_grouped);
}

spec fn is_split(run: Seq<OpView>, front: Seq<OpView>, back: Seq<OpView>) -> bool {
    &&& run.len() == front.len() + back.len()
    &&& forall|k: int| 0 <= k < front.len() ==> #[trigger] front[k] == run[k]
    &&& forall|k: int| 0 <= k < back.len() ==> #[trigger] back[k] == run[front.len() + k]
}

proof fn lemma_grouped_run(run: Seq<OpView>)
    requires
        all_changes(run),
        is_grouped(run),
    ensures
        is_split(
            run,
            diff::of_kind(run, DiffLineKind::Removed),
            diff::of_kind(run, DiffLineKind::Added),
        ),
    decreases run.len(),
{
    let removed = diff::of_kind(run, DiffLineKind::Removed);
    let added = diff::of_kind(run, DiffLineKind::Added);
    if run.len() > 0 {
        let before = run.drop_last();
        let last = run[run.len() - 1];
        let removed_before = diff::of_kind(before, DiffLineKind::Removed);
        let added_before = diff::of_kind(before, DiffLineKind::Added);
        assert(is_grouped(before)) by {
            assert(before =~= run.subrange(0, run.len() - 1));
            lemma_grouped_part(run, 0, run.len() - 1);
        }
        assert(all_changes(before)) by {
            assert forall|k: int| 0 <= k < before.len() implies (#[trigger] before[k]).kind
                != DiffLineKind::Context by {
                assert(before[k] == run[k]);
            }
        }
        lemma_grouped_run(before);
        assert(run =~= before.push(last));
        diff::lemma_of_kind_push(before, last, DiffLineKind::Removed);
        diff::lemma_of_kind_push(before, last, DiffLineKind::Added);
        if last.kind == DiffLineKind::Removed {
            assert(added_before.len() == 0) by {
                if added_before.len() > 0 {
                    lemma_of_kind_all(before, DiffLineKind::Added);
                    assert(added_before[added_before.len() - 1] == before[before.len() - 1]);
                    lemma_no_removed_after_added(run, run.len() - 2);
                }
            }
        }
    } else {
        assert(removed.len() == 0 && added.len() == 0) by {
            reveal(Seq::filter);
        }
    }
}

/// Grouping grouped operations changes nothing.
pub proof fn grouping_twice_is_grouping_once(ops: Seq<OpView>)
    ensures
        diff::grouped(diff::grouped(ops)) == diff::grouped(ops),
{
    grouping_puts_removed_lines_first(ops);
    lemma_grouped_is_fixed(diff::grouped(ops));
}

proof fn lemma_grouped_is_fixed(ops: Seq<OpView>)
    requires
        is_grouped(ops),
    ensures
        diff::grouped(ops) == ops,
    decreases ops.len(),
{
    if ops.len() > 0 {
        if ops[0].kind == DiffLineKind::Context {
            let rest = ops.skip(1);
            lemma_grouped_part(ops, 1, ops.len() as int);
            assert(rest =~= ops.subrange(1, ops.len() as int));
            lemma_grouped_is_fixed(rest);
            assert(diff::grouped(ops) == seq![ops[0]] + rest);
            assert(seq![ops[0]] + rest =~= ops);
        } else {
            let n = diff::leading_changes(ops) as int;
            let run = ops.take(n);
            let rest = ops.skip(n);
            assert(0 < n <= ops.len()) by {
                diff::lemma_leading_changes_bound(ops);
            }
            assert(all_changes(run)) by {
                lemma_leading_changes_are_changes(ops);
            }
            assert(is_grouped(run)) by {
                lemma_grouped_part(ops, 0, n);
                assert(run =~= ops.subrange(0, n));
            }
            assert(is_grouped(rest)) by {
                lemma_grouped_part(ops, n, ops.len() as int);
                assert(rest =~= ops.subrange(n, ops.len() as int));
            }
            lemma_grouped_run(run);
            lemma_grouped_is_fixed(rest);
            let removed = diff::of_kind(run, DiffLineKind::Removed);
            let added = diff::of_kind(run, DiffLineKind::Added);
            assert(removed + added + rest =~= ops);
        }
    } else {
        assert(diff::grouped(ops) =~= ops);
    }
}

proof fn lemma_leading_kinds(ops: Seq<OpView>, kind: DiffLineKind)
    ensures
        diff::leading(ops, kind) <= ops.len(),
        forall|k: int| 0 <= k < diff::leading(ops, kind) ==> (#[trigger] ops[k]).kind == kind,
    decreases ops.len(),
{
    if ops.len() > 0 && ops[0].kind == kind {
        lemma_leading_kinds(ops.skip(1), kind);
        assert forall|k: int| 0 <= k < diff::leading(ops, kind) implies (#[trigger] ops[k]).kind
            == kind by {
            if k > 0 {
                assert(ops[k] == ops.skip(1)[k - 1]);
            }
        }
    }
}

proof fn lemma_whole_line_text(kind: DiffLineKind, t: Seq<char>)
    ensures
        line_text(diff::whole_line(kind, t)) == t,
{
    let texts = segment_texts(diff::whole_line(kind, t).segments);
    assert(texts.drop_last() =~= seq![]);
    assert(joined(texts.drop_last()) =~= seq![]);
    assert(joined(texts) =~= t);
}

/// Rendered lines stand for the operations one for one: each has the kind of its operation, and
/// its segments strung together are the text of its operation.
pub proof fn rendering_keeps_kinds_and_texts(ops: Seq<OpView>)
    ensures
        diff::segmented(ops).len() == ops.len(),
        forall|k: int|
            #![trigger diff::segmented(ops)[k]]
            0 <= k < ops.len() ==> diff::segmented(ops)[k].kind == ops[k].kind && line_text(
                diff::segmented(ops)[k],
            ) == ops[k].text,
    decreases ops.len(),
{
    if ops.len() > 0 {
        let all = diff::segmented(ops);
        if ops[0].kind == DiffLineKind::Context {
            rendering_keeps_kinds_and_texts(ops.skip(1));
            let rest = diff::segmented(ops.skip(1));
            lemma_whole_line_text(DiffLineKind::Context, ops[0].text);
            assert forall|k: int| #![trigger all[k]] 0 <= k < ops.len() implies all[k].kind
                == ops[k].kind && line_text(all[k]) == ops[k].text by {
                if k > 0 {
                    assert(all[k] == rest[k - 1]);
                    assert(ops.skip(1)[k - 1] == ops[k]);
                }
            }
        } else {
            diff::lemma_run_bound(ops);
            let r = diff::leading(ops, DiffLineKind::Removed) as int;
            let a = diff::leading(ops.skip(r), DiffLineKind::Added) as int;
            let removed = ops.take(r);
            let added = ops.subrange(r, r + a);
            lemma_leading_kinds(ops, DiffLineKind::Removed);
            lemma_leading_kinds(ops.skip(r), DiffLineKind::Added);
            rendering_keeps_kinds_and_texts(ops.skip(r + a));
            let rest = diff::segmented(ops.skip(r + a));
            assert forall|k: int| #![trigger all[k]] 0 <= k < ops.len() implies all[k].kind
                == ops[k].kind && line_text(all[k]) == ops[k].text by {
                if k < r {
                    assert(all[k] == diff::removed_line(removed, added, k));
                    lemma_whole_line_text(DiffLineKind::Removed, removed[k].text);
                    word_diff_keeps_the_lines(removed[k].text, added[k].text);
                } else if k < r + a {
                    assert(all[k] == diff::added_line(removed, added, k - r));
                    assert(ops.skip(r)[k - r] == ops[k]);
                    lemma_whole_line_text(DiffLineKind::Added, added[k - r].text);
                    word_diff_keeps_the_lines(removed[k - r].text, added[k - r].text);
                } else {
                    assert(all[k] == rest[k - r - a]);
                    assert(ops.skip(r + a)[k - r - a] == ops[k]);
                }
            }
        }
    }
}

/// Rendered lines as operations: their kinds and texts.
pub open spec fn as_ops(lines: Seq<LineView>) -> Seq<OpView> {
    Seq::new(lines.len(), |k: int| OpView { kind: lines[k].kind, text: line_text(lines[k]) })
}

/// A rendered diff holds both versions whole and in order: the texts of its context and removed
/// lines are the old lines, those of its context and added lines the new ones.
pub proof fn edit_diff_holds_both_versions(old_lines: Seq<Seq<char>>, new_lines: Seq<Seq<char>>)
    ensures
        old_version(as_ops(diff::edit_diff(old_lines, new_lines))) == old_lines,
        new_version(as_ops(diff::edit_diff(old_lines, new_lines))) == new_lines,
{
    let ops = diff::line_ops(old_lines, new_lines);
    let groups = diff::grouped(ops);
    line_ops_hold_both_versions(old_lines, new_lines);
    grouping_keeps_both_versions(ops);
    rendering_keeps_kinds_and_texts(groups);
    assert(as_ops(diff::edit_diff(old_lines, new_lines)) =~= groups);
}

proof fn lemma_same_lines(a: Seq<Seq<char>>, i: int)
    requires
        0 <= i <= a.len(),
    ensures
        diff::edit_script(a, a, i, i) == diff::ops_of(DiffLineKind::Context, a.skip(i)),
    decreases a.len() - i,
{
    let here = diff::ops_of(DiffLineKind::Context, a.skip(i));
    if i < a.len() {
        lemma_same_lines(a, i + 1);
        assert(here =~= seq![OpView { kind: DiffLineKind::Context, text: a[i] }]
            + diff::ops_of(DiffLineKind::Context, a.skip(i + 1)));
    } else {
        assert(diff::edit_script(a, a, i, i) =~= here);
    }
}

proof fn lemma_context_is_fixed(lines: Seq<Seq<char>>)
    ensures
        diff::segmented(diff::grouped(diff::ops_of(DiffLineKind::Context, lines))) == Seq::new(
            lines.len(),
            |k: int| diff::whole_line(DiffLineKind::Context, lines[k]),
        ),
    decreases lines.len(),
{
    let ops = diff::ops_of(DiffLineKind::Context, lines);
    reveal(is_grouped);
    lemma_grouped_is_fixed(ops);
    let shown = Seq::new(
        lines.len(),
        |k: int| diff::whole_line(DiffLineKind::Context, lines[k]),
    );
    if lines.len() > 0 {
        assert(ops.skip(1) =~= diff::ops_of(DiffLineKind::Context, lines.skip(1)));
        lemma_grouped_is_fixed(ops.skip(1));
        lemma_context_is_fixed(lines.skip(1));
        assert(diff::segmented(ops) =~= shown);
    } else {
        assert(diff::segmented(ops) =~= shown);
    }
}

/// The diff of some lines with themselves, where they are aligned at all, shows every line as
/// unhighlighted context.
pub proof fn equal_versions_are_all_context(lines: Seq<Seq<char>>)
    requires
        lines.len() * lines.len() <= diff::MAX_LCS_CELLS,
    ensures
        diff::edit_diff(lines, lines) == Seq::new(
            lines.len(),
            |k: int| diff::whole_line(DiffLineKind::Context, lines[k]),
        ),
{
    lemma_same_lines(lines, 0);
    assert(lines.skip(0) =~= lines);
    lemma_context_is_fixed(lines);
}

/// Two versions that make at most 40 000 pairs of lines are aligned: no common subsequence of
/// them is longer than what the edit keeps as context.
pub proof fn line_ops_keep_the_most_context(
    a: Seq<Seq<char>>,
    b: Seq<Seq<char>>,
    pairs: Seq<(int, int)>,
)
    requires
        a.len() * b.len() <= 40_000,
        is_matching(a, b, 0, 0, pairs),
    ensures
        context_lines(diff::line_ops(a, b)) >= pairs.len(),
{
    edit_script_keeps_the_most_context(a, b, 0, 0);
    alignment_is_longest(a, b, 0, 0, pairs);
}

/// Two versions that make more than 40 000 pairs of lines are not aligned: all lines of the old
/// one are removed, and then all lines of the new one added.
pub proof fn large_versions_are_replaced(a: Seq<Seq<char>>, b: Seq<Seq<char>>, k: int)
    requires
        a.len() * b.len() > 40_000,
        0 <= k < a.len() + b.len(),
    ensures
        diff::line_ops(a, b).len() == a.len() + b.len(),
        diff::line_ops(a, b)[k] == if k < a.len() {
            OpView { kind: DiffLineKind::Removed, text: a[k] }
        } else {
            OpView { kind: DiffLineKind::Added, text: b[k - a.len()] }
        },
{
}

proof fn lemma_lcs_suffix(a: Seq<Seq<char>>, b: Seq<Seq<char>>, di: int, dj: int, i: int, j: int)
    requires
        0 <= di <= a.len(),
        0 <= dj <= b.len(),
        0 <= i,
        0 <= j,
    ensures
        diff::lcs_len(a, b, i + di, j + dj) == diff::lcs_len(a.skip(di), b.skip(dj), i, j),
    decreases a.len() - di - i, b.len() - dj - j,
{
    if i + di < a.len() && j + dj < b.len() {
        lemma_lcs_suffix(a, b, di, dj, i + 1, j + 1);
        lemma_lcs_suffix(a, b, di, dj, i + 1, j);
        lemma_lcs_suffix(a, b, di, dj, i, j + 1);
    }
}

proof fn lemma_script_suffix(
    a: Seq<Seq<char>>,
    b: Seq<Seq<char>>,
    di: int,
    dj: int,
    i: int,
    j: int,
)
    requires
        0 <= di,
        0 <= dj,
        0 <= i <= a.len() - di,
        0 <= j <= b.len() - dj,
    ensures
        diff::edit_script(a, b, i + di, j + dj) == diff::edit_script(a.skip(di), b.skip(dj), i, j),
    decreases a.len() - di - i, b.len() - dj - j,
{
    let x = a.skip(di);
    let y = b.skip(dj);
    if i == x.len() {
        assert(b.skip(j + dj) =~= y.skip(j));
    } else if j == y.len() {
        assert(a.skip(i + di) =~= x.skip(i));
    } else {
        lemma_lcs_suffix(a, b, di, dj, i + 1, j);
        lemma_lcs_suffix(a, b, di, dj, i, j + 1);
        if x[i] == y[j] {
            lemma_script_suffix(a, b, di, dj, i + 1, j + 1);
        } else if diff::lcs_len(x, y, i + 1, j) >= diff::lcs_len(x, y, i, j + 1) {
            lemma_script_suffix(a, b, di, dj, i + 1, j);
        } else {
            lemma_script_suffix(a, b, di, dj, i, j + 1);
        }
    }
}

/// Two versions that make at most 40 000 pairs of lines are shown by their edit script.
pub proof fn small_versions_are_aligned(a: Seq<Seq<char>>, b: Seq<Seq<char>>)
    requires
        a.len() * b.len() <= 40_000,
    ensures
        diff::line_ops(a, b) == diff::edit_script(a, b, 0, 0),
{
}

/// Where nothing is left of the old version the rest of the new one is added, and where nothing
/// is left of the new version the rest of the old one is removed.
pub proof fn what_has_no_partner_is_added_or_removed(lines: Seq<Seq<char>>, k: int)
    requires
        0 <= k < lines.len(),
    ensures
        diff::edit_script(seq![], lines, 0, 0).len() == lines.len(),
        diff::edit_script(seq![], lines, 0, 0)[k] == (OpView {
            kind: DiffLineKind::Added,
            text: lines[k],
        }),
        diff::edit_script(lines, seq![], 0, 0).len() == lines.len(),
        diff::edit_script(lines, seq![], 0, 0)[k] == (OpView {
            kind: DiffLineKind::Removed,
            text: lines[k],
        }),
{
}

/// A first line that both versions share is matched at once.
pub proof fn shared_first_lines_are_matched(
    line: Seq<char>,
    a: Seq<Seq<char>>,
    b: Seq<Seq<char>>,
)
    ensures
        diff::edit_script(seq![line] + a, seq![line] + b, 0, 0) == seq![
            OpView { kind: DiffLineKind::Context, text: line },
        ] + diff::edit_script(a, b, 0, 0),
{
    let x = seq![line] + a;
    let y = seq![line] + b;
    lemma_script_suffix(x, y, 1, 1, 0, 0);
    assert(x.skip(1) =~= a);
    assert(y.skip(1) =~= b);
}

/// Of two first lines that differ the old one is removed first, where nothing is lost by it: the
/// rest keeps a common subsequence as long as any that keeps the old line and gives up the new
/// one.
pub proof fn lines_are_removed_before_others_are_added(
    old_line: Seq<char>,
    a: Seq<Seq<char>>,
    new_line: Seq<char>,
    b: Seq<Seq<char>>,
    pairs: Seq<(int, int)>,
)
    requires
        old_line != new_line,
        is_matching(a, seq![new_line] + b, 0, 0, pairs),
        forall|other: Seq<(int, int)>| #[trigger]
            is_matching(seq![old_line] + a, b, 0, 0, other) ==> other.len() <= pairs.len(),
    ensures
        diff::edit_script(seq![old_line] + a, seq![new_line] + b, 0, 0) == seq![
            OpView { kind: DiffLineKind::Removed, text: old_line },
        ] + diff::edit_script(a, seq![new_line] + b, 0, 0),
{
    let x = seq![old_line] + a;
    let y = seq![new_line] + b;
    assert(x.skip(1) =~= a);
    assert(y.skip(1) =~= b);
    assert(x.skip(0) =~= x);
    assert(y.skip(0) =~= y);
    lemma_script_suffix(x, y, 1, 0, 0, 0);
    lemma_lcs_suffix(x, y, 1, 0, 0, 0);
    lemma_lcs_suffix(x, y, 0, 1, 0, 0);
    alignment_is_longest(a, y, 0, 0, pairs);
    alignment_is_a_common_subsequence(x, b, 0, 0);
    assert(is_matching(x, b, 0, 0, diff::lcs_pairs(x, b, 0, 0)));
}

/// Of two first lines that differ the new one is added first, where something would be lost by
/// removing the old one.
pub proof fn lines_are_added_before_matches_are_lost(
    old_line: Seq<char>,
    a: Seq<Seq<char>>,
    new_line: Seq<char>,
    b: Seq<Seq<char>>,
    pairs: Seq<(int, int)>,
)
    requires
        old_line != new_line,
        is_matching(seq![old_line] + a, b, 0, 0, pairs),
        forall|other: Seq<(int, int)>| #[trigger]
            is_matching(a, seq![new_line] + b, 0, 0, other) ==> other.len() < pairs.len(),
    ensures
        diff::edit_script(seq![old_line] + a, seq![new_line] + b, 0, 0) == seq![
            OpView { kind: DiffLineKind::Added, text: new_line },
        ] + diff::edit_script(seq![old_line] + a, b, 0, 0),
{
    let x = seq![old_line] + a;
    let y = seq![new_line] + b;
    assert(x.skip(1) =~= a);
    assert(y.skip(1) =~= b);
    assert(x.skip(0) =~= x);
    assert(y.skip(0) =~= y);
    lemma_script_suffix(x, y, 0, 1, 0, 0);
    lemma_lcs_suffix(x, y, 1, 0, 0, 0);
    lemma_lcs_suffix(x, y, 0, 1, 0, 0);
    alignment_is_longest(x, b, 0, 0, pairs);
    alignment_is_a_common_subsequence(a, y, 0, 0);
    assert(is_matching(a, y, 0, 0, diff::lcs_pairs(a, y, 0, 0)));
}

/// A first line that both versions share stays in front as context, and the rest is the edit of
/// the rest.
pub proof fn a_shared_first_line_is_context(
    line: Seq<char>,
    a: Seq<Seq<char>>,
    b: Seq<Seq<char>>,
)
    requires
        (a.len() + 1) * (b.len() + 1) <= 40_000,
    ensures
        diff::line_ops(seq![line] + a, seq![line] + b) == seq![
            OpView { kind: DiffLineKind::Context, text: line },
        ] + diff::line_ops(a, b),
{
    assert(a.len() * b.len() <= (a.len() + 1) * (b.len() + 1)) by (nonlinear_arith);
    shared_first_lines_are_matched(line, a, b);
}

/// Grouping keeps every context line in its place, and with it the length of every run of
/// changes.
pub proof fn grouping_moves_no_context(ops: Seq<OpView>)
    ensures
        diff::grouped(ops).len() == ops.len(),
        forall|k: int|
            #![trigger diff::grouped(ops)[k]]
            #![trigger ops[k]]
            0 <= k < ops.len() ==> (diff::grouped(ops)[k].kind == DiffLineKind::Context
                <==> ops[k].kind == DiffLineKind::Context) && (ops[k].kind == DiffLineKind::Context
                ==> diff::grouped(ops)[k] == ops[k]),
    decreases ops.len(),
{
    let all = diff::grouped(ops);
    if ops.len() > 0 {
        if ops[0].kind == DiffLineKind::Context {
            let rest = ops.skip(1);
            grouping_moves_no_context(rest);
            assert forall|k: int| #![trigger all[k]] #![trigger ops[k]] 0 <= k < ops.len() implies (
            all[k].kind == DiffLineKind::Context <==> ops[k].kind == DiffLineKind::Context) && (
            ops[k].kind == DiffLineKind::Context ==> all[k] == ops[k]) by {
                if k > 0 {
                    assert(all[k] == diff::grouped(rest)[k - 1]);
                    assert(rest[k - 1] == ops[k]);
                }
            }
        } else {
            diff::lemma_leading_changes_bound(ops);
            lemma_leading_changes_are_changes(ops);
            let n = diff::leading_changes(ops) as int;
            let run = ops.take(n);
            let rest = ops.skip(n);
            let removed = diff::of_kind(run, DiffLineKind::Removed);
            let added = diff::of_kind(run, DiffLineKind::Added);
            lemma_run_length(run);
            lemma_of_kind_all(run, DiffLineKind::Removed);
            lemma_of_kind_all(run, DiffLineKind::Added);
            grouping_moves_no_context(rest);
            assert forall|k: int| #![trigger all[k]] #![trigger ops[k]] 0 <= k < ops.len() implies (
            all[k].kind == DiffLineKind::Context <==> ops[k].kind == DiffLineKind::Context) && (
            ops[k].kind == DiffLineKind::Context ==> all[k] == ops[k]) by {
                if k < n {
                    assert(run[k] == ops[k]);
                    if k < removed.len() {
                        assert(all[k] == removed[k]);
                    } else {
                        assert(all[k] == added[k - removed.len()]);
                    }
                } else {
                    assert(all[k] == diff::grouped(rest)[k - n]);
                    assert(rest[k - n] == ops[k]);
                }
            }
        }
    }
}

proof fn lemma_run_length(run: Seq<OpView>)
    requires
        all_changes(run),
    ensures
        diff::of_kind(run, DiffLineKind::Removed).len() + diff::of_kind(
            run,
            DiffLineKind::Added,
        ).len() == run.len(),
    decreases run.len(),
{
    reveal(Seq::filter);
    if run.len() > 0 {
        let before = run.drop_last();
        assert(all_changes(before)) by {
            assert forall|k: int| 0 <= k < before.len() implies (#[trigger] before[k]).kind
                != DiffLineKind::Context by {
                assert(before[k] == run[k]);
            }
        }
        lemma_run_length(before);
        assert(run[run.len() - 1].kind != DiffLineKind::Context);
    }
}

proof fn lemma_same_context(x: Seq<OpView>, y: Seq<OpView>)
    requires
        x.len() == y.len(),
        forall|k: int|
            #![trigger x[k]]
            0 <= k < x.len() ==> (x[k].kind == DiffLineKind::Context <==> y[k].kind
                == DiffLineKind::Context),
    ensures
        context_lines(x) == context_lines(y),
    decreases x.len(),
{
    if x.len() > 0 {
        let xs = x.skip(1);
        let ys = y.skip(1);
        assert forall|k: int| #![trigger xs[k]] 0 <= k < xs.len() implies (xs[k].kind
            == DiffLineKind::Context <==> ys[k].kind == DiffLineKind::Context) by {
            assert(xs[k] == x[k + 1] && ys[k] == y[k + 1]);
        }
        assert(x[0].kind == DiffLineKind::Context <==> y[0].kind == DiffLineKind::Context);
        lemma_same_context(xs, ys);
    }
}

/// The rendered diff of two versions that make at most 40 000 pairs of lines shows at least as
/// many context lines as any common subsequence has.
pub proof fn edit_diff_keeps_the_most_context(
    a: Seq<Seq<char>>,
    b: Seq<Seq<char>>,
    pairs: Seq<(int, int)>,
)
    requires
        a.len() * b.len() <= 40_000,
        is_matching(a, b, 0, 0, pairs),
    ensures
        context_lines(as_ops(diff::edit_diff(a, b))) >= pairs.len(),
{
    let ops = diff::line_ops(a, b);
    let groups = diff::grouped(ops);
    line_ops_keep_the_most_context(a, b, pairs);
    grouping_moves_no_context(ops);
    lemma_same_context(ops, groups);
    rendering_keeps_kinds_and_texts(groups);
    assert(as_ops(diff::edit_diff(a, b)) =~= groups);
}

/// Context lines are shown whole and never highlighted.
pub proof fn context_is_never_highlighted(ops: Seq<OpView>, k: int)
    requires
        0 <= k < ops.len(),
        ops[k].kind == DiffLineKind::Context,
    ensures
        k < diff::segmented(ops).len(),
        diff::segmented(ops)[k].segments == seq![SegmentView { text: ops[k].text, changed: false }],
    decreases ops.len(),
{
    rendering_keeps_kinds_and_texts(ops);
    let all = diff::segmented(ops);
    if ops[0].kind == DiffLineKind::Context {
        if k > 0 {
            context_is_never_highlighted(ops.skip(1), k - 1);
            assert(all[k] == diff::segmented(ops.skip(1))[k - 1]);
        }
    } else {
        diff::lemma_run_bound(ops);
        let r = diff::leading(ops, DiffLineKind::Removed) as int;
        let a = diff::leading(ops.skip(r), DiffLineKind::Added) as int;
        lemma_leading_kinds(ops, DiffLineKind::Removed);
        lemma_leading_kinds(ops.skip(r), DiffLineKind::Added);
        if k >= r && k < r + a {
            assert(ops.skip(r)[k - r] == ops[k]);
        }
        assert(k >= r + a);
        context_is_never_highlighted(ops.skip(r + a), k - r - a);
        assert(all[k] == diff::segmented(ops.skip(r + a))[k - r - a]);
    }
}

/// Whether every operation is of one kind.
pub open spec fn all_of_kind(ops: Seq<OpView>, kind: DiffLineKind) -> bool {
    forall|k: int| 0 <= k < ops.len() ==> (#[trigger] ops[k]).kind == kind
}

proof fn lemma_leading_exact(front: Seq<OpView>, back: Seq<OpView>, kind: DiffLineKind)
    requires
        all_of_kind(front, kind),
        back.len() > 0 ==> back[0].kind != kind,
    ensures
        diff::leading(front + back, kind) == front.len(),
    decreases front.len(),
{
    let all = front + back;
    if front.len() > 0 {
        assert(all[0] == front[0]);
        let rest = front.skip(1);
        assert forall|k: int| 0 <= k < rest.len() implies (#[trigger] rest[k]).kind == kind by {
            assert(rest[k] == front[k + 1]);
        }
        lemma_leading_exact(rest, back, kind);
        assert(all.skip(1) =~= rest + back);
    } else {
        assert(all =~= back);
    }
}

proof fn lemma_leading_within(pre: Seq<OpView>, post: Seq<OpView>, kind: DiffLineKind)
    requires
        kind != DiffLineKind::Context,
        pre.len() > 0,
        pre[pre.len() - 1].kind == DiffLineKind::Context,
    ensures
        diff::leading(pre + post, kind) == diff::leading(pre, kind),
        diff::leading(pre, kind) < pre.len(),
    decreases pre.len(),
{
    let all = pre + post;
    assert(all[0] == pre[0]);
    if pre[0].kind == kind {
        let rest = pre.skip(1);
        assert(rest[rest.len() - 1] == pre[pre.len() - 1]);
        lemma_leading_within(rest, post, kind);
        assert(all.skip(1) =~= rest + post);
    }
}

proof fn lemma_segmented_concat(pre: Seq<OpView>, post: Seq<OpView>)
    requires
        pre.len() > 0 ==> pre[pre.len() - 1].kind == DiffLineKind::Context,
    ensures
        diff::segmented(pre + post) == diff::segmented(pre) + diff::segmented(post),
    decreases pre.len(),
{
    let all = pre + post;
    if pre.len() == 0 {
        assert(all =~= post);
        assert(diff::segmented(pre) + diff::segmented(post) =~= diff::segmented(post));
    } else {
        assert(all[0] == pre[0]);
        if pre[0].kind == DiffLineKind::Context {
            let rest = pre.skip(1);
            if rest.len() > 0 {
                assert(rest[rest.len() - 1] == pre[pre.len() - 1]);
            }
            lemma_segmented_concat(rest, post);
            assert(all.skip(1) =~= rest + post);
            assert(diff::segmented(all) =~= diff::segmented(pre) + diff::segmented(post));
        } else {
            diff::lemma_run_bound(pre);
            let r = diff::leading(pre, DiffLineKind::Removed) as int;
            lemma_leading_within(pre, post, DiffLineKind::Removed);
            let tail = pre.skip(r);
            assert(tail[tail.len() - 1] == pre[pre.len() - 1]);
            lemma_leading_within(tail, post, DiffLineKind::Added);
            assert(all.skip(r) =~= tail + post);
            let a = diff::leading(tail, DiffLineKind::Added) as int;
            let rest = pre.skip(r + a);
            assert(rest[rest.len() - 1] == pre[pre.len() - 1]);
            lemma_segmented_concat(rest, post);
            assert(all.take(r) =~= pre.take(r));
            assert(all.subrange(r, r + a) =~= pre.subrange(r, r + a));
            assert(all.skip(r + a) =~= rest + post);
            diff::lemma_run_bound(all);
            assert(diff::segmented(all) =~= diff::segmented(pre) + diff::segmented(post));
        }
    }
}

/// In a run of changes the removed line and the added line at the same place are compared word
/// by word: where they are an edit of each other both show the outcome, and else, like a line
/// without a partner, they are shown whole and unhighlighted.
pub proof fn changed_lines_are_paired_by_place(
    pre: Seq<OpView>,
    removed: Seq<OpView>,
    added: Seq<OpView>,
    post: Seq<OpView>,
    k: int,
)
    requires
        pre.len() > 0 ==> pre.last().kind == DiffLineKind::Context,
        all_of_kind(removed, DiffLineKind::Removed),
        all_of_kind(added, DiffLineKind::Added),
        post.len() > 0 ==> post[0].kind == DiffLineKind::Context,
        0 <= k,
    ensures
        ({
            let lines = diff::segmented(pre + removed + added + post);
            let at = pre.len() + k;
            let partner = pre.len() + removed.len() + k;
            &&& k < removed.len() && k < added.len() ==> match diff::word_diff_of(
                removed[k].text,
                added[k].text,
            ) {
                Some((o, n)) => lines[at].segments == o && lines[partner].segments == n,
                None => lines[at].segments == seq![
                    SegmentView { text: removed[k].text, changed: false },
                ] && lines[partner].segments == seq![
                    SegmentView { text: added[k].text, changed: false },
                ],
            }
            &&& added.len() <= k < removed.len() ==> lines[at].segments == seq![
                SegmentView { text: removed[k].text, changed: false },
            ]
            &&& removed.len() <= k < added.len() ==> lines[partner].segments == seq![
                SegmentView { text: added[k].text, changed: false },
            ]
        }),
{
    let run = removed + added;
    let here = run + post;
    let ops = pre + removed + added + post;
    assert(ops =~= pre + here);
    lemma_segmented_concat(pre, here);
    rendering_keeps_kinds_and_texts(pre);
    if run.len() > 0 {
        assert(here[0].kind != DiffLineKind::Context) by {
            if removed.len() > 0 {
                assert(here[0] == removed[0]);
            } else {
                assert(here[0] == added[0]);
            }
        }
        let r = removed.len() as int;
        let a = added.len() as int;
        if added.len() > 0 {
            assert((added + post)[0] == added[0]);
        } else {
            assert(added + post =~= post);
        }
        lemma_leading_exact(removed, added + post, DiffLineKind::Removed);
        assert(here =~= removed + (added + post));
        assert(here.skip(r) =~= added + post);
        lemma_leading_exact(added, post, DiffLineKind::Added);
        assert(here.take(r) =~= removed);
        assert(here.subrange(r, r + a) =~= added);
        diff::lemma_run_bound(here);
        assert(diff::segmented(here) == diff::run_lines(removed, added) + diff::segmented(
            here.skip(r + a),
        ));
        let lines = diff::segmented(ops);
        if k < r {
            assert(lines[pre.len() + k] == diff::removed_line(removed, added, k));
        }
        if k < a {
            assert(lines[pre.len() + r + k] == diff::added_line(removed, added, k));
        }
    }
}

} // verus!
