//! What holds of every word diff.

use vstd::prelude::*;

use crate::parser::diff;
use crate::parser::diff::{CharClass, DiffLineKind, OpView, SegmentView};
use crate::parser::diff_laws;
use crate::text;

verus! {

/// Letters, digits and the underscore make words, white space is apart, and whatever else ASCII
/// holds is punctuation.
pub proof fn characters_have_their_classes(c: char)
    ensures
        'a' <= c <= 'z' || 'A' <= c <= 'Z' || '0' <= c <= '9' || c == '_' ==> diff::char_class(c)
            == CharClass::Word,
        diff::char_class(c) == CharClass::Word <==> text::letter_or_digit(c) || c == '_',
        diff::char_class(c) == CharClass::Whitespace <==> text::white_space(c),
        (c as u32) < 0x80 && !text::white_space(c) && !('a' <= c <= 'z') && !('A' <= c <= 'Z') && !(
        '0' <= c <= '9') && c != '_' ==> diff::char_class(c) == CharClass::Punct,
{
}

/// Of each character of some segments, whether it is highlighted.
pub open spec fn marks(segments: Seq<SegmentView>) -> Seq<bool>
    decreases segments.len(),
{
    if segments.len() == 0 {
        seq![]
    } else {
        marks(segments.drop_last()) + Seq::new(
            segments.last().text.len(),
            |c: int| segments.last().changed,
        )
    }
}

/// Of each character of some tokens, the flag of its token.
pub open spec fn spread(toks: Seq<Seq<char>>, flags: Seq<bool>) -> Seq<bool>
    decreases toks.len(),
{
    if toks.len() == 0 {
        seq![]
    } else {
        spread(toks.drop_last(), flags.drop_last()) + Seq::new(
            toks.last().len(),
            |c: int| flags.last(),
        )
    }
}

/// Whether every character of a token is white space.
pub open spec fn blank(token: Seq<char>) -> bool {
    forall|c: int| 0 <= c < token.len() ==> text::white_space(#[trigger] token[c])
}

/// How many tokens are not white space.
pub open spec fn word_count(toks: Seq<Seq<char>>) -> nat
    decreases toks.len(),
{
    if toks.len() == 0 {
        0
    } else if blank(toks.last()) {
        word_count(toks.drop_last())
    } else {
        word_count(toks.drop_last()) + 1
    }
}

/// How many of the matched tokens are not white space.
pub open spec fn matched_words(toks: Seq<Seq<char>>, pairs: Seq<(int, int)>) -> nat
    decreases pairs.len(),
{
    if pairs.len() == 0 {
        0
    } else if blank(toks[pairs.last().0]) {
        matched_words(toks, pairs.drop_last())
    } else {
        matched_words(toks, pairs.drop_last()) + 1
    }
}

/// Whether a matching takes position `k` of the old tokens.
pub open spec fn takes_old(pairs: Seq<(int, int)>, k: int) -> bool {
    exists|p: int| 0 <= p < pairs.len() && (#[trigger] pairs[p]).0 == k
}

/// Whether a matching takes position `k` of the new tokens.
pub open spec fn takes_new(pairs: Seq<(int, int)>, k: int) -> bool {
    exists|p: int| 0 <= p < pairs.len() && (#[trigger] pairs[p]).1 == k
}

proof fn lemma_marks_of_merged(toks: Seq<Seq<char>>, changed: Seq<bool>)
    requires
        toks.len() == changed.len(),
    ensures
        marks(diff::merged_segments(toks, changed)) == spread(toks, changed),
    decreases toks.len(),
{
    if toks.len() > 0 {
        let before = diff::merged_segments(toks.drop_last(), changed.drop_last());
        let all = diff::merged_segments(toks, changed);
        lemma_marks_of_merged(toks.drop_last(), changed.drop_last());
        if before.len() > 0 && before.last().changed == changed.last() {
            assert(all.drop_last() =~= before.drop_last());
            assert(marks(all) =~= marks(before) + Seq::new(
                toks.last().len(),
                |c: int| changed.last(),
            ));
        } else {
            assert(all.drop_last() =~= before);
            assert(marks(all) =~= spread(toks, changed));
        }
    } else {
        assert(marks(diff::merged_segments(toks, changed)) =~= spread(toks, changed));
    }
}

proof fn lemma_word_count(toks: Seq<Seq<char>>)
    ensures
        diff::count_set(diff::word_flags(toks)) == word_count(toks),
    decreases toks.len(),
{
    if toks.len() > 0 {
        assert(diff::word_flags(toks).drop_last() =~= diff::word_flags(toks.drop_last()));
        lemma_word_count(toks.drop_last());
        assert(blank(toks.last()) == text::all_white(toks.last()));
    }
}

/// The flags of the first `n` tokens count the matched words among them.
proof fn lemma_matched_words(
    toks: Seq<Seq<char>>,
    matched: Seq<bool>,
    pairs: Seq<(int, int)>,
    n: int,
)
    requires
        0 <= n <= toks.len() == matched.len(),
        forall|p: int| 0 <= p < pairs.len() ==> 0 <= (#[trigger] pairs[p]).0 < n,
        forall|p: int, q: int|
            0 <= p < q < pairs.len() ==> (#[trigger] pairs[p]).0 < (#[trigger] pairs[q]).0,
        forall|k: int| 0 <= k < n ==> #[trigger] matched[k] == takes_old(pairs, k),
    ensures
        diff::count_set(diff::shared_flags(toks, matched).take(n)) == matched_words(toks, pairs),
    decreases n,
{
    let flags = diff::shared_flags(toks, matched);
    if n == 0 {
        if pairs.len() > 0 {
            assert(pairs[0].0 < 0);
        }
    } else {
        assert(flags.take(n).drop_last() =~= flags.take(n - 1));
        assert(blank(toks[n - 1]) == text::all_white(toks[n - 1]));
        if pairs.len() > 0 && pairs.last().0 == n - 1 {
            let front = pairs.drop_last();
            let last = pairs.len() - 1;
            assert(pairs[last].0 == n - 1);
            assert forall|p: int| 0 <= p < front.len() implies 0 <= (#[trigger] front[p]).0 < n
                - 1 by {
                assert(pairs[p].0 < pairs[last].0);
            }
            assert forall|p: int, q: int| 0 <= p < q < front.len() implies (#[trigger] front[p]).0
                < (#[trigger] front[q]).0 by {
                assert(pairs[p].0 < pairs[q].0);
            }
            assert forall|k: int| 0 <= k < n - 1 implies #[trigger] matched[k] == takes_old(
                front,
                k,
            ) by {
                if takes_old(pairs, k) {
                    let p = choose|p: int| 0 <= p < pairs.len() && (#[trigger] pairs[p]).0 == k;
                    assert(front[p].0 == k);
                }
                if takes_old(front, k) {
                    let p = choose|p: int| 0 <= p < front.len() && (#[trigger] front[p]).0 == k;
                    assert(pairs[p].0 == k);
                }
            }
            assert(takes_old(pairs, n - 1));
            assert(matched[n - 1]);
            lemma_matched_words(toks, matched, front, n - 1);
        } else {
            assert forall|p: int| 0 <= p < pairs.len() implies 0 <= (#[trigger] pairs[p]).0 < n
                - 1 by {
                if p < pairs.len() - 1 {
                    assert(pairs[p].0 < pairs[pairs.len() - 1].0);
                }
            }
            assert(!takes_old(pairs, n - 1));
            assert(!matched[n - 1]);
            lemma_matched_words(toks, matched, pairs, n - 1);
        }
    }
}

/// A word diff rests on a longest common subsequence of the tokens of both lines. The lines are
/// an edit of each other exactly where the words that it matches make at least three tenths of
/// the words of the line that has more of them, and there is a word at all. Then just those
/// words are highlighted that it does not match.
pub proof fn word_diffs_rest_on_a_longest_match(old_line: Seq<char>, new_line: Seq<char>) -> (pairs:
    Seq<(int, int)>)
    ensures
        ({
            let a = diff::tokens(old_line);
            let b = diff::tokens(new_line);
            &&& diff_laws::is_matching(a, b, 0, 0, pairs)
            &&& forall|other: Seq<(int, int)>| #[trigger]
                diff_laws::is_matching(a, b, 0, 0, other) ==> other.len() <= pairs.len()
            &&& diff::word_diff_of(old_line, new_line) is Some <==> {
                &&& word_count(a) > 0 || word_count(b) > 0
                &&& 10 * matched_words(a, pairs) >= 3 * word_count(a)
                &&& 10 * matched_words(a, pairs) >= 3 * word_count(b)
            }
            &&& diff::word_diff_of(old_line, new_line) matches Some((o, n)) ==> {
                &&& marks(o) == spread(
                    a,
                    Seq::new(a.len(), |k: int| !takes_old(pairs, k) && !blank(a[k])),
                )
                &&& marks(n) == spread(
                    b,
                    Seq::new(b.len(), |k: int| !takes_new(pairs, k) && !blank(b[k])),
                )
            }
        }),
{
    let a = diff::tokens(old_line);
    let b = diff::tokens(new_line);
    let pairs = diff::lcs_pairs(a, b, 0, 0);
    diff_laws::alignment_is_a_common_subsequence(a, b, 0, 0);
    assert forall|other: Seq<(int, int)>| #[trigger]
        diff_laws::is_matching(a, b, 0, 0, other) implies other.len() <= pairs.len() by {
        diff_laws::alignment_is_longest(a, b, 0, 0, other);
    }
    lemma_word_count(a);
    lemma_word_count(b);
    let old_flags = diff::old_flags(a, b);
    let new_flags = diff::new_flags(a, b);
    assert forall|k: int| 0 <= k < a.len() implies #[trigger] old_flags[k] == takes_old(
        pairs,
        k,
    ) by {}
    assert forall|k: int| 0 <= k < b.len() implies #[trigger] new_flags[k] == takes_new(
        pairs,
        k,
    ) by {}
    assert forall|p: int| 0 <= p < pairs.len() implies 0 <= (#[trigger] pairs[p]).0 < a.len() by {}
    lemma_matched_words(a, old_flags, pairs, a.len() as int);
    let shared = diff::shared_flags(a, old_flags);
    assert(shared.take(a.len() as int) =~= shared);
    let old_changed = diff::changed_flags(a, old_flags);
    let new_changed = diff::changed_flags(b, new_flags);
    lemma_marks_of_merged(a, old_changed);
    lemma_marks_of_merged(b, new_changed);
    assert(old_changed =~= Seq::new(a.len(), |k: int| !takes_old(pairs, k) && !blank(a[k]))) by {
        assert forall|k: int| 0 <= k < a.len() implies old_changed[k] == (!takes_old(pairs, k)
            && !blank(a[k])) by {
            assert(old_flags[k] == takes_old(pairs, k));
            assert(blank(a[k]) == text::all_white(a[k]));
        }
    }
    assert(new_changed =~= Seq::new(b.len(), |k: int| !takes_new(pairs, k) && !blank(b[k]))) by {
        assert forall|k: int| 0 <= k < b.len() implies new_changed[k] == (!takes_new(pairs, k)
            && !blank(b[k])) by {
            assert(new_flags[k] == takes_new(pairs, k));
            assert(blank(b[k]) == text::all_white(b[k]));
        }
    }
    pairs
}

/// Neighbouring segments of a word diff differ in whether they are highlighted.
pub proof fn highlights_alternate(old_line: Seq<char>, new_line: Seq<char>, k: int)
    ensures
        diff::word_diff_of(old_line, new_line) matches Some((o, n)) ==> {
            &&& 0 <= k < o.len() - 1 ==> o[k].changed != o[k + 1].changed
            &&& 0 <= k < n.len() - 1 ==> n[k].changed != n[k + 1].changed
        },
{
    let a = diff::tokens(old_line);
    let b = diff::tokens(new_line);
    diff_laws::merging_keeps_the_text(a, diff::changed_flags(a, diff::old_flags(a, b)));
    diff_laws::merging_keeps_the_text(b, diff::changed_flags(b, diff::new_flags(a, b)));
}

/// Whether some operations keep what stands at position `k` of the old version.
pub open spec fn keeps_old(ops: Seq<OpView>, k: int) -> bool
    decreases ops.len(),
{
    if ops.len() == 0 {
        false
    } else if ops[0].kind == DiffLineKind::Added {
        keeps_old(ops.skip(1), k)
    } else if k == 0 {
        ops[0].kind == DiffLineKind::Context
    } else {
        keeps_old(ops.skip(1), k - 1)
    }
}

/// Whether some operations keep what stands at position `k` of the new version.
pub open spec fn keeps_new(ops: Seq<OpView>, k: int) -> bool
    decreases ops.len(),
{
    if ops.len() == 0 {
        false
    } else if ops[0].kind == DiffLineKind::Removed {
        keeps_new(ops.skip(1), k)
    } else if k == 0 {
        ops[0].kind == DiffLineKind::Context
    } else {
        keeps_new(ops.skip(1), k - 1)
    }
}

proof fn lemma_keeps_none(kind: DiffLineKind, lines: Seq<Seq<char>>, k: int)
    requires
        kind != DiffLineKind::Context,
    ensures
        !keeps_old(diff::ops_of(kind, lines), k),
        !keeps_new(diff::ops_of(kind, lines), k),
    decreases lines.len(),
{
    if lines.len() > 0 {
        assert(diff::ops_of(kind, lines).skip(1) =~= diff::ops_of(kind, lines.skip(1)));
        lemma_keeps_none(kind, lines.skip(1), k);
        lemma_keeps_none(kind, lines.skip(1), k - 1);
    }
}

proof fn lemma_takes_prepended(i: int, j: int, rest: Seq<(int, int)>, k: int)
    ensures
        takes_old(seq![(i, j)] + rest, k) <==> k == i || takes_old(rest, k),
        takes_new(seq![(i, j)] + rest, k) <==> k == j || takes_new(rest, k),
{
    let all = seq![(i, j)] + rest;
    assert(all[0] == (i, j));
    if takes_old(rest, k) {
        let p = choose|p: int| 0 <= p < rest.len() && (#[trigger] rest[p]).0 == k;
        assert(all[p + 1].0 == k);
    }
    if takes_new(rest, k) {
        let p = choose|p: int| 0 <= p < rest.len() && (#[trigger] rest[p]).1 == k;
        assert(all[p + 1].1 == k);
    }
    if takes_old(all, k) {
        let p = choose|p: int| 0 <= p < all.len() && (#[trigger] all[p]).0 == k;
        if p > 0 {
            assert(rest[p - 1].0 == k);
        }
    }
    if takes_new(all, k) {
        let p = choose|p: int| 0 <= p < all.len() && (#[trigger] all[p]).1 == k;
        if p > 0 {
            assert(rest[p - 1].1 == k);
        }
    }
}

proof fn lemma_matched_is_kept(a: Seq<Seq<char>>, b: Seq<Seq<char>>, i: int, j: int, k: int)
    requires
        0 <= i <= a.len(),
        0 <= j <= b.len(),
        0 <= k,
    ensures
        takes_old(diff::lcs_pairs(a, b, i, j), i + k) == keeps_old(
            diff::edit_script(a, b, i, j),
            k,
        ),
        takes_new(diff::lcs_pairs(a, b, i, j), j + k) == keeps_new(
            diff::edit_script(a, b, i, j),
            k,
        ),
    decreases a.len() - i, b.len() - j,
{
    let pairs = diff::lcs_pairs(a, b, i, j);
    let ops = diff::edit_script(a, b, i, j);
    diff_laws::alignment_is_a_common_subsequence(a, b, i, j);
    if i == a.len() {
        lemma_keeps_none(DiffLineKind::Added, b.skip(j), k);
    } else if j == b.len() {
        lemma_keeps_none(DiffLineKind::Removed, a.skip(i), k);
    } else if a[i] == b[j] {
        let rest = diff::lcs_pairs(a, b, i + 1, j + 1);
        let more = diff::edit_script(a, b, i + 1, j + 1);
        diff_laws::alignment_is_a_common_subsequence(a, b, i + 1, j + 1);
        assert(ops.skip(1) =~= more);
        lemma_takes_prepended(i, j, rest, i + k);
        lemma_takes_prepended(i, j, rest, j + k);
        if k > 0 {
            lemma_matched_is_kept(a, b, i + 1, j + 1, k - 1);
        }
    } else if diff::lcs_len(a, b, i + 1, j) >= diff::lcs_len(a, b, i, j + 1) {
        let more = diff::edit_script(a, b, i + 1, j);
        diff_laws::alignment_is_a_common_subsequence(a, b, i + 1, j);
        assert(ops.skip(1) =~= more);
        lemma_matched_is_kept(a, b, i + 1, j, k);
        if k > 0 {
            lemma_matched_is_kept(a, b, i + 1, j, k - 1);
        }
    } else {
        let more = diff::edit_script(a, b, i, j + 1);
        diff_laws::alignment_is_a_common_subsequence(a, b, i, j + 1);
        assert(ops.skip(1) =~= more);
        lemma_matched_is_kept(a, b, i, j + 1, k);
        if k > 0 {
            lemma_matched_is_kept(a, b, i, j + 1, k - 1);
        }
    }
}

/// Words are aligned as lines are: what a word diff highlights are the words that the edit script
/// of the tokens does not keep.
pub proof fn words_are_aligned_as_lines_are(old_line: Seq<char>, new_line: Seq<char>)
    ensures
        ({
            let a = diff::tokens(old_line);
            let b = diff::tokens(new_line);
            let ops = diff::edit_script(a, b, 0, 0);
            diff::word_diff_of(old_line, new_line) matches Some((o, n)) ==> {
                &&& marks(o) == spread(
                    a,
                    Seq::new(a.len(), |k: int| !keeps_old(ops, k) && !blank(a[k])),
                )
                &&& marks(n) == spread(
                    b,
                    Seq::new(b.len(), |k: int| !keeps_new(ops, k) && !blank(b[k])),
                )
            }
        }),
{
    let a = diff::tokens(old_line);
    let b = diff::tokens(new_line);
    let pairs = diff::lcs_pairs(a, b, 0, 0);
    let ops = diff::edit_script(a, b, 0, 0);
    let old_changed = diff::changed_flags(a, diff::old_flags(a, b));
    let new_changed = diff::changed_flags(b, diff::new_flags(a, b));
    lemma_marks_of_merged(a, old_changed);
    lemma_marks_of_merged(b, new_changed);
    assert(old_changed =~= Seq::new(a.len(), |k: int| !keeps_old(ops, k) && !blank(a[k]))) by {
        assert forall|k: int| 0 <= k < a.len() implies old_changed[k] == (!keeps_old(ops, k)
            && !blank(a[k])) by {
            lemma_matched_is_kept(a, b, 0, 0, k);
            assert(diff::old_flags(a, b)[k] == takes_old(pairs, k));
            assert(blank(a[k]) == text::all_white(a[k]));
        }
    }
    assert(new_changed =~= Seq::new(b.len(), |k: int| !keeps_new(ops, k) && !blank(b[k]))) by {
        assert forall|k: int| 0 <= k < b.len() implies new_changed[k] == (!keeps_new(ops, k)
            && !blank(b[k])) by {
            lemma_matched_is_kept(a, b, 0, 0, k);
            assert(diff::new_flags(a, b)[k] == takes_new(pairs, k));
            assert(blank(b[k]) == text::all_white(b[k]));
        }
    }
}

} // verus!
