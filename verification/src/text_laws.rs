//! What holds of texts in general.

use vstd::prelude::*;

use crate::text;

verus! {

/// Whether a text is another one with white space around it, and has none at its ends.
pub open spec fn is_core(core: Seq<char>, whole: Seq<char>) -> bool {
    &&& exists|front: Seq<char>, back: Seq<char>|
        whole == #[trigger] (front + core + back) && text::all_white(front) && text::all_white(back)
    &&& core.len() > 0 ==> !text::white_space(core[0]) && !text::white_space(core[core.len() - 1])
}

proof fn lemma_front(s: Seq<char>) -> (front: Seq<char>)
    ensures
        s == front + text::trim_front(s),
        text::all_white(front),
        text::trim_front(s).len() > 0 ==> !text::white_space(text::trim_front(s)[0]),
    decreases s.len(),
{
    if s.len() > 0 && text::white_space(s[0]) {
        let rest = lemma_front(s.drop_first());
        let front = seq![s[0]] + rest;
        let t = s.drop_first();
        assert(s =~= seq![s[0]] + t);
        assert(s =~= seq![s[0]] + (rest + text::trim_front(t)));
        assert(s =~= front + text::trim_front(s));
        assert forall|i: int| 0 <= i < front.len() implies text::white_space(
            #[trigger] front[i],
        ) by {
            if i > 0 {
                assert(front[i] == rest[i - 1]);
            }
        }
        front
    } else {
        assert(s =~= Seq::<char>::empty() + s);
        seq![]
    }
}

proof fn lemma_back(s: Seq<char>) -> (back: Seq<char>)
    ensures
        s == text::trim_back(s) + back,
        text::all_white(back),
        text::trim_back(s).len() > 0 ==> !text::white_space(
            text::trim_back(s)[text::trim_back(s).len() - 1],
        ),
    decreases s.len(),
{
    if s.len() > 0 && text::white_space(s.last()) {
        let rest = lemma_back(s.drop_last());
        let back = rest.push(s.last());
        let t = s.drop_last();
        assert(s =~= t.push(s.last()));
        assert(s =~= (text::trim_back(t) + rest).push(s.last()));
        assert(s =~= text::trim_back(s) + back);
        assert forall|i: int| 0 <= i < back.len() implies text::white_space(#[trigger] back[i]) by {
            if i < rest.len() {
                assert(back[i] == rest[i]);
            }
        }
        back
    } else {
        assert(s =~= s + Seq::<char>::empty());
        seq![]
    }
}

/// Trimming takes the white space around a text, all of it, and nothing else.
pub proof fn trimming_takes_the_white_space_around(s: Seq<char>)
    ensures
        is_core(text::trimmed(s), s),
{
    let front = lemma_front(s);
    let rest = text::trim_front(s);
    let back = lemma_back(rest);
    let core = text::trimmed(s);
    assert(s =~= front + core + back);
    if core.len() > 0 {
        assert(core[0] == rest[0]);
    }
}

proof fn lemma_split_parts(s: Seq<char>, sep: char)
    ensures
        text::split_on(s, sep).len() > 0,
        text::joined(text::split_on(s, sep), seq![sep]) == s,
        forall|k: int, c: int|
            0 <= k < text::split_on(s, sep).len() && 0 <= c < text::split_on(s, sep)[k].len()
                ==> #[trigger] text::split_on(s, sep)[k][c] != sep,
    decreases s.len(),
{
    let parts = text::split_on(s, sep);
    if s.len() == 0 {
        assert(text::joined(parts, seq![sep]) =~= s);
    } else {
        let front = s.drop_last();
        let before = text::split_on(front, sep);
        lemma_split_parts(front, sep);
        if s.last() == sep {
            assert(parts.drop_last() =~= before);
            assert(text::joined(parts, seq![sep]) =~= front + seq![sep] + seq![]);
            assert(text::joined(parts, seq![sep]) =~= s);
            assert forall|k: int, c: int|
                0 <= k < parts.len() && 0 <= c < parts[k].len() implies #[trigger] parts[k][c]
                != sep by {
                assert(parts[k][c] == before[k][c]);
            }
        } else {
            assert(parts.drop_last() =~= before.drop_last());
            if parts.len() > 1 {
                assert(text::joined(parts, seq![sep]) =~= text::joined(before, seq![sep]).push(
                    s.last(),
                ));
            } else {
                assert(parts[0] == before[0].push(s.last()));
                assert(text::joined(before, seq![sep]) == before[0]);
            }
            assert(text::joined(parts, seq![sep]) =~= s);
            assert forall|k: int, c: int|
                0 <= k < parts.len() && 0 <= c < parts[k].len() implies #[trigger] parts[k][c]
                != sep by {
                if k < parts.len() - 1 || c < before[k].len() {
                    assert(parts[k][c] == before[k][c]);
                }
            }
        }
    }
}

/// Splitting a text at a character takes out just the places where it stands: the parts hold it
/// nowhere, and with it between them they are the text.
pub proof fn splitting_takes_out_the_separator(s: Seq<char>, sep: char)
    ensures
        text::split_on(s, sep).len() > 0,
        text::joined(text::split_on(s, sep), seq![sep]) == s,
        forall|k: int, c: int|
            0 <= k < text::split_on(s, sep).len() && 0 <= c < text::split_on(s, sep)[k].len()
                ==> #[trigger] text::split_on(s, sep)[k][c] != sep,
{
    lemma_split_parts(s, sep);
}

proof fn lemma_split_first(line: Seq<char>, sep: char, rest: Seq<char>)
    requires
        forall|i: int| 0 <= i < line.len() ==> (#[trigger] line[i]) != sep,
    ensures
        text::split_on(line, sep) == seq![line],
        text::split_on(line.push(sep) + rest, sep) == seq![line] + text::split_on(rest, sep),
    decreases line.len() + rest.len(),
{
    if rest.len() > 0 {
        let all = line.push(sep) + rest;
        let front = rest.drop_last();
        lemma_split_first(line, sep, front);
        text::lemma_split_nonempty(front, sep);
        assert(all.drop_last() =~= line.push(sep) + front);
        let before = text::split_on(front, sep);
        let all_before = seq![line] + before;
        if rest.last() == sep {
            assert(all_before.push(seq![]) =~= seq![line] + before.push(seq![]));
        } else {
            assert(all_before.last() == before.last());
            assert(all_before.drop_last().push(before.last().push(rest.last())) =~= seq![line]
                + before.drop_last().push(before.last().push(rest.last())));
        }
    } else {
        if line.len() > 0 {
            let front = line.drop_last();
            assert forall|i: int| 0 <= i < front.len() implies (#[trigger] front[i]) != sep by {
                assert(front[i] == line[i]);
            }
            lemma_split_first(front, sep, rest);
            assert(line[line.len() - 1] != sep);
            assert(text::split_on(line, sep) =~= seq![front.push(line.last())]);
            assert(front.push(line.last()) =~= line);
        } else {
            assert(line =~= seq![]);
            assert(text::split_on(line, sep) =~= seq![line]);
        }
        let all = line.push(sep) + rest;
        assert(all =~= line.push(sep));
        assert(all.drop_last() =~= line);
        assert(text::split_on(rest, sep) =~= seq![Seq::<char>::empty()]);
        assert(text::split_on(all, sep) =~= seq![line] + text::split_on(rest, sep));
    }
}

/// The first part of a text ends where the separator first stands, and the other parts are those
/// of what stands behind it.
pub proof fn parts_follow_one_another(line: Seq<char>, sep: char, rest: Seq<char>)
    requires
        forall|i: int| 0 <= i < line.len() ==> (#[trigger] line[i]) != sep,
    ensures
        text::split_on(line, sep) == seq![line],
        text::split_on(line.push(sep) + rest, sep) == seq![line] + text::split_on(rest, sep),
{
    lemma_split_first(line, sep, rest);
}

/// The first line of a text ends at its first line feed, or at a carriage return directly before
/// it; the other lines are those of what stands behind the line feed. A text without a line feed
/// is one line, unless it is empty.
pub proof fn lines_end_at_line_feeds(line: Seq<char>, rest: Seq<char>)
    requires
        forall|i: int| 0 <= i < line.len() ==> (#[trigger] line[i]) != '\n',
    ensures
        line.len() > 0 && line.last() == '\r' ==> text::lines(line.push('\n') + rest) == seq![
            line.drop_last(),
        ] + text::lines(rest),
        line.len() == 0 || line.last() != '\r' ==> text::lines(line.push('\n') + rest) == seq![
            line,
        ] + text::lines(rest),
        line.len() > 0 ==> text::lines(line) == seq![line],
        text::lines(seq![]) == Seq::<Seq<char>>::empty(),
{
    lemma_split_first(line, '\n', rest);
    text::lemma_split_nonempty(rest, '\n');
    let parts = text::split_on(line.push('\n') + rest, '\n');
    let tail = text::split_on(rest, '\n');
    assert(parts.last() == tail.last());
    let first = text::without_return(line);
    assert(text::lines(line.push('\n') + rest) =~= seq![first] + text::lines(rest)) by {
        let ended = Seq::new((parts.len() - 1) as nat, |i: int| text::without_return(parts[i]));
        let tail_ended = Seq::new((tail.len() - 1) as nat, |i: int| text::without_return(tail[i]));
        assert(ended =~= seq![first] + tail_ended);
    }
    if line.len() > 0 {
        assert(text::lines(line) =~= seq![line]);
    }
    assert(text::split_on(seq![], '\n') =~= seq![Seq::<char>::empty()]);
    assert(text::lines(seq![]) =~= Seq::<Seq<char>>::empty());
}

/// A text without white space is one word.
pub proof fn a_word_is_one_word(w: Seq<char>)
    requires
        w.len() > 0,
        forall|i: int| 0 <= i < w.len() ==> !text::white_space(#[trigger] w[i]),
    ensures
        text::words(w) == seq![w],
    decreases w.len(),
{
    let front = w.drop_last();
    assert(w.last() == w[w.len() - 1]);
    if front.len() > 0 {
        assert forall|i: int| 0 <= i < front.len() implies !text::white_space(
            #[trigger] front[i],
        ) by {
            assert(front[i] == w[i]);
        }
        a_word_is_one_word(front);
        assert(!text::white_space(w[w.len() - 2]));
        assert(text::words(w) =~= seq![front.push(w.last())]);
        assert(front.push(w.last()) =~= w);
    } else {
        assert(text::words(front) =~= seq![]);
        assert(seq![w.last()] =~= w);
        assert(text::words(w) =~= seq![w]);
    }
}

/// White space parts the words of a text: they are those before it and those behind it.
pub proof fn white_space_parts_words(before: Seq<char>, c: char, after: Seq<char>)
    requires
        text::white_space(c),
    ensures
        text::words(before.push(c) + after) == text::words(before) + text::words(after),
        text::words(seq![]) == Seq::<Seq<char>>::empty(),
    decreases after.len(),
{
    let all = before.push(c) + after;
    if after.len() == 0 {
        assert(all =~= before.push(c));
        assert(all.drop_last() =~= before);
        assert(text::words(before) + text::words(after) =~= text::words(before));
    } else {
        let front = after.drop_last();
        white_space_parts_words(before, c, front);
        assert(all.drop_last() =~= before.push(c) + front);
        let d = after.last();
        if after.len() >= 2 {
            assert(all[all.len() - 2] == after[after.len() - 2]);
            if !text::white_space(d) && !text::white_space(after[after.len() - 2]) {
                text::lemma_open_word(front);
                let w = text::words(front);
                let both = text::words(before) + w;
                assert(both.last() == w.last());
                assert(both.drop_last().push(w.last().push(d)) =~= text::words(before)
                    + w.drop_last().push(w.last().push(d)));
            }
        } else {
            assert(all[all.len() - 2] == c);
        }
        assert(text::words(all) =~= text::words(before) + text::words(after));
    }
}

/// Texts that are joined stand behind one another with the separator between them.
pub proof fn joined_texts_follow_one_another(
    parts: Seq<Seq<char>>,
    sep: Seq<char>,
    part: Seq<char>,
)
    ensures
        text::joined(seq![], sep) == Seq::<char>::empty(),
        text::joined(seq![part], sep) == part,
        parts.len() > 0 ==> text::joined(parts.push(part), sep) == text::joined(parts, sep) + sep
            + part,
{
    assert(parts.push(part).drop_last() =~= parts);
}

} // verus!
