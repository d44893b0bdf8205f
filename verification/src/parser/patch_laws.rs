//! What holds of every parsed patch.

use vstd::prelude::*;

use crate::parser::diff;
use crate::parser::diff::{DiffLineKind, OpView};
use crate::parser::diff_laws;
use crate::parser::patch;
use crate::parser::patch::{FileView, HunkView, PatchFileOp, PatchLineView, PatchState};
use crate::text;

verus! {

/// A hunk holds its body lines in the order in which they are shown: as the patch has them,
/// but for each run of changes, whose removed lines come first.
pub proof fn hunks_hold_their_lines(header: Seq<char>, ops: Seq<OpView>)
    ensures
        diff_laws::as_ops(patch::hunk_of(header, ops).lines) == diff::grouped(ops),
        diff_laws::old_version(diff_laws::as_ops(patch::hunk_of(header, ops).lines))
            == diff_laws::old_version(ops),
        diff_laws::new_version(diff_laws::as_ops(patch::hunk_of(header, ops).lines))
            == diff_laws::new_version(ops),
{
    diff_laws::rendering_keeps_kinds_and_texts(diff::grouped(ops));
    diff_laws::grouping_keeps_both_versions(ops);
    assert(diff_laws::as_ops(patch::hunk_of(header, ops).lines) =~= diff::grouped(ops));
}

/// The lines of some hunks, one hunk behind the other.
pub open spec fn hunk_ops(hunks: Seq<HunkView>) -> Seq<OpView>
    decreases hunks.len(),
{
    if hunks.len() == 0 {
        seq![]
    } else {
        hunk_ops(hunks.drop_last()) + diff_laws::as_ops(hunks.last().lines)
    }
}

/// The body lines of a patch, one list for each file's section.
pub open spec fn sections(lines: Seq<Seq<char>>) -> Seq<Seq<OpView>>
    decreases lines.len(),
{
    if lines.len() == 0 {
        seq![]
    } else {
        let before = sections(lines.drop_last());
        match patch::line_class(lines.last()) {
            PatchLineView::File(_, _) => before.push(seq![]),
            PatchLineView::Body(op) => if before.len() > 0 {
                before.drop_last().push(before.last().push(op))
            } else {
                before
            },
            _ => before,
        }
    }
}

/// The file headers of a patch.
pub open spec fn headers(lines: Seq<Seq<char>>) -> Seq<(PatchFileOp, Seq<char>)>
    decreases lines.len(),
{
    if lines.len() == 0 {
        seq![]
    } else {
        let before = headers(lines.drop_last());
        match patch::line_class(lines.last()) {
            PatchLineView::File(op, path) => before.push((op, path)),
            _ => before,
        }
    }
}

/// Whether two lists of operations lead from the same old version to the same new one.
pub open spec fn same_change(x: Seq<OpView>, y: Seq<OpView>) -> bool {
    &&& diff_laws::old_version(x) == diff_laws::old_version(y)
    &&& diff_laws::new_version(x) == diff_laws::new_version(y)
}

proof fn lemma_same_change_concat(x: Seq<OpView>, y: Seq<OpView>, a: Seq<OpView>, b: Seq<OpView>)
    requires
        same_change(x, y),
        same_change(a, b),
    ensures
        same_change(x + a, y + b),
{
    diff_laws::lemma_texts_without_concat(x, a, DiffLineKind::Added);
    diff_laws::lemma_texts_without_concat(x, a, DiffLineKind::Removed);
    diff_laws::lemma_texts_without_concat(y, b, DiffLineKind::Added);
    diff_laws::lemma_texts_without_concat(y, b, DiffLineKind::Removed);
}

/// What the state after some lines holds of them.
spec fn holds(s: PatchState, parts: Seq<Seq<OpView>>) -> bool {
    &&& s.files.len() == parts.len()
    &&& s.files.len() == 0 ==> s.ops.len() == 0
    &&& forall|k: int|
        #![trigger parts[k]]
        0 <= k < parts.len() - 1 ==> same_change(hunk_ops(s.files[k].hunks), parts[k])
    &&& parts.len() > 0 ==> same_change(hunk_ops(s.files.last().hunks) + s.ops, parts.last())
}

proof fn lemma_ended(s: PatchState, parts: Seq<Seq<OpView>>)
    requires
        holds(s, parts),
    ensures
        holds(s.ended(), parts),
{
    let e = s.ended();
    if parts.len() > 0 {
        let before = s.files.last().hunks;
        if s.ops.len() > 0 {
            let hunk = patch::hunk_of(s.header, s.ops);
            hunks_hold_their_lines(s.header, s.ops);
            assert(e.files.last().hunks == before.push(hunk));
            assert(before.push(hunk).drop_last() =~= before);
            lemma_same_change_concat(
                hunk_ops(before),
                hunk_ops(before),
                diff_laws::as_ops(hunk.lines),
                s.ops,
            );
            assert(hunk_ops(e.files.last().hunks) + e.ops =~= hunk_ops(before)
                + diff_laws::as_ops(hunk.lines));
            assert forall|k: int| 0 <= k < parts.len() - 1 implies same_change(
                hunk_ops(e.files[k].hunks),
                #[trigger] parts[k],
            ) by {
                assert(e.files[k] == s.files[k]);
            }
        } else {
            assert(s.ops =~= e.ops);
        }
    }
}

proof fn lemma_read_holds(s: PatchState, parts: Seq<Seq<OpView>>, raw: Seq<char>)
    requires
        holds(s, parts),
    ensures
        holds(
            s.read(patch::line_class(raw)),
            match patch::line_class(raw) {
                PatchLineView::File(_, _) => parts.push(seq![]),
                PatchLineView::Body(op) => if parts.len() > 0 {
                    parts.drop_last().push(parts.last().push(op))
                } else {
                    parts
                },
                _ => parts,
            },
        ),
{
    let after = s.read(patch::line_class(raw));
    match patch::line_class(raw) {
        PatchLineView::Marker => {},
        PatchLineView::File(op, path) => {
            lemma_ended(s, parts);
            let e = s.ended();
            let now = parts.push(seq![]);
            assert(hunk_ops(after.files.last().hunks) + after.ops =~= seq![]);
            assert forall|k: int| 0 <= k < now.len() - 1 implies same_change(
                hunk_ops(after.files[k].hunks),
                #[trigger] now[k],
            ) by {
                assert(after.files[k] == e.files[k]);
                assert(now[k] == parts[k]);
                if k == parts.len() - 1 {
                    assert(hunk_ops(e.files.last().hunks) + e.ops =~= hunk_ops(
                        e.files.last().hunks,
                    ));
                }
            }
        },
        PatchLineView::Move(dest) => {
            assert forall|k: int| 0 <= k < parts.len() - 1 implies same_change(
                hunk_ops(after.files[k].hunks),
                #[trigger] parts[k],
            ) by {}
        },
        PatchLineView::Hunk(header) => {
            lemma_ended(s, parts);
        },
        PatchLineView::Body(op) => {
            if parts.len() > 0 {
                let now = parts.drop_last().push(parts.last().push(op));
                let shown = hunk_ops(s.files.last().hunks);
                lemma_same_change_concat(shown + s.ops, parts.last(), seq![op], seq![op]);
                assert(shown + s.ops.push(op) =~= shown + s.ops + seq![op]);
                assert(parts.last().push(op) =~= parts.last() + seq![op]);
                assert forall|k: int| 0 <= k < now.len() - 1 implies same_change(
                    hunk_ops(after.files[k].hunks),
                    #[trigger] now[k],
                ) by {
                    assert(now[k] == parts[k]);
                }
            }
        },
    }
}

proof fn lemma_read_lines_hold(lines: Seq<Seq<char>>)
    ensures
        holds(patch::read_lines(lines), sections(lines)),
    decreases lines.len(),
{
    if lines.len() > 0 {
        lemma_read_lines_hold(lines.drop_last());
        lemma_read_holds(
            patch::read_lines(lines.drop_last()),
            sections(lines.drop_last()),
            lines.last(),
        );
    }
}

/// Parsing keeps what the patch says of each file: its hunks together lead from the same old
/// lines to the same new lines as the body of its section does.
pub proof fn files_hold_their_sections(lines: Seq<Seq<char>>)
    ensures
        patch::read_lines(lines).ended().files.len() == sections(lines).len(),
        forall|k: int|
            #![trigger sections(lines)[k]]
            0 <= k < sections(lines).len() ==> same_change(
                hunk_ops(patch::read_lines(lines).ended().files[k].hunks),
                sections(lines)[k],
            ),
{
    let s = patch::read_lines(lines);
    let parts = sections(lines);
    lemma_read_lines_hold(lines);
    lemma_ended(s, parts);
    let e = s.ended();
    if parts.len() > 0 {
        assert(hunk_ops(e.files.last().hunks) + e.ops =~= hunk_ops(e.files.last().hunks));
    }
}

proof fn lemma_headers(lines: Seq<Seq<char>>)
    ensures
        ({
            let files = patch::read_lines(lines).files;
            let heads = headers(lines);
            &&& files.len() == heads.len()
            &&& forall|k: int|
                #![trigger heads[k]]
                0 <= k < heads.len() ==> heads[k] == (files[k].op, files[k].path)
        }),
    decreases lines.len(),
{
    if lines.len() > 0 {
        let before = lines.drop_last();
        lemma_headers(before);
        let s = patch::read_lines(before);
        let files = patch::read_lines(lines).files;
        let heads = headers(lines);
        assert forall|k: int| 0 <= k < heads.len() implies #[trigger] heads[k] == (
            files[k].op,
            files[k].path,
        ) by {
            if k < headers(before).len() {
                assert(heads[k] == headers(before)[k]);
                assert(s.files[k].op == files[k].op && s.files[k].path == files[k].path);
            }
        }
    }
}

/// A parsed patch has one file for each file header, in order, with its operation and path.
pub proof fn files_follow_the_headers(lines: Seq<Seq<char>>)
    ensures
        patch::read_lines(lines).ended().files.len() == headers(lines).len(),
        forall|k: int|
            #![trigger headers(lines)[k]]
            0 <= k < headers(lines).len() ==> headers(lines)[k] == (
                patch::read_lines(lines).ended().files[k].op,
                patch::read_lines(lines).ended().files[k].path,
            ),
{
    lemma_headers(lines);
}

/// Whether every hunk of some files has a line.
pub open spec fn no_empty_hunk(files: Seq<FileView>) -> bool {
    forall|k: int, h: int|
        0 <= k < files.len() && 0 <= h < files[k].hunks.len() ==> (#[trigger] files[k].hunks[h]).lines.len() > 0
}

proof fn lemma_hunk_not_empty(header: Seq<char>, ops: Seq<OpView>)
    requires
        ops.len() > 0,
    ensures
        patch::hunk_of(header, ops).lines.len() > 0,
{
    hunks_hold_their_lines(header, ops);
    let lines = patch::hunk_of(header, ops).lines;
    if lines.len() == 0 {
        assert(diff_laws::as_ops(lines) =~= seq![]);
        assert(diff_laws::old_version(ops).len() == 0);
        assert(diff_laws::new_version(ops).len() == 0);
        if ops[0].kind == DiffLineKind::Added {
            assert(diff_laws::new_version(ops).len() > 0);
        } else {
            assert(diff_laws::old_version(ops).len() > 0);
        }
    }
}

proof fn lemma_ended_no_empty_hunk(s: PatchState)
    requires
        no_empty_hunk(s.files),
    ensures
        no_empty_hunk(s.ended().files),
{
    if s.ops.len() > 0 && s.files.len() > 0 {
        lemma_hunk_not_empty(s.header, s.ops);
        let files = s.ended().files;
        assert forall|k: int, h: int|
            0 <= k < files.len() && 0 <= h < files[k].hunks.len() implies (
        #[trigger] files[k].hunks[h]).lines.len() > 0 by {
            if k < files.len() - 1 || h < s.files[k].hunks.len() {
                assert(files[k].hunks[h] == s.files[k].hunks[h]);
            }
        }
    }
}

/// No hunk of a parsed patch is empty.
pub proof fn hunks_are_never_empty(lines: Seq<Seq<char>>)
    ensures
        no_empty_hunk(patch::read_lines(lines).files),
        no_empty_hunk(patch::read_lines(lines).ended().files),
    decreases lines.len(),
{
    if lines.len() > 0 {
        let before = patch::read_lines(lines.drop_last());
        hunks_are_never_empty(lines.drop_last());
        let after = patch::read_lines(lines);
        lemma_ended_no_empty_hunk(before);
        assert forall|k: int, h: int|
            0 <= k < after.files.len() && 0 <= h < after.files[k].hunks.len() implies (
        #[trigger] after.files[k].hunks[h]).lines.len() > 0 by {
            match patch::line_class(lines.last()) {
                PatchLineView::Move(_) => {
                    assert(after.files[k].hunks[h] == before.files[k].hunks[h]);
                },
                PatchLineView::File(_, _) => {
                    if k < before.files.len() {
                        assert(after.files[k] == before.ended().files[k]);
                        assert(after.files[k].hunks[h] == before.ended().files[k].hunks[h]);
                    }
                },
                _ => {},
            }
        }
    }
    lemma_ended_no_empty_hunk(patch::read_lines(lines));
}

/// Each part of a split text stands in the text.
proof fn lemma_part_of_split(s: Seq<char>, sep: char, k: int) -> (at: int)
    requires
        0 <= k < text::split_on(s, sep).len(),
    ensures
        text::stands_at(s, text::split_on(s, sep)[k], at),
        k == text::split_on(s, sep).len() - 1 ==> at + text::split_on(s, sep)[k].len() == s.len(),
    decreases s.len(),
{
    let parts = text::split_on(s, sep);
    if s.len() == 0 {
        assert(s.subrange(0, 0) =~= parts[k]);
        0
    } else {
        let front = s.drop_last();
        text::lemma_split_nonempty(front, sep);
        let before = text::split_on(front, sep);
        if s.last() == sep && k == parts.len() - 1 {
            assert(s.subrange(s.len() as int, s.len() as int) =~= parts[k]);
            s.len() as int
        } else if k == parts.len() - 1 {
            let at = lemma_part_of_split(front, sep, k);
            assert(s.subrange(at, s.len() as int) =~= front.subrange(at, front.len() as int).push(
                s.last(),
            ));
            at
        } else {
            let at = lemma_part_of_split(front, sep, k);
            assert(s.subrange(at, at + parts[k].len()) =~= front.subrange(at, at + parts[k].len()));
            at
        }
    }
}

proof fn lemma_prefix_of_line(patch: Seq<char>, k: int, prefix: Seq<char>)
    requires
        0 <= k < patch::patch_lines(patch).len(),
        text::has_prefix(patch::patch_lines(patch)[k], prefix),
    ensures
        text::has_part(patch, prefix),
{
    text::lemma_split_nonempty(patch, '\n');
    let line = patch::patch_lines(patch)[k];
    let at = lemma_part_of_split(patch, '\n', k);
    assert(text::split_on(patch, '\n')[k] == line);
    assert(patch.subrange(at, at + prefix.len()) =~= line.take(prefix.len() as int));
    assert(text::stands_at(patch, prefix, at));
}

/// A text is a patch exactly where it has a file header: the other markers decide nothing.
pub proof fn file_headers_make_a_patch(patch: Seq<char>)
    ensures
        patch::patch_of(patch) is Some <==> headers(patch::patch_lines(patch)).len() > 0,
{
    let lines = patch::patch_lines(patch);
    files_follow_the_headers(lines);
    if headers(lines).len() > 0 {
        let k = lemma_some_header(lines);
        let line = lines[k];
        if text::has_prefix(line, patch::ADD@) {
            lemma_prefix_of_line(patch, k, patch::ADD@);
        } else if text::has_prefix(line, patch::UPDATE@) {
            lemma_prefix_of_line(patch, k, patch::UPDATE@);
        } else {
            lemma_prefix_of_line(patch, k, patch::DELETE@);
        }
    }
}

proof fn lemma_some_header(lines: Seq<Seq<char>>) -> (k: int)
    requires
        headers(lines).len() > 0,
    ensures
        0 <= k < lines.len(),
        patch::line_class(lines[k]) is File,
    decreases lines.len(),
{
    if patch::line_class(lines.last()) is File {
        lines.len() - 1
    } else {
        lemma_some_header(lines.drop_last())
    }
}

/// A final newline ends the last line and changes nothing: a text without it has the same lines,
/// unless it is empty, and is the same patch or likewise none.
pub proof fn final_newline_adds_no_line(patch: Seq<char>)
    requires
        patch.len() == 0 || patch.last() != '\n',
    ensures
        patch.len() > 0 ==> patch::patch_lines(patch.push('\n')) == patch::patch_lines(patch),
        patch::patch_of(patch.push('\n')) == patch::patch_of(patch),
{
    let ended = patch.push('\n');
    assert(ended.drop_last() =~= patch);
    let parts = text::split_on(patch, '\n');
    assert(text::split_on(ended, '\n') == parts.push(seq![]));
    assert(parts.push(seq![]).drop_last() =~= parts);
    file_headers_make_a_patch(patch);
    file_headers_make_a_patch(ended);
    if patch.len() > 0 {
        text::lemma_split_nonempty(patch.drop_last(), '\n');
        assert(parts.last().len() > 0);
        assert(patch::patch_lines(ended) =~= patch::patch_lines(patch));
    } else {
        let empty = Seq::<char>::empty();
        assert(parts =~= seq![empty]);
        assert(patch::patch_lines(patch) =~= seq![]);
        assert(patch::patch_lines(ended) =~= seq![empty]);
        reveal_strlit("*** Begin Patch");
        reveal_strlit("*** End Patch");
        reveal_strlit("*** Add File: ");
        reveal_strlit("*** Update File: ");
        reveal_strlit("*** Delete File: ");
        assert(!(patch::line_class(empty) is File));
        assert(seq![empty].drop_last() =~= seq![]);
        assert(headers(seq![empty]) == headers(seq![]));
    }
}

} // verus!
