//! How the text of a patch and what is parsed of it belong together.

use vstd::prelude::*;

use crate::parser::diff;
use crate::parser::diff::{DiffLineKind, OpView};
use crate::parser::diff_laws;
use crate::parser::patch;
use crate::parser::patch::{FileView, PatchFileOp, PatchLineView};
use crate::parser::patch_laws;
use crate::text;
use crate::text_laws;

verus! {

/// Whether a line is a marker followed by anything.
pub open spec fn begins(line: Seq<char>, marker: Seq<char>) -> bool {
    exists|rest: Seq<char>| line == #[trigger] (marker + rest)
}

proof fn lemma_begins(line: Seq<char>, marker: Seq<char>)
    ensures
        begins(line, marker) <==> text::has_prefix(line, marker),
{
    if text::has_prefix(line, marker) {
        let rest = line.skip(marker.len() as int);
        assert(line =~= marker + rest);
    }
    if begins(line, marker) {
        let rest = choose|rest: Seq<char>| line == #[trigger] (marker + rest);
        assert(line.take(marker.len() as int) =~= marker);
    }
}

/// Whether a line is neither the first or last line of a patch, nor the start of a file's section
/// or of a hunk, nor a destination.
pub open spec fn is_body(line: Seq<char>) -> bool {
    &&& !begins(line, "*** Begin Patch"@)
    &&& !begins(line, "*** End Patch"@)
    &&& !begins(line, "*** Add File: "@)
    &&& !begins(line, "*** Update File: "@)
    &&& !begins(line, "*** Delete File: "@)
    &&& !begins(line, "*** Move to: "@)
    &&& !begins(line, "@@"@)
}

proof fn lemma_markers(line: Seq<char>)
    ensures
        begins(line, "*** Begin Patch"@) <==> text::has_prefix(line, patch::BEGIN@),
        begins(line, "*** End Patch"@) <==> text::has_prefix(line, patch::END@),
        begins(line, "*** Add File: "@) <==> text::has_prefix(line, patch::ADD@),
        begins(line, "*** Update File: "@) <==> text::has_prefix(line, patch::UPDATE@),
        begins(line, "*** Delete File: "@) <==> text::has_prefix(line, patch::DELETE@),
        begins(line, "*** Move to: "@) <==> text::has_prefix(line, patch::MOVE@),
        begins(line, "@@"@) <==> text::has_prefix(line, patch::HUNK@),
{
    lemma_begins(line, "*** Begin Patch"@);
    lemma_begins(line, "*** End Patch"@);
    lemma_begins(line, "*** Add File: "@);
    lemma_begins(line, "*** Update File: "@);
    lemma_begins(line, "*** Delete File: "@);
    lemma_begins(line, "*** Move to: "@);
    lemma_begins(line, "@@"@);
}

/// The markers differ from one another early enough that a line begins with one of them only.
proof fn lemma_marker_characters()
    ensures
        "*** Begin Patch"@.len() == 15,
        "*** Begin Patch"@[0] == '*',
        "*** Begin Patch"@[4] == 'B',
        "*** End Patch"@.len() == 13,
        "*** End Patch"@[0] == '*',
        "*** End Patch"@[4] == 'E',
        "*** Add File: "@.len() == 14,
        "*** Add File: "@[0] == '*',
        "*** Add File: "@[4] == 'A',
        "*** Update File: "@.len() == 17,
        "*** Update File: "@[0] == '*',
        "*** Update File: "@[4] == 'U',
        "*** Delete File: "@.len() == 17,
        "*** Delete File: "@[0] == '*',
        "*** Delete File: "@[4] == 'D',
        "*** Move to: "@.len() == 13,
        "*** Move to: "@[0] == '*',
        "*** Move to: "@[4] == 'M',
        "@@"@.len() == 2,
        "@@"@[0] == '@',
{
    reveal_strlit("*** Begin Patch");
    reveal_strlit("*** End Patch");
    reveal_strlit("*** Add File: ");
    reveal_strlit("*** Update File: ");
    reveal_strlit("*** Delete File: ");
    reveal_strlit("*** Move to: ");
    reveal_strlit("@@");
}

proof fn lemma_first_character(line: Seq<char>, marker: Seq<char>, i: int)
    requires
        text::has_prefix(line, marker),
        0 <= i < marker.len(),
    ensures
        line[i] == marker[i],
{
    assert(line.take(marker.len() as int)[i] == marker[i]);
}

/// A line with a tag in front, a plus, a minus or a space, is a line of a hunk. Its kind is that
/// of the tag, and the tag followed by its text is the line, character for character.
pub proof fn tagged_lines_keep_their_text(line: Seq<char>)
    requires
        line.len() > 0,
        line[0] == '+' || line[0] == '-' || line[0] == ' ',
    ensures
        is_body(line),
        patch::line_class(line) matches PatchLineView::Body(op) && seq![line[0]] + op.text == line
            && op.kind == if line[0] == '+' {
            DiffLineKind::Added
        } else if line[0] == '-' {
            DiffLineKind::Removed
        } else {
            DiffLineKind::Context
        },
{
    lemma_markers(line);
    lemma_marker_characters();
    if text::has_prefix(line, patch::BEGIN@) {
        lemma_first_character(line, patch::BEGIN@, 0);
    }
    if text::has_prefix(line, patch::END@) {
        lemma_first_character(line, patch::END@, 0);
    }
    if text::has_prefix(line, patch::ADD@) {
        lemma_first_character(line, patch::ADD@, 0);
    }
    if text::has_prefix(line, patch::UPDATE@) {
        lemma_first_character(line, patch::UPDATE@, 0);
    }
    if text::has_prefix(line, patch::DELETE@) {
        lemma_first_character(line, patch::DELETE@, 0);
    }
    if text::has_prefix(line, patch::MOVE@) {
        lemma_first_character(line, patch::MOVE@, 0);
    }
    if text::has_prefix(line, patch::HUNK@) {
        lemma_first_character(line, patch::HUNK@, 0);
    }
    assert(seq![line[0]] + line.skip(1) =~= line);
}

/// A line of a hunk without a tag is context, and its text is the line itself.
pub proof fn untagged_lines_are_context(line: Seq<char>)
    requires
        is_body(line),
        line.len() > 0 ==> line[0] != '+' && line[0] != '-' && line[0] != ' ',
    ensures
        patch::line_class(line) == PatchLineView::Body(
            OpView { kind: DiffLineKind::Context, text: line },
        ),
{
    lemma_markers(line);
}

/// Whether the last of some lines has just added the last of those files.
pub open spec fn starts_file(lines: Seq<Seq<char>>, files: Seq<FileView>) -> bool {
    &&& patch::read_lines(lines).files == files
    &&& patch::read_lines(lines).ended().files == files
    &&& patch::read_lines(lines).ops.len() == 0
    &&& patch::read_lines(lines).header.len() == 0
}

/// The start of a file's section: what is done to the file is what the marker says, and its path
/// is the rest of the line without the white space around it. The hunk before is ended, and a hunk
/// without a header starts.
pub proof fn file_headers_start_a_file(lines: Seq<Seq<char>>, path: Seq<char>)
    ensures
        ({
            let before = patch::read_lines(lines).ended().files;
            let file = FileView {
                path: text::trimmed(path),
                op: PatchFileOp::Add,
                move_path: None,
                hunks: seq![],
            };
            &&& starts_file(
                lines.push("*** Add File: "@ + path),
                before.push(file),
            )
            &&& starts_file(
                lines.push("*** Update File: "@ + path),
                before.push(FileView { op: PatchFileOp::Update, ..file }),
            )
            &&& starts_file(
                lines.push("*** Delete File: "@ + path),
                before.push(FileView { op: PatchFileOp::Delete, ..file }),
            )
        }),
{
    lemma_file_header(lines, "*** Add File: "@, path, PatchFileOp::Add);
    lemma_file_header(lines, "*** Update File: "@, path, PatchFileOp::Update);
    lemma_file_header(lines, "*** Delete File: "@, path, PatchFileOp::Delete);
}

proof fn lemma_rest(marker: Seq<char>, rest: Seq<char>)
    ensures
        text::has_prefix(marker + rest, marker),
        (marker + rest).skip(marker.len() as int) == rest,
        forall|i: int| 0 <= i < marker.len() ==> #[trigger] (marker + rest)[i] == marker[i],
{
    assert((marker + rest).take(marker.len() as int) =~= marker);
    assert((marker + rest).skip(marker.len() as int) =~= rest);
}

/// A line that begins with one marker does not begin with another.
proof fn lemma_no_other(line: Seq<char>)
    requires
        line.len() > 4,
    ensures
        line[0] != '*' || line[4] != 'B' ==> !text::has_prefix(line, patch::BEGIN@),
        line[0] != '*' || line[4] != 'E' ==> !text::has_prefix(line, patch::END@),
        line[0] != '*' || line[4] != 'A' ==> !text::has_prefix(line, patch::ADD@),
        line[0] != '*' || line[4] != 'U' ==> !text::has_prefix(line, patch::UPDATE@),
        line[0] != '*' || line[4] != 'D' ==> !text::has_prefix(line, patch::DELETE@),
        line[0] != '*' || line[4] != 'M' ==> !text::has_prefix(line, patch::MOVE@),
        line[0] != '@' ==> !text::has_prefix(line, patch::HUNK@),
{
    lemma_marker_characters();
    if text::has_prefix(line, patch::BEGIN@) {
        lemma_first_character(line, patch::BEGIN@, 0);
        lemma_first_character(line, patch::BEGIN@, 4);
    }
    if text::has_prefix(line, patch::END@) {
        lemma_first_character(line, patch::END@, 0);
        lemma_first_character(line, patch::END@, 4);
    }
    if text::has_prefix(line, patch::ADD@) {
        lemma_first_character(line, patch::ADD@, 0);
        lemma_first_character(line, patch::ADD@, 4);
    }
    if text::has_prefix(line, patch::UPDATE@) {
        lemma_first_character(line, patch::UPDATE@, 0);
        lemma_first_character(line, patch::UPDATE@, 4);
    }
    if text::has_prefix(line, patch::DELETE@) {
        lemma_first_character(line, patch::DELETE@, 0);
        lemma_first_character(line, patch::DELETE@, 4);
    }
    if text::has_prefix(line, patch::MOVE@) {
        lemma_first_character(line, patch::MOVE@, 0);
        lemma_first_character(line, patch::MOVE@, 4);
    }
    if text::has_prefix(line, patch::HUNK@) {
        lemma_first_character(line, patch::HUNK@, 0);
    }
}

proof fn lemma_file_header(
    lines: Seq<Seq<char>>,
    marker: Seq<char>,
    path: Seq<char>,
    op: PatchFileOp,
)
    requires
        marker == if op == PatchFileOp::Add {
            "*** Add File: "@
        } else if op == PatchFileOp::Update {
            "*** Update File: "@
        } else {
            "*** Delete File: "@
        },
    ensures
        starts_file(
            lines.push(marker + path),
            patch::read_lines(lines).ended().files.push(
                FileView { path: text::trimmed(path), op, move_path: None, hunks: seq![] },
            ),
        ),
{
    let line = marker + path;
    lemma_marker_characters();
    lemma_rest(marker, path);
    assert(line[0] == marker[0] && line[4] == marker[4]);
    lemma_no_other(line);
    assert(patch::line_class(line) == PatchLineView::File(op, text::trimmed(path)));
    assert(lines.push(line).drop_last() =~= lines);
}

/// A destination belongs to the file whose section it stands in; where it stands in none, it is
/// passed over.
pub proof fn destinations_belong_to_their_file(lines: Seq<Seq<char>>, dest: Seq<char>)
    ensures
        ({
            let before = patch::read_lines(lines);
            let after = patch::read_lines(lines.push("*** Move to: "@ + dest));
            let n = before.files.len();
            &&& after.ops == before.ops && after.header == before.header
            &&& after.files.len() == n
            &&& n > 0 ==> after.files.last() == (FileView {
                move_path: Some(text::trimmed(dest)),
                ..before.files.last()
            })
            &&& forall|k: int|
                #![trigger after.files[k]]
                0 <= k < n - 1 ==> after.files[k] == before.files[k]
        }),
{
    let marker = "*** Move to: "@;
    let line = marker + dest;
    lemma_marker_characters();
    lemma_rest(marker, dest);
    assert(line[0] == marker[0] && line[4] == marker[4]);
    lemma_no_other(line);
    assert(patch::line_class(line) == PatchLineView::Move(text::trimmed(dest)));
    assert(lines.push(line).drop_last() =~= lines);
}

/// The first and the last line of a patch say nothing, wherever they stand.
pub proof fn patch_ends_say_nothing(lines: Seq<Seq<char>>, rest: Seq<char>)
    ensures
        patch::read_lines(lines.push("*** Begin Patch"@ + rest)) == patch::read_lines(lines),
        patch::read_lines(lines.push("*** End Patch"@ + rest)) == patch::read_lines(lines),
{
    lemma_rest("*** Begin Patch"@, rest);
    lemma_rest("*** End Patch"@, rest);
    assert(lines.push("*** Begin Patch"@ + rest).drop_last() =~= lines);
    assert(lines.push("*** End Patch"@ + rest).drop_last() =~= lines);
}

/// A hunk that starts ends the one before.
pub proof fn hunk_markers_start_a_hunk(lines: Seq<Seq<char>>, header: Seq<char>)
    ensures
        ({
            let after = patch::read_lines(lines.push("@@"@ + header));
            &&& after.files == patch::read_lines(lines).ended().files
            &&& after.ops.len() == 0
            &&& after.header == text::trimmed(header)
        }),
{
    let marker = "@@"@;
    let line = marker + header;
    lemma_marker_characters();
    lemma_rest(marker, header);
    assert(line[0] == marker[0]);
    if line.len() > 4 {
        lemma_no_other(line);
    }
    assert(patch::line_class(line) == PatchLineView::Hunk(text::trimmed(header)));
    assert(lines.push(line).drop_last() =~= lines);
}

/// Whether every line is one of a hunk.
pub open spec fn all_body(body: Seq<Seq<char>>) -> bool {
    forall|k: int| 0 <= k < body.len() ==> is_body(#[trigger] body[k])
}

/// The text of a line of a hunk: without its tag, where it has one.
pub open spec fn untagged(line: Seq<char>) -> Seq<char> {
    if line.len() > 0 && (line[0] == '+' || line[0] == '-' || line[0] == ' ') {
        line.skip(1)
    } else {
        line
    }
}

/// Whether a line has that tag.
pub open spec fn tagged(line: Seq<char>, tag: char) -> bool {
    line.len() > 0 && line[0] == tag
}

/// The texts of the lines of a hunk, those with one tag left out.
pub open spec fn body_without(body: Seq<Seq<char>>, tag: char) -> Seq<Seq<char>>
    decreases body.len(),
{
    if body.len() == 0 {
        seq![]
    } else if tagged(body.last(), tag) {
        body_without(body.drop_last(), tag)
    } else {
        body_without(body.drop_last(), tag).push(untagged(body.last()))
    }
}

proof fn lemma_body_line(line: Seq<char>)
    requires
        is_body(line),
    ensures
        patch::line_class(line) matches PatchLineView::Body(op) && op.text == untagged(line)
            && op.kind == if tagged(line, '+') {
            DiffLineKind::Added
        } else if tagged(line, '-') {
            DiffLineKind::Removed
        } else {
            DiffLineKind::Context
        },
{
    if line.len() > 0 && (line[0] == '+' || line[0] == '-' || line[0] == ' ') {
        tagged_lines_keep_their_text(line);
        let op = patch::line_class(line)->Body_0;
        assert((seq![line[0]] + op.text).skip(1) =~= op.text);
    } else {
        untagged_lines_are_context(line);
    }
}

/// What the lines of a hunk are read as.
spec fn body_ops(body: Seq<Seq<char>>) -> Seq<OpView> {
    Seq::new(body.len(), |k: int| patch::line_class(body[k])->Body_0)
}

proof fn lemma_read_body(lines: Seq<Seq<char>>, body: Seq<Seq<char>>)
    requires
        all_body(body),
    ensures
        ({
            let before = patch::read_lines(lines);
            let after = patch::read_lines(lines + body);
            &&& after.files == before.files && after.header == before.header
            &&& after.ops == if before.files.len() > 0 {
                before.ops + body_ops(body)
            } else {
                before.ops
            }
        }),
    decreases body.len(),
{
    let before = patch::read_lines(lines);
    if body.len() == 0 {
        assert(lines + body =~= lines);
        assert(before.ops + body_ops(body) =~= before.ops);
    } else {
        let front = body.drop_last();
        let last = body[body.len() - 1];
        assert(all_body(front)) by {
            assert forall|k: int| 0 <= k < front.len() implies is_body(#[trigger] front[k]) by {
                assert(is_body(body[k]));
            }
        }
        lemma_read_body(lines, front);
        lemma_body_line(last);
        assert((lines + body).drop_last() =~= lines + front);
        assert((lines + body).last() == last);
        assert(before.ops + body_ops(body) =~= (before.ops + body_ops(front)).push(
            patch::line_class(last)->Body_0,
        ));
    }
}

proof fn lemma_body_versions(body: Seq<Seq<char>>)
    requires
        all_body(body),
    ensures
        diff_laws::old_version(body_ops(body)) == body_without(body, '+'),
        diff_laws::new_version(body_ops(body)) == body_without(body, '-'),
    decreases body.len(),
{
    if body.len() > 0 {
        let front = body.drop_last();
        let last = body[body.len() - 1];
        assert(all_body(front)) by {
            assert forall|k: int| 0 <= k < front.len() implies is_body(#[trigger] front[k]) by {
                assert(is_body(body[k]));
            }
        }
        lemma_body_versions(front);
        lemma_body_line(last);
        let op = patch::line_class(last)->Body_0;
        assert(body_ops(body) =~= body_ops(front) + seq![op]);
        lemma_single(op, DiffLineKind::Added);
        lemma_single(op, DiffLineKind::Removed);
        diff_laws::lemma_texts_without_concat(body_ops(front), seq![op], DiffLineKind::Added);
        diff_laws::lemma_texts_without_concat(body_ops(front), seq![op], DiffLineKind::Removed);
        assert(diff_laws::old_version(body_ops(body)) =~= body_without(body, '+'));
        assert(diff_laws::new_version(body_ops(body)) =~= body_without(body, '-'));
    } else {
        assert(diff_laws::old_version(body_ops(body)) =~= seq![]);
        assert(diff_laws::new_version(body_ops(body)) =~= seq![]);
    }
}

proof fn lemma_single(op: OpView, dropped: DiffLineKind)
    ensures
        diff_laws::texts_without(seq![op], dropped) == if op.kind == dropped {
            seq![]
        } else {
            seq![op.text]
        },
{
    assert(seq![op].skip(1) =~= seq![]);
    assert(diff_laws::texts_without(Seq::<OpView>::empty(), dropped) =~= seq![]);
    assert(seq![op.text] + Seq::<Seq<char>>::empty() =~= seq![op.text]);
}

/// Lines that stand where a hunk starts make a hunk of the file whose section they stand in, and
/// change nothing else. The hunk holds them in order, each without its tag: its context and
/// removed lines are the lines that no plus stands before, its context and added lines those that
/// no minus stands before, and every context line keeps its place.
pub proof fn body_lines_make_a_hunk(lines: Seq<Seq<char>>, body: Seq<Seq<char>>)
    requires
        patch::read_lines(lines).files.len() > 0,
        patch::read_lines(lines).ops.len() == 0,
        body.len() > 0,
        all_body(body),
    ensures
        ({
            let before = patch::read_lines(lines).files;
            let files = patch::read_lines(lines + body).ended().files;
            let hunk = files.last().hunks.last();
            let ops = diff_laws::as_ops(hunk.lines);
            &&& files.len() == before.len()
            &&& forall|k: int|
                #![trigger files[k]]
                0 <= k < files.len() - 1 ==> files[k] == before[k]
            &&& files.last() == (FileView {
                hunks: before.last().hunks.push(hunk),
                ..before.last()
            })
            &&& hunk.header == patch::read_lines(lines).header
            &&& diff_laws::old_version(ops) == body_without(body, '+')
            &&& diff_laws::new_version(ops) == body_without(body, '-')
            &&& ops.len() == body.len()
            &&& forall|k: int|
                #![trigger ops[k]]
                0 <= k < body.len() ==> {
                    &&& ops[k].kind == DiffLineKind::Context <==> !tagged(body[k], '+') && !tagged(
                        body[k],
                        '-',
                    )
                    &&& ops[k].kind == DiffLineKind::Context ==> ops[k].text == untagged(body[k])
                }
        }),
{
    lemma_read_body(lines, body);
    lemma_body_versions(body);
    let s = patch::read_lines(lines + body);
    let read = body_ops(body);
    assert(s.ops =~= read);
    let header = s.header;
    let files = s.ended().files;
    let hunk = files.last().hunks.last();
    assert(hunk == patch::hunk_of(header, read));
    patch_laws::hunks_hold_their_lines(header, read);
    diff_laws::grouping_moves_no_context(read);
    let ops = diff_laws::as_ops(hunk.lines);
    assert forall|k: int| #![trigger ops[k]] 0 <= k < body.len() implies {
        &&& ops[k].kind == DiffLineKind::Context <==> !tagged(body[k], '+') && !tagged(body[k], '-')
        &&& ops[k].kind == DiffLineKind::Context ==> ops[k].text == untagged(body[k])
    } by {
        lemma_body_line(body[k]);
        assert(read[k] == patch::line_class(body[k])->Body_0);
        assert(ops[k] == diff::grouped(read)[k]);
    }
}

/// Without lines nothing is read.
pub proof fn nothing_comes_of_no_lines()
    ensures
        patch::read_lines(seq![]).files.len() == 0,
        patch::read_lines(seq![]).ops.len() == 0,
        patch::read_lines(seq![]).header.len() == 0,
{
}

/// Lines outside any file's section are passed over.
pub proof fn stray_lines_are_passed_over(lines: Seq<Seq<char>>, body: Seq<Seq<char>>)
    requires
        patch::read_lines(lines).files.len() == 0,
        all_body(body),
    ensures
        patch::read_lines(lines + body) == patch::read_lines(lines),
{
    lemma_read_body(lines, body);
    assert(patch::read_lines(lines + body) =~= patch::read_lines(lines));
}

/// The lines of a patch hold no newline, and with newlines between them they are the patch, or
/// the patch without the newline at its end.
pub proof fn patch_lines_are_the_patch(patch: Seq<char>)
    ensures
        ({
            let lines = patch::patch_lines(patch);
            &&& patch.len() == 0 || patch.last() == '\n' ==> text::joined(
                lines.push(seq![]),
                seq!['\n'],
            ) == patch
            &&& patch.len() > 0 && patch.last() != '\n' ==> text::joined(lines, seq!['\n']) == patch
            &&& forall|k: int, c: int|
                0 <= k < lines.len() && 0 <= c < lines[k].len() ==> #[trigger] lines[k][c] != '\n'
        }),
{
    let parts = text::split_on(patch, '\n');
    let lines = patch::patch_lines(patch);
    text_laws::splitting_takes_out_the_separator(patch, '\n');
    if patch.len() > 0 {
        text_laws::splitting_takes_out_the_separator(patch.drop_last(), '\n');
    }
    if parts.last() == Seq::<char>::empty() {
        assert(parts.drop_last().push(seq![]) =~= parts);
    }
    assert forall|k: int, c: int|
        0 <= k < lines.len() && 0 <= c < lines[k].len() implies #[trigger] lines[k][c]
        != '\n' by {
        assert(lines[k][c] == parts[k][c]);
    }
}

/// Whether a line starts a file's section.
pub open spec fn is_file_header(line: Seq<char>) -> bool {
    ||| begins(line, "*** Add File: "@)
    ||| begins(line, "*** Update File: "@)
    ||| begins(line, "*** Delete File: "@)
}

/// A text is a patch exactly where one of its lines starts a file's section, and it then has the
/// files that its lines make, one for each such line.
pub proof fn patches_are_texts_with_a_file(patch: Seq<char>)
    ensures
        patch::patch_of(patch) is Some <==> exists|k: int|
            0 <= k < patch::patch_lines(patch).len() && is_file_header(
                #[trigger] patch::patch_lines(patch)[k],
            ),
        patch::patch_of(patch) matches Some(files) ==> files == patch::read_lines(
            patch::patch_lines(patch),
        ).ended().files,
{
    let lines = patch::patch_lines(patch);
    patch_laws::file_headers_make_a_patch(patch);
    if patch_laws::headers(lines).len() > 0 {
        let k = lemma_header_place(lines);
        lemma_markers(lines[k]);
        assert(is_file_header(lines[k]));
    }
    if exists|k: int| 0 <= k < lines.len() && is_file_header(#[trigger] lines[k]) {
        let k = choose|k: int| 0 <= k < lines.len() && is_file_header(#[trigger] lines[k]);
        lemma_header_is_file(lines[k]);
        lemma_headers_counted(lines, k);
    }
}

proof fn lemma_header_is_file(line: Seq<char>)
    requires
        is_file_header(line),
    ensures
        patch::line_class(line) is File,
{
    lemma_markers(line);
    lemma_marker_characters();
    if begins(line, "*** Add File: "@) {
        lemma_first_character(line, "*** Add File: "@, 0);
        lemma_first_character(line, "*** Add File: "@, 4);
    } else if begins(line, "*** Update File: "@) {
        lemma_first_character(line, "*** Update File: "@, 0);
        lemma_first_character(line, "*** Update File: "@, 4);
    } else {
        lemma_first_character(line, "*** Delete File: "@, 0);
        lemma_first_character(line, "*** Delete File: "@, 4);
    }
    lemma_no_other(line);
}

proof fn lemma_header_place(lines: Seq<Seq<char>>) -> (k: int)
    requires
        patch_laws::headers(lines).len() > 0,
    ensures
        0 <= k < lines.len(),
        patch::line_class(lines[k]) is File,
    decreases lines.len(),
{
    if patch::line_class(lines.last()) is File {
        lines.len() - 1
    } else {
        lemma_header_place(lines.drop_last())
    }
}

proof fn lemma_headers_counted(lines: Seq<Seq<char>>, k: int)
    requires
        0 <= k < lines.len(),
        patch::line_class(lines[k]) is File,
    ensures
        patch_laws::headers(lines).len() > 0,
    decreases lines.len(),
{
    if k < lines.len() - 1 {
        lemma_headers_counted(lines.drop_last(), k);
    }
}

} // verus!
