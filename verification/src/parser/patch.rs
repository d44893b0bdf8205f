//! Parses a Codex `apply_patch` body into per-file, per-hunk structured diffs.
//!
//! The patch text that Codex logs as the input of a custom tool call looks like this:
//!
//! ```text
//! *** Begin Patch
//! *** Update File: path/to/file
//! @@ optional context heading
//!  unchanged line   (leading space)
//! -removed line
//! +added line
//! *** End Patch
//! ```
//!
//! The patch's own classification of its lines is kept (they are not diffed anew); grouping and
//! segmenting add word-level highlighting on each paired run of removed and added lines.

use vstd::prelude::*;

use crate::parser::diff;
use crate::parser::diff::{group_runs, segmentize, DiffLine, DiffLineKind, LineOp, LineView, OpView};
use crate::text;

verus! {

#[derive(Debug, Clone, Copy, PartialEq, Eq, Structural)]
pub enum PatchFileOp {
    Add,
    Update,
    Delete,
}

#[derive(Debug, Clone, PartialEq)]
pub struct PatchHunk {
    /// Text after the `@@` marker, if any (empty for the implicit first hunk).
    pub header: String,
    pub lines: Vec<DiffLine>,
}

#[derive(Debug, Clone, PartialEq)]
pub struct PatchFile {
    pub path: String,
    pub op: PatchFileOp,
    /// Destination path when the patch moves the file (`*** Move to:`).
    pub move_path: Option<String>,
    pub hunks: Vec<PatchHunk>,
}

/// The contents of a [`PatchHunk`].
#[verifier::ext_equal]
pub struct HunkView {
    pub header: Seq<char>,
    pub lines: Seq<LineView>,
}

/// The contents of a [`PatchFile`].
#[verifier::ext_equal]
pub struct FileView {
    pub path: Seq<char>,
    pub op: PatchFileOp,
    pub move_path: Option<Seq<char>>,
    pub hunks: Seq<HunkView>,
}

impl DeepView for PatchHunk {
    type V = HunkView;

    open spec fn deep_view(&self) -> HunkView {
        HunkView { header: self.header@, lines: self.lines.deep_view() }
    }
}

impl DeepView for PatchFile {
    type V = FileView;

    open spec fn deep_view(&self) -> FileView {
        FileView {
            path: self.path@,
            op: self.op,
            move_path: self.move_path.deep_view(),
            hunks: self.hunks.deep_view(),
        }
    }
}

pub const BEGIN: &'static str = "*** Begin Patch";

pub const END: &'static str = "*** End Patch";

pub const ADD: &'static str = "*** Add File: ";

pub const UPDATE: &'static str = "*** Update File: ";

pub const DELETE: &'static str = "*** Delete File: ";

pub const MOVE: &'static str = "*** Move to: ";

pub const HUNK: &'static str = "@@";

/// Whether a text holds one of the markers of a patch.
pub open spec fn patch_like(patch: Seq<char>) -> bool {
    ||| text::has_part(patch, BEGIN@)
    ||| text::has_part(patch, ADD@)
    ||| text::has_part(patch, UPDATE@)
    ||| text::has_part(patch, DELETE@)
}

fn looks_like_patch(patch: &[char]) -> (r: bool)
    ensures
        r == patch_like(patch@),
{
    text::contains(patch, BEGIN) || text::contains(patch, ADD) || text::contains(patch, UPDATE)
        || text::contains(patch, DELETE)
}

/// The lines of a patch: the empty one behind a final newline is none.
pub open spec fn patch_lines(patch: Seq<char>) -> Seq<Seq<char>> {
    let parts = text::split_on(patch, '\n');
    if parts.last() == Seq::<char>::empty() {
        parts.drop_last()
    } else {
        parts
    }
}

/// What a line of a patch is.
#[verifier::ext_equal]
pub enum PatchLineView {
    /// The first or last line of a patch.
    Marker,
    /// The start of a file's section.
    File(PatchFileOp, Seq<char>),
    /// The destination of a moved file.
    Move(Seq<char>),
    /// The start of a hunk.
    Hunk(Seq<char>),
    /// A line of a hunk.
    Body(OpView),
}

/// The text of a line behind a prefix, without the white space around it.
pub open spec fn behind(raw: Seq<char>, prefix: Seq<char>) -> Seq<char> {
    text::trimmed(raw.skip(prefix.len() as int))
}

/// The classification of a line of a patch.
pub open spec fn line_class(raw: Seq<char>) -> PatchLineView {
    if text::has_prefix(raw, BEGIN@) || text::has_prefix(raw, END@) {
        PatchLineView::Marker
    } else if text::has_prefix(raw, ADD@) {
        PatchLineView::File(PatchFileOp::Add, behind(raw, ADD@))
    } else if text::has_prefix(raw, UPDATE@) {
        PatchLineView::File(PatchFileOp::Update, behind(raw, UPDATE@))
    } else if text::has_prefix(raw, DELETE@) {
        PatchLineView::File(PatchFileOp::Delete, behind(raw, DELETE@))
    } else if text::has_prefix(raw, MOVE@) {
        PatchLineView::Move(behind(raw, MOVE@))
    } else if text::has_prefix(raw, HUNK@) {
        PatchLineView::Hunk(behind(raw, HUNK@))
    } else if raw.len() > 0 && raw[0] == '+' {
        PatchLineView::Body(OpView { kind: DiffLineKind::Added, text: raw.skip(1) })
    } else if raw.len() > 0 && raw[0] == '-' {
        PatchLineView::Body(OpView { kind: DiffLineKind::Removed, text: raw.skip(1) })
    } else if raw.len() > 0 && raw[0] == ' ' {
        PatchLineView::Body(OpView { kind: DiffLineKind::Context, text: raw.skip(1) })
    } else {
        PatchLineView::Body(OpView { kind: DiffLineKind::Context, text: raw })
    }
}

enum PatchLine {
    Marker,
    File(PatchFileOp, String),
    Move(String),
    Hunk(String),
    Body(LineOp),
}

impl DeepView for PatchLine {
    type V = PatchLineView;

    closed spec fn deep_view(&self) -> PatchLineView {
        match *self {
            PatchLine::Marker => PatchLineView::Marker,
            PatchLine::File(op, path) => PatchLineView::File(op, path@),
            PatchLine::Move(dest) => PatchLineView::Move(dest@),
            PatchLine::Hunk(header) => PatchLineView::Hunk(header@),
            PatchLine::Body(op) => PatchLineView::Body(op.deep_view()),
        }
    }
}

fn rest_behind(raw: &[char], prefix: &str) -> (r: String)
    requires
        text::has_prefix(raw@, prefix@),
    ensures
        r@ == behind(raw@, prefix@),
{
    text::trim_from(raw, text::chars_of(prefix).len())
}

fn classify_line(raw: &[char]) -> (r: PatchLine)
    ensures
        r.deep_view() == line_class(raw@),
{
    if text::starts_with(raw, BEGIN) || text::starts_with(raw, END) {
        return PatchLine::Marker;
    }
    if text::starts_with(raw, ADD) {
        return PatchLine::File(PatchFileOp::Add, rest_behind(raw, ADD));
    }
    if text::starts_with(raw, UPDATE) {
        return PatchLine::File(PatchFileOp::Update, rest_behind(raw, UPDATE));
    }
    if text::starts_with(raw, DELETE) {
        return PatchLine::File(PatchFileOp::Delete, rest_behind(raw, DELETE));
    }
    if text::starts_with(raw, MOVE) {
        return PatchLine::Move(rest_behind(raw, MOVE));
    }
    if text::starts_with(raw, HUNK) {
        return PatchLine::Hunk(rest_behind(raw, HUNK));
    }
    let n = raw.len();
    assert(raw@.subrange(0, n as int) =~= raw@);
    if n > 0 {
        assert(raw@.subrange(1, n as int) =~= raw@.skip(1));
        if raw[0] == '+' {
            return PatchLine::Body(
                LineOp { kind: DiffLineKind::Added, text: text::string_of(raw, 1, n) },
            );
        }
        if raw[0] == '-' {
            return PatchLine::Body(
                LineOp { kind: DiffLineKind::Removed, text: text::string_of(raw, 1, n) },
            );
        }
        if raw[0] == ' ' {
            return PatchLine::Body(
                LineOp { kind: DiffLineKind::Context, text: text::string_of(raw, 1, n) },
            );
        }
    }
    PatchLine::Body(LineOp { kind: DiffLineKind::Context, text: text::string_of(raw, 0, n) })
}

/// How far a patch has been read: the files so far, and the lines and the header of the hunk
/// that is not ended yet.
#[verifier::ext_equal]
pub struct PatchState {
    pub files: Seq<FileView>,
    pub ops: Seq<OpView>,
    pub header: Seq<char>,
}

/// The hunk of some body lines.
pub open spec fn hunk_of(header: Seq<char>, ops: Seq<OpView>) -> HunkView {
    HunkView { header, lines: diff::segmented(diff::grouped(ops)) }
}

/// The files with a hunk added to the last of them.
pub open spec fn with_hunk(files: Seq<FileView>, hunk: HunkView) -> Seq<FileView> {
    files.update(
        files.len() - 1,
        FileView { hunks: files.last().hunks.push(hunk), ..files.last() },
    )
}

impl PatchState {
    /// Nothing read yet.
    pub open spec fn start() -> PatchState {
        PatchState { files: seq![], ops: seq![], header: seq![] }
    }

    /// The current hunk ended: its lines, if any, go to the last file.
    pub open spec fn ended(self) -> PatchState {
        PatchState {
            files: if self.ops.len() > 0 && self.files.len() > 0 {
                with_hunk(self.files, hunk_of(self.header, self.ops))
            } else {
                self.files
            },
            ops: seq![],
            header: seq![],
        }
    }

    /// One more line read. Lines outside any file's section are passed over.
    pub open spec fn read(self, line: PatchLineView) -> PatchState {
        match line {
            PatchLineView::Marker => self,
            PatchLineView::File(op, path) => {
                let e = self.ended();
                PatchState {
                    files: e.files.push(FileView { path, op, move_path: None, hunks: seq![] }),
                    ..e
                }
            },
            PatchLineView::Move(dest) => if self.files.len() > 0 {
                PatchState {
                    files: self.files.update(
                        self.files.len() - 1,
                        FileView { move_path: Some(dest), ..self.files.last() },
                    ),
                    ..self
                }
            } else {
                self
            },
            PatchLineView::Hunk(header) => PatchState { header, ..self.ended() },
            PatchLineView::Body(op) => if self.files.len() > 0 {
                PatchState { ops: self.ops.push(op), ..self }
            } else {
                self
            },
        }
    }
}

/// The state after the lines of a patch.
pub open spec fn read_lines(lines: Seq<Seq<char>>) -> PatchState
    decreases lines.len(),
{
    if lines.len() == 0 {
        PatchState::start()
    } else {
        read_lines(lines.drop_last()).read(line_class(lines.last()))
    }
}

/// The files of a patch, where a text is one: it holds a marker, and a file's section starts in
/// it.
pub open spec fn patch_of(patch: Seq<char>) -> Option<Seq<FileView>> {
    let files = read_lines(patch_lines(patch)).ended().files;
    if patch_like(patch) && files.len() > 0 {
        Some(files)
    } else {
        None
    }
}

struct Reader {
    files: Vec<PatchFile>,
    ops: Vec<LineOp>,
    header: String,
}

impl Reader {
    spec fn state(self) -> PatchState {
        PatchState {
            files: self.files.deep_view(),
            ops: self.ops.deep_view(),
            header: self.header@,
        }
    }

    fn new() -> (r: Reader)
        ensures
            r.state() == PatchState::start(),
    {
        let r = Reader { files: Vec::new(), ops: Vec::new(), header: String::new() };
        assert(r.state() =~= PatchState::start());
        r
    }

    fn end_hunk(&mut self)
        ensures
            final(self).state() == old(self).state().ended(),
    {
        let ghost before = self.state();
        let mut ops: Vec<LineOp> = Vec::new();
        let mut header = String::new();
        std::mem::swap(&mut ops, &mut self.ops);
        std::mem::swap(&mut header, &mut self.header);
        let n = self.files.len();
        if ops.len() > 0 && n > 0 {
            let hunk = PatchHunk { header, lines: segmentize(group_runs(ops)) };
            let ghost hv = hunk.deep_view();
            let ghost last = before.files.last();
            self.files[n - 1].hunks.push(hunk);
            assert(self.files@[n - 1].hunks.deep_view() =~= last.hunks.push(hv));
            assert(self.files.deep_view() =~= with_hunk(before.files, hv));
        }
        assert(self.state() =~= before.ended());
    }

    fn read(&mut self, line: PatchLine)
        ensures
            final(self).state() == old(self).state().read(line.deep_view()),
    {
        let ghost before = self.state();
        match line {
            PatchLine::Marker => {},
            PatchLine::File(op, path) => {
                self.end_hunk();
                let ghost ended = self.state();
                let file = PatchFile { path, op, move_path: None, hunks: Vec::new() };
                let ghost fv = file.deep_view();
                self.files.push(file);
                assert(fv.hunks =~= seq![]);
                assert(self.files.deep_view() =~= ended.files.push(fv));
                assert(self.state() =~= before.read(line.deep_view()));
            },
            PatchLine::Move(dest) => {
                let n = self.files.len();
                if n > 0 {
                    self.files[n - 1].move_path = Some(dest);
                    assert(self.files.deep_view() =~= before.files.update(
                        n - 1,
                        FileView { move_path: Some(dest@), ..before.files.last() },
                    ));
                }
                assert(self.state() =~= before.read(line.deep_view()));
            },
            PatchLine::Hunk(header) => {
                self.end_hunk();
                self.header = header;
                assert(self.state() =~= before.read(line.deep_view()));
            },
            PatchLine::Body(op) => {
                if self.files.len() > 0 {
                    let ghost opv = op.deep_view();
                    self.ops.push(op);
                    assert(self.ops.deep_view() =~= before.ops.push(opv));
                }
                assert(self.state() =~= before.read(line.deep_view()));
            },
        }
    }
}

/// Parses an `apply_patch` body. Returns `None` when the text is no recognisable patch (callers
/// then fall back to showing it as raw text).
pub fn parse_apply_patch(patch: &str) -> (r: Option<Vec<PatchFile>>)
    ensures
        r.deep_view() == patch_of(patch@),
{
    let chars = text::chars_of(patch);
    if !looks_like_patch(chars.as_slice()) {
        return None;
    }
    let mut lines = text::split(chars.as_slice(), '\n');
    let ghost parts = lines.deep_view();
    proof {
        text::lemma_split_nonempty(patch@, '\n');
    }
    let last = lines.len() - 1;
    assert(lines@[last as int].deep_view() =~= lines@[last as int]@);
    if lines[last].len() == 0 {
        lines.pop();
        assert(parts.last() =~= Seq::<char>::empty());
        assert(lines.deep_view() =~= parts.drop_last());
    }
    let ghost all = patch_lines(patch@);
    let mut reader = Reader::new();
    let mut i: usize = 0;
    assert(all.take(0) =~= seq![]);
    while i < lines.len()
        invariant
            i <= lines@.len(),
            all == lines.deep_view(),
            reader.state() == read_lines(all.take(i as int)),
        decreases lines@.len() - i,
    {
        proof {
            assert(all.take(i + 1).drop_last() =~= all.take(i as int));
            assert(lines@[i as int].deep_view() =~= lines@[i as int]@);
        }
        reader.read(classify_line(lines[i].as_slice()));
        i += 1;
    }
    assert(all.take(i as int) =~= all);
    reader.end_hunk();
    if reader.files.len() == 0 {
        None
    } else {
        Some(reader.files)
    }
}

} // verus!
