//! Styled text for the terminal.

use vstd::prelude::*;

use crate::parser::toolcall::Seconds;

verus! {

#[derive(Debug, Clone, Copy, PartialEq, Eq, Structural)]
pub enum Color {
    Red,
    Green,
    Yellow,
    Magenta,
    Cyan,
    Gray,
    DarkGray,
    White,
}

/// How a text is shown: its colour, where it is not the terminal's own, and its emphasis.
#[derive(Debug, Clone, Copy, PartialEq, Eq, Structural)]
pub struct Style {
    pub fg: Option<Color>,
    pub bold: bool,
    pub underlined: bool,
}

pub open spec fn no_style() -> Style {
    Style { fg: None, bold: false, underlined: false }
}

pub open spec fn in_color(color: Color) -> Style {
    Style { fg: Some(color), bold: false, underlined: false }
}

pub open spec fn in_bold_color(color: Color) -> Style {
    Style { fg: Some(color), bold: true, underlined: false }
}

pub open spec fn in_bold() -> Style {
    Style { fg: None, bold: true, underlined: false }
}

impl Style {
    pub fn plain() -> (r: Style)
        ensures
            r == no_style(),
    {
        Style { fg: None, bold: false, underlined: false }
    }

    pub fn colored(color: Color) -> (r: Style)
        ensures
            r == in_color(color),
    {
        Style { fg: Some(color), bold: false, underlined: false }
    }

    pub fn bold_colored(color: Color) -> (r: Style)
        ensures
            r == in_bold_color(color),
    {
        Style { fg: Some(color), bold: true, underlined: false }
    }

    pub fn bold() -> (r: Style)
        ensures
            r == in_bold(),
    {
        Style { fg: None, bold: true, underlined: false }
    }
}

/// A part of a text: characters, or a number that is still to be written out with a fixed number
/// of decimals.
#[derive(Debug)]
pub enum Piece {
    Text(String),
    /// A quotient, with one decimal.
    Quotient { value: u64, divisor: u64 },
    /// A number of seconds.
    Duration { secs: Seconds, decimals: u8 },
}

/// The contents of a [`Piece`].
pub enum PieceView {
    Text(Seq<char>),
    Quotient { value: u64, divisor: u64 },
    Duration { secs: Seconds, decimals: u8 },
}

impl DeepView for Piece {
    type V = PieceView;

    open spec fn deep_view(&self) -> PieceView {
        match *self {
            Piece::Text(s) => PieceView::Text(s@),
            Piece::Quotient { value, divisor } => PieceView::Quotient { value, divisor },
            Piece::Duration { secs, decimals } => PieceView::Duration { secs, decimals },
        }
    }
}

/// A text in one style.
#[derive(Debug)]
pub struct Span {
    pub content: Vec<Piece>,
    pub style: Style,
}

/// The contents of a [`Span`].
#[verifier::ext_equal]
pub struct SpanView {
    pub content: Seq<PieceView>,
    pub style: Style,
}

impl DeepView for Span {
    type V = SpanView;

    open spec fn deep_view(&self) -> SpanView {
        SpanView { content: self.content.deep_view(), style: self.style }
    }
}

/// A line of the terminal.
#[derive(Debug)]
pub struct Line {
    pub spans: Vec<Span>,
}

impl DeepView for Line {
    type V = Seq<SpanView>;

    open spec fn deep_view(&self) -> Seq<SpanView> {
        self.spans.deep_view()
    }
}

/// A text of characters alone.
pub open spec fn chars(s: Seq<char>) -> Seq<PieceView> {
    seq![PieceView::Text(s)]
}

/// Characters in a style.
pub open spec fn styled(s: Seq<char>, style: Style) -> SpanView {
    SpanView { content: chars(s), style }
}

/// Characters in no style.
pub open spec fn raw(s: Seq<char>) -> SpanView {
    styled(s, no_style())
}

/// A line of characters in no style.
pub open spec fn raw_line(s: Seq<char>) -> Seq<SpanView> {
    seq![raw(s)]
}

/// Lines of characters in no style.
pub open spec fn raw_lines(lines: Seq<Seq<char>>) -> Seq<Seq<SpanView>> {
    Seq::new(lines.len(), |i: int| raw_line(lines[i]))
}

/// A text of characters alone.
pub fn text_of(s: String) -> (r: Vec<Piece>)
    ensures
        r.deep_view() == chars(s@),
{
    let ghost sv = s@;
    let mut r: Vec<Piece> = Vec::new();
    r.push(Piece::Text(s));
    assert(r.deep_view() =~= chars(sv));
    r
}

pub fn push_piece(pieces: &mut Vec<Piece>, piece: Piece)
    ensures
        final(pieces).deep_view() == old(pieces).deep_view().push(piece.deep_view()),
{
    let ghost before = pieces.deep_view();
    let ghost added = piece.deep_view();
    pieces.push(piece);
    assert(pieces.deep_view() =~= before.push(added));
}

pub fn push_text(pieces: &mut Vec<Piece>, s: &str)
    ensures
        final(pieces).deep_view() == old(pieces).deep_view().push(PieceView::Text(s@)),
{
    push_piece(pieces, Piece::Text(s.to_owned()));
}

pub fn append_pieces(pieces: &mut Vec<Piece>, more: Vec<Piece>)
    ensures
        final(pieces).deep_view() == old(pieces).deep_view() + more.deep_view(),
{
    let ghost before = pieces.deep_view();
    let ghost added = more.deep_view();
    let mut more = more;
    pieces.append(&mut more);
    assert(pieces.deep_view() =~= before + added);
}

impl Span {
    /// Characters in a style.
    pub fn styled(s: String, style: Style) -> (r: Span)
        ensures
            r.deep_view() == styled(s@, style),
    {
        Span { content: text_of(s), style }
    }

    /// Characters in no style.
    pub fn raw(s: String) -> (r: Span)
        ensures
            r.deep_view() == raw(s@),
    {
        Span::styled(s, Style::plain())
    }
}

pub fn push_span(spans: &mut Vec<Span>, span: Span)
    ensures
        final(spans).deep_view() == old(spans).deep_view().push(span.deep_view()),
{
    let ghost before = spans.deep_view();
    let ghost added = span.deep_view();
    spans.push(span);
    assert(spans.deep_view() =~= before.push(added));
}

impl Line {
    /// A line without text.
    pub fn empty() -> (r: Line)
        ensures
            r.deep_view() == Seq::<SpanView>::empty(),
    {
        let r = Line { spans: Vec::new() };
        assert(r.deep_view() =~= Seq::<SpanView>::empty());
        r
    }

    /// A line of one span.
    pub fn single(span: Span) -> (r: Line)
        ensures
            r.deep_view() == seq![span.deep_view()],
    {
        let mut spans: Vec<Span> = Vec::new();
        let ghost sv = span.deep_view();
        push_span(&mut spans, span);
        assert(spans.deep_view() =~= seq![sv]);
        Line { spans }
    }

    /// A line of characters in no style.
    pub fn raw(s: String) -> (r: Line)
        ensures
            r.deep_view() == raw_line(s@),
    {
        Line::single(Span::raw(s))
    }
}

pub fn push_line(lines: &mut Vec<Line>, line: Line)
    ensures
        final(lines).deep_view() == old(lines).deep_view().push(line.deep_view()),
{
    let ghost before = lines.deep_view();
    let ghost added = line.deep_view();
    lines.push(line);
    assert(lines.deep_view() =~= before.push(added));
}

pub fn append_lines(lines: &mut Vec<Line>, more: Vec<Line>)
    ensures
        final(lines).deep_view() == old(lines).deep_view() + more.deep_view(),
{
    let ghost before = lines.deep_view();
    let ghost added = more.deep_view();
    let mut more = more;
    lines.append(&mut more);
    assert(lines.deep_view() =~= before + added);
}

/// Lines of characters in no style.
pub fn lines_of(texts: Vec<String>) -> (r: Vec<Line>)
    ensures
        r.deep_view() == raw_lines(texts.deep_view()),
{
    let ghost all = texts.deep_view();
    let mut r: Vec<Line> = Vec::new();
    let mut i: usize = 0;
    assert(r.deep_view() =~= raw_lines(all.take(0)));
    while i < texts.len()
        invariant
            i <= texts@.len(),
            all == texts.deep_view(),
            r.deep_view() == raw_lines(all.take(i as int)),
        decreases texts@.len() - i,
    {
        push_line(&mut r, Line::raw(texts[i].clone()));
        assert(raw_lines(all.take(i + 1)) =~= raw_lines(all.take(i as int)).push(
            raw_line(all[i as int]),
        ));
        i += 1;
    }
    assert(all.take(i as int) =~= all);
    r
}

} // verus!
