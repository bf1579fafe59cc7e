//! Styled text: what a screen shows, line by line.

use vstd::prelude::*;

verus! {

/// How a stretch of text looks.
#[derive(Debug, Clone, Copy, PartialEq, Eq, Structural)]
pub enum Style {
    Plain,
    /// A section title: bold cyan.
    Section,
    /// Side information: dark grey.
    Muted,
    /// The focused control: reversed.
    Focused,
    /// What is to catch the eye: yellow.
    Accent,
    /// Good news: green.
    Success,
    /// An error: bold red.
    Error,
    /// Bold.
    Strong,
    /// Dimmed.
    Dim,
}

/// A stretch of text in one style.
#[derive(Debug, Clone, PartialEq)]
pub struct Span {
    pub text: String,
    pub style: Style,
}

/// The mathematical value of a [`Span`].
pub struct SpanView {
    pub text: Seq<char>,
    pub style: Style,
}

impl View for Span {
    type V = SpanView;

    open spec fn view(&self) -> SpanView {
        SpanView { text: self.text@, style: self.style }
    }
}

/// One line of styled text.
#[derive(Debug, Clone, PartialEq)]
pub struct Line {
    pub spans: Vec<Span>,
}

impl View for Line {
    type V = Seq<SpanView>;

    open spec fn view(&self) -> Seq<SpanView> {
        self.spans@.map_values(|span: Span| span@)
    }
}

/// The mathematical values of lines.
pub open spec fn line_views(lines: Seq<Line>) -> Seq<Seq<SpanView>> {
    lines.map_values(|line: Line| line@)
}

/// A line of one style.
pub open spec fn styled(text: Seq<char>, style: Style) -> Seq<SpanView> {
    seq![SpanView { text, style }]
}

/// A stretch of text in the given style.
pub open spec fn span(text: Seq<char>, style: Style) -> SpanView {
    SpanView { text, style }
}

impl Line {
    /// A line without anything on it.
    pub fn new() -> (r: Self)
        ensures
            r@ == Seq::<SpanView>::empty(),
    {
        let r = Line { spans: Vec::new() };
        assert(r@ =~= Seq::<SpanView>::empty());
        r
    }

    /// A line of one style.
    pub fn styled(text: String, style: Style) -> (r: Self)
        ensures
            r@ == styled(text@, style),
    {
        let mut r = Line::new();
        r.push(text, style);
        assert(r@ =~= styled(text@, style));
        r
    }

    /// Adds a stretch of text at the end of the line.
    pub fn push(&mut self, text: String, style: Style)
        ensures
            final(self)@ == old(self)@.push(SpanView { text: text@, style }),
    {
        self.spans.push(Span { text, style });
        assert(self@ =~= old(self)@.push(SpanView { text: text@, style }));
    }
}

/// Lines in a frame with a title.
#[derive(Debug, Clone, PartialEq)]
pub struct Panel {
    pub title: String,
    /// How the frame looks.
    pub border: Style,
    pub lines: Vec<Line>,
}

/// The mathematical value of a [`Panel`].
pub struct PanelView {
    pub title: Seq<char>,
    pub border: Style,
    pub lines: Seq<Seq<SpanView>>,
}

impl View for Panel {
    type V = PanelView;

    open spec fn view(&self) -> PanelView {
        PanelView {
            title: self.title@,
            border: self.border,
            lines: line_views(self.lines@),
        }
    }
}

/// Adds a line at the end.
pub fn push_line(lines: &mut Vec<Line>, line: Line)
    ensures
        line_views(final(lines)@) == line_views(old(lines)@).push(line@),
{
    lines.push(line);
    assert(line_views(lines@) =~= line_views(old(lines)@).push(line@));
}

/// No lines.
pub fn no_lines() -> (r: Vec<Line>)
    ensures
        line_views(r@) == Seq::<Seq<SpanView>>::empty(),
{
    let r: Vec<Line> = Vec::new();
    assert(line_views(r@) =~= Seq::<Seq<SpanView>>::empty());
    r
}

} // verus!
