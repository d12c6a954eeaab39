//! Styled text, panels and charts, as plain values.

use crate::binary64::Binary64;
use vstd::prelude::*;

verus! {

/// A colour.
#[derive(Clone, Copy, Debug, PartialEq, Eq, Structural)]
pub enum Color {
    /// By its parts of red, green and blue.
    Rgb(u8, u8, u8),
    /// The red of the terminal.
    Red,
    /// The white of the terminal.
    White,
}

/// The colour of what is going on.
#[verifier::allow_in_spec]
pub fn cyan() -> Color
    returns
        Color::Rgb(59, 220, 255),
{
    Color::Rgb(59, 220, 255)
}

/// The colour of headings and of the chart.
#[verifier::allow_in_spec]
pub fn purple() -> Color
    returns
        Color::Rgb(183, 110, 255),
{
    Color::Rgb(183, 110, 255)
}

/// The colour of speeds.
#[verifier::allow_in_spec]
pub fn green() -> Color
    returns
        Color::Rgb(99, 255, 183),
{
    Color::Rgb(99, 255, 183)
}

/// The colour of remarks.
#[verifier::allow_in_spec]
pub fn dim() -> Color
    returns
        Color::Rgb(105, 115, 135),
{
    Color::Rgb(105, 115, 135)
}

/// The colour of the outer border and of the axes.
#[verifier::allow_in_spec]
pub fn frame() -> Color
    returns
        Color::Rgb(45, 55, 72),
{
    Color::Rgb(45, 55, 72)
}

/// The colour of the lines between the panels.
#[verifier::allow_in_spec]
pub fn rule() -> Color
    returns
        Color::Rgb(35, 45, 61),
{
    Color::Rgb(35, 45, 61)
}

/// How a text is shown.
#[derive(Clone, Copy, Debug, PartialEq, Eq, Structural)]
pub struct Style {
    /// Its colour; that of the terminal if there is none.
    pub color: Option<Color>,
    /// Whether it is bold.
    pub bold: bool,
}

/// As the terminal shows it.
#[verifier::allow_in_spec]
pub fn plain() -> Style
    returns
        (Style { color: None, bold: false }),
{
    Style { color: None, bold: false }
}

/// In that colour.
#[verifier::allow_in_spec]
pub fn colored(color: Color) -> Style
    returns
        (Style { color: Some(color), bold: false }),
{
    Style { color: Some(color), bold: false }
}

/// In that colour and bold.
#[verifier::allow_in_spec]
pub fn bold(color: Color) -> Style
    returns
        (Style { color: Some(color), bold: true }),
{
    Style { color: Some(color), bold: true }
}

/// A text in one style.
#[derive(Debug)]
pub struct Span {
    /// The text.
    pub text: String,
    /// How it is shown.
    pub style: Style,
}

/// A text in one style, by its characters.
pub struct SpanView {
    pub text: Seq<char>,
    pub style: Style,
}

impl View for Span {
    type V = SpanView;

    open spec fn view(&self) -> SpanView {
        SpanView { text: self.text@, style: self.style }
    }
}

/// `text` in that style.
pub open spec fn styled(text: Seq<char>, style: Style) -> SpanView {
    SpanView { text, style }
}

/// `text` in that style.
pub(crate) fn span(text: &str, style: Style) -> (r: Span)
    ensures
        r@ == styled(text@, style),
{
    Span { text: text.to_owned(), style }
}

/// A line of text.
#[derive(Debug)]
pub struct Line {
    /// What it is made of, from left to right.
    pub spans: Vec<Span>,
}

impl View for Line {
    type V = Seq<SpanView>;

    open spec fn view(&self) -> Seq<SpanView> {
        self.spans@.map_values(|s: Span| s@)
    }
}

impl Line {
    /// A line with nothing in it.
    pub(crate) fn empty() -> (r: Line)
        ensures
            r@ == Seq::<SpanView>::empty(),
    {
        let r = Line { spans: Vec::new() };
        proof {
            assert(r@ =~= Seq::<SpanView>::empty());
        }
        r
    }

    /// The line with `span` at its end.
    pub(crate) fn with(self, span: Span) -> (r: Line)
        ensures
            r@ == self@.push(span@),
    {
        let ghost before = self@;
        let mut spans = self.spans;
        spans.push(span);
        let r = Line { spans };
        proof {
            assert(r@ =~= before.push(span@));
        }
        r
    }
}

/// Lines by the characters of their texts.
pub open spec fn lines_view(lines: Seq<Line>) -> Seq<Seq<SpanView>> {
    lines.map_values(|l: Line| l@)
}

/// Puts `line` below the others.
pub(crate) fn add_line(lines: &mut Vec<Line>, line: Line)
    ensures
        lines_view(final(lines)@) == lines_view(old(lines)@).push(line@),
{
    let ghost before = lines@;
    lines.push(line);
    proof {
        assert(lines_view(lines@) =~= lines_view(before).push(line@));
    }
}

/// No line yet.
pub(crate) fn no_lines() -> (r: Vec<Line>)
    ensures
        lines_view(r@) == Seq::<Seq<SpanView>>::empty(),
{
    let r: Vec<Line> = Vec::new();
    proof {
        assert(lines_view(r@) =~= Seq::<Seq<SpanView>>::empty());
    }
    r
}

/// A line around a panel.
#[derive(Debug)]
pub struct Border {
    /// Whether there is a line above.
    pub top: bool,
    /// Whether there is a line on the right.
    pub right: bool,
    /// Whether there is a line below.
    pub bottom: bool,
    /// Whether there is a line on the left.
    pub left: bool,
    /// The colour of the lines.
    pub color: Color,
    /// What is written on the upper line; nothing if it is empty.
    pub title: Line,
}

/// A line around a panel.
pub struct BorderView {
    pub top: bool,
    pub right: bool,
    pub bottom: bool,
    pub left: bool,
    pub color: Color,
    pub title: Seq<SpanView>,
}

impl View for Border {
    type V = BorderView;

    open spec fn view(&self) -> BorderView {
        BorderView {
            top: self.top,
            right: self.right,
            bottom: self.bottom,
            left: self.left,
            color: self.color,
            title: self.title@,
        }
    }
}

/// No line at all.
pub open spec fn no_border() -> BorderView {
    BorderView {
        top: false,
        right: false,
        bottom: false,
        left: false,
        color: rule(),
        title: Seq::empty(),
    }
}

/// Lines on those sides, none on the left, and no title.
pub(crate) fn border(top: bool, right: bool, bottom: bool) -> (r: Border)
    ensures
        r@ == (BorderView { top, right, bottom, ..no_border() }),
{
    Border { top, right, bottom, left: false, color: rule(), title: Line::empty() }
}

/// How lines that are too long are broken.
#[derive(Clone, Copy, Debug, PartialEq, Eq, Structural)]
pub enum Wrapping {
    /// They are cut off.
    Cut,
    /// They are wrapped, and white space at the beginning of a line is kept.
    Keep,
    /// They are wrapped, and white space at the beginning of a line is dropped.
    Trim,
}

/// A panel of text.
#[derive(Debug)]
pub struct Paragraph {
    /// The lines, from top to bottom.
    pub lines: Vec<Line>,
    /// How what has no style of its own is shown.
    pub style: Style,
    /// Whether the lines are centred.
    pub centered: bool,
    /// How lines that are too long are broken.
    pub wrapping: Wrapping,
    /// The line around the panel.
    pub border: Border,
}

/// A panel of text.
pub struct ParagraphView {
    pub lines: Seq<Seq<SpanView>>,
    pub style: Style,
    pub centered: bool,
    pub wrapping: Wrapping,
    pub border: BorderView,
}

impl View for Paragraph {
    type V = ParagraphView;

    open spec fn view(&self) -> ParagraphView {
        ParagraphView {
            lines: lines_view(self.lines@),
            style: self.style,
            centered: self.centered,
            wrapping: self.wrapping,
            border: self.border@,
        }
    }
}

/// The chart of the readings.
#[derive(Debug)]
pub struct Chart {
    /// The name of the readings.
    pub name: &'static str,
    /// The colour of the readings.
    pub color: Color,
    /// The colour of the axes.
    pub axis: Color,
    /// The readings, each with the time it was taken after, in nanoseconds.
    pub points: Vec<(u128, Binary64)>,
    /// The time at the right end of the chart, in nanoseconds; it begins at zero.
    pub span: u128,
    /// The highest speed that the chart makes room for, in megabits per second.
    pub peak: Binary64,
    /// The upper end of the chart, in hundredths of that speed; it begins at zero.
    pub headroom_percent: u16,
    /// The line around the chart.
    pub border: Border,
}

/// The chart of the readings.
pub struct ChartView {
    pub name: Seq<char>,
    pub color: Color,
    pub axis: Color,
    pub points: Seq<(u128, Binary64)>,
    pub span: u128,
    pub peak: Binary64,
    pub headroom_percent: u16,
    pub border: BorderView,
}

impl View for Chart {
    type V = ChartView;

    open spec fn view(&self) -> ChartView {
        ChartView {
            name: self.name@,
            color: self.color,
            axis: self.axis,
            points: self.points@,
            span: self.span,
            peak: self.peak,
            headroom_percent: self.headroom_percent,
            border: self.border@,
        }
    }
}

} // verus!
