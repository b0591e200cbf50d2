//! The styled text that a row is made of: colors, styles, spans and lines.
//!
//! These mirror the terminal text model that the sidebar draws with
//! (ratatui's `Color`, `Modifier`, `Style`, `Span` and `Line`), holding as
//! plain values what the row layout decides.

use vstd::prelude::*;

verus! {

/// A terminal color: one of the sixteen named ANSI colors, the terminal's
/// reset color, a 24-bit RGB color, or an entry of the 256-color palette.
#[derive(Clone, Copy, Debug, PartialEq, Eq, Structural)]
pub enum Color {
    Reset,
    Black,
    Red,
    Green,
    Yellow,
    Blue,
    Magenta,
    Cyan,
    Gray,
    DarkGray,
    LightRed,
    LightGreen,
    LightYellow,
    LightBlue,
    LightMagenta,
    LightCyan,
    White,
    Rgb(u8, u8, u8),
    Indexed(u8),
}

/// A set of text modifiers, as bit flags (bold is the lowest bit).
#[derive(Clone, Copy, Debug, PartialEq, Eq, Structural)]
pub struct Modifier {
    pub bits: u16,
}

impl Modifier {
    /// The bold modifier alone.
    pub fn bold() -> (m: Modifier)
        ensures
            m.bits == 1,
    {
        Modifier { bits: 1 }
    }

    /// No modifier at all.
    pub fn empty() -> (m: Modifier)
        ensures
            m.bits == 0,
    {
        Modifier { bits: 0 }
    }
}

/// Foreground and background colors (unset when `None`) and the modifiers
/// to add.
#[derive(Clone, Copy, Debug, PartialEq, Eq, Structural)]
pub struct Style {
    pub fg: Option<Color>,
    pub bg: Option<Color>,
    pub add_modifier: Modifier,
}

/// The style with no color set and no modifier.
pub open spec fn plain_style() -> Style {
    Style { fg: None, bg: None, add_modifier: Modifier { bits: 0 } }
}

/// `s` with its foreground set to `c`.
pub open spec fn with_fg(s: Style, c: Color) -> Style {
    Style { fg: Some(c), ..s }
}

/// `s` with its background set to `c`.
pub open spec fn with_bg(s: Style, c: Color) -> Style {
    Style { bg: Some(c), ..s }
}

/// `s` with the modifiers of `m` added.
pub open spec fn with_modifier(s: Style, m: Modifier) -> Style {
    Style { add_modifier: Modifier { bits: s.add_modifier.bits | m.bits }, ..s }
}

impl Default for Style {
    fn default() -> (s: Style)
        ensures
            s == plain_style(),
    {
        Style { fg: None, bg: None, add_modifier: Modifier { bits: 0 } }
    }
}

impl Style {
    /// This style with foreground `c`.
    pub fn fg(self, c: Color) -> (s: Style)
        ensures
            s == with_fg(self, c),
    {
        Style { fg: Some(c), ..self }
    }

    /// This style with background `c`.
    pub fn bg(self, c: Color) -> (s: Style)
        ensures
            s == with_bg(self, c),
    {
        Style { bg: Some(c), ..self }
    }

    /// This style with the modifiers of `m` added.
    pub fn add_modifier(self, m: Modifier) -> (s: Style)
        ensures
            s == with_modifier(self, m),
    {
        Style { add_modifier: Modifier { bits: self.add_modifier.bits | m.bits }, ..self }
    }
}

/// A piece of text drawn in one style.
#[derive(Debug)]
pub struct Span {
    pub content: String,
    pub style: Style,
}

impl View for Span {
    type V = (Seq<char>, Style);

    open spec fn view(&self) -> (Seq<char>, Style) {
        (self.content@, self.style)
    }
}

impl Span {
    /// The span drawing `content` in `style`.
    pub fn styled(content: String, style: Style) -> (s: Span)
        ensures
            s@ == (content@, style),
    {
        Span { content, style }
    }
}

/// The views of a sequence of spans.
pub open spec fn span_views(spans: Seq<Span>) -> Seq<(Seq<char>, Style)> {
    spans.map_values(|s: Span| s@)
}

/// One terminal line: its spans, drawn left to right.
#[derive(Debug)]
pub struct Line {
    pub spans: Vec<Span>,
}

impl View for Line {
    type V = Seq<(Seq<char>, Style)>;

    open spec fn view(&self) -> Seq<(Seq<char>, Style)> {
        span_views(self.spans@)
    }
}

impl Line {
    /// The line made of `spans`.
    pub fn from_spans(spans: Vec<Span>) -> (l: Line)
        ensures
            l@ == span_views(spans@),
    {
        Line { spans }
    }
}

/// The views of a sequence of lines.
pub open spec fn line_views(lines: Seq<Line>) -> Seq<Seq<(Seq<char>, Style)>> {
    lines.map_values(|l: Line| l@)
}

} // verus!
