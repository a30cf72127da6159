//! Colours, styles and styled text lines.
use vstd::prelude::*;

verus! {

/// A terminal colour.
#[derive(Clone, Copy, Debug)]
pub enum Color {
    Reset,
    Red,
    Green,
    Yellow,
    Blue,
    Magenta,
    Cyan,
    Gray,
    DarkGray,
    White,
    Rgb(u8, u8, u8),
}

/// Foreground, background and boldness of a piece of text; `None` leaves
/// the terminal's own colour.
#[derive(Clone, Copy, Debug)]
pub struct TextStyle {
    pub fg: Option<Color>,
    pub bg: Option<Color>,
    pub bold: bool,
}

impl TextStyle {
    /// The style that changes nothing.
    pub open spec fn plain_spec() -> TextStyle {
        TextStyle { fg: None, bg: None, bold: false }
    }

    pub open spec fn fg_spec(c: Color) -> TextStyle {
        TextStyle { fg: Some(c), bg: None, bold: false }
    }

    pub open spec fn fg_bold_spec(c: Color) -> TextStyle {
        TextStyle { fg: Some(c), bg: None, bold: true }
    }

    pub fn plain() -> (r: TextStyle)
        ensures
            r == TextStyle::plain_spec(),
    {
        TextStyle { fg: None, bg: None, bold: false }
    }

    pub fn fg(c: Color) -> (r: TextStyle)
        ensures
            r == TextStyle::fg_spec(c),
    {
        TextStyle { fg: Some(c), bg: None, bold: false }
    }

    pub fn fg_bold(c: Color) -> (r: TextStyle)
        ensures
            r == TextStyle::fg_bold_spec(c),
    {
        TextStyle { fg: Some(c), bg: None, bold: true }
    }
}

/// A piece of text in one style.
#[derive(Debug)]
pub struct StyledSpan {
    pub text: String,
    pub style: TextStyle,
}

pub type SpanView = (Seq<char>, TextStyle);

impl View for StyledSpan {
    type V = SpanView;

    open spec fn view(&self) -> SpanView {
        (self.text@, self.style)
    }
}

impl StyledSpan {
    pub fn new(text: String, style: TextStyle) -> (r: StyledSpan)
        ensures
            r@ == (text@, style),
    {
        StyledSpan { text, style }
    }

    pub fn from_str(text: &str, style: TextStyle) -> (r: StyledSpan)
        ensures
            r@ == (text@, style),
    {
        StyledSpan { text: String::from_str(text), style }
    }

    pub fn duplicate(&self) -> (r: StyledSpan)
        ensures
            r@ == self@,
    {
        StyledSpan { text: self.text.clone(), style: self.style }
    }
}

/// One line of styled text.
#[derive(Debug)]
pub struct StyledLine {
    pub spans: Vec<StyledSpan>,
}

pub type LineSpans = Seq<SpanView>;

pub open spec fn spans_view(v: Seq<StyledSpan>) -> Seq<SpanView> {
    v.map_values(|s: StyledSpan| s@)
}

impl View for StyledLine {
    type V = LineSpans;

    open spec fn view(&self) -> LineSpans {
        spans_view(self.spans@)
    }
}

pub open spec fn lines_view(v: Seq<StyledLine>) -> Seq<LineSpans> {
    v.map_values(|l: StyledLine| l@)
}

impl StyledLine {
    /// A line of one span.
    pub fn single(text: String, style: TextStyle) -> (r: StyledLine)
        ensures
            r@ == seq![(text@, style)],
    {
        let mut spans: Vec<StyledSpan> = Vec::new();
        spans.push(StyledSpan { text, style });
        proof {
            assert(spans_view(spans@) =~= seq![(text@, style)]);
        }
        StyledLine { spans }
    }

    /// A line of the given spans.
    pub fn from_spans(spans: Vec<StyledSpan>) -> (r: StyledLine)
        ensures
            r@ == spans_view(spans@),
    {
        StyledLine { spans }
    }

    pub fn duplicate(&self) -> (r: StyledLine)
        ensures
            r@ == self@,
    {
        let mut spans: Vec<StyledSpan> = Vec::new();
        let mut i: usize = 0;
        while i < self.spans.len()
            invariant
                i <= self.spans@.len(),
                spans_view(spans@) == spans_view(self.spans@).take(i as int),
            decreases self.spans.len() - i,
        {
            let ghost before = spans_view(spans@);
            spans.push(self.spans[i].duplicate());
            proof {
                assert(spans_view(spans@) =~= before.push(self.spans@[i as int]@));
                assert(spans_view(self.spans@).take(i + 1) =~= spans_view(self.spans@).take(
                    i as int,
                ).push(self.spans@[i as int]@));
            }
            i = i + 1;
        }
        proof {
            assert(spans_view(self.spans@).take(self.spans@.len() as int) =~= spans_view(
                self.spans@,
            ));
        }
        StyledLine { spans }
    }
}

/// Colours that tell neighbouring blocks apart.
pub open spec fn block_color(i: int) -> Color {
    if i == 0 {
        Color::Rgb(100, 140, 255)
    } else if i == 1 {
        Color::Rgb(210, 130, 210)
    } else if i == 2 {
        Color::Rgb(80, 210, 200)
    } else if i == 3 {
        Color::Rgb(210, 190, 80)
    } else if i == 4 {
        Color::Rgb(80, 210, 120)
    } else if i == 5 {
        Color::Rgb(210, 150, 80)
    } else if i == 6 {
        Color::Rgb(160, 120, 210)
    } else {
        Color::Rgb(210, 100, 100)
    }
}

/// Number of block colours.
pub const BLOCK_COLOR_COUNT: usize = 8;

/// The `i`-th block colour.
pub fn block_color_at(i: usize) -> (r: Color)
    requires
        i < BLOCK_COLOR_COUNT,
    ensures
        r == block_color(i as int),
{
    if i == 0 {
        Color::Rgb(100, 140, 255)
    } else if i == 1 {
        Color::Rgb(210, 130, 210)
    } else if i == 2 {
        Color::Rgb(80, 210, 200)
    } else if i == 3 {
        Color::Rgb(210, 190, 80)
    } else if i == 4 {
        Color::Rgb(80, 210, 120)
    } else if i == 5 {
        Color::Rgb(210, 150, 80)
    } else if i == 6 {
        Color::Rgb(160, 120, 210)
    } else {
        Color::Rgb(210, 100, 100)
    }
}

/// A colour a quarter as bright, for backgrounds; named colours stay.
pub open spec fn color_to_bg(c: Color) -> Color {
    match c {
        Color::Rgb(r, g, b) => Color::Rgb((r / 4) as u8, (g / 4) as u8, (b / 4) as u8),
        other => other,
    }
}

pub fn to_bg(c: Color) -> (r: Color)
    ensures
        r == color_to_bg(c),
{
    match c {
        Color::Rgb(r, g, b) => Color::Rgb(r / 4, g / 4, b / 4),
        other => other,
    }
}

pub open spec fn sat_sub_u8(a: u8, b: u8) -> u8 {
    if a >= b {
        (a - b) as u8
    } else {
        0
    }
}

/// A colour with each channel lowered by `amount` (not below zero); named
/// colours stay.
pub open spec fn darken_color(c: Color, amount: u8) -> Color {
    match c {
        Color::Rgb(r, g, b) => Color::Rgb(
            sat_sub_u8(r, amount),
            sat_sub_u8(g, amount),
            sat_sub_u8(b, amount),
        ),
        other => other,
    }
}

pub fn darken(c: Color, amount: u8) -> (r: Color)
    ensures
        r == darken_color(c, amount),
{
    match c {
        Color::Rgb(r, g, b) => Color::Rgb(
            r.saturating_sub(amount),
            g.saturating_sub(amount),
            b.saturating_sub(amount),
        ),
        other => other,
    }
}

} // verus!
