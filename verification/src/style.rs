//! Styled text.

use vstd::prelude::*;
use vstd::string::*;

verus! {

/// A color of the terminal.
#[derive(Clone, Copy, Debug, PartialEq, Eq)]
pub enum Color {
    Black,
    Red,
    Green,
    Yellow,
    Cyan,
    DarkGray,
    LightRed,
    White,
}

/// How a piece of text looks.
#[derive(Clone, Copy, Debug, PartialEq, Eq)]
pub struct Style {
    pub fg: Option<Color>,
    pub bg: Option<Color>,
    pub bold: bool,
    pub crossed_out: bool,
    pub slow_blink: bool,
}

impl Style {
    /// The look of text that nothing is said about.
    #[verifier::allow_in_spec]
    pub fn plain() -> (r: Style)
        returns
            (Style { fg: None, bg: None, bold: false, crossed_out: false, slow_blink: false }),
    {
        Style { fg: None, bg: None, bold: false, crossed_out: false, slow_blink: false }
    }

    /// The same look in a color.
    #[verifier::allow_in_spec]
    pub fn fg(self, color: Color) -> (r: Style)
        returns
            (Style { fg: Some(color), ..self }),
    {
        Style { fg: Some(color), ..self }
    }

    /// The same look on a color.
    #[verifier::allow_in_spec]
    pub fn bg(self, color: Color) -> (r: Style)
        returns
            (Style { bg: Some(color), ..self }),
    {
        Style { bg: Some(color), ..self }
    }

    /// The same look in bold.
    #[verifier::allow_in_spec]
    pub fn bold(self) -> (r: Style)
        returns
            (Style { bold: true, ..self }),
    {
        Style { bold: true, ..self }
    }

    /// The same look crossed out.
    #[verifier::allow_in_spec]
    pub fn crossed_out(self) -> (r: Style)
        returns
            (Style { crossed_out: true, ..self }),
    {
        Style { crossed_out: true, ..self }
    }

    /// The same look, blinking slowly.
    #[verifier::allow_in_spec]
    pub fn slow_blink(self) -> (r: Style)
        returns
            (Style { slow_blink: true, ..self }),
    {
        Style { slow_blink: true, ..self }
    }
}

/// A piece of text in one style.
pub struct Span {
    pub text: String,
    pub style: Style,
}

/// A piece of text in one style, as a mathematical value.
#[verifier::ext_equal]
pub struct SpanModel {
    pub text: Seq<char>,
    pub style: Style,
}

impl View for Span {
    type V = SpanModel;

    open spec fn view(&self) -> SpanModel {
        SpanModel { text: self.text@, style: self.style }
    }
}

/// A line of text.
pub struct Line {
    pub spans: Vec<Span>,
}

impl View for Line {
    type V = Seq<SpanModel>;

    open spec fn view(&self) -> Seq<SpanModel> {
        Seq::new(self.spans@.len(), |i: int| self.spans@[i]@)
    }
}

/// The lines of a list, as mathematical values.
pub open spec fn line_models(lines: Seq<Line>) -> Seq<Seq<SpanModel>> {
    Seq::new(lines.len(), |i: int| lines[i]@)
}

/// A piece of text in a style.
pub open spec fn styled(text: Seq<char>, style: Style) -> SpanModel {
    SpanModel { text, style }
}

/// A piece of text that nothing is said about.
pub open spec fn raw(text: Seq<char>) -> SpanModel {
    SpanModel { text, style: Style::plain() }
}

impl Line {
    /// An empty line.
    pub fn new() -> (r: Line)
        ensures
            r@ == Seq::<SpanModel>::empty(),
    {
        let r = Line { spans: Vec::new() };
        assert(r@ == Seq::<SpanModel>::empty());
        r
    }

    /// Adds a piece of text in a style.
    pub fn push_styled(&mut self, text: &str, style: Style)
        ensures
            final(self)@ == old(self)@.push(styled(text@, style)),
    {
        let span = Span { text: text.to_owned(), style };
        self.spans.push(span);
        assert(self@ == old(self)@.push(styled(text@, style)));
    }

    /// Adds a piece of text that nothing is said about.
    pub fn push_raw(&mut self, text: &str)
        ensures
            final(self)@ == old(self)@.push(raw(text@)),
    {
        self.push_styled(text, Style::plain());
    }
}

/// Each look that is built up sets what it names and keeps the rest.
pub proof fn law_styles(style: Style, color: Color)
    ensures
        Style::plain() == (Style {
            fg: None,
            bg: None,
            bold: false,
            crossed_out: false,
            slow_blink: false,
        }),
        style.fg(color) == (Style { fg: Some(color), ..style }),
        style.bg(color) == (Style { bg: Some(color), ..style }),
        style.bold() == (Style { bold: true, ..style }),
        style.crossed_out() == (Style { crossed_out: true, ..style }),
        style.slow_blink() == (Style { slow_blink: true, ..style }),
{
}

/// What is said of a line is said of its pieces, in order.
pub proof fn law_views(span: Span, line: Line, lines: Seq<Line>)
    ensures
        span@.text == span.text@ && span@.style == span.style,
        line@.len() == line.spans@.len(),
        forall|i: int| 0 <= i < line.spans@.len() ==> #[trigger] line@[i] == line.spans@[i]@,
        line_models(lines).len() == lines.len(),
        forall|i: int| 0 <= i < lines.len() ==> #[trigger] line_models(lines)[i] == lines[i]@,
{
}

} // verus!
