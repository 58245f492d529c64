//! Styled text: colours, spans and lines, and the colours of the interface.
use vstd::prelude::*;

use crate::text::{join, law_lines_round_trip, lines, lines_of, texts, without_return};

verus! {

/// A colour.
#[derive(Debug, Clone, Copy, PartialEq, Eq, Structural)]
pub enum Color {
    Rgb(u8, u8, u8),
}

/// How a span of text is drawn.
#[derive(Debug, Clone, Copy, PartialEq, Eq)]
pub struct Style {
    pub fg: Option<Color>,
    pub bg: Option<Color>,
    pub bold: bool,
    pub italic: bool,
    pub underlined: bool,
}

impl Style {
    /// The style that changes nothing.
    pub open spec fn plain_style() -> Style {
        Style { fg: None, bg: None, bold: false, italic: false, underlined: false }
    }

    pub open spec fn colored(color: Color) -> Style {
        Style { fg: Some(color), ..Style::plain_style() }
    }

    pub open spec fn bold_style() -> Style {
        Style { bold: true, ..Style::plain_style() }
    }

    pub open spec fn italic_style() -> Style {
        Style { italic: true, ..Style::plain_style() }
    }

    /// The style that changes nothing.
    pub fn plain() -> (r: Style)
        ensures
            r == Style::plain_style(),
    {
        Style { fg: None, bg: None, bold: false, italic: false, underlined: false }
    }

    /// Text of one colour.
    pub fn fg(color: Color) -> (r: Style)
        ensures
            r == Style::colored(color),
    {
        Style { fg: Some(color), bg: None, bold: false, italic: false, underlined: false }
    }

    /// Bold text.
    pub fn bold() -> (r: Style)
        ensures
            r == Style::bold_style(),
    {
        Style { fg: None, bg: None, bold: true, italic: false, underlined: false }
    }

    /// Italic text.
    pub fn italic() -> (r: Style)
        ensures
            r == Style::italic_style(),
    {
        Style { fg: None, bg: None, bold: false, italic: true, underlined: false }
    }
}

/// A text of one style, as mathematics sees it.
pub struct SpanView {
    pub content: Seq<char>,
    pub style: Style,
}

/// A text of one style.
#[derive(Debug, PartialEq, Eq)]
pub struct Span {
    pub content: String,
    pub style: Style,
}

impl View for Span {
    type V = SpanView;

    open spec fn view(&self) -> SpanView {
        SpanView { content: self.content@, style: self.style }
    }
}

/// A plain span.
pub open spec fn raw_span(content: Seq<char>) -> SpanView {
    SpanView { content, style: Style::plain_style() }
}

impl Span {
    /// A span in a style.
    pub fn styled(content: String, style: Style) -> (r: Self)
        ensures
            r@ == (SpanView { content: content@, style }),
    {
        Span { content, style }
    }

    /// A plain span.
    pub fn raw(content: String) -> (r: Self)
        ensures
            r@ == raw_span(content@),
    {
        Span { content, style: Style::plain() }
    }
}

/// The views of several spans.
pub open spec fn span_views(v: Seq<Span>) -> Seq<SpanView> {
    v.map_values(|s: Span| s@)
}

/// A line of styled text.
#[derive(Debug, PartialEq, Eq)]
pub struct Line {
    pub spans: Vec<Span>,
}

impl View for Line {
    type V = Seq<SpanView>;

    open spec fn view(&self) -> Seq<SpanView> {
        span_views(self.spans@)
    }
}

impl Line {
    /// A line without any text.
    pub fn empty() -> (r: Self)
        ensures
            r@ == Seq::<SpanView>::empty(),
    {
        let r = Line { spans: Vec::new() };
        assert(r@ =~= Seq::<SpanView>::empty());
        r
    }

    /// Plain text on one line: each line of the text is a span of its own.
    pub fn raw(content: String) -> (r: Self)
        ensures
            r@ == raw_line(content@),
    {
        let parts = lines_of(content.as_str());
        let mut spans: Vec<Span> = Vec::new();
        let mut i: usize = 0;
        while i < parts.len()
            invariant
                i <= parts@.len(),
                spans@.len() == i,
                texts(parts@) == lines(content@),
                forall|k: int|
                    0 <= k < i ==> (#[trigger] spans@[k])@ == raw_span(lines(content@)[k]),
            decreases parts@.len() - i,
        {
            assert(texts(parts@)[i as int] == parts@[i as int]@);
            spans.push(Span::raw(parts[i].clone()));
            i = i + 1;
        }
        assert(lines(content@).len() == parts@.len());
        assert(span_views(spans@) =~= raw_line(content@));
        Line { spans }
    }

    /// A line of one span.
    pub fn of(span: Span) -> (r: Self)
        ensures
            r@ == seq![span@],
    {
        let mut spans: Vec<Span> = Vec::new();
        spans.push(span);
        assert(span_views(spans@) =~= seq![span@]);
        Line { spans }
    }

    /// A line of two spans.
    pub fn pair(first: Span, second: Span) -> (r: Self)
        ensures
            r@ == seq![first@, second@],
    {
        let mut spans: Vec<Span> = Vec::new();
        spans.push(first);
        spans.push(second);
        assert(span_views(spans@) =~= seq![first@, second@]);
        Line { spans }
    }

    /// The text of the line, without its styles.
    pub fn text(&self) -> (r: String)
        ensures
            r@ == line_text(self@),
    {
        let mut out = String::new();
        let mut i: usize = 0;
        while i < self.spans.len()
            invariant
                i <= self.spans@.len(),
                out@ == line_text(self@.take(i as int)),
            decreases self.spans@.len() - i,
        {
            out.append(self.spans[i].content.as_str());
            assert(self@.take(i + 1).drop_last() =~= self@.take(i as int));
            i = i + 1;
        }
        assert(self@.take(self.spans@.len() as int) =~= self@);
        out
    }
}

/// Plain text on one line: each line of the text is a span of its own.
pub open spec fn raw_line(content: Seq<char>) -> Seq<SpanView> {
    lines(content).map_values(|l: Seq<char>| raw_span(l))
}

/// The views of several lines.
pub open spec fn line_views(v: Seq<Line>) -> Seq<Seq<SpanView>> {
    v.map_values(|l: Line| l@)
}

/// The text of a line, without its styles.
pub open spec fn line_text(spans: Seq<SpanView>) -> Seq<char>
    decreases spans.len(),
{
    if spans.len() == 0 {
        Seq::empty()
    } else {
        line_text(spans.drop_last()) + spans.last().content
    }
}

pub proof fn lemma_line_text_push(spans: Seq<SpanView>, span: SpanView)
    ensures
        line_text(spans.push(span)) == line_text(spans) + span.content,
{
    assert(spans.push(span).drop_last() =~= spans);
}

/// Appends a span.
pub fn push_span(spans: &mut Vec<Span>, span: Span)
    ensures
        span_views(final(spans)@) == span_views(old(spans)@).push(span@),
{
    spans.push(span);
    assert(span_views(spans@) =~= span_views(old(spans)@).push(span@));
}

/// Appends a line.
pub fn push_line(lines: &mut Vec<Line>, line: Line)
    ensures
        line_views(final(lines)@) == line_views(old(lines)@).push(line@),
{
    lines.push(line);
    assert(line_views(lines@) =~= line_views(old(lines)@).push(line@));
}

/// Appends `more` to `lines`.
pub fn append_lines(lines: &mut Vec<Line>, more: Vec<Line>)
    ensures
        line_views(final(lines)@) == line_views(old(lines)@) + line_views(more@),
{
    let mut rest = more;
    lines.append(&mut rest);
    assert(line_views(lines@) =~= line_views(old(lines)@) + line_views(more@));
}

/// The colours of the interface.
#[derive(Debug, Clone, Copy, PartialEq, Eq)]
pub struct UiTheme {
    pub foreground: Color,
    pub background: Color,
    pub muted: Color,
    pub accent: Color,
    pub selection: Color,
    pub selection_text: Color,
    pub error: Color,
    pub inline_code: Color,
}

impl UiTheme {
    pub open spec fn style_spec(self, use_background: bool) -> Style {
        Style {
            fg: Some(self.foreground),
            bg: if use_background {
                Some(self.background)
            } else {
                None
            },
            ..Style::plain_style()
        }
    }

    /// The style of a panel; the theme's background is used only where that is wanted.
    pub fn style(self, use_background: bool) -> (r: Style)
        ensures
            r == self.style_spec(use_background),
    {
        Style {
            fg: Some(self.foreground),
            bg: if use_background {
                Some(self.background)
            } else {
                None
            },
            bold: false,
            italic: false,
            underlined: false,
        }
    }
}

/// The style of the selected entry of a list.
pub fn selector_bar_style(theme: UiTheme) -> (r: Style)
    ensures
        r == (Style {
            fg: Some(theme.selection_text),
            bg: Some(theme.selection),
            ..Style::plain_style()
        }),
{
    Style {
        fg: Some(theme.selection_text),
        bg: Some(theme.selection),
        bold: false,
        italic: false,
        underlined: false,
    }
}

/// The style of keys, titles and labels: bold, in the accent colour.
pub open spec fn key_style(theme: UiTheme) -> Style {
    Style { fg: Some(theme.accent), bold: true, ..Style::plain_style() }
}

/// The style of keys, titles and labels: bold, in the accent colour.
pub fn footer_key_style(theme: UiTheme) -> (r: Style)
    ensures
        r == key_style(theme),
{
    Style { fg: Some(theme.accent), bg: None, bold: true, italic: false, underlined: false }
}

/// The title of a panel.
pub fn panel_title(title: String, theme: UiTheme) -> (r: Line)
    ensures
        r@ == seq![SpanView { content: title@, style: key_style(theme) }],
{
    Line::of(Span::styled(title, footer_key_style(theme)))
}

/// A text of one line is shown whole, in one span; each further line of a text is
/// a span of its own, and none of them has a style.
pub proof fn law_raw_line(text: Seq<char>, parts: Seq<Seq<char>>)
    requires
        parts.len() > 0,
        forall|i: int|
            0 <= i < parts.len() ==> !(#[trigger] parts[i]).contains('\n') && without_return(
                parts[i],
            ) == parts[i],
        parts.last().len() > 0,
        text == join(parts, seq!['\n']),
    ensures
        raw_line(text).len() == parts.len(),
        forall|i: int|
            0 <= i < parts.len() ==> (#[trigger] raw_line(text)[i]).content == parts[i],
        forall|i: int|
            0 <= i < parts.len() ==> (#[trigger] raw_line(text)[i]).style == (Style {
                fg: None,
                bg: None,
                bold: false,
                italic: false,
                underlined: false,
            }),
        parts.len() == 1 ==> line_text(raw_line(text)) == text,
{
    law_lines_round_trip(parts);
    if parts.len() == 1 {
        let spans = raw_line(text);
        lemma_line_text_push(Seq::empty(), spans[0]);
        assert(Seq::<SpanView>::empty().push(spans[0]) =~= spans);
        assert(line_text(Seq::<SpanView>::empty()) =~= Seq::<char>::empty());
        assert(Seq::<char>::empty() + spans[0].content =~= text);
    }
}

/// The colours of the theme are used: its text always, and its background just
/// where that is wanted.
pub proof fn law_theme_background(theme: UiTheme, use_background: bool)
    ensures
        theme.style_spec(use_background).fg == Some(theme.foreground),
        use_background ==> theme.style_spec(use_background).bg == Some(theme.background),
        !use_background ==> theme.style_spec(use_background).bg is None,
        key_style(theme).fg == Some(theme.accent) && key_style(theme).bold,
{
}

} // verus!
