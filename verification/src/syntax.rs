//! Colour themes and the highlighting of code.
use vstd::prelude::*;

use syntect::easy::HighlightLines;
use syntect::highlighting::{FontStyle, Highlighter, Theme};
use syntect::parsing::{Scope, SyntaxReference, SyntaxSet};

use crate::files::{law_stems_one_by_one, stems_of, stems_with, FileEntry};
use crate::order::{
    in_order, ints, is_sort_order, key_views, law_sort_order_has_all, sorted_order, text_before,
    SortKey, SortKeyView,
};
use crate::style::{
    lemma_line_text_push, line_text, line_views, span_views, Color, Line, Span, SpanView, Style,
    UiTheme,
};
use crate::text::{
    join, law_lines_round_trip, lines, lines_of, lowercase, same_text, split, text_opt, texts,
    to_lowercase, trim_end_by, trimmed, trimmed_end, without_return, CharClass,
};

verus! {

/// The syntax definitions of `syntect`.
#[verifier::external_type_specification]
#[verifier::external_body]
pub struct ExSyntaxSet(SyntaxSet);

/// One syntax definition of `syntect`.
#[verifier::external_type_specification]
#[verifier::external_body]
pub struct ExSyntaxReference(SyntaxReference);

/// A scope of `syntect`.
#[verifier::external_type_specification]
#[verifier::external_body]
pub struct ExScope(Scope);

/// A colour theme of `syntect`.
#[verifier::external_type_specification]
#[verifier::external_body]
pub struct ExTheme(Theme);

/// The highlighter of `syntect`, which goes over a text line by line.
#[verifier::external_type_specification]
#[verifier::external_body]
pub struct ExHighlightLines<'a>(HighlightLines<'a>);

/// The theme that is used where the wanted one is missing.
pub const DEFAULT_SYNTAX_THEME: &'static str = "base16-ocean.dark";

/// The colours that a theme sets for an editor, each under its own name.
#[derive(Debug, Clone, Copy, PartialEq, Eq)]
pub enum ThemeSlot {
    Foreground,
    Background,
    GutterForeground,
    Accent,
    Selection,
    SelectionForeground,
    LineHighlight,
    Misspelling,
}

/// The colours that a theme holds for an editor.
pub uninterp spec fn theme_settings(theme: Theme) -> Map<ThemeSlot, Color>;

/// The text that a scope stands for, as `Scope::build_string` writes it out.
pub uninterp spec fn scope_text(scope: Scope) -> Seq<char>;

/// The colour that `Highlighter::style_mod_for_stack` gives to text of a single
/// scope under a theme, if it gives one.
pub uninterp spec fn scope_style(theme: Theme, scope: Scope) -> Option<Color>;

/// The names of the syntaxes that a set holds.
pub uninterp spec fn syntax_names(set: SyntaxSet) -> Set<Seq<char>>;

/// The colour that is set under a name, if one is.
pub open spec fn color_at(colors: Map<ThemeSlot, Color>, slot: ThemeSlot) -> Option<Color> {
    if colors.contains_key(slot) {
        Some(colors[slot])
    } else {
        None
    }
}

/// The colour that a theme sets under a name, if it does.
pub open spec fn setting(theme: Theme, slot: ThemeSlot) -> Option<Color> {
    color_at(theme_settings(theme), slot)
}

/// The colours that a theme sets for an editor.
#[derive(Debug, Clone, Copy, PartialEq, Eq)]
pub struct ThemeColors {
    pub foreground: Option<Color>,
    pub background: Option<Color>,
    pub gutter_foreground: Option<Color>,
    pub accent: Option<Color>,
    pub selection: Option<Color>,
    pub selection_foreground: Option<Color>,
    pub line_highlight: Option<Color>,
    pub misspelling: Option<Color>,
}

/// Reads the public `settings` of a `syntect` theme: each colour that is set
/// there, without its opacity.
#[verifier::external_body]
fn theme_colors(theme: &Theme) -> (r: ThemeColors)
    ensures
        r.foreground == color_at(theme_settings(*theme), ThemeSlot::Foreground),
        r.background == color_at(theme_settings(*theme), ThemeSlot::Background),
        r.gutter_foreground == color_at(theme_settings(*theme), ThemeSlot::GutterForeground),
        r.accent == color_at(theme_settings(*theme), ThemeSlot::Accent),
        r.selection == color_at(theme_settings(*theme), ThemeSlot::Selection),
        r.selection_foreground == color_at(theme_settings(*theme), ThemeSlot::SelectionForeground),
        r.line_highlight == color_at(theme_settings(*theme), ThemeSlot::LineHighlight),
        r.misspelling == color_at(theme_settings(*theme), ThemeSlot::Misspelling),
{
    let s = &theme.settings;
    let rgb = |c: syntect::highlighting::Color| Color::Rgb(c.r, c.g, c.b);
    ThemeColors {
        foreground: s.foreground.map(rgb),
        background: s.background.map(rgb),
        gutter_foreground: s.gutter_foreground.map(rgb),
        accent: s.accent.map(rgb),
        selection: s.selection.map(rgb),
        selection_foreground: s.selection_foreground.map(rgb),
        line_highlight: s.line_highlight.map(rgb),
        misspelling: s.misspelling.map(rgb),
    }
}

/// The text of the scope that a name states: white space around it and dots
/// behind it do not count.
pub open spec fn stated_scope(name: Seq<char>) -> Seq<char> {
    trimmed_end(trimmed(name), CharClass::Only('.'))
}

/// Whether `made` can be what `Scope::new` makes of a name. A name of nothing
/// states a scope, one of more than eight parts does not. For any other name it
/// rests with the table of scope parts, which the whole process shares: a name
/// with a part that no longer fits there states no scope.
pub open spec fn is_scope_of(made: Option<Scope>, name: Seq<char>) -> bool {
    &&& made matches Some(scope) ==> scope_text(scope) == stated_scope(name)
    &&& trimmed(name).len() == 0 ==> made is Some
    &&& split(stated_scope(name), '.').len() > 8 ==> made is None
}

/// Calls `Scope::new` of `syntect`: the scope that a name states, whose text is
/// named `scope_text`. A name of nothing but white space always states one, and
/// a name of more than eight parts never does. Of other names it is not said
/// when they state one: that rests with a table which the whole process shares.
#[verifier::external_body]
fn named_scope(name: &str) -> (r: Option<Scope>)
    ensures
        r matches Some(scope) ==> scope_text(scope) == stated_scope(name@),
        trimmed(name@).len() == 0 ==> r is Some,
        split(stated_scope(name@), '.').len() > 8 ==> r is None,
{
    Scope::new(name).ok()
}

/// Calls `Highlighter::style_mod_for_stack` of `syntect` for one scope, and
/// takes the foreground, without its opacity; it is named `scope_style`.
#[verifier::external_body]
fn scope_color(theme: &Theme, scope: Scope) -> (r: Option<Color>)
    ensures
        r == scope_style(*theme, scope),
{
    let color = Highlighter::new(theme).style_mod_for_stack(&[scope]).foreground?;
    Some(Color::Rgb(color.r, color.g, color.b))
}

/// The first colour of a list that is there.
pub open spec fn first_some(colors: Seq<Option<Color>>) -> Option<Color>
    decreases colors.len(),
{
    if colors.len() == 0 {
        None
    } else if colors[0] is Some {
        colors[0]
    } else {
        first_some(colors.drop_first())
    }
}

/// The first colour of a list that is there.
pub fn first_color(colors: &[Option<Color>]) -> (r: Option<Color>)
    ensures
        r == first_some(colors@),
{
    let mut i: usize = 0;
    assert(colors@.skip(0) =~= colors@);
    while i < colors.len()
        invariant
            i <= colors@.len(),
            first_some(colors@) == first_some(colors@.skip(i as int)),
        decreases colors@.len() - i,
    {
        assert(colors@.skip(i as int).drop_first() =~= colors@.skip(i + 1));
        if let Some(color) = colors[i] {
            return Some(color);
        }
        i = i + 1;
    }
    None
}

/// The colours that a theme has for scopes, none where there is no scope.
pub open spec fn scope_styles(theme: Theme, scopes: Seq<Option<Scope>>) -> Seq<Option<Color>> {
    scopes.map_values(
        |scope: Option<Scope>|
            match scope {
                Some(s) => scope_style(theme, s),
                None => None,
            },
    )
}

/// Whether `made` can be the scopes that `names` state, each in its place.
pub open spec fn are_scopes_of(made: Seq<Option<Scope>>, names: Seq<Seq<char>>) -> bool {
    &&& made.len() == names.len()
    &&& forall|i: int| 0 <= i < names.len() ==> is_scope_of(#[trigger] made[i], names[i])
}

/// Whether `color` is what the theme has for the first of the scopes that
/// `names` state for which it has a colour, and missing where it has none.
pub open spec fn is_scope_color(
    theme: Theme,
    names: Seq<Seq<char>>,
    color: Option<Color>,
) -> bool {
    exists|made: Seq<Option<Scope>>| #[trigger]
        are_scopes_of(made, names) && color == first_some(scope_styles(theme, made))
}

/// The colour that a theme has for the first of `scopes` for which it has one.
fn first_scope_color(theme: &Theme, scopes: &Vec<Option<Scope>>) -> (r: Option<Color>)
    ensures
        r == first_some(scope_styles(*theme, scopes@)),
{
    let mut colors: Vec<Option<Color>> = Vec::new();
    let mut i: usize = 0;
    while i < scopes.len()
        invariant
            i <= scopes@.len(),
            colors@.len() == i,
            forall|k: int|
                0 <= k < i ==> (#[trigger] colors@[k]) == scope_styles(*theme, scopes@)[k],
        decreases scopes@.len() - i,
    {
        let color = match scopes[i] {
            Some(scope) => scope_color(theme, scope),
            None => None,
        };
        colors.push(color);
        i = i + 1;
    }
    assert(colors@ =~= scope_styles(*theme, scopes@));
    first_color(colors.as_slice())
}

/// The colour that a theme has for the first of `scopes` for which it has one.
fn scope_foreground(theme: &Theme, scopes: &Vec<String>) -> (r: Option<Color>)
    ensures
        is_scope_color(*theme, texts(scopes@), r),
{
    let mut made: Vec<Option<Scope>> = Vec::new();
    let mut i: usize = 0;
    while i < scopes.len()
        invariant
            i <= scopes@.len(),
            made@.len() == i,
            forall|k: int|
                0 <= k < i ==> is_scope_of(#[trigger] made@[k], texts(scopes@)[k]),
        decreases scopes@.len() - i,
    {
        assert(texts(scopes@)[i as int] == scopes@[i as int]@);
        made.push(named_scope(scopes[i].as_str()));
        i = i + 1;
    }
    assert(are_scopes_of(made@, texts(scopes@)));
    first_scope_color(theme, &made)
}

/// The colours that a theme has for the scopes that the interface looks at.
#[derive(Debug, Clone, Copy, PartialEq, Eq)]
pub struct ScopeColors {
    pub foreground: Option<Color>,
    pub comment: Option<Color>,
    pub accent: Option<Color>,
    pub inline_code: Option<Color>,
    pub error: Option<Color>,
}

pub open spec fn foreground_scopes() -> Seq<Seq<char>> {
    seq!["foreground"@]
}

pub open spec fn muted_scopes() -> Seq<Seq<char>> {
    seq!["comment"@]
}

pub open spec fn accent_scopes() -> Seq<Seq<char>> {
    seq![
        "support.class"@,
        "entity.name.class"@,
        "entity.name.type.class"@,
        "entity.name.type"@,
        "entity.name.function"@,
        "keyword"@,
        "string.other.link"@,
    ]
}

pub open spec fn inline_code_scopes() -> Seq<Seq<char>> {
    seq!["markup.raw.inline"@, "markup.raw"@, "string"@, "constant.other.symbol"@]
}

pub open spec fn error_scopes() -> Seq<Seq<char>> {
    seq!["markup.deleted"@, "invalid.illegal"@, "invalid"@]
}

impl ScopeColors {
    /// Whether each colour is what the theme has for the scopes in question.
    pub open spec fn are_of(self, theme: Theme) -> bool {
        &&& is_scope_color(theme, foreground_scopes(), self.foreground)
        &&& is_scope_color(theme, muted_scopes(), self.comment)
        &&& is_scope_color(theme, accent_scopes(), self.accent)
        &&& is_scope_color(theme, inline_code_scopes(), self.inline_code)
        &&& is_scope_color(theme, error_scopes(), self.error)
    }
}

/// A colour, or another where there is none.
pub open spec fn color_or(color: Option<Color>, other: Color) -> Color {
    match color {
        Some(c) => c,
        None => other,
    }
}

/// A colour, or else another that may be missing too.
pub open spec fn either_color(color: Option<Color>, other: Option<Color>) -> Option<Color> {
    if color is Some {
        color
    } else {
        other
    }
}

/// The colours of the interface: those that the theme sets for an editor, else
/// those of its scopes, else fixed ones.
pub open spec fn ui_theme_of(colors: ThemeColors, scopes: ScopeColors) -> UiTheme {
    let foreground = color_or(
        either_color(colors.foreground, scopes.foreground),
        Color::Rgb(255, 255, 255),
    );
    let accent = color_or(either_color(colors.accent, scopes.accent), foreground);
    UiTheme {
        foreground,
        background: color_or(colors.background, Color::Rgb(0, 0, 0)),
        muted: color_or(
            either_color(colors.gutter_foreground, scopes.comment),
            Color::Rgb(128, 128, 128),
        ),
        accent,
        selection: color_or(either_color(colors.selection, colors.line_highlight), accent),
        selection_text: color_or(colors.selection_foreground, foreground),
        error: color_or(either_color(colors.misspelling, scopes.error), accent),
        inline_code: color_or(scopes.inline_code, accent),
    }
}

fn or_color(color: Option<Color>, other: Color) -> (r: Color)
    ensures
        r == color_or(color, other),
{
    match color {
        Some(c) => c,
        None => other,
    }
}

fn or_else_color(color: Option<Color>, other: Option<Color>) -> (r: Option<Color>)
    ensures
        r == either_color(color, other),
{
    match color {
        Some(c) => Some(c),
        None => other,
    }
}

fn owned_texts(parts: &[&str]) -> (r: Vec<String>)
    ensures
        texts(r@) == parts@.map_values(|s: &str| s@),
{
    let mut out: Vec<String> = Vec::new();
    let mut i: usize = 0;
    while i < parts.len()
        invariant
            i <= parts@.len(),
            out@.len() == i,
            forall|k: int| 0 <= k < i ==> (#[trigger] out@[k])@ == parts@[k]@,
        decreases parts@.len() - i,
    {
        out.push(parts[i].to_owned());
        i = i + 1;
    }
    assert(texts(out@) =~= parts@.map_values(|s: &str| s@));
    out
}

fn scope_colors(theme: &Theme) -> (r: ScopeColors)
    ensures
        r.are_of(*theme),
{
    let foreground = owned_texts(&["foreground"]);
    let comment = owned_texts(&["comment"]);
    let accent = owned_texts(
        &[
            "support.class",
            "entity.name.class",
            "entity.name.type.class",
            "entity.name.type",
            "entity.name.function",
            "keyword",
            "string.other.link",
        ],
    );
    let inline_code = owned_texts(
        &["markup.raw.inline", "markup.raw", "string", "constant.other.symbol"],
    );
    let error = owned_texts(&["markup.deleted", "invalid.illegal", "invalid"]);
    proof {
        assert(texts(foreground@) =~= foreground_scopes());
        assert(texts(comment@) =~= muted_scopes());
        assert(texts(accent@) =~= accent_scopes());
        assert(texts(inline_code@) =~= inline_code_scopes());
        assert(texts(error@) =~= error_scopes());
    }
    ScopeColors {
        foreground: scope_foreground(theme, &foreground),
        comment: scope_foreground(theme, &comment),
        accent: scope_foreground(theme, &accent),
        inline_code: scope_foreground(theme, &inline_code),
        error: scope_foreground(theme, &error),
    }
}

impl UiTheme {
    /// The colours of the interface, from those of a theme and of its scopes.
    pub fn from_colors(colors: ThemeColors, scopes: ScopeColors) -> (r: Self)
        ensures
            r == ui_theme_of(colors, scopes),
    {
        let foreground = or_color(
            or_else_color(colors.foreground, scopes.foreground),
            Color::Rgb(255, 255, 255),
        );
        let accent = or_color(or_else_color(colors.accent, scopes.accent), foreground);
        UiTheme {
            foreground,
            background: or_color(colors.background, Color::Rgb(0, 0, 0)),
            muted: or_color(
                or_else_color(colors.gutter_foreground, scopes.comment),
                Color::Rgb(128, 128, 128),
            ),
            accent,
            selection: or_color(or_else_color(colors.selection, colors.line_highlight), accent),
            selection_text: or_color(colors.selection_foreground, foreground),
            error: or_color(or_else_color(colors.misspelling, scopes.error), accent),
            inline_code: or_color(scopes.inline_code, accent),
        }
    }

    /// Whether these are colours of the interface under `theme`: those that the
    /// theme sets, and whatever it has for the scopes that are looked at.
    pub open spec fn is_of(self, theme: Theme) -> bool {
        exists|colors: ThemeColors, scopes: ScopeColors|
            {
                &&& colors_are_of(colors, theme)
                &&& #[trigger] scopes.are_of(theme)
                &&& self == #[trigger] ui_theme_of(colors, scopes)
            }
    }

    /// The colours of the interface under a theme.
    pub fn from_syntect(theme: &Theme) -> (r: Self)
        ensures
            r.is_of(*theme),
    {
        let colors = theme_colors(theme);
        let scopes = scope_colors(theme);
        assert(colors_are_of(colors, *theme));
        UiTheme::from_colors(colors, scopes)
    }
}

/// Whether `colors` are those that the theme sets for an editor.
pub open spec fn colors_are_of(colors: ThemeColors, theme: Theme) -> bool {
    &&& colors.foreground == setting(theme, ThemeSlot::Foreground)
    &&& colors.background == setting(theme, ThemeSlot::Background)
    &&& colors.gutter_foreground == setting(theme, ThemeSlot::GutterForeground)
    &&& colors.accent == setting(theme, ThemeSlot::Accent)
    &&& colors.selection == setting(theme, ThemeSlot::Selection)
    &&& colors.selection_foreground == setting(theme, ThemeSlot::SelectionForeground)
    &&& colors.line_highlight == setting(theme, ThemeSlot::LineHighlight)
    &&& colors.misspelling == setting(theme, ThemeSlot::Misspelling)
}

/// A theme that sets a colour has it in the interface, whatever its scopes say.
pub proof fn law_theme_settings_win(theme: Theme, ui: UiTheme)
    requires
        ui.is_of(theme),
    ensures
        setting(theme, ThemeSlot::Foreground) matches Some(c) ==> ui.foreground == c,
        setting(theme, ThemeSlot::Background) matches Some(c) ==> ui.background == c,
        setting(theme, ThemeSlot::GutterForeground) matches Some(c) ==> ui.muted == c,
        setting(theme, ThemeSlot::Accent) matches Some(c) ==> ui.accent == c,
        setting(theme, ThemeSlot::Selection) matches Some(c) ==> ui.selection == c,
        setting(theme, ThemeSlot::SelectionForeground) matches Some(c) ==> ui.selection_text == c,
        setting(theme, ThemeSlot::Misspelling) matches Some(c) ==> ui.error == c,
{
}

/// A piece of code in one style, as the highlighter hands it out.
#[derive(Debug)]
pub struct CodePiece {
    pub text: String,
    pub color: Color,
    pub bold: bool,
    pub italic: bool,
    pub underlined: bool,
}

/// The style of a piece of code.
pub open spec fn piece_span(piece: CodePiece) -> SpanView {
    SpanView {
        content: piece.text@,
        style: Style {
            fg: Some(piece.color),
            bg: None,
            bold: piece.bold,
            italic: piece.italic,
            underlined: piece.underlined,
        },
    }
}

/// The spans of several pieces.
pub open spec fn piece_spans(pieces: Seq<CodePiece>) -> Seq<SpanView> {
    pieces.map_values(|p: CodePiece| piece_span(p))
}

/// Whether the pieces are parts of `line`, one after another from its beginning.
pub open spec fn pieces_of(pieces: Seq<CodePiece>, line: Seq<char>) -> bool {
    &&& line_text(piece_spans(pieces)).is_prefix_of(line)
    &&& forall|i: int| 0 <= i < pieces.len() ==> (#[trigger] pieces[i]).text@.len() > 0
}

/// Whether a set holds the default syntaxes of `syntect`, as they were loaded.
pub uninterp spec fn is_default(set: SyntaxSet) -> bool;

/// Calls `SyntaxSet::load_defaults_newlines` of `syntect`: its default
/// syntaxes, plain text among them.
#[verifier::external_body]
fn default_syntaxes() -> (r: SyntaxSet)
    ensures
        is_default(r),
        syntax_names(r).contains("Plain Text"@),
{
    SyntaxSet::load_defaults_newlines()
}

/// Whether a set holds a syntax as one of its own.
pub uninterp spec fn holds_syntax(set: SyntaxSet, syntax: SyntaxReference) -> bool;

/// The syntax that `SyntaxSet::find_syntax_by_token` finds in a set.
pub uninterp spec fn token_syntax(set: SyntaxSet, token: Seq<char>) -> Option<SyntaxReference>;

/// The syntax that `SyntaxSet::find_syntax_by_extension` finds in a set.
pub uninterp spec fn extension_syntax(set: SyntaxSet, extension: Seq<char>) -> Option<
    SyntaxReference,
>;

/// The syntax that `SyntaxSet::find_syntax_plain_text` finds in a set.
pub uninterp spec fn plain_syntax(set: SyntaxSet) -> SyntaxReference;

/// The lines that a highlighter has gone over, each with the set that it was
/// given.
pub uninterp spec fn passes(highlighter: HighlightLines<'_>) -> Seq<(SyntaxSet, Seq<char>)>;

/// The syntax and the theme that a highlighter was made with.
pub uninterp spec fn made_with(highlighter: HighlightLines<'_>) -> (SyntaxReference, Theme);

/// What `HighlightLines::highlight_line` gives for the last of several lines
/// after the others: spans in their styles, or nothing where it fails.
pub uninterp spec fn highlighted(
    syntax: SyntaxReference,
    theme: Theme,
    lines: Seq<(SyntaxSet, Seq<char>)>,
) -> Option<Seq<SpanView>>;

/// Calls `SyntaxSet::find_syntax_by_token` of `syntect`; what it finds is named
/// `token_syntax`, and is one of the set's own syntaxes.
#[verifier::external_body]
fn syntax_by_token<'a>(set: &'a SyntaxSet, token: &str) -> (r: Option<&'a SyntaxReference>)
    ensures
        match r {
            Some(syntax) => token_syntax(*set, token@) == Some(*syntax) && holds_syntax(
                *set,
                *syntax,
            ),
            None => token_syntax(*set, token@) is None,
        },
{
    set.find_syntax_by_token(token)
}

/// Calls `SyntaxSet::find_syntax_by_extension` of `syntect`; what it finds is
/// named `extension_syntax`, and is one of the set's own syntaxes.
#[verifier::external_body]
fn syntax_by_extension<'a>(set: &'a SyntaxSet, extension: &str) -> (r: Option<
    &'a SyntaxReference,
>)
    ensures
        match r {
            Some(syntax) => extension_syntax(*set, extension@) == Some(*syntax) && holds_syntax(
                *set,
                *syntax,
            ),
            None => extension_syntax(*set, extension@) is None,
        },
{
    set.find_syntax_by_extension(extension)
}

/// Calls `SyntaxSet::find_syntax_plain_text` of `syntect`, which panics where
/// the set does not hold the syntax of plain text; what it finds is named
/// `plain_syntax`, and is one of the set's own syntaxes.
#[verifier::external_body]
fn plain_text_syntax(set: &SyntaxSet) -> (r: &SyntaxReference)
    requires
        syntax_names(*set).contains("Plain Text"@),
    ensures
        *r == plain_syntax(*set),
        holds_syntax(*set, *r),
{
    set.find_syntax_plain_text()
}

/// Calls `HighlightLines::new` of `syntect`: a highlighter that has gone over
/// no line yet. It panics on a syntax that lacks the contexts to begin with, as
/// one made by hand may; those of the default set have them.
#[verifier::external_body]
fn new_highlighter<'a>(
    _set: &SyntaxSet,
    syntax: &SyntaxReference,
    theme: &'a Theme,
) -> (r: HighlightLines<'a>)
    requires
        is_default(*_set),
        holds_syntax(*_set, *syntax),
    ensures
        made_with(r) == (*syntax, *theme),
        passes(r) == Seq::<(SyntaxSet, Seq<char>)>::empty(),
{
    HighlightLines::new(syntax, theme)
}

/// Calls `HighlightLines::highlight_line` of `syntect`, which goes over one
/// line more; what it gives is named `highlighted`. The pieces follow one
/// another in the line from its beginning, and none is empty. That they reach
/// the end of the line is not said: after a line that failed they may not. It
/// may panic where the set is not the one that the syntax is from, or where the
/// set was made by hand.
#[verifier::external_body]
fn highlight_line(
    highlighter: &mut HighlightLines<'_>,
    line: &str,
    set: &SyntaxSet,
) -> (r: Option<Vec<CodePiece>>)
    requires
        is_default(*set),
        holds_syntax(*set, made_with(*old(highlighter)).0),
        forall|i: int|
            0 <= i < passes(*old(highlighter)).len() ==> (#[trigger] passes(
                *old(highlighter),
            )[i]).0 == *set,
    ensures
        made_with(*final(highlighter)) == made_with(*old(highlighter)),
        passes(*final(highlighter)) == passes(*old(highlighter)).push((*set, line@)),
        highlighted_view(r) == highlighted(
            made_with(*old(highlighter)).0,
            made_with(*old(highlighter)).1,
            passes(*old(highlighter)).push((*set, line@)),
        ),
        r matches Some(pieces) ==> pieces_of(pieces@, line@),
{
    let ranges = highlighter.highlight_line(line, set).ok()?;
    let pieces = ranges.into_iter().map(|(style, text)| CodePiece {
        text: text.to_string(),
        color: Color::Rgb(style.foreground.r, style.foreground.g, style.foreground.b),
        bold: style.font_style.contains(FontStyle::BOLD),
        italic: style.font_style.contains(FontStyle::ITALIC),
        underlined: style.font_style.contains(FontStyle::UNDERLINE),
    });
    Some(pieces.collect())
}

/// The spans of the pieces, where there are any.
pub open spec fn highlighted_view(pieces: Option<Vec<CodePiece>>) -> Option<Seq<SpanView>> {
    match pieces {
        Some(pieces) => Some(piece_spans(pieces@)),
        None => None,
    }
}

/// What the highlighting of code needs.
#[derive(Debug)]
pub struct SyntaxResources {
    pub syntax_set: SyntaxSet,
    pub theme: Theme,
    pub ui_theme: UiTheme,
}

impl SyntaxResources {
    /// Whether the syntaxes are the default ones, plain text among them, and the
    /// colours are the theme's.
    pub open spec fn wf(self) -> bool {
        &&& is_default(self.syntax_set)
        &&& syntax_names(self.syntax_set).contains("Plain Text"@)
        &&& self.ui_theme.is_of(self.theme)
    }

    /// The default syntaxes under a theme.
    pub fn from_theme(theme: Theme) -> (r: Self)
        ensures
            r.wf(),
            r.theme == theme,
    {
        let ui_theme = UiTheme::from_syntect(&theme);
        SyntaxResources { syntax_set: default_syntaxes(), theme, ui_theme }
    }
}

/// Code in the plain style of code.
pub open spec fn plain_code(line: Seq<char>, theme: UiTheme) -> Seq<SpanView> {
    seq![SpanView { content: line, style: Style::colored(theme.inline_code) }]
}

/// Code in the plain style of code.
pub fn plain_code_line(line: &str, theme: UiTheme) -> (r: Line)
    ensures
        r@ == plain_code(line@, theme),
{
    Line::of(Span::styled(line.to_owned(), Style::fg(theme.inline_code)))
}

/// A line of code: its pieces in their styles, or the plain line where the
/// highlighter gave none.
pub fn code_line(pieces: Option<Vec<CodePiece>>, line: &str, theme: UiTheme) -> (r: Line)
    ensures
        r@ == (match pieces {
            Some(v) => piece_spans(v@),
            None => plain_code(line@, theme),
        }),
{
    match pieces {
        Some(v) => {
            let mut spans: Vec<Span> = Vec::new();
            let mut i: usize = 0;
            while i < v.len()
                invariant
                    i <= v@.len(),
                    spans@.len() == i,
                    forall|k: int| 0 <= k < i ==> (#[trigger] spans@[k])@ == piece_span(v@[k]),
                decreases v@.len() - i,
            {
                let piece = &v[i];
                let style = Style {
                    fg: Some(piece.color),
                    bg: None,
                    bold: piece.bold,
                    italic: piece.italic,
                    underlined: piece.underlined,
                };
                spans.push(Span::styled(piece.text.clone(), style));
                i = i + 1;
            }
            assert(span_views(spans@) =~= piece_spans(v@));
            Line { spans }
        },
        None => plain_code_line(line, theme),
    }
}

/// The lines of a block of code, without line ends at its end.
pub open spec fn code_lines(code: Seq<char>) -> Seq<Seq<char>> {
    lines(trimmed_end(code, CharClass::Only('\n')))
}

/// The syntax of a language: the one that is found by its token, else by its
/// extension, else that of plain text.
pub open spec fn syntax_of(set: SyntaxSet, language: Seq<char>) -> SyntaxReference {
    if language.len() == 0 {
        plain_syntax(set)
    } else {
        match token_syntax(set, language) {
            Some(syntax) => syntax,
            None => match extension_syntax(set, language) {
                Some(syntax) => syntax,
                None => plain_syntax(set),
            },
        }
    }
}

/// The syntax of a language.
fn find_syntax<'a>(set: &'a SyntaxSet, language: &str) -> (r: &'a SyntaxReference)
    requires
        syntax_names(*set).contains("Plain Text"@),
    ensures
        *r == syntax_of(*set, language@),
        holds_syntax(*set, *r),
{
    if language.unicode_len() == 0 {
        return plain_text_syntax(set);
    }
    match syntax_by_token(set, language) {
        Some(found) => found,
        None => match syntax_by_extension(set, language) {
            Some(found) => found,
            None => plain_text_syntax(set),
        },
    }
}

/// Lines, each with the set that the highlighter is given.
pub open spec fn passes_of(set: SyntaxSet, lines: Seq<Seq<char>>) -> Seq<(SyntaxSet, Seq<char>)> {
    lines.map_values(|line: Seq<char>| (set, line))
}

/// A line of code: what the highlighter gives for it after the lines before
/// it, or the plain line where it fails.
pub open spec fn shown_code_line(
    resources: SyntaxResources,
    language: Seq<char>,
    lines: Seq<Seq<char>>,
    i: int,
) -> Seq<SpanView> {
    match highlighted(
        syntax_of(resources.syntax_set, language),
        resources.theme,
        passes_of(resources.syntax_set, lines.take(i + 1)),
    ) {
        Some(spans) => spans,
        None => plain_code(lines[i], resources.ui_theme),
    }
}

/// A block of code in a language, highlighted: a line for each of its lines;
/// one blank line for no code.
pub open spec fn shown_code(
    resources: SyntaxResources,
    language: Seq<char>,
    code: Seq<char>,
) -> Seq<Seq<SpanView>> {
    let lines = code_lines(code);
    if lines.len() == 0 {
        seq![plain_code(Seq::empty(), resources.ui_theme)]
    } else {
        Seq::new(lines.len(), |i: int| shown_code_line(resources, language, lines, i))
    }
}

/// Whether the text of a line is the beginning of another.
pub open spec fn begins(shown: Seq<SpanView>, line: Seq<char>) -> bool {
    line_text(shown).is_prefix_of(line)
}

/// A block of code in a language, highlighted. Every line shows the beginning
/// of the line of code that it stands for.
pub fn render_code_block(code: &str, language: &str, resources: &SyntaxResources) -> (r: Vec<Line>)
    requires
        resources.wf(),
    ensures
        line_views(r@) == shown_code(*resources, language@, code@),
        forall|i: int|
            0 <= i < code_lines(code@).len() ==> begins(
                #[trigger] line_views(r@)[i],
                code_lines(code@)[i],
            ),
{
    let syntax = find_syntax(&resources.syntax_set, language);
    let mut highlighter = new_highlighter(&resources.syntax_set, syntax, &resources.theme);
    let kept = trim_end_by(code, CharClass::Only('\n'));
    let parts = lines_of(kept.as_str());
    let mut out: Vec<Line> = Vec::new();
    let ghost all = code_lines(code@);
    let ghost set = resources.syntax_set;
    assert(texts(parts@).len() == parts@.len());
    if parts.len() == 0 {
        let none = String::new();
        assert(none@ =~= Seq::empty());
        out.push(plain_code_line(none.as_str(), resources.ui_theme));
        assert(line_views(out@) =~= shown_code(*resources, language@, code@));
        return out;
    }
    let mut i: usize = 0;
    assert(passes_of(set, all.take(0)) =~= Seq::empty());
    while i < parts.len()
        invariant
            i <= parts@.len(),
            texts(parts@) == all,
            set == resources.syntax_set,
            is_default(set),
            holds_syntax(set, syntax_of(set, language@)),
            made_with(highlighter) == (syntax_of(set, language@), resources.theme),
            passes(highlighter) == passes_of(set, all.take(i as int)),
            out@.len() == i,
            forall|k: int|
                0 <= k < i ==> (#[trigger] out@[k])@ == shown_code_line(
                    *resources,
                    language@,
                    all,
                    k,
                ) && begins(out@[k]@, all[k]),
        decreases parts@.len() - i,
    {
        assert(all[i as int] == parts@[i as int]@);
        assert(passes_of(set, all.take(i + 1)) =~= passes_of(set, all.take(i as int)).push(
            (set, all[i as int]),
        ));
        let pieces = highlight_line(&mut highlighter, parts[i].as_str(), &resources.syntax_set);
        proof {
            lemma_line_text_push(
                Seq::empty(),
                SpanView {
                    content: all[i as int],
                    style: Style::colored(resources.ui_theme.inline_code),
                },
            );
            assert(Seq::<SpanView>::empty().push(
                SpanView {
                    content: all[i as int],
                    style: Style::colored(resources.ui_theme.inline_code),
                },
            ) =~= plain_code(all[i as int], resources.ui_theme));
            assert(Seq::<char>::empty() + all[i as int] =~= all[i as int]);
        }
        out.push(code_line(pieces, parts[i].as_str(), resources.ui_theme));
        i = i + 1;
    }
    assert(line_views(out@) =~= shown_code(*resources, language@, code@));
    assert forall|k: int| 0 <= k < all.len() implies begins(
        #[trigger] line_views(out@)[k],
        all[k],
    ) by {
        assert(begins(out@[k]@, all[k]));
    }
    out
}

/// Which of the themes at hand is used: the wanted one, else the default one,
/// else the first.
pub open spec fn chosen_theme(names: Seq<Seq<char>>, wanted: Seq<char>) -> Option<int> {
    if names.contains(wanted) {
        Some(names.index_of_first(wanted)->0)
    } else if names.contains(DEFAULT_SYNTAX_THEME@) {
        Some(names.index_of_first(DEFAULT_SYNTAX_THEME@)->0)
    } else if names.len() > 0 {
        Some(0)
    } else {
        None
    }
}

fn position_of(names: &[String], wanted: &str) -> (r: Option<usize>)
    ensures
        match r {
            Some(i) => texts(names@).contains(wanted@) && texts(names@).index_of_first(wanted@)
                == Some(i as int),
            None => !texts(names@).contains(wanted@),
        },
{
    let ghost all = texts(names@);
    let mut i: usize = 0;
    while i < names.len()
        invariant
            i <= names@.len(),
            all == texts(names@),
            forall|k: int| 0 <= k < i ==> #[trigger] all[k] != wanted@,
        decreases names@.len() - i,
    {
        assert(all[i as int] == names@[i as int]@);
        if same_text(names[i].as_str(), wanted) {
            proof {
                all.index_of_first_ensures(wanted@);
                assert(all.contains(wanted@));
            }
            return Some(i);
        }
        i = i + 1;
    }
    None
}

/// Which of the themes at hand is used; none where there is no theme.
pub fn choose_theme(names: &[String], wanted: &str) -> (r: Option<usize>)
    ensures
        match r {
            Some(i) => i < names@.len() && chosen_theme(texts(names@), wanted@) == Some(i as int),
            None => names@.len() == 0,
        },
{
    proof {
        texts(names@).index_of_first_ensures(wanted@);
        texts(names@).index_of_first_ensures(DEFAULT_SYNTAX_THEME@);
    }
    match position_of(names, wanted) {
        Some(i) => Some(i),
        None => match position_of(names, DEFAULT_SYNTAX_THEME) {
            Some(i) => Some(i),
            None => if names.len() > 0 {
                Some(0)
            } else {
                None
            },
        },
    }
}

/// What a theme is sorted by: its name in lower case.
pub open spec fn theme_keys(names: Seq<Seq<char>>) -> Seq<SortKeyView> {
    names.map_values(|n: Seq<char>| SortKeyView { first: lowercase(n), second: Seq::empty() })
}

/// Whether `options` are the themes among the files, sorted by name without
/// regard to case.
pub open spec fn are_theme_options(entries: Seq<FileEntry>, options: Seq<Seq<char>>) -> bool {
    let names = stems_with(entries, "tmTheme"@);
    exists|order: Seq<int>| #[trigger]
        is_sort_order(theme_keys(names), order) && options == order.map_values(|i: int| names[i])
}

/// The themes among the files of a folder, sorted by name without regard to case.
pub fn theme_options(entries: &Vec<FileEntry>) -> (r: Vec<String>)
    ensures
        are_theme_options(entries@, texts(r@)),
{
    let ghost names = stems_with(entries@, "tmTheme"@);
    let found = stems_of(entries, "tmTheme");
    let mut keys: Vec<SortKey> = Vec::new();
    let mut j: usize = 0;
    while j < found.len()
        invariant
            j <= found@.len(),
            texts(found@) == names,
            keys@.len() == j,
            forall|k: int| 0 <= k < j ==> (#[trigger] keys@[k])@ == theme_keys(names)[k],
        decreases found@.len() - j,
    {
        assert(names[j as int] == found@[j as int]@);
        let second = String::new();
        assert(second@ =~= Seq::empty());
        keys.push(SortKey { first: to_lowercase(found[j].as_str()), second });
        j = j + 1;
    }
    assert(names.len() == found@.len());
    assert(key_views(keys@) =~= theme_keys(names));
    let order = sorted_order(&keys);
    let mut out: Vec<String> = Vec::new();
    let mut m: usize = 0;
    while m < order.len()
        invariant
            m <= order@.len(),
            texts(found@) == names,
            names.len() == found@.len(),
            is_sort_order(theme_keys(names), ints(order@)),
            out@.len() == m,
            forall|k: int| 0 <= k < m ==> (#[trigger] out@[k])@ == names[ints(order@)[k]],
        decreases order@.len() - m,
    {
        assert(0 <= ints(order@)[m as int] < names.len());
        assert(names[order@[m as int] as int] == found@[order@[m as int] as int]@);
        out.push(found[order[m]].clone());
        m = m + 1;
    }
    assert(texts(out@) =~= ints(order@).map_values(|i: int| names[i]));
    out
}

/// Some theme is used where there is one at hand; the wanted one where it is
/// there, and the default one where only that is.
pub proof fn law_chosen_theme(names: Seq<Seq<char>>, wanted: Seq<char>)
    ensures
        chosen_theme(names, wanted) is Some <==> names.len() > 0,
        chosen_theme(names, wanted) matches Some(i) ==> 0 <= i < names.len(),
        names.contains(wanted) ==> names[chosen_theme(names, wanted)->0] == wanted,
        !names.contains(wanted) && names.contains("base16-ocean.dark"@) ==> names[chosen_theme(
            names,
            wanted,
        )->0] == "base16-ocean.dark"@,
{
    if names.contains(wanted) {
        names.index_of_first_ensures(wanted);
    }
    if names.contains(DEFAULT_SYNTAX_THEME@) {
        names.index_of_first_ensures(DEFAULT_SYNTAX_THEME@);
    }
}

/// Where a theme sets no colour for a selection, that of the current line stands
/// in, and where it sets neither, the accent; other colours that it lacks and
/// has no scopes for are the text's, the accent's, or fixed.
pub proof fn law_missing_theme_colors(theme: Theme, ui: UiTheme)
    requires
        ui.is_of(theme),
    ensures
        setting(theme, ThemeSlot::Selection) is None ==> match setting(
            theme,
            ThemeSlot::LineHighlight,
        ) {
            Some(c) => ui.selection == c,
            None => ui.selection == ui.accent,
        },
        setting(theme, ThemeSlot::SelectionForeground) is None ==> ui.selection_text
            == ui.foreground,
        setting(theme, ThemeSlot::Background) is None ==> ui.background == Color::Rgb(0, 0, 0),
{
}

/// The colours that a theme has for scopes are used for what it does not set,
/// and for code in a line always.
pub proof fn law_scope_colors_are_used(colors: ThemeColors, scopes: ScopeColors)
    ensures
        ({
            let ui = ui_theme_of(colors, scopes);
            &&& colors.foreground is None ==> (scopes.foreground matches Some(c) ==> ui.foreground
                == c)
            &&& colors.gutter_foreground is None ==> (scopes.comment matches Some(c) ==> ui.muted
                == c)
            &&& colors.accent is None ==> (scopes.accent matches Some(c) ==> ui.accent == c)
            &&& colors.misspelling is None ==> (scopes.error matches Some(c) ==> ui.error == c)
            &&& scopes.inline_code matches Some(c) ==> ui.inline_code == c
            &&& colors.foreground is None && scopes.foreground is None ==> ui.foreground
                == Color::Rgb(255, 255, 255)
            &&& colors.gutter_foreground is None && scopes.comment is None ==> ui.muted
                == Color::Rgb(128, 128, 128)
            &&& colors.accent is None && scopes.accent is None ==> ui.accent == ui.foreground
            &&& colors.misspelling is None && scopes.error is None ==> ui.error == ui.accent
            &&& scopes.inline_code is None ==> ui.inline_code == ui.accent
        }),
{
}

/// Code is shown on a line for each of its lines, and on one where it has none.
pub proof fn law_code_is_shown_line_by_line(
    resources: SyntaxResources,
    language: Seq<char>,
    parts: Seq<Seq<char>>,
)
    requires
        parts.len() > 0,
        forall|i: int|
            0 <= i < parts.len() ==> !(#[trigger] parts[i]).contains('\n') && without_return(
                parts[i],
            ) == parts[i],
        parts.last().len() > 0,
    ensures
        code_lines(join(parts, seq!['\n'])) == parts,
        shown_code(resources, language, join(parts, seq!['\n'])).len() == parts.len(),
        shown_code(resources, language, Seq::empty()).len() == 1,
{
    let code = join(parts, seq!['\n']);
    let end = parts[parts.len() - 1];
    law_lines_round_trip(parts);
    assert(!end.contains('\n'));
    assert(end[end.len() - 1] != '\n');
    assert(code.last() == end[end.len() - 1]);
    let none = Seq::<char>::empty();
    assert(split(none, '\n').drop_last() =~= Seq::empty());
    assert(code_lines(none).len() == 0);
}

/// The themes at hand are the files that are themes, in the order of their names
/// without regard to case.
pub proof fn law_theme_options(
    entries: Seq<FileEntry>,
    options: Seq<Seq<char>>,
    i: int,
    p: int,
    q: int,
)
    requires
        are_theme_options(entries, options),
        0 <= i < entries.len(),
        text_opt(entries[i].extension) == Some("tmTheme"@),
        0 <= p < q < options.len(),
    ensures
        options.contains(entries[i].stem@),
        text_before(lowercase(options[p]), lowercase(options[q])) || lowercase(options[p])
            == lowercase(options[q]),
{
    let names = stems_with(entries, "tmTheme"@);
    let keys = theme_keys(names);
    let order = choose|order: Seq<int>| #[trigger]
        is_sort_order(keys, order) && options == order.map_values(|i: int| names[i]);
    let before = entries.subrange(0, i);
    let own = entries.subrange(i, i + 1);
    let after = entries.subrange(i + 1, entries.len() as int);
    law_stems_one_by_one(before, own, "tmTheme"@);
    law_stems_one_by_one(before + own, after, "tmTheme"@);
    assert((before + own) + after =~= entries);
    let k = stems_with(before, "tmTheme"@).len() as int;
    assert(own[0] == entries[i]);
    assert(names[k] == entries[i].stem@);
    law_sort_order_has_all(keys, order, k);
    let place = choose|m: int| 0 <= m < order.len() && order[m] == k;
    assert(options[place] == names[k]);
    assert(0 <= order[p] < keys.len() && 0 <= order[q] < keys.len());
    assert(options[p] == names[order[p]]);
    assert(options[q] == names[order[q]]);
    assert(in_order(keys, order[p], order[q]));
    assert(keys[order[p]].first == lowercase(options[p]));
    assert(keys[order[q]].first == lowercase(options[q]));
}

/// A language is looked up by its name first, by its extension where there is
/// none of that name, and is plain text where there is neither or none is named.
pub proof fn law_syntax_of_a_language(set: SyntaxSet, language: Seq<char>)
    ensures
        language.len() == 0 ==> syntax_of(set, language) == plain_syntax(set),
        language.len() > 0 ==> match (token_syntax(set, language), extension_syntax(set, language)) {
            (Some(found), _) => syntax_of(set, language) == found,
            (None, Some(found)) => syntax_of(set, language) == found,
            (None, None) => syntax_of(set, language) == plain_syntax(set),
        },
{
}

/// Of colours for several scopes the first that is there counts.
pub proof fn law_first_color_counts(a: Seq<Option<Color>>, b: Seq<Option<Color>>)
    ensures
        first_some(a + b) == if first_some(a) is Some {
            first_some(a)
        } else {
            first_some(b)
        },
        a.len() == 1 ==> first_some(a) == a[0],
        a.len() == 0 ==> first_some(a) is None,
    decreases a.len(),
{
    if a.len() == 0 {
        assert(a + b =~= b);
    } else {
        assert((a + b).drop_first() =~= a.drop_first() + b);
        law_first_color_counts(a.drop_first(), b);
    }
}

} // verus!
