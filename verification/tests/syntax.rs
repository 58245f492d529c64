//! Themes and their colours.
use todui::files::FileEntry;
use todui::style::{footer_key_style, panel_title, selector_bar_style, Color, Style, UiTheme};
use todui::syntax::{
    choose_theme, code_line, first_color, theme_options, CodePiece, ScopeColors, SyntaxResources,
    ThemeColors,
};

fn built_in(name: &str) -> SyntaxResources {
    let themes = syntect::highlighting::ThemeSet::load_defaults();
    SyntaxResources::from_theme(themes.themes[name].clone())
}

fn no_colors() -> ThemeColors {
    ThemeColors {
        foreground: None,
        background: None,
        gutter_foreground: None,
        accent: None,
        selection: None,
        selection_foreground: None,
        line_highlight: None,
        misspelling: None,
    }
}

fn no_scopes() -> ScopeColors {
    ScopeColors { foreground: None, comment: None, accent: None, inline_code: None, error: None }
}

#[test]
fn theme_style_uses_background_only_when_enabled() {
    let theme = built_in("base16-ocean.dark").ui_theme;

    assert_eq!(theme.style(true).bg, Some(theme.background));
    assert_eq!(theme.style(false).bg, None);
}

#[test]
fn syntax_resources_use_configured_builtin_theme() {
    let themes = syntect::highlighting::ThemeSet::load_defaults();
    let names: Vec<String> = themes.themes.keys().cloned().collect();
    let chosen = choose_theme(&names, "InspiredGitHub").unwrap();

    assert_eq!(names[chosen], "InspiredGitHub");
    let resources = built_in(&names[chosen]);
    assert_eq!(resources.ui_theme.background, Color::Rgb(255, 255, 255));
}

#[test]
fn a_theme_sets_the_colours_of_the_interface() {
    let themes = syntect::highlighting::ThemeSet::load_defaults();
    let theme = &themes.themes["base16-ocean.dark"];
    let ui = UiTheme::from_syntect(theme);
    let set = theme.settings.foreground.unwrap();
    assert_eq!(ui.foreground, Color::Rgb(set.r, set.g, set.b));
    assert_eq!(ui.background, Color::Rgb(43, 48, 59));
    assert_eq!(ui.foreground, Color::Rgb(192, 197, 206));
    assert_eq!(ui.inline_code, Color::Rgb(163, 190, 140));
}

#[test]
fn the_first_scope_with_a_colour_wins() {
    let item = |scope: &str, n: u8| syntect::highlighting::ThemeItem {
        scope: scope.parse().unwrap(),
        style: syntect::highlighting::StyleModifier {
            foreground: Some(syntect::highlighting::Color { r: n, g: n, b: n, a: 255 }),
            background: None,
            font_style: None,
        },
    };
    let mut theme = syntect::highlighting::Theme::default();
    theme.scopes.push(item("keyword", 1));
    theme.scopes.push(item("entity.name.function", 2));
    theme.scopes.push(item("invalid", 3));
    theme.scopes.push(item("comment", 4));

    let ui = UiTheme::from_syntect(&theme);
    assert_eq!(ui.accent, Color::Rgb(2, 2, 2));
    assert_eq!(ui.error, Color::Rgb(3, 3, 3));
    assert_eq!(ui.muted, Color::Rgb(4, 4, 4));
    assert_eq!(ui.inline_code, Color::Rgb(2, 2, 2));
    assert_eq!(ui.foreground, Color::Rgb(255, 255, 255));

    theme.scopes.push(item("support", 5));
    assert_eq!(UiTheme::from_syntect(&theme).accent, Color::Rgb(5, 5, 5));
}

#[test]
fn ui_theme_uses_selected_syntax_theme_colors() {
    let color = |r: u8, g: u8, b: u8| syntect::highlighting::Color { r, g, b, a: 255 };
    let item = |scope: &str, foreground| syntect::highlighting::ThemeItem {
        scope: scope.parse().unwrap(),
        style: syntect::highlighting::StyleModifier {
            foreground: Some(foreground),
            background: None,
            font_style: None,
        },
    };
    let mut theme = syntect::highlighting::Theme::default();
    theme.settings.background = Some(color(0, 0, 0));
    theme.settings.selection = Some(color(51, 51, 51));
    theme.scopes.push(item("support.class", color(252, 48, 46)));
    theme.scopes.push(item("string", color(248, 247, 242)));

    let resources = SyntaxResources::from_theme(theme);

    assert_eq!(resources.ui_theme.background, Color::Rgb(0, 0, 0));
    assert_eq!(resources.ui_theme.accent, Color::Rgb(252, 48, 46));
    assert_eq!(resources.ui_theme.selection, Color::Rgb(51, 51, 51));
    assert_eq!(resources.ui_theme.inline_code, Color::Rgb(248, 247, 242));
}

#[test]
fn missing_themes_fall_back() {
    let names = |list: &[&str]| -> Vec<String> { list.iter().map(|n| n.to_string()).collect() };
    assert_eq!(choose_theme(&names(&["a", "base16-ocean.dark", "b"]), "b"), Some(2));
    assert_eq!(choose_theme(&names(&["a", "base16-ocean.dark", "b"]), "x"), Some(1));
    assert_eq!(choose_theme(&names(&["a", "b"]), "x"), Some(0));
    assert_eq!(choose_theme(&[], "x"), None);
}

#[test]
fn colours_that_are_missing_fall_back() {
    let white = Color::Rgb(255, 255, 255);
    let ui = UiTheme::from_colors(no_colors(), no_scopes());
    assert_eq!(
        ui,
        UiTheme {
            foreground: white,
            background: Color::Rgb(0, 0, 0),
            muted: Color::Rgb(128, 128, 128),
            accent: white,
            selection: white,
            selection_text: white,
            error: white,
            inline_code: white,
        }
    );
}

#[test]
fn settings_win_over_scopes() {
    let c = |n: u8| Color::Rgb(n, n, n);
    let scopes = ScopeColors {
        foreground: Some(c(11)),
        comment: Some(c(12)),
        accent: Some(c(13)),
        inline_code: Some(c(14)),
        error: Some(c(15)),
    };
    let from_scopes = UiTheme::from_colors(no_colors(), scopes);
    assert_eq!(from_scopes.foreground, c(11));
    assert_eq!(from_scopes.muted, c(12));
    assert_eq!(from_scopes.accent, c(13));
    assert_eq!(from_scopes.selection, c(13));
    assert_eq!(from_scopes.selection_text, c(11));
    assert_eq!(from_scopes.inline_code, c(14));
    assert_eq!(from_scopes.error, c(15));

    let colors = ThemeColors {
        foreground: Some(c(1)),
        background: Some(c(2)),
        gutter_foreground: Some(c(3)),
        accent: Some(c(4)),
        selection: None,
        selection_foreground: Some(c(6)),
        line_highlight: Some(c(7)),
        misspelling: Some(c(8)),
    };
    let from_settings = UiTheme::from_colors(colors, scopes);
    assert_eq!(from_settings.foreground, c(1));
    assert_eq!(from_settings.background, c(2));
    assert_eq!(from_settings.muted, c(3));
    assert_eq!(from_settings.accent, c(4));
    assert_eq!(from_settings.selection, c(7));
    assert_eq!(from_settings.selection_text, c(6));
    assert_eq!(from_settings.error, c(8));
    let selected = ThemeColors { selection: Some(c(5)), ..colors };
    assert_eq!(UiTheme::from_colors(selected, scopes).selection, c(5));
}

#[test]
fn the_first_colour_is_taken() {
    let red = Color::Rgb(255, 0, 0);
    let blue = Color::Rgb(0, 0, 255);
    assert_eq!(first_color(&[None, Some(red), Some(blue)]), Some(red));
    assert_eq!(first_color(&[None]), None);
}

#[test]
fn loads_theme_options_from_theme_folder() {
    let file = |stem: &str, extension: &str| FileEntry {
        stem: stem.to_string(),
        extension: Some(extension.to_string()),
    };
    let entries = vec![
        file("zeta", "tmTheme"),
        file("alpha", "tmTheme"),
        file("ignored", "txt"),
    ];

    assert_eq!(theme_options(&entries), vec!["alpha", "zeta"]);
}

#[test]
fn theme_options_do_not_regard_case() {
    let file = |stem: &str| FileEntry {
        stem: stem.to_string(),
        extension: Some("tmTheme".to_string()),
    };
    let entries = vec![file("Beta"), file("alpha"), file("ÄTHER"), file("ALPHA")];
    assert_eq!(theme_options(&entries), vec!["alpha", "ALPHA", "Beta", "ÄTHER"]);
}

#[test]
fn pieces_of_code_keep_their_styles() {
    let theme = built_in("base16-ocean.dark").ui_theme;
    let piece = CodePiece {
        text: "x".to_string(),
        color: Color::Rgb(1, 2, 3),
        bold: true,
        italic: false,
        underlined: true,
    };
    let line = code_line(Some(vec![piece]), "x", theme);
    assert_eq!(line.spans[0].content, "x");
    let style = Style {
        fg: Some(Color::Rgb(1, 2, 3)),
        bg: None,
        bold: true,
        italic: false,
        underlined: true,
    };
    assert_eq!(line.spans[0].style, style);
    let plain = code_line(None, "y", theme);
    assert_eq!(plain.text(), "y");
    assert_eq!(plain.spans[0].style, Style::fg(theme.inline_code));
}

#[test]
fn keys_and_selections_have_their_styles() {
    let theme = built_in("base16-ocean.dark").ui_theme;
    assert_eq!(selector_bar_style(theme).fg, Some(theme.selection_text));
    assert_eq!(selector_bar_style(theme).bg, Some(theme.selection));
    assert_eq!(footer_key_style(theme).fg, Some(theme.accent));
    assert!(footer_key_style(theme).bold);
    assert_eq!(panel_title("Projects".to_string(), theme).text(), "Projects");
}
