//! The content of tasks as lines.
use todui::content::{
    content_excerpt, format_labels, parse_fence_body, render_text_lines, split_content_blocks,
    ContentBlock,
};
use todui::inline::{
    next_marker_index, parse_inline_tokens, render_inline_lines_wrapped, split_words_and_spaces,
};
use todui::render::render_content_lines;
use todui::settings::DEFAULT_TASK_CONTENT_WRAP_COLS;
use todui::style::{Color, Line, Style, UiTheme};
use todui::syntax::SyntaxResources;
use todui::table::{is_table_separator, pad_table_cell, parse_table, parse_table_row, render_table};

fn test_syntax_resources() -> SyntaxResources {
    let themes = syntect::highlighting::ThemeSet::load_defaults();
    SyntaxResources::from_theme(themes.themes["base16-ocean.dark"].clone())
}

fn test_ui_theme() -> UiTheme {
    test_syntax_resources().ui_theme
}

fn render_test_content_lines(content: &str) -> Vec<Line> {
    render_content_lines(content, &test_syntax_resources(), DEFAULT_TASK_CONTENT_WRAP_COLS)
}

fn line_text(line: &Line) -> String {
    line.spans.iter().map(|span| span.content.as_str()).collect()
}

fn plain_theme() -> UiTheme {
    UiTheme {
        foreground: Color::Rgb(1, 1, 1),
        background: Color::Rgb(2, 2, 2),
        muted: Color::Rgb(3, 3, 3),
        accent: Color::Rgb(4, 4, 4),
        selection: Color::Rgb(5, 5, 5),
        selection_text: Color::Rgb(6, 6, 6),
        error: Color::Rgb(7, 7, 7),
        inline_code: Color::Rgb(8, 8, 8),
    }
}

#[test]
fn renders_inline_content_styles() {
    let theme = test_ui_theme();
    let lines = render_test_content_lines("A **bold** _italic_ `code` line");
    let spans = &lines[0].spans;

    assert!(spans.iter().any(|span| span.style.bold));
    assert!(spans.iter().any(|span| span.style.italic));
    assert!(spans.iter().any(|span| span.style.fg == Some(theme.inline_code)));
}

#[test]
fn renders_plain_and_language_code_fences() {
    let plain = render_test_content_lines("```text\nplain\n```");
    let highlighted = render_test_content_lines("```c\nint main(void) { return 0; }\n```");

    assert_eq!(plain[0].spans[0].content, "plain");
    assert!(line_text(&highlighted[0]).contains("int main"));
}

#[test]
fn renders_markdown_tables_in_content() {
    let theme = test_ui_theme();
    let lines = render_content_lines(
        "before\n| Name | State |\n| --- | --- |\n| Thing | Done |\nafter",
        &test_syntax_resources(),
        DEFAULT_TASK_CONTENT_WRAP_COLS,
    );

    assert_eq!(line_text(&lines[0]), "before");
    assert_eq!(line_text(&lines[1]), "Name   State");
    assert_eq!(line_text(&lines[2]), "-----  -----");
    assert_eq!(line_text(&lines[3]).trim_end(), "Thing  Done");
    assert_eq!(line_text(&lines[4]), "after");
    assert_eq!(lines[1].spans[0].style.fg, Some(theme.accent));
    assert_eq!(lines[2].spans[0].style.fg, Some(theme.muted));
}

#[test]
fn wraps_task_detail_content_at_120_columns() {
    let content = "word ".repeat(80);
    let lines = render_test_content_lines(&content);

    assert!(lines.len() > 1);
    assert!(
        lines
            .iter()
            .all(|line| line_text(line).chars().count() <= DEFAULT_TASK_CONTENT_WRAP_COLS)
    );
}

#[test]
fn wraps_task_detail_content_at_configured_columns() {
    let lines = render_content_lines("one two three four five", &test_syntax_resources(), 9);

    assert_eq!(line_text(&lines[0]), "one two");
    assert_eq!(line_text(&lines[1]), "three");
}

#[test]
fn inline_code_moves_to_next_line_before_wrapping_mid_statement() {
    let prefix = "x".repeat(DEFAULT_TASK_CONTENT_WRAP_COLS - 4);
    let code = "let value = call();";
    let lines = render_test_content_lines(&format!("{prefix} `{code}` after"));

    assert_eq!(line_text(&lines[0]), prefix);
    assert!(line_text(&lines[1]).starts_with(code));
    assert_eq!(lines[1].spans[0].content, code);
    assert_eq!(lines[1].spans[0].style.fg, Some(test_ui_theme().inline_code));
}

#[test]
fn fenced_code_blocks_render_on_newlines_when_embedded_in_prose() {
    let lines = render_test_content_lines("before ```rust let value = call();``` after");

    assert_eq!(line_text(&lines[0]), "before");
    assert!(line_text(&lines[1]).contains("let value = call();"));
    assert_eq!(line_text(&lines[2]), "after");
}

#[test]
fn content_excerpt_removes_supported_markers_and_code_fences() {
    let excerpt = content_excerpt(
        "**Keep** _this_ `code`.\n```c\nint main(void) { return 0; }\n```",
        200,
    );

    assert_eq!(excerpt, "Keep this code. int main(void) { return 0; }");
}

#[test]
fn excerpts_are_cut_with_dots() {
    assert_eq!(content_excerpt("", 10), "-");
    assert_eq!(content_excerpt("```\n\n", 10), "-");
    assert_eq!(content_excerpt("abcdefgh", 8), "abcdefgh");
    assert_eq!(content_excerpt("abcdefgh", 7), "abcd...");
    assert_eq!(content_excerpt("abcdefgh", 2), "...");
    assert_eq!(content_excerpt(" a \n\n b ", 10), "a b");
    assert_eq!(content_excerpt("a*****b", 10), "a*b");
}

#[test]
fn labels_are_listed_with_commas() {
    assert_eq!(format_labels(&[]), "-");
    assert_eq!(format_labels(&["a".to_string(), "b".to_string()]), "a, b");
}

#[test]
fn marks_make_tokens() {
    let theme = plain_theme();
    let tokens = parse_inline_tokens("a **b c**`d e`_f_ g", theme);
    let shown: Vec<(&str, bool)> =
        tokens.iter().map(|token| (token.text.as_str(), token.atomic)).collect();
    assert_eq!(
        shown,
        vec![("a ", false), ("b c", false), ("d e", true), ("f", false), (" g", false)]
    );
    assert_eq!(tokens[1].style, Style::bold());
    assert_eq!(tokens[2].style, Style::fg(theme.inline_code));
    assert_eq!(tokens[3].style, Style::italic());
    assert_eq!(tokens[4].style, Style::plain());
}

#[test]
fn marks_that_open_nothing_are_plain() {
    let theme = plain_theme();
    let text = |line: &str| -> Vec<String> {
        parse_inline_tokens(line, theme).into_iter().map(|token| token.text).collect()
    };
    assert_eq!(text("**a"), vec!["*", "*a"]);
    assert_eq!(text("a_b"), vec!["a", "_", "b"]);
    assert_eq!(text("`"), vec!["`"]);
    assert_eq!(text("a * b"), vec!["a * b"]);
    assert!(text("").is_empty());
    assert_eq!(text("plain"), vec!["plain"]);
}

#[test]
fn marks_are_found_by_their_bytes() {
    assert_eq!(next_marker_index("é `x` **y**"), Some(3));
    assert_eq!(next_marker_index("é*_"), Some(3));
    assert_eq!(next_marker_index("none * here"), None);
}

#[test]
fn words_and_blanks_alternate() {
    assert_eq!(split_words_and_spaces("  a\tb c"), vec!["  ", "a", "\t", "b", " ", "c"]);
    assert!(split_words_and_spaces("").is_empty());
    let text = " x  yz ";
    assert_eq!(split_words_and_spaces(text).concat(), text);
}

#[test]
fn wrapping_keeps_words_and_widths() {
    let theme = plain_theme();
    let shown = |line: &str, width: usize| -> Vec<String> {
        render_inline_lines_wrapped(line, width, theme).iter().map(line_text).collect()
    };
    assert_eq!(shown("one two three", 7), vec!["one two", "three"]);
    assert_eq!(shown("abcdefgh ij", 4), vec!["abcdefgh", "ij"]);
    assert_eq!(shown("", 10), vec![""]);
    assert_eq!(shown("   ", 10), vec![""]);
    assert_eq!(shown("**a**b", 10), vec!["ab"]);
    assert_eq!(shown("a b", 0), vec!["a", "b"]);
    assert_eq!(shown("  a   b  ", 10), vec!["a b"]);
}

#[test]
fn tables_need_a_header_and_a_rule() {
    let lines = ["| a | b |", "|:--- | ---:|", "| c | d |", "x"];
    let (rows, next) = parse_table(&lines, 0).unwrap();
    assert_eq!(next, 3);
    assert_eq!(rows, vec![vec!["a", "b"], vec!["c", "d"]]);
    assert!(parse_table(&lines, 1).is_none());
    assert!(parse_table(&lines, 4).is_none());
    assert!(parse_table(&["| a | b |"], 0).is_none());
    assert_eq!(parse_table_row("a|b"), Some(vec!["a".to_string(), "b".to_string()]));
    assert_eq!(parse_table_row("|a|"), None);
    assert_eq!(parse_table_row("ab"), None);
    assert!(is_table_separator(&["---".to_string(), ":----:".to_string()]));
    assert!(!is_table_separator(&["--".to_string()]));
    assert!(!is_table_separator(&["--x".to_string()]));
    assert_eq!(pad_table_cell("é", 3), "é  ");
    assert_eq!(pad_table_cell("abcd", 3), "abcd");
}

#[test]
fn table_lines_are_equally_wide() {
    let rows = vec![
        vec!["a".to_string(), "long".to_string()],
        vec!["abc".to_string()],
        vec!["x".to_string(), "y".to_string(), "z".to_string()],
    ];
    let lines = render_table(rows, plain_theme());
    let shown: Vec<String> = lines.iter().map(line_text).collect();
    assert_eq!(
        shown,
        vec!["a    long   ", "---  ----  -", "abc         ", "x    y     z"]
    );
    assert!(render_table(Vec::new(), plain_theme()).is_empty());
}

#[test]
fn content_is_cut_at_fences() {
    assert_eq!(split_content_blocks(""), vec![]);
    assert_eq!(
        split_content_blocks("text"),
        vec![ContentBlock::Text("text".to_string())]
    );
    assert_eq!(
        split_content_blocks("a```rust\nlet x;\n```b"),
        vec![
            ContentBlock::Text("a".to_string()),
            ContentBlock::Code { language: "rust".to_string(), code: "let x;".to_string() },
            ContentBlock::Text("b".to_string()),
        ]
    );
    assert_eq!(
        split_content_blocks("```\nopen"),
        vec![ContentBlock::Code { language: String::new(), code: "open".to_string() }]
    );
}

#[test]
fn a_fence_may_name_a_language() {
    let body = |text: &str| parse_fence_body(text);
    let pair = |a: &str, b: &str| (a.to_string(), b.to_string());
    assert_eq!(body("rust extra\ncode\n"), pair("rust", "code"));
    assert_eq!(body("\nc\nint x;\n\n"), pair("", "c\nint x;"));
    assert_eq!(body("\nplain\n"), pair("", "plain"));
    assert_eq!(body("\n  x"), pair("", "x"));
    assert_eq!(body("\n  x y "), pair("", "x y"));
    assert_eq!(body("\n  x\n y\n"), pair("", "  x\n y"));
    assert_eq!(body(" rust  let x; "), pair("rust", "let x;"));
    assert_eq!(body("single"), pair("", "single"));
    assert_eq!(body(""), pair("", ""));
    assert_eq!(body("  \ncode"), pair("", "code"));
}

#[test]
fn content_is_never_without_a_line() {
    let lines = render_test_content_lines("");
    assert_eq!(lines.len(), 1);
    assert!(lines[0].spans.is_empty());
    let blank_code = render_test_content_lines("```\n```");
    assert_eq!(blank_code.len(), 1);
    assert_eq!(line_text(&blank_code[0]), "");
    assert_eq!(render_text_lines("a\n\nb", 10, plain_theme()).len(), 3);
}

#[test]
fn code_lines_keep_their_text() {
    let code = "fn main() {\n    let s = \"x\"; // y\n}";
    for language in ["", "rust", "rs", "no-such-language"] {
        let lines = render_test_content_lines(&format!("```{language}\n{code}\n```"));
        let shown: Vec<String> = lines.iter().map(line_text).collect();
        assert_eq!(shown, code.lines().collect::<Vec<_>>());
    }
}

#[test]
fn an_excerpt_is_a_beginning_on_one_line() {
    let content = "# One_\n\n```rust\n  **two** `three`\r\nfour";
    let full = content_excerpt(content, usize::MAX);
    assert_eq!(full, "# One two three four");
    for max_chars in 3..40usize {
        let shown = content_excerpt(content, max_chars);
        if full.len() <= max_chars {
            assert_eq!(shown, full);
        } else {
            assert_eq!(shown, format!("{}...", &full[..max_chars - 3]));
        }
    }
    assert_eq!(content_excerpt(" \n\t\n  ```rust\n```", 10), "-");
}
