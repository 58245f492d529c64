//! Texts, order and files.
use todui::files::{config_dir, stems_of, DefaultFile, FileEntry, Platform};
use todui::order::{is_text_before, sorted_order, SortKey};
use todui::text::{
    concat_text, contains_text, decimal_text, find_from, is_whitespace, join_texts, lines_of,
    repeat_char, same_text, split_text, trim, trim_by, trim_end_by, CharClass,
};

#[test]
fn whitespace_is_that_of_unicode() {
    for code in 0..=0x10ffffu32 {
        if let Some(c) = char::from_u32(code) {
            assert_eq!(is_whitespace(c), c.is_whitespace(), "{code:x}");
        }
    }
}

#[test]
fn trimming_takes_blanks_from_both_ends() {
    for text in ["", " ", "a", " a ", "\t a b\u{a0}\n", "\u{3000}x"] {
        assert_eq!(trim(text), text.trim());
    }
    assert_eq!(trim_by("||a|b|", CharClass::Only('|')), "a|b");
    assert_eq!(trim_end_by("a//", CharClass::Only('/')), "a");
    assert_eq!(trim_end_by("//", CharClass::Only('/')), "");
}

#[test]
fn trimming_twice_is_trimming_once() {
    let once = trim("  a b  ");
    assert_eq!(trim(&once), once);
}

#[test]
fn splitting_and_joining_undo_each_other() {
    for text in ["", ",", "a", "a,b", ",a,,b,"] {
        let parts = split_text(text, ',');
        assert_eq!(parts, text.split(',').collect::<Vec<_>>());
        assert_eq!(join_texts(&parts, ","), text);
    }
}

#[test]
fn lines_are_those_of_str() {
    for text in ["", "\n", "a", "a\n", "a\r\nb", "a\n\nb\n", "a\r", "\r\n"] {
        assert_eq!(lines_of(text), text.lines().collect::<Vec<_>>(), "{text:?}");
    }
}

#[test]
fn parts_are_found_where_they_first_stand() {
    let v: Vec<char> = "abcabc".chars().collect();
    let pat: Vec<char> = "bc".chars().collect();
    assert_eq!(find_from(&v, &pat, 0), Some(1));
    assert_eq!(find_from(&v, &pat, 2), Some(4));
    assert_eq!(find_from(&v, &pat, 5), None);
    assert!(contains_text("hello", "ell"));
    assert!(contains_text("hello", ""));
    assert!(!contains_text("hello", "elo"));
}

#[test]
fn numbers_are_written_in_decimal() {
    for n in [0usize, 7, 10, 120, 65535, usize::MAX] {
        assert_eq!(decimal_text(n), n.to_string());
    }
    assert_eq!(repeat_char('-', 3), "---");
    assert_eq!(concat_text("a", "b"), "ab");
    assert!(same_text("a", "a"));
    assert!(!same_text("a", "ab"));
}

fn key(first: &str, second: &str) -> SortKey {
    SortKey { first: first.to_string(), second: second.to_string() }
}

#[test]
fn sorting_keeps_equal_entries_in_order() {
    let keys = vec![key("b", ""), key("a", "2"), key("a", "1"), key("b", ""), key("", "z")];
    assert_eq!(sorted_order(&keys), vec![4, 2, 1, 0, 3]);
    assert!(sorted_order(&Vec::new()).is_empty());
}

#[test]
fn text_order_is_that_of_str() {
    let texts = ["", "a", "ab", "b", "B", "é", "z\u{10000}", "z\u{ffff}"];
    for a in texts {
        for b in texts {
            assert_eq!(is_text_before(a, b), a < b, "{a:?} {b:?}");
        }
    }
}

#[test]
fn files_are_told_apart_by_extension() {
    let entries = vec![
        FileEntry { stem: "one".to_string(), extension: Some("json".to_string()) },
        FileEntry { stem: "two".to_string(), extension: None },
        FileEntry { stem: "three".to_string(), extension: Some("JSON".to_string()) },
        FileEntry { stem: "four".to_string(), extension: Some("json".to_string()) },
    ];
    assert_eq!(stems_of(&entries, "json"), vec!["one", "four"]);
}

#[test]
fn the_folder_follows_the_system() {
    let home = || Some("/home/me".to_string());
    let none = || None::<String>;
    assert_eq!(
        config_dir(Platform::Linux, Some("/cfg".to_string()), home()),
        Some("/cfg/todui".to_string())
    );
    assert_eq!(
        config_dir(Platform::Linux, Some(String::new()), home()),
        Some("/home/me/.config/todui".to_string())
    );
    assert_eq!(
        config_dir(Platform::Linux, none(), home()),
        Some("/home/me/.config/todui".to_string())
    );
    assert_eq!(
        config_dir(Platform::MacOs, Some("/cfg".to_string()), home()),
        Some("/home/me/Library/Application Support/todui".to_string())
    );
    assert_eq!(config_dir(Platform::Linux, none(), none()), None);
    assert_eq!(config_dir(Platform::MacOs, none(), Some(String::new())), None);
}

#[test]
fn default_files_are_written_where_they_are_missing() {
    assert!(DefaultFile::Settings.is_written(false));
    assert!(!DefaultFile::Settings.is_written(true));
    assert!(!DefaultFile::Instructions.is_written(true));
    assert!(DefaultFile::DraftSchema.is_written(true));
    assert_eq!(DefaultFile::DraftSchema.path(), "schemas/chat-bar-todo.schema.json");
    assert_eq!(DefaultFile::Instructions.path(), "data/INSTRUCTIONS.md");
    assert_eq!(DefaultFile::ThemesReadme.path(), "themes/README.md");
    assert_eq!(DefaultFile::Settings.path(), "settings.json");
}
