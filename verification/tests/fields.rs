//! Texts that are typed into, and where they are shown.
use todui::field::{visible_line_value, visible_multiline_value, EditableField};
use todui::geometry::{
    centered_rect, chat_bar_area, edit_areas, message_area, project_detail_areas, projects_areas,
    screen_areas, task_detail_areas, Position, Rect,
};

fn numbered_lines(count: usize) -> String {
    (0..count).map(|index| format!("line {index}")).collect::<Vec<_>>().join("\n")
}

#[test]
fn multiline_edit_field_scrolls_to_keep_cursor_visible() {
    let mut field = EditableField::multi_line("Content", numbered_lines(20));

    field.update_scroll(5);
    let visible = field.display_value(80, 5);

    assert_eq!(field.scroll_top, 15);
    assert!(visible.starts_with("line 15"));
    assert!(visible.contains("line 19"));
    assert!(!visible.contains("line 0"));
}

#[test]
fn multiline_edit_field_scrolls_when_cursor_hits_top() {
    let mut field = EditableField::multi_line("Content", numbered_lines(20));
    field.scroll_top = 10;
    field.cursor = field.char_index_for_line_column(10, 0);

    field.update_scroll(5);
    let visible = field.display_value(80, 5);

    assert_eq!(field.scroll_top, 9);
    assert!(visible.starts_with("line 9"));
}

#[test]
fn edit_field_reports_terminal_cursor_position() {
    let mut field = EditableField::multi_line("Content", "zero\none\ntwo".to_string());
    field.scroll_top = 1;
    field.cursor = field.char_index_for_line_column(2, 2);

    let position = field
        .terminal_cursor_position(Rect::new(5, 7, 20, 4))
        .expect("cursor should be visible");

    assert_eq!(position.x, 7);
    assert_eq!(position.y, 8);
}

#[test]
fn long_single_line_edit_field_scrolls_with_cursor() {
    let field = EditableField::single_line("Title", "0123456789".to_string());

    assert_eq!(field.display_value(5, 1), "6789");
    assert_eq!(
        field
            .terminal_cursor_position(Rect::new(10, 4, 5, 1))
            .expect("cursor should be visible"),
        Position::new(14, 4)
    );
}

#[test]
fn home_and_end_move_to_current_line_bounds() {
    let mut field = EditableField::multi_line("Content", "short\nmuch longer\nend".to_string());

    field.cursor = field.char_index_for_line_column(1, 5);
    field.home();
    assert_eq!(field.cursor_line_column(), (1, 0));

    field.end();
    assert_eq!(field.cursor_line_column(), (1, "much longer".len()));
}

#[test]
fn page_up_and_down_move_by_visible_page_height() {
    let mut field = EditableField::multi_line("Content", numbered_lines(10));
    field.viewport_height = 4;
    field.cursor = field.char_index_for_line_column(8, 2);

    field.move_page_up();
    assert_eq!(field.cursor_line_column(), (4, 2));

    field.move_page_down();
    assert_eq!(field.cursor_line_column(), (8, 2));

    field.move_page_down();
    assert_eq!(field.cursor_line_column(), (9, 2));
}

#[test]
fn multiline_edit_field_moves_cursor_between_lines() {
    let mut field = EditableField::multi_line("Content", "short\nmuch longer\nend".to_string());

    field.cursor = 0;
    field.move_line_down();
    assert_eq!(field.cursor_line_column(), (1, 0));

    field.move_right();
    field.move_right();
    field.move_line_down();
    assert_eq!(field.cursor_line_column(), (2, 2));

    field.move_line_up();
    assert_eq!(field.cursor_line_column(), (1, 2));
}

#[test]
fn backspace_undoes_typing() {
    let mut field = EditableField::single_line("Title", "aéb".to_string());
    field.cursor = 2;
    field.insert_char('ß');
    assert_eq!(field.value, "aéßb");
    assert_eq!(field.cursor, 3);
    assert_eq!(field.byte_index(), 5);
    field.backspace();
    assert_eq!(field.value, "aéb");
    assert_eq!(field.cursor, 2);
    field.delete();
    assert_eq!(field.value, "aé");
    field.delete();
    assert_eq!(field.value, "aé");
    field.home();
    field.backspace();
    assert_eq!(field.value, "aé");
}

#[test]
fn a_single_line_takes_no_line_end() {
    let mut field = EditableField::single_line("Title", "ab".to_string());
    field.insert_char('\n');
    assert_eq!(field.value, "ab");
    assert_eq!(field.line_count(), 1);
    let mut lines = EditableField::multi_line("Content", "ab".to_string());
    lines.insert_char('\n');
    assert_eq!(lines.value, "ab\n");
    assert_eq!(lines.line_count(), 2);
    assert_eq!(lines.cursor_line(), 1);
}

#[test]
fn left_and_right_stay_in_the_text() {
    let mut field = EditableField::single_line("Title", "ab".to_string());
    field.move_right();
    assert_eq!(field.cursor, 2);
    field.move_left();
    field.move_left();
    field.move_left();
    assert_eq!(field.cursor, 0);
}

#[test]
fn a_window_shows_part_of_the_text() {
    assert_eq!(visible_line_value("abcdef", 2, 3), "cde");
    assert_eq!(visible_multiline_value("abc\ndef\nghi", 1, 2, 1, 2), "ef\nhi");
    let field = EditableField::single_line("Title", "abc".to_string());
    assert_eq!(field.display_value(0, 1), "");
    assert_eq!(field.display_preview(2, 1), "ab");
    assert_eq!(field.terminal_cursor_position(Rect::new(0, 0, 0, 1)), None);
}

#[test]
fn a_border_takes_a_cell_on_each_side() {
    assert_eq!(Rect::new(1, 2, 10, 5).inner(), Rect::new(2, 3, 8, 3));
    assert_eq!(Rect::new(1, 2, 0, 1).inner(), Rect::new(1, 3, 0, 0));
}

#[test]
fn the_chat_bar_keeps_a_margin() {
    assert_eq!(chat_bar_area(Rect::new(0, 0, 80, 24)), Rect::new(2, 20, 76, 3));
    assert_eq!(chat_bar_area(Rect::new(0, 0, 3, 2)), Rect::new(1, 0, 1, 2));
    assert_eq!(message_area(Rect::new(4, 5, 6, 7)), Rect::new(4, 11, 6, 1));
}

#[test]
fn a_centered_area_lies_in_the_middle() {
    assert_eq!(centered_rect(50, 50, Rect::new(0, 0, 80, 24)), Rect::new(20, 6, 40, 12));
    assert_eq!(centered_rect(74, 18, Rect::new(3, 4, 41, 17)), Rect::new(8, 11, 31, 3));
    assert_eq!(centered_rect(100, 100, Rect::new(3, 4, 41, 17)), Rect::new(3, 4, 41, 17));
    assert_eq!(centered_rect(0, 0, Rect::new(0, 0, 10, 10)), Rect::new(5, 5, 0, 0));
}

#[test]
fn the_borders_of_a_centered_area_are_rounded() {
    let border = |extent: u16, percent: u16| -> u16 {
        ((u64::from(extent) * u64::from(percent) + 50) / 100) as u16
    };
    let extents: [u16; 18] =
        [0, 1, 2, 3, 5, 7, 10, 33, 50, 79, 99, 101, 133, 211, 1000, 9999, 32767, 65535];
    for percent in 0..=100u16 {
        let side = (100 - percent) / 2;
        for extent in extents {
            let offset = (65535 - extent) / 3;
            let start = border(extent, side);
            let end = border(extent, side + percent);
            let wide = Rect::new(offset, 1, extent, 2);
            assert_eq!(
                centered_rect(percent, 100, wide),
                Rect::new(offset + start, 1, end - start, 2),
            );
            let high = Rect::new(1, offset, 2, extent);
            assert_eq!(
                centered_rect(100, percent, high),
                Rect::new(1, offset + start, 2, end - start),
            );
        }
    }
}

#[test]
fn a_viewport_of_one_line_shows_the_cursor() {
    let mut field = EditableField::multi_line("Content", "a\nb".to_string());
    field.scroll_top = 1;
    field.update_scroll(1);
    assert_eq!(field.scroll_top, 1);
    assert_eq!(field.display_value(10, 1), "b");
    field.cursor = 0;
    field.update_scroll(1);
    assert_eq!(field.scroll_top, 0);
    assert_eq!(field.display_value(10, 1), "a");
}

#[test]
fn screens_are_laid_out() {
    let area = Rect::new(0, 0, 80, 24);
    assert_eq!(screen_areas(area), (Rect::new(0, 0, 80, 23), Rect::new(0, 23, 80, 1)));
    assert_eq!(projects_areas(area), (Rect::new(0, 0, 30, 24), Rect::new(30, 0, 50, 24)));
    assert_eq!(
        project_detail_areas(area),
        (Rect::new(0, 0, 80, 7), Rect::new(0, 7, 34, 17), Rect::new(34, 7, 46, 17)),
    );
    assert_eq!(task_detail_areas(area), (Rect::new(0, 0, 80, 9), Rect::new(0, 9, 80, 15)));
    assert_eq!(
        edit_areas(area),
        vec![
            Rect::new(0, 0, 80, 3),
            Rect::new(0, 3, 80, 9),
            Rect::new(0, 12, 80, 3),
            Rect::new(0, 15, 80, 3),
            Rect::new(0, 18, 80, 3),
            Rect::new(0, 21, 80, 3),
        ],
    );
}

#[test]
fn layouts_hold_at_every_height() {
    for height in (0..=60u16).chain([255, 999, 4000, 32767, 50000, 65500]) {
        let y = (65535 - height) / 2;
        let area = Rect::new(5, y, 20, height);
        let rows = |from: u16, to: u16| Rect::new(5, y + from, 20, to - from);

        let cut = height - if height >= 2 { 1 } else { 0 };
        assert_eq!(screen_areas(area), (rows(0, cut), rows(cut, height)));

        let cut = height.saturating_sub(1).min(9);
        assert_eq!(task_detail_areas(area), (rows(0, cut), rows(cut, height)));

        let cut = height.saturating_sub(1).min(7);
        let (header, list, preview) = project_detail_areas(area);
        assert_eq!(header, rows(0, cut));
        assert_eq!(list, Rect { width: 8, ..rows(cut, height) });
        assert_eq!(preview, Rect { x: 13, width: 12, ..rows(cut, height) });

        let areas = edit_areas(area);
        assert_eq!(areas.len(), 6);
        assert_eq!(areas[0].y, y);
        assert_eq!(areas[5].y + areas[5].height, y + height);
        for found in areas.iter() {
            assert!(found.x == 5 && found.width == 20 && found.y >= y);
            assert!(found.y + found.height <= y + height);
        }
        if height >= 21 {
            let borders = [0, 3, height - 12, height - 9, height - 6, height - 3, height];
            for i in 0..6 {
                assert_eq!(areas[i], rows(borders[i], borders[i + 1]));
            }
        }
    }
    for width in 0..=300u16 {
        let (list, preview) = projects_areas(Rect::new(7, 0, width, 2));
        let cut = (width * 38 + 50) / 100;
        assert_eq!(list, Rect::new(7, 0, cut, 2));
        assert_eq!(preview, Rect::new(7 + cut, 0, width - cut, 2));
    }
}

#[test]
fn the_fields_of_a_low_form_follow_one_another() {
    for height in 0..=20u16 {
        for x in 0..60u16 {
            let areas = edit_areas(Rect::new(x, x * 7, 30, height));
            let mut next = x * 7;
            for found in areas.iter() {
                assert_eq!(found.y, next);
                next = found.y + found.height;
            }
            assert_eq!(next, x * 7 + height);
            assert_eq!(areas[1].height, height.min(6));
            for i in [0, 2, 3, 4, 5] {
                assert!(areas[i].height <= 3);
            }
        }
    }
}
