//! A text field with a cursor: one line or several.
use vstd::prelude::*;
use vstd::utf8::encode_utf8;

use crate::geometry::{Position, Rect};
use crate::text::{
    chars_of, join, join_texts, law_split_join, lemma_split, split, split_text, text_of, texts,
};

verus! {

/// What a field holds, as mathematics sees it.
pub struct FieldView {
    pub label: Seq<char>,
    pub value: Seq<char>,
    pub cursor: int,
    pub scroll_top: int,
    pub viewport_height: int,
    pub multiline: bool,
}

/// The smaller of two integers.
pub open spec fn min_int(a: int, b: int) -> int {
    if a <= b {
        a
    } else {
        b
    }
}

/// `a - b`, or zero where that would be negative.
pub open spec fn minus_floor(a: int, b: int) -> int {
    if a >= b {
        a - b
    } else {
        0
    }
}

/// The line and the column that follow the text `before`: the line counts the
/// line feeds in it, the column what comes after the last of them.
pub open spec fn place_after(before: Seq<char>) -> (int, int) {
    let parts = split(before, '\n');
    (parts.len() - 1, parts.last().len() as int)
}

/// How many characters stand before line `line` of `parts`.
pub open spec fn line_start(parts: Seq<Seq<char>>, line: int) -> int
    decreases line,
{
    if line <= 0 {
        0
    } else {
        line_start(parts, line - 1) + parts[line - 1].len() + 1
    }
}

/// The index in `value` of column `column` of line `line`: the end of the line
/// where it is shorter, the end of the text where there is no such line.
pub open spec fn index_of_place(value: Seq<char>, line: int, column: int) -> int {
    let parts = split(value, '\n');
    if line < parts.len() {
        line_start(parts, line) + min_int(column, parts[line].len() as int)
    } else {
        value.len() as int
    }
}

/// The part of `line` that a window of `width` columns shows from `start` on.
pub open spec fn shown_line(line: Seq<char>, start: int, width: int) -> Seq<char> {
    let from = min_int(start, line.len() as int);
    line.subrange(from, min_int(from + width, line.len() as int))
}

/// The part of `value` that a window shows: `height` lines from `top` on, each
/// from column `start` on.
pub open spec fn shown_lines(
    value: Seq<char>,
    top: int,
    height: int,
    start: int,
    width: int,
) -> Seq<char> {
    let parts = split(value, '\n');
    let from = min_int(top, parts.len() as int);
    let shown = parts.subrange(from, min_int(from + height, parts.len() as int));
    join(shown.map_values(|line: Seq<char>| shown_line(line, start, width)), seq!['\n'])
}

impl FieldView {
    /// Where the cursor stands in the text; a cursor beyond the end counts as at the end.
    pub open spec fn at(self) -> int {
        min_int(self.cursor, self.value.len() as int)
    }

    /// The line and column of the cursor.
    pub open spec fn place(self) -> (int, int) {
        place_after(self.value.take(self.at()))
    }

    /// The number of lines of the text.
    pub open spec fn line_total(self) -> int {
        split(self.value, '\n').len() as int
    }

    /// The cursor is no further than the end of the text.
    pub open spec fn in_bounds(self) -> bool {
        0 <= self.cursor <= self.value.len()
    }

    pub open spec fn with_cursor(self, cursor: int) -> FieldView {
        FieldView { cursor, ..self }
    }

    /// The field with the cursor moved to a line and column.
    pub open spec fn moved_to(self, line: int, column: int) -> FieldView {
        self.with_cursor(index_of_place(self.value, line, column))
    }

    pub open spec fn inserted(self, ch: char) -> FieldView {
        if ch == '\n' && !self.multiline {
            self
        } else {
            FieldView {
                value: self.value.insert(self.at(), ch),
                cursor: self.cursor + 1,
                ..self
            }
        }
    }

    pub open spec fn backspaced(self) -> FieldView {
        if self.cursor == 0 {
            self
        } else if self.cursor <= self.value.len() {
            FieldView {
                value: self.value.remove(self.cursor - 1),
                cursor: self.cursor - 1,
                ..self
            }
        } else {
            self.with_cursor(self.cursor - 1)
        }
    }

    pub open spec fn deleted(self) -> FieldView {
        if self.cursor >= self.value.len() {
            self
        } else {
            FieldView { value: self.value.remove(self.cursor), ..self }
        }
    }

    pub open spec fn left(self) -> FieldView {
        self.with_cursor(minus_floor(self.cursor, 1))
    }

    pub open spec fn right(self) -> FieldView {
        self.with_cursor(min_int(self.cursor + 1, self.value.len() as int))
    }

    pub open spec fn at_home(self) -> FieldView {
        self.moved_to(self.place().0, 0)
    }

    pub open spec fn at_end(self) -> FieldView {
        let line = self.place().0;
        self.moved_to(line, split(self.value, '\n')[line].len() as int)
    }

    pub open spec fn line_up(self) -> FieldView {
        if self.multiline && self.place().0 > 0 {
            self.moved_to(self.place().0 - 1, self.place().1)
        } else {
            self
        }
    }

    pub open spec fn line_down(self) -> FieldView {
        if self.multiline && self.place().0 + 1 < self.line_total() {
            self.moved_to(self.place().0 + 1, self.place().1)
        } else {
            self
        }
    }

    /// A page is as high as the viewport, and at least one line.
    pub open spec fn page(self) -> int {
        if self.viewport_height >= 1 {
            self.viewport_height
        } else {
            1
        }
    }

    pub open spec fn page_up(self) -> FieldView {
        if self.multiline {
            self.moved_to(minus_floor(self.place().0, self.page()), self.place().1)
        } else {
            self
        }
    }

    pub open spec fn page_down(self) -> FieldView {
        if self.multiline {
            self.moved_to(
                min_int(self.place().0 + self.page(), self.line_total() - 1),
                self.place().1,
            )
        } else {
            self
        }
    }

    /// The first column that a window of `width` columns shows, so that the cursor is in it.
    pub open spec fn first_column(self, width: int) -> int {
        minus_floor(self.place().1, minus_floor(width, 1))
    }

    /// The text of a window that starts at column `start`.
    pub open spec fn shown(self, width: int, height: int, start: int) -> Seq<char> {
        if width == 0 || height == 0 {
            Seq::empty()
        } else if self.multiline {
            shown_lines(self.value, self.scroll_top, height, start, width)
        } else {
            shown_line(self.value, start, width)
        }
    }

    /// The first line that a viewport of `height` lines shows once it has followed the cursor.
    /// A cursor at the top has the line above it in view, where there is room for two.
    pub open spec fn top_following_cursor(self, height: int) -> int {
        let line = self.place().0;
        let top = min_int(self.scroll_top, minus_floor(self.line_total(), height));
        if line <= top && top > 0 {
            if height > 1 {
                minus_floor(line, 1)
            } else {
                line
            }
        } else if line >= top + height {
            line + 1 - height
        } else {
            top
        }
    }

    pub open spec fn scrolled(self, height: int) -> FieldView {
        if !self.multiline || height == 0 {
            self
        } else {
            FieldView { scroll_top: self.top_following_cursor(height), ..self }
        }
    }

    /// The cell of `area` in which the cursor is shown, if it is.
    pub open spec fn cursor_cell(self, area: Rect) -> Option<(int, int)> {
        let line = if self.multiline {
            self.place().0 - self.scroll_top
        } else {
            0
        };
        if area.width == 0 || area.height == 0 || line < 0 || line >= area.height {
            None
        } else {
            Some(
                (
                    area.x + self.place().1 - self.first_column(area.width as int),
                    area.y + line,
                ),
            )
        }
    }
}

proof fn lemma_place_step(s: Seq<char>, i: int)
    requires
        0 <= i < s.len(),
    ensures
        place_after(s.take(i + 1)) == if s[i] == '\n' {
            (place_after(s.take(i)).0 + 1, 0int)
        } else {
            (place_after(s.take(i)).0, place_after(s.take(i)).1 + 1)
        },
        place_after(s.take(0)) == (0int, 0int),
        place_after(s.take(i)).0 >= 0,
{
    assert(s.take(i + 1).drop_last() =~= s.take(i));
    lemma_split(s.take(i), '\n');
    assert(s.take(0) =~= Seq::<char>::empty());
}

/// How the lines of a text extend those of what stands before index `i` of it.
proof fn lemma_split_prefix(s: Seq<char>, i: int)
    requires
        0 <= i <= s.len(),
    ensures
        ({
            let full = split(s, '\n');
            let pre = split(s.take(i), '\n');
            let last = pre.len() - 1;
            &&& 1 <= pre.len() <= full.len()
            &&& forall|k: int| 0 <= k < last ==> #[trigger] full[k] == pre[k]
            &&& pre[last].len() <= full[last].len()
            &&& i < s.len() && s[i] == '\n' ==> full[last] == pre[last] && last + 1 < full.len()
            &&& i < s.len() && s[i] != '\n' ==> pre[last].len() < full[last].len()
            &&& i == s.len() ==> full == pre
        }),
    decreases s.len(),
{
    lemma_split(s, '\n');
    if i == s.len() {
        assert(s.take(i) =~= s);
    } else {
        let shorter = s.drop_last();
        assert(shorter.take(i) =~= s.take(i));
        lemma_split_prefix(shorter, i);
        lemma_split(shorter, '\n');
    }
}

proof fn lemma_line_start_same(a: Seq<Seq<char>>, b: Seq<Seq<char>>, line: int)
    requires
        forall|k: int| 0 <= k < line ==> #[trigger] a[k] == b[k],
    ensures
        line_start(a, line) == line_start(b, line),
    decreases line,
{
    if line > 0 {
        lemma_line_start_same(a, b, line - 1);
        assert(a[line - 1] == b[line - 1]);
    }
}

proof fn lemma_length_of_lines(s: Seq<char>)
    ensures
        s.len() == line_start(split(s, '\n'), place_after(s).0) + place_after(s).1,
    decreases s.len(),
{
    lemma_split(s, '\n');
    if s.len() > 0 {
        let shorter = s.drop_last();
        lemma_length_of_lines(shorter);
        lemma_split(shorter, '\n');
        let before = split(shorter, '\n');
        let after = split(s, '\n');
        let line = before.len() - 1;
        assert forall|k: int| 0 <= k < line implies #[trigger] after[k] == before[k] by {}
        lemma_line_start_same(after, before, line);
    }
}

/// The index of the place of index `i` is `i` itself.
pub proof fn law_index_of_place(value: Seq<char>, i: int)
    requires
        0 <= i <= value.len(),
    ensures
        index_of_place(value, place_after(value.take(i)).0, place_after(value.take(i)).1) == i,
        0 <= place_after(value.take(i)).0 < split(value, '\n').len(),
        0 <= place_after(value.take(i)).0 <= i,
        0 <= place_after(value.take(i)).1 <= i,
{
    let full = split(value, '\n');
    let pre = split(value.take(i), '\n');
    let line = pre.len() - 1;
    lemma_split_prefix(value, i);
    lemma_length_of_lines(value.take(i));
    lemma_line_start_same(full, pre, line);
    lemma_line_start_bound(pre, line);
}

proof fn lemma_line_start_bound(parts: Seq<Seq<char>>, line: int)
    requires
        0 <= line,
    ensures
        line <= line_start(parts, line),
    decreases line,
{
    if line > 0 {
        lemma_line_start_bound(parts, line - 1);
    }
}

proof fn lemma_line_start_mono(parts: Seq<Seq<char>>, a: int, b: int)
    requires
        0 <= a < b,
    ensures
        line_start(parts, a) + parts[a].len() + 1 <= line_start(parts, b),
    decreases b,
{
    if a < b - 1 {
        lemma_line_start_mono(parts, a, b - 1);
    }
}

/// The place of the index of a place is that place, with the column cut off at
/// the end of the line.
pub proof fn law_place_of_index(value: Seq<char>, line: int, column: int)
    requires
        0 <= line < split(value, '\n').len(),
        0 <= column,
    ensures
        0 <= index_of_place(value, line, column) <= value.len(),
        place_after(value.take(index_of_place(value, line, column))) == (
            line,
            min_int(column, split(value, '\n')[line].len() as int),
        ),
{
    let full = split(value, '\n');
    let i = index_of_place(value, line, column);
    let kept = min_int(column, full[line].len() as int);
    lemma_length_of_lines(value);
    lemma_line_start_bound(full, line);
    let last = full.len() - 1;
    if line < last {
        lemma_line_start_mono(full, line, last);
    }
    // The index lies in the text, so it has a place, whose line and column are the given ones.
    let found = place_after(value.take(i));
    law_index_of_place(value, i);
    lemma_split_prefix(value, i);
    let pre = split(value.take(i), '\n');
    assert(found.1 <= full[found.0].len());
    if found.0 < line {
        lemma_line_start_mono(full, found.0, line);
    } else if line < found.0 {
        lemma_line_start_mono(full, line, found.0);
    }
}

/// A text field with a cursor.
#[derive(Debug)]
pub struct EditableField {
    pub label: &'static str,
    pub value: String,
    pub cursor: usize,
    pub scroll_top: usize,
    pub viewport_height: usize,
    pub multiline: bool,
}

impl View for EditableField {
    type V = FieldView;

    open spec fn view(&self) -> FieldView {
        FieldView {
            label: self.label@,
            value: self.value@,
            cursor: self.cursor as int,
            scroll_top: self.scroll_top as int,
            viewport_height: self.viewport_height as int,
            multiline: self.multiline,
        }
    }
}

impl Clone for EditableField {
    fn clone(&self) -> (r: Self)
        ensures
            r@ == self@,
    {
        EditableField {
            label: self.label,
            value: self.value.clone(),
            cursor: self.cursor,
            scroll_top: self.scroll_top,
            viewport_height: self.viewport_height,
            multiline: self.multiline,
        }
    }
}

impl EditableField {
    /// A field of one line, with the cursor at its end.
    pub fn single_line(label: &'static str, value: String) -> (r: Self)
        ensures
            r@ == (FieldView {
                label: label@,
                value: value@,
                cursor: value@.len() as int,
                scroll_top: 0,
                viewport_height: 1,
                multiline: false,
            }),
    {
        EditableField {
            label,
            cursor: value.as_str().unicode_len(),
            scroll_top: 0,
            viewport_height: 1,
            value,
            multiline: false,
        }
    }

    /// A field of several lines, with the cursor at its end.
    pub fn multi_line(label: &'static str, value: String) -> (r: Self)
        ensures
            r@ == (FieldView {
                label: label@,
                value: value@,
                cursor: value@.len() as int,
                scroll_top: 0,
                viewport_height: 1,
                multiline: true,
            }),
    {
        EditableField {
            label,
            cursor: value.as_str().unicode_len(),
            scroll_top: 0,
            viewport_height: 1,
            value,
            multiline: true,
        }
    }

    /// Inserts a character at the cursor and moves past it. A field of one line takes no line feed.
    pub fn insert_char(&mut self, ch: char)
        requires
            old(self).cursor < usize::MAX || old(self)@.in_bounds(),
        ensures
            final(self)@ == old(self)@.inserted(ch),
    {
        if ch == '\n' && !self.multiline {
            return;
        }
        let mut chars = chars_of(self.value.as_str());
        let at: usize = if self.cursor < chars.len() {
            self.cursor
        } else {
            chars.len()
        };
        chars.insert(at, ch);
        let len: usize = chars.len();
        self.value = text_of(&chars, 0, len);
        assert(self.value@ =~= old(self)@.value.insert(old(self)@.at(), ch));
        self.cursor = self.cursor + 1;
    }

    /// Removes the character before the cursor.
    pub fn backspace(&mut self)
        ensures
            final(self)@ == old(self)@.backspaced(),
    {
        if self.cursor == 0 {
            return;
        }
        let mut chars = chars_of(self.value.as_str());
        let at: usize = self.cursor - 1;
        if at < chars.len() {
            chars.remove(at);
            self.value = text_of(&chars, 0, chars.len());
            assert(self.value@ =~= old(self)@.value.remove(at as int));
        }
        self.cursor = at;
    }

    /// Removes the character after the cursor.
    pub fn delete(&mut self)
        ensures
            final(self)@ == old(self)@.deleted(),
    {
        let mut chars = chars_of(self.value.as_str());
        if self.cursor >= chars.len() {
            return;
        }
        chars.remove(self.cursor);
        self.value = text_of(&chars, 0, chars.len());
        assert(self.value@ =~= old(self)@.value.remove(self.cursor as int));
    }

    /// Moves the cursor one character back.
    pub fn move_left(&mut self)
        ensures
            final(self)@ == old(self)@.left(),
    {
        if self.cursor > 0 {
            self.cursor = self.cursor - 1;
        }
    }

    /// Moves the cursor one character on, not past the end of the text.
    pub fn move_right(&mut self)
        ensures
            final(self)@ == old(self)@.right(),
    {
        let len: usize = self.value.as_str().unicode_len();
        self.cursor = if self.cursor < len {
            self.cursor + 1
        } else {
            len
        };
    }

    /// Moves the cursor to the start of its line.
    pub fn home(&mut self)
        ensures
            final(self)@ == old(self)@.at_home(),
    {
        let (line, _column) = self.cursor_line_column();
        self.cursor = self.char_index_for_line_column(line, 0);
    }

    /// Moves the cursor to the end of its line.
    pub fn end(&mut self)
        ensures
            final(self)@ == old(self)@.at_end(),
    {
        let (line, _column) = self.cursor_line_column();
        proof {
            law_index_of_place(self.value@, self@.at());
            lemma_line_fits(self.value@, line as int);
        }
        let beyond: usize = self.value.as_str().unicode_len();
        self.cursor = self.char_index_for_line_column(line, beyond);
    }

    /// Moves the cursor one line up, to the same column where the line is long enough.
    pub fn move_line_up(&mut self)
        ensures
            final(self)@ == old(self)@.line_up(),
    {
        if !self.multiline {
            return;
        }
        let (line, column) = self.cursor_line_column();
        if line > 0 {
            self.cursor = self.char_index_for_line_column(line - 1, column);
        }
    }

    /// Moves the cursor one line down, to the same column where the line is long enough.
    pub fn move_line_down(&mut self)
        ensures
            final(self)@ == old(self)@.line_down(),
    {
        if !self.multiline {
            return;
        }
        let (line, column) = self.cursor_line_column();
        if line < self.line_count() - 1 {
            self.cursor = self.char_index_for_line_column(line + 1, column);
        }
    }

    /// Moves the cursor up by the height of the viewport.
    pub fn move_page_up(&mut self)
        ensures
            final(self)@ == old(self)@.page_up(),
    {
        if !self.multiline {
            return;
        }
        let (line, column) = self.cursor_line_column();
        let page: usize = self.page_height();
        let target: usize = if line >= page {
            line - page
        } else {
            0
        };
        self.cursor = self.char_index_for_line_column(target, column);
    }

    /// Moves the cursor down by the height of the viewport, at most to the last line.
    pub fn move_page_down(&mut self)
        ensures
            final(self)@ == old(self)@.page_down(),
    {
        if !self.multiline {
            return;
        }
        let (line, column) = self.cursor_line_column();
        proof {
            law_index_of_place(self.value@, self@.at());
        }
        let last_line: usize = self.line_count() - 1;
        let page: usize = self.page_height();
        let target: usize = if page < last_line - line {
            line + page
        } else {
            last_line
        };
        self.cursor = self.char_index_for_line_column(target, column);
    }

    /// How many lines a page has.
    pub fn page_height(&self) -> (r: usize)
        ensures
            r == self@.page(),
    {
        if self.viewport_height >= 1 {
            self.viewport_height
        } else {
            1
        }
    }

    /// The text of a window on the field, scrolled sideways so that the cursor is in it.
    pub fn display_value(&self, width: usize, height: usize) -> (r: String)
        ensures
            r@ == self@.shown(width as int, height as int, self@.first_column(width as int)),
    {
        self.display_value_with_horizontal_start(width, height, self.horizontal_scroll_start(width))
    }

    /// The text of a window on the field that starts at the first column.
    pub fn display_preview(&self, width: usize, height: usize) -> (r: String)
        ensures
            r@ == self@.shown(width as int, height as int, 0),
    {
        self.display_value_with_horizontal_start(width, height, 0)
    }

    /// The text of a window on the field that starts at column `horizontal_start`.
    pub fn display_value_with_horizontal_start(
        &self,
        width: usize,
        height: usize,
        horizontal_start: usize,
    ) -> (r: String)
        ensures
            r@ == self@.shown(width as int, height as int, horizontal_start as int),
    {
        if width == 0 || height == 0 {
            return String::new();
        }
        if self.multiline {
            visible_multiline_value(
                self.value.as_str(),
                self.scroll_top,
                height,
                horizontal_start,
                width,
            )
        } else {
            visible_line_value(self.value.as_str(), horizontal_start, width)
        }
    }

    /// Scrolls a viewport of the given height so that it follows the cursor.
    pub fn update_scroll(&mut self, viewport_height: usize)
        ensures
            final(self)@ == old(self)@.scrolled(viewport_height as int),
    {
        if !self.multiline || viewport_height == 0 {
            return;
        }
        let count: usize = self.line_count();
        let max_scroll_top: usize = if count >= viewport_height {
            count - viewport_height
        } else {
            0
        };
        let top: usize = if self.scroll_top <= max_scroll_top {
            self.scroll_top
        } else {
            max_scroll_top
        };
        let line: usize = self.cursor_line();
        proof {
            law_index_of_place(self.value@, self@.at());
        }
        self.scroll_top = if line <= top && top > 0 {
            if viewport_height > 1 && line >= 1 {
                line - 1
            } else {
                line
            }
        } else if line >= top && line - top >= viewport_height {
            line - viewport_height + 1
        } else {
            top
        };
    }

    /// The cell of `area` in which the cursor is shown, if it is.
    pub fn terminal_cursor_position(&self, area: Rect) -> (r: Option<Position>)
        requires
            area.addressable(),
        ensures
            match r {
                Some(p) => self@.cursor_cell(area) == Some((p.x as int, p.y as int)) && area.holds(
                    p,
                ),
                None => self@.cursor_cell(area) is None,
            },
    {
        if area.width == 0 || area.height == 0 {
            return None;
        }
        let (line, column) = self.cursor_line_column();
        let visible_line: usize = if self.multiline {
            if line < self.scroll_top {
                return None;
            }
            line - self.scroll_top
        } else {
            0
        };
        if visible_line >= area.height as usize {
            return None;
        }
        let start: usize = self.horizontal_scroll_start(area.width as usize);
        let visible_column: usize = column - start;
        let x: u16 = area.x + visible_column as u16;
        let y: u16 = area.y + visible_line as u16;
        Some(Position::new(x, y))
    }

    /// The first column that a window of `width` columns shows.
    pub fn horizontal_scroll_start(&self, width: usize) -> (r: usize)
        ensures
            r == self@.first_column(width as int),
    {
        let (_line, column) = self.cursor_line_column();
        let room: usize = if width >= 1 {
            width - 1
        } else {
            0
        };
        if column >= room {
            column - room
        } else {
            0
        }
    }

    /// The line of the cursor.
    pub fn cursor_line(&self) -> (r: usize)
        ensures
            r == self@.place().0,
    {
        let (line, _column) = self.cursor_line_column();
        line
    }

    /// The line and column of the cursor.
    pub fn cursor_line_column(&self) -> (r: (usize, usize))
        ensures
            (r.0 as int, r.1 as int) == self@.place(),
    {
        let chars = chars_of(self.value.as_str());
        let count: usize = if self.cursor < chars.len() {
            self.cursor
        } else {
            chars.len()
        };
        let mut line: usize = 0;
        let mut column: usize = 0;
        let mut i: usize = 0;
        assert(chars@.take(0) =~= Seq::<char>::empty());
        while i < count
            invariant
                i <= count <= chars@.len(),
                line <= i,
                column <= i,
                (line as int, column as int) == place_after(chars@.take(i as int)),
            decreases count - i,
        {
            proof {
                lemma_place_step(chars@, i as int);
            }
            if chars[i] == '\n' {
                line = line + 1;
                column = 0;
            } else {
                column = column + 1;
            }
            i = i + 1;
        }
        (line, column)
    }

    /// The number of lines.
    pub fn line_count(&self) -> (r: usize)
        ensures
            r == self@.line_total(),
            r >= 1,
    {
        proof {
            lemma_split(self.value@, '\n');
        }
        let parts = split_text(self.value.as_str(), '\n');
        assert(texts(parts@).len() == parts@.len());
        parts.len()
    }

    /// The index of a line and column.
    pub fn char_index_for_line_column(&self, target_line: usize, target_column: usize) -> (r: usize)
        ensures
            r == index_of_place(self.value@, target_line as int, target_column as int),
            r <= self.value@.len(),
    {
        let chars = chars_of(self.value.as_str());
        let mut line: usize = 0;
        let mut column: usize = 0;
        let mut i: usize = 0;
        assert(chars@.take(0) =~= Seq::<char>::empty());
        while i < chars.len()
            invariant
                i <= chars@.len(),
                chars@ == self.value@,
                line <= i,
                column <= i,
                (line as int, column as int) == place_after(chars@.take(i as int)),
                line <= target_line,
                line == target_line ==> column <= target_column,
            decreases chars@.len() - i,
        {
            proof {
                law_index_of_place(chars@, i as int);
                lemma_split_prefix(chars@, i as int);
                lemma_place_step(chars@, i as int);
            }
            if line == target_line && column == target_column {
                return i;
            }
            if chars[i] == '\n' {
                if line == target_line {
                    return i;
                }
                line = line + 1;
                column = 0;
            } else {
                column = column + 1;
            }
            i = i + 1;
        }
        proof {
            law_index_of_place(chars@, i as int);
            lemma_split_prefix(chars@, i as int);
        }
        chars.len()
    }

    /// Where the cursor stands in the bytes of the text.
    pub fn byte_index(&self) -> (r: usize)
        ensures
            r == encode_utf8(self.value@.take(self@.at())).len(),
    {
        let chars = chars_of(self.value.as_str());
        let count: usize = if self.cursor < chars.len() {
            self.cursor
        } else {
            chars.len()
        };
        let before = text_of(&chars, 0, count);
        assert(before@ =~= self.value@.take(self@.at()));
        before.as_str().as_bytes().len()
    }
}

proof fn lemma_line_fits(value: Seq<char>, line: int)
    requires
        0 <= line < split(value, '\n').len(),
    ensures
        split(value, '\n')[line].len() <= value.len(),
{
    let full = split(value, '\n');
    let last = full.len() - 1;
    lemma_length_of_lines(value);
    lemma_line_start_bound(full, line);
    if line < last {
        lemma_line_start_mono(full, line, last);
    } else {
        lemma_line_start_bound(full, last);
    }
}

/// The part of a text that a window shows: `height` lines from `scroll_top` on.
pub fn visible_multiline_value(
    value: &str,
    scroll_top: usize,
    height: usize,
    horizontal_start: usize,
    width: usize,
) -> (r: String)
    ensures
        r@ == shown_lines(
            value@,
            scroll_top as int,
            height as int,
            horizontal_start as int,
            width as int,
        ),
{
    let parts = split_text(value, '\n');
    let ghost all = split(value@, '\n');
    let count: usize = parts.len();
    assert(texts(parts@).len() == parts@.len());
    let from: usize = if scroll_top < count {
        scroll_top
    } else {
        count
    };
    let to: usize = if height < count - from {
        from + height
    } else {
        count
    };
    let ghost shown = all.subrange(from as int, to as int).map_values(
        |line: Seq<char>| shown_line(line, horizontal_start as int, width as int),
    );
    let mut out: Vec<String> = Vec::new();
    let mut i: usize = from;
    while i < to
        invariant
            from <= i <= to <= parts@.len(),
            texts(parts@) == all,
            shown == all.subrange(from as int, to as int).map_values(
                |line: Seq<char>| shown_line(line, horizontal_start as int, width as int),
            ),
            texts(out@) =~= shown.take(i - from),
        decreases to - i,
    {
        let ghost before = texts(out@);
        let line = visible_line_value(parts[i].as_str(), horizontal_start, width);
        assert(parts@[i as int]@ == all[i as int]);
        out.push(line);
        assert(texts(out@) =~= before.push(line@));
        i = i + 1;
    }
    assert(shown.take(to - from) =~= shown);
    proof {
        reveal_strlit("\n");
        assert("\n"@ =~= seq!['\n']);
    }
    join_texts(out.as_slice(), "\n")
}

/// The part of a line that a window of `width` columns shows.
pub fn visible_line_value(value: &str, horizontal_start: usize, width: usize) -> (r: String)
    ensures
        r@ == shown_line(value@, horizontal_start as int, width as int),
{
    let chars = chars_of(value);
    let from: usize = if horizontal_start < chars.len() {
        horizontal_start
    } else {
        chars.len()
    };
    let to: usize = if width < chars.len() - from {
        from + width
    } else {
        chars.len()
    };
    text_of(&chars, from, to)
}

/// The cursor of a field in bounds stands at an index that has a place.
proof fn lemma_place_of_cursor(f: FieldView)
    requires
        f.in_bounds(),
    ensures
        0 <= f.place().0 < f.line_total(),
        0 <= f.place().1 <= split(f.value, '\n')[f.place().0].len(),
{
    law_index_of_place(f.value, f.cursor);
    lemma_split_prefix(f.value, f.cursor);
}

/// No edit and no move takes the cursor out of the text.
pub proof fn law_cursor_stays_in_bounds(f: FieldView, ch: char)
    requires
        f.in_bounds(),
    ensures
        f.inserted(ch).in_bounds(),
        f.backspaced().in_bounds(),
        f.deleted().in_bounds(),
        f.left().in_bounds(),
        f.right().in_bounds(),
        f.at_home().in_bounds(),
        f.at_end().in_bounds(),
        f.line_up().in_bounds(),
        f.line_down().in_bounds(),
        f.page_up().in_bounds(),
        f.page_down().in_bounds(),
{
    lemma_place_of_cursor(f);
    let (line, column) = f.place();
    let parts = split(f.value, '\n');
    law_place_of_index(f.value, line, 0);
    law_place_of_index(f.value, line, parts[line].len() as int);
    if line > 0 {
        law_place_of_index(f.value, line - 1, column);
    }
    if line + 1 < f.line_total() {
        law_place_of_index(f.value, line + 1, column);
    }
    law_place_of_index(f.value, minus_floor(line, f.page()), column);
    law_place_of_index(f.value, min_int(line + f.page(), f.line_total() - 1), column);
}

/// Backspace undoes the insertion of a character.
pub proof fn law_backspace_undoes_insert(f: FieldView, ch: char)
    requires
        f.in_bounds(),
        ch == '\n' ==> f.multiline,
    ensures
        f.inserted(ch).backspaced() == f,
{
    assert(f.inserted(ch).backspaced().value =~= f.value);
}

/// Stepping back and deleting undoes the insertion of a character.
pub proof fn law_delete_undoes_insert(f: FieldView, ch: char)
    requires
        f.in_bounds(),
        ch == '\n' ==> f.multiline,
    ensures
        f.inserted(ch).left().deleted() == f,
{
    assert(f.inserted(ch).left().deleted().value =~= f.value);
}

/// Inserting the character that backspace removed restores the field.
pub proof fn law_insert_undoes_backspace(f: FieldView)
    requires
        f.in_bounds(),
        f.cursor > 0,
        f.value[f.cursor - 1] == '\n' ==> f.multiline,
    ensures
        f.backspaced().inserted(f.value[f.cursor - 1]) == f,
{
    assert(f.backspaced().inserted(f.value[f.cursor - 1]).value =~= f.value);
}

/// A step to the right and one to the left cancel, where there is room for them.
pub proof fn law_left_undoes_right(f: FieldView)
    requires
        f.in_bounds(),
    ensures
        f.cursor < f.value.len() ==> f.right().left() == f,
        f.cursor > 0 ==> f.left().right() == f,
{
}

/// A field of one line that holds no line feed never gains one.
pub proof fn law_single_line_stays_single(f: FieldView, ch: char)
    requires
        !f.multiline,
        !f.value.contains('\n'),
        0 <= f.cursor,
    ensures
        !f.inserted(ch).value.contains('\n'),
        !f.backspaced().value.contains('\n'),
        !f.deleted().value.contains('\n'),
{
    assert forall|k: int| 0 <= k < f.value.len() implies f.value[k] != '\n' by {
        assert(f.value.contains(f.value[k]));
    }
}

/// Home goes to the first column of the cursor's line and End to its last, and
/// neither leaves the line.
pub proof fn law_home_and_end_keep_the_line(f: FieldView)
    requires
        f.in_bounds(),
    ensures
        f.at_home().place() == (f.place().0, 0int),
        f.at_end().place() == (
            f.place().0,
            split(f.value, '\n')[f.place().0].len() as int,
        ),
{
    lemma_place_of_cursor(f);
    let line = f.place().0;
    law_place_of_index(f.value, line, 0);
    law_place_of_index(f.value, line, split(f.value, '\n')[line].len() as int);
}

/// Line and page moves land on the line they aim at, and keep the column where
/// that line is long enough.
pub proof fn law_vertical_moves(f: FieldView)
    requires
        f.in_bounds(),
        f.multiline,
    ensures
        ({
            let (line, column) = f.place();
            let last = f.line_total() - 1;
            &&& f.line_up().place().0 == minus_floor(line, 1)
            &&& f.line_down().place().0 == min_int(line + 1, last)
            &&& f.page_up().place().0 == minus_floor(line, f.page())
            &&& f.page_down().place().0 == min_int(line + f.page(), last)
            &&& f.line_up().place().1 == min_int(
                column,
                split(f.value, '\n')[f.line_up().place().0].len() as int,
            )
            &&& f.line_down().place().1 == min_int(
                column,
                split(f.value, '\n')[f.line_down().place().0].len() as int,
            )
            &&& f.page_up().place().1 == min_int(
                column,
                split(f.value, '\n')[f.page_up().place().0].len() as int,
            )
            &&& f.page_down().place().1 == min_int(
                column,
                split(f.value, '\n')[f.page_down().place().0].len() as int,
            )
        }),
{
    lemma_place_of_cursor(f);
    let (line, column) = f.place();
    let last = f.line_total() - 1;
    if line > 0 {
        law_place_of_index(f.value, line - 1, column);
    }
    if line < last {
        law_place_of_index(f.value, line + 1, column);
    }
    law_place_of_index(f.value, minus_floor(line, f.page()), column);
    law_place_of_index(f.value, min_int(line + f.page(), last), column);
}

/// A viewport that has followed the cursor shows the cursor's line, and has no
/// empty line below the text while there is text above.
pub proof fn law_scrolling_keeps_cursor_visible(f: FieldView, height: int)
    requires
        f.in_bounds(),
        f.multiline,
        0 <= f.scroll_top,
        height >= 1,
    ensures
        ({
            let top = f.scrolled(height).scroll_top;
            &&& 0 <= top <= f.place().0 < top + height
            &&& top <= minus_floor(f.line_total(), height)
        }),
{
    lemma_place_of_cursor(f);
}

/// The terminal cursor is shown in an area whose viewport has followed the cursor.
pub proof fn law_scrolled_field_shows_cursor(f: FieldView, area: Rect)
    requires
        f.in_bounds(),
        0 <= f.scroll_top,
        area.width > 0,
        area.height > 0,
    ensures
        f.scrolled(area.height as int).cursor_cell(area) is Some,
{
    lemma_place_of_cursor(f);
}

/// The window of a field holds the column of the cursor.
pub proof fn law_window_holds_cursor_column(f: FieldView, width: int)
    requires
        f.in_bounds(),
        width > 0,
    ensures
        f.first_column(width) <= f.place().1 < f.first_column(width) + width,
{
    lemma_place_of_cursor(f);
}

proof fn lemma_char_at_place(s: Seq<char>, i: int)
    requires
        0 <= i < s.len(),
        s[i] != '\n',
    ensures
        ({
            let (line, column) = place_after(s.take(i));
            let parts = split(s, '\n');
            &&& 0 <= line < parts.len()
            &&& 0 <= column < parts[line].len()
            &&& parts[line][column] == s[i]
        }),
    decreases s.len(),
{
    let shorter = s.drop_last();
    lemma_split(shorter, '\n');
    if i < s.len() - 1 {
        lemma_char_at_place(shorter, i);
        assert(shorter.take(i) =~= s.take(i));
    } else {
        assert(s.take(i) =~= shorter);
    }
}

/// A window shows a stretch of a line, as much of it as there is room for.
pub proof fn law_window_shows_a_stretch(line: Seq<char>, start: int, width: int)
    requires
        0 <= start,
        0 <= width,
    ensures
        shown_line(line, start, width).len() == min_int(
            width,
            minus_floor(line.len() as int, start),
        ),
        forall|k: int|
            0 <= k < shown_line(line, start, width).len() ==> #[trigger] shown_line(
                line,
                start,
                width,
            )[k] == line[start + k],
{
}

proof fn lemma_window_lines(value: Seq<char>, top: int, height: int, start: int, width: int)
    requires
        0 <= top,
        0 < height,
        0 <= start,
        0 <= width,
        top < split(value, '\n').len(),
    ensures
        ({
            let parts = split(value, '\n');
            let shown = split(shown_lines(value, top, height, start, width), '\n');
            &&& shown.len() == min_int(height, parts.len() - top)
            &&& forall|k: int|
                0 <= k < shown.len() ==> #[trigger] shown[k] == shown_line(
                    parts[top + k],
                    start,
                    width,
                )
        }),
{
    let parts = split(value, '\n');
    let end = min_int(top + height, parts.len() as int);
    let cut = parts.subrange(top, end).map_values(
        |line: Seq<char>| shown_line(line, start, width),
    );
    lemma_split(value, '\n');
    assert forall|k: int| 0 <= k < cut.len() implies !(#[trigger] cut[k]).contains('\n') by {
        let line = parts[top + k];
        assert(cut[k] == shown_line(line, start, width));
        if cut[k].contains('\n') {
            let j = choose|j: int| 0 <= j < cut[k].len() && cut[k][j] == '\n';
            law_window_shows_a_stretch(line, start, width);
            assert(shown_line(line, start, width)[j] == line[start + j]);
            assert(line.contains('\n'));
        }
    }
    law_split_join(cut, '\n');
}

/// A window shows lines one below the other from the first on that it should, as
/// many as there is room for, each from the same column on.
pub proof fn law_window_shows_lines(
    value: Seq<char>,
    top: int,
    height: int,
    start: int,
    width: int,
    k: int,
)
    requires
        0 <= top,
        0 <= k < height,
        0 <= start,
        0 <= width,
        top + k < split(value, '\n').len(),
    ensures
        ({
            let shown = split(shown_lines(value, top, height, start, width), '\n');
            &&& shown.len() <= height
            &&& k < shown.len()
            &&& shown[k] == shown_line(split(value, '\n')[top + k], start, width)
        }),
{
    lemma_window_lines(value, top, height, start, width);
}

/// The terminal cursor stands on the character that the text has at the cursor.
pub proof fn law_cursor_stands_on_its_character(f: FieldView, area: Rect)
    requires
        f.in_bounds(),
        f.multiline,
        0 <= f.scroll_top,
        area.width > 0,
        area.height > 0,
        f.cursor < f.value.len(),
        f.value[f.cursor] != '\n',
    ensures
        ({
            let seen = f.scrolled(area.height as int);
            let width = area.width as int;
            let shown = split(
                seen.shown(width, area.height as int, seen.first_column(width)),
                '\n',
            );
            seen.cursor_cell(area) matches Some((x, y)) && {
                &&& 0 <= y - area.y < shown.len()
                &&& 0 <= x - area.x < shown[y - area.y].len()
                &&& shown[y - area.y][x - area.x] == f.value[f.cursor]
            }
        }),
{
    let height = area.height as int;
    let width = area.width as int;
    let seen = f.scrolled(height);
    let (line, column) = f.place();
    lemma_place_of_cursor(f);
    law_scrolling_keeps_cursor_visible(f, height);
    law_window_holds_cursor_column(f, width);
    lemma_char_at_place(f.value, f.cursor);
    let start = seen.first_column(width);
    let k = line - seen.scroll_top;
    law_window_shows_lines(f.value, seen.scroll_top, height, start, width, k);
    law_window_shows_a_stretch(split(f.value, '\n')[line], start, width);
    assert(shown_line(split(f.value, '\n')[line], start, width)[column - start] == f.value[f.cursor]);
}

/// A viewport of two lines or more that has followed the cursor shows the line
/// above it, where there is one, and does not move where it need not.
pub proof fn law_scrolling_is_steady(f: FieldView, height: int)
    requires
        f.in_bounds(),
        f.multiline,
        0 <= f.scroll_top,
        height >= 2,
    ensures
        f.place().0 > 0 ==> f.scrolled(height).scroll_top < f.place().0,
        f.scroll_top < f.place().0 < f.scroll_top + height && f.scroll_top + height
            <= f.line_total() ==> f.scrolled(height) == f,
        f.scrolled(height).scrolled(height) == f.scrolled(height),
{
    lemma_place_of_cursor(f);
}

} // verus!
