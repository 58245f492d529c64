//! Tables: rows of cells between bars, under a header and a rule.
use vstd::prelude::*;

use crate::style::{
    footer_key_style, key_style, lemma_line_text_push, line_text, line_views, span_views, Line,
    Span, SpanView, Style, UiTheme,
};
use crate::text::{
    chars_of, contains_char, is_trimmed, join, law_join_split, law_split_join, lemma_split,
    lemma_trimmed_fixed, repeat_char, repeated, split, split_text, texts, trim, trim_by, trimmed,
    trimmed_by, trimmed_end, trimmed_start, CharClass,
};

verus! {

/// A table as mathematics sees it: rows of cells.
pub type Cells = Seq<Seq<Seq<char>>>;

/// The texts of several strings.
pub open spec fn strs(v: Seq<&str>) -> Seq<Seq<char>> {
    v.map_values(|s: &str| s@)
}

/// The texts of several rows.
pub open spec fn rows_view(rows: Seq<Vec<String>>) -> Cells {
    rows.map_values(|row: Vec<String>| texts(row@))
}

/// The cells of a table row: a line with a bar, cut at its bars, of at least two cells.
pub open spec fn row_cells(line: Seq<char>) -> Option<Seq<Seq<char>>> {
    let inner = trimmed_by(trimmed(line), CharClass::Only('|'));
    let cells = split(inner, '|').map_values(|cell: Seq<char>| trimmed(cell));
    if trimmed(line).contains('|') && cells.len() >= 2 {
        Some(cells)
    } else {
        None
    }
}

/// Whether a cell belongs to the line under a header: three dashes or more,
/// colons aside.
pub open spec fn is_rule_cell(cell: Seq<char>) -> bool {
    let marker = trimmed_by(trimmed(cell), CharClass::Only(':'));
    marker.len() >= 3 && forall|i: int| 0 <= i < marker.len() ==> #[trigger] marker[i] == '-'
}

/// Whether all cells belong to the line under a header.
pub open spec fn is_rule(cells: Seq<Seq<char>>) -> bool {
    forall|i: int| 0 <= i < cells.len() ==> is_rule_cell(#[trigger] cells[i])
}

/// The table rows that stand in `lines` from `from` on without a break.
pub open spec fn rows_from(lines: Seq<Seq<char>>, from: int) -> Cells
    decreases lines.len() - from,
{
    if 0 <= from < lines.len() && row_cells(lines[from]) is Some {
        seq![row_cells(lines[from])->0] + rows_from(lines, from + 1)
    } else {
        Seq::empty()
    }
}

/// The table that begins at `start`, if one does, and where it ends.
pub open spec fn table_at(lines: Seq<Seq<char>>, start: int) -> Option<(Cells, int)> {
    if 0 <= start && start + 1 < lines.len() && row_cells(lines[start]) is Some && row_cells(
        lines[start + 1],
    ) is Some && is_rule(row_cells(lines[start + 1])->0) {
        let body = rows_from(lines, start + 2);
        Some((seq![row_cells(lines[start])->0] + body, start + 2 + body.len()))
    } else {
        None
    }
}

proof fn lemma_rows_from(lines: Seq<Seq<char>>, from: int)
    requires
        0 <= from <= lines.len(),
    ensures
        from + rows_from(lines, from).len() <= lines.len(),
    decreases lines.len() - from,
{
    if from < lines.len() {
        lemma_rows_from(lines, from + 1);
    }
}

/// A table ends after it begins, and within the lines.
pub proof fn lemma_table_at(lines: Seq<Seq<char>>, start: int)
    ensures
        table_at(lines, start) matches Some((table, next)) ==> start < next <= lines.len(),
{
    if table_at(lines, start) is Some {
        lemma_rows_from(lines, start + 2);
    }
}

/// The cells of a table row, if the line is one.
pub fn parse_table_row(line: &str) -> (r: Option<Vec<String>>)
    ensures
        match r {
            Some(cells) => row_cells(line@) == Some(texts(cells@)),
            None => row_cells(line@) is None,
        },
{
    let inside = trim(line);
    if !contains_char(inside.as_str(), '|') {
        return None;
    }
    let inner = trim_by(inside.as_str(), CharClass::Only('|'));
    let parts = split_text(inner.as_str(), '|');
    let ghost raw = split(inner@, '|');
    let mut cells: Vec<String> = Vec::new();
    let mut i: usize = 0;
    while i < parts.len()
        invariant
            i <= parts@.len(),
            texts(parts@) == raw,
            cells@.len() == i,
            forall|k: int| 0 <= k < i ==> (#[trigger] cells@[k])@ == trimmed(raw[k]),
        decreases parts@.len() - i,
    {
        assert(texts(parts@)[i as int] == parts@[i as int]@);
        cells.push(trim(parts[i].as_str()));
        i = i + 1;
    }
    assert(raw.len() == parts@.len());
    assert(texts(cells@) =~= raw.map_values(|cell: Seq<char>| trimmed(cell)));
    if cells.len() >= 2 {
        Some(cells)
    } else {
        None
    }
}

/// Whether the cells are those of the line under a header.
pub fn is_table_separator(cells: &[String]) -> (r: bool)
    ensures
        r == is_rule(texts(cells@)),
{
    let mut i: usize = 0;
    while i < cells.len()
        invariant
            i <= cells@.len(),
            forall|k: int| 0 <= k < i ==> is_rule_cell(#[trigger] texts(cells@)[k]),
        decreases cells@.len() - i,
    {
        let inside = trim(cells[i].as_str());
        let marker = trim_by(inside.as_str(), CharClass::Only(':'));
        let v = chars_of(marker.as_str());
        assert(texts(cells@)[i as int] == cells@[i as int]@);
        if v.len() < 3 {
            assert(!is_rule_cell(texts(cells@)[i as int]));
            return false;
        }
        let mut j: usize = 0;
        while j < v.len()
            invariant
                j <= v@.len(),
                i < cells@.len(),
                v@ == trimmed_by(trimmed(texts(cells@)[i as int]), CharClass::Only(':')),
                forall|k: int| 0 <= k < j ==> #[trigger] v@[k] == '-',
            decreases v@.len() - j,
        {
            if v[j] != '-' {
                assert(v@[j as int] != '-');
                assert(!is_rule_cell(texts(cells@)[i as int]));
                return false;
            }
            j = j + 1;
        }
        i = i + 1;
    }
    true
}

/// The table that begins at `start`, if one does, and where it ends.
pub fn parse_table(lines: &[&str], start: usize) -> (r: Option<(Vec<Vec<String>>, usize)>)
    ensures
        match r {
            Some((rows, next)) => table_at(strs(lines@), start as int) == Some(
                (rows_view(rows@), next as int),
            ) && start < next <= lines@.len(),
            None => table_at(strs(lines@), start as int) is None,
        },
{
    let len: usize = lines.len();
    if start >= len {
        return None;
    }
    let ghost all = strs(lines@);
    assert(all.len() == len);
    assert(all[start as int] == lines@[start as int]@);
    let header = match parse_table_row(lines[start]) {
        Some(header) => header,
        None => return None,
    };
    if start + 1 >= len {
        return None;
    }
    assert(all[start + 1] == lines@[start + 1]@);
    let separator = match parse_table_row(lines[start + 1]) {
        Some(separator) => separator,
        None => return None,
    };
    if !is_table_separator(separator.as_slice()) {
        return None;
    }
    let ghost head = texts(header@);
    let mut rows: Vec<Vec<String>> = Vec::new();
    rows.push(header);
    let mut index: usize = start + 2;
    assert(rows_view(rows@) =~= seq![head]);
    assert(seq![head] + rows_from(all, index as int) =~= rows_view(rows@) + rows_from(
        all,
        index as int,
    ));
    while index < len
        invariant
            len == lines@.len(),
            all == strs(lines@),
            start + 2 <= index <= len,
            index == start + 1 + rows@.len(),
            seq![head] + rows_from(all, start + 2) == rows_view(rows@) + rows_from(
                all,
                index as int,
            ),
        ensures
            start + 2 <= index <= len,
            index == start + 1 + rows@.len(),
            seq![head] + rows_from(all, start + 2) == rows_view(rows@),
        decreases len - index,
    {
        assert(all[index as int] == lines@[index as int]@);
        match parse_table_row(lines[index]) {
            Some(row) => {
                let ghost before = rows_view(rows@);
                let ghost cells = texts(row@);
                rows.push(row);
                assert(rows_view(rows@) =~= before.push(cells));
                assert(before + (seq![cells] + rows_from(all, index + 1)) =~= before.push(cells)
                    + rows_from(all, index + 1));
            },
            None => {
                assert(rows_view(rows@) + rows_from(all, index as int) =~= rows_view(rows@));
                break ;
            },
        }
        index = index + 1;
        if index >= len {
            assert(rows_view(rows@) + rows_from(all, index as int) =~= rows_view(rows@));
        }
    }
    if start + 2 >= len {
        assert(rows_from(all, start + 2) =~= Seq::empty());
    }
    assert((seq![head] + rows_from(all, start + 2)).len() == rows@.len());
    Some((rows, index))
}

/// The larger of two numbers.
pub open spec fn larger(a: nat, b: nat) -> nat {
    if a >= b {
        a
    } else {
        b
    }
}

/// How many columns the longest row has.
pub open spec fn column_count(rows: Cells) -> nat
    decreases rows.len(),
{
    if rows.len() == 0 {
        0
    } else {
        larger(column_count(rows.drop_last()), rows.last().len())
    }
}

/// How wide the widest cell of a column is.
pub open spec fn column_width(rows: Cells, column: int) -> nat
    decreases rows.len(),
{
    if rows.len() == 0 {
        0
    } else {
        let before = column_width(rows.drop_last(), column);
        if column < rows.last().len() {
            larger(before, rows.last()[column].len())
        } else {
            before
        }
    }
}

/// The widths of all columns.
pub open spec fn column_widths(rows: Cells) -> Seq<nat> {
    Seq::new(column_count(rows), |column: int| column_width(rows, column))
}

/// The numbers of a list.
pub open spec fn nats(v: Seq<usize>) -> Seq<nat> {
    v.map_values(|n: usize| n as nat)
}

/// A cell filled up with blanks to `width`.
pub open spec fn padded(cell: Seq<char>, width: nat) -> Seq<char> {
    cell + repeated(
        ' ',
        if width > cell.len() {
            (width - cell.len()) as nat
        } else {
            0
        },
    )
}

/// The cell of a row at a column; blank where the row is shorter.
pub open spec fn cell_at(row: Seq<Seq<char>>, column: int) -> Seq<char> {
    if 0 <= column < row.len() {
        row[column]
    } else {
        Seq::empty()
    }
}

/// What stands between two cells.
pub open spec fn cell_gap(theme: UiTheme) -> SpanView {
    SpanView { content: seq![' ', ' '], style: Style::colored(theme.muted) }
}

/// Cells with gaps between them.
pub open spec fn spaced(cells: Seq<SpanView>, theme: UiTheme) -> Seq<SpanView>
    decreases cells.len(),
{
    if cells.len() == 0 {
        Seq::empty()
    } else if cells.len() == 1 {
        cells
    } else {
        spaced(cells.drop_last(), theme).push(cell_gap(theme)).push(cells.last())
    }
}

/// A row on a line: its cells, filled up to the widths of their columns.
pub open spec fn table_row_line(
    row: Seq<Seq<char>>,
    widths: Seq<nat>,
    theme: UiTheme,
    header: bool,
) -> Seq<SpanView> {
    let style = if header {
        key_style(theme)
    } else {
        Style::plain_style()
    };
    spaced(
        Seq::new(
            widths.len(),
            |i: int| SpanView { content: padded(cell_at(row, i), widths[i]), style },
        ),
        theme,
    )
}

/// The line under the header: dashes over the widths of the columns.
pub open spec fn table_rule_line(widths: Seq<nat>, theme: UiTheme) -> Seq<SpanView> {
    spaced(
        Seq::new(
            widths.len(),
            |i: int|
                SpanView { content: repeated('-', widths[i]), style: Style::colored(theme.muted) },
        ),
        theme,
    )
}

/// The lines of a table: its first row, a rule, its other rows.
pub open spec fn table_lines(rows: Cells, theme: UiTheme) -> Seq<Seq<SpanView>> {
    let widths = column_widths(rows);
    if rows.len() == 0 {
        Seq::empty()
    } else {
        seq![table_row_line(rows[0], widths, theme, true), table_rule_line(widths, theme)]
            + rows.drop_first().map_values(
            |row: Seq<Seq<char>>| table_row_line(row, widths, theme, false),
        )
    }
}

/// A cell filled up with blanks to `width`.
pub fn pad_table_cell(cell: &str, width: usize) -> (r: String)
    ensures
        r@ == padded(cell@, width as nat),
{
    let mut out = cell.to_owned();
    let len: usize = cell.unicode_len();
    let blanks: usize = if width > len {
        width - len
    } else {
        0
    };
    let filling = repeat_char(' ', blanks);
    out.append(filling.as_str());
    out
}

fn gap_span(theme: UiTheme) -> (r: Span)
    ensures
        r@ == cell_gap(theme),
{
    let text = repeat_char(' ', 2);
    assert(text@ =~= seq![' ', ' ']);
    Span::styled(text, Style::fg(theme.muted))
}

proof fn lemma_spaced_push(cells: Seq<SpanView>, cell: SpanView, theme: UiTheme)
    ensures
        cells.len() == 0 ==> spaced(cells.push(cell), theme) == seq![cell],
        cells.len() > 0 ==> spaced(cells.push(cell), theme) == spaced(cells, theme).push(
            cell_gap(theme),
        ).push(cell),
{
    assert(cells.push(cell).drop_last() =~= cells);
    if cells.len() == 0 {
        assert(cells.push(cell) =~= seq![cell]);
    }
}

/// A row on a line.
pub fn render_table_row(row: &[String], widths: &[usize], theme: UiTheme, header: bool) -> (r: Line)
    ensures
        r@ == table_row_line(texts(row@), nats(widths@), theme, header),
{
    let style = if header {
        footer_key_style(theme)
    } else {
        Style::plain()
    };
    let ghost cells = Seq::new(
        widths@.len(),
        |i: int| SpanView { content: padded(cell_at(texts(row@), i), nats(widths@)[i]), style },
    );
    let mut spans: Vec<Span> = Vec::new();
    let mut i: usize = 0;
    assert(cells.take(0) =~= Seq::empty());
    assert(span_views(spans@) =~= Seq::empty());
    while i < widths.len()
        invariant
            i <= widths@.len(),
            cells == Seq::new(
                widths@.len(),
                |i: int|
                    SpanView { content: padded(cell_at(texts(row@), i), nats(widths@)[i]), style },
            ),
            span_views(spans@) == spaced(cells.take(i as int), theme),
        decreases widths@.len() - i,
    {
        let ghost before = span_views(spans@);
        if i > 0 {
            spans.push(gap_span(theme));
        }
        let padding = if i < row.len() {
            assert(texts(row@)[i as int] == row@[i as int]@);
            pad_table_cell(row[i].as_str(), widths[i])
        } else {
            let blank = String::new();
            assert(blank@ =~= Seq::empty());
            pad_table_cell(blank.as_str(), widths[i])
        };
        let span = Span::styled(padding, style);
        let ghost cell = span@;
        spans.push(span);
        proof {
            assert(cells[i as int] == cell);
            assert(cells.take(i + 1) =~= cells.take(i as int).push(cell));
            lemma_spaced_push(cells.take(i as int), cell, theme);
            if i > 0 {
                assert(span_views(spans@) =~= before.push(cell_gap(theme)).push(cell));
            } else {
                assert(span_views(spans@) =~= seq![cell]);
            }
        }
        i = i + 1;
    }
    assert(cells.take(widths@.len() as int) =~= cells);
    assert(cells =~= Seq::new(
        nats(widths@).len(),
        |i: int| SpanView { content: padded(cell_at(texts(row@), i), nats(widths@)[i]), style },
    ));
    Line { spans }
}

/// The line under the header.
pub fn render_table_rule(widths: &[usize], theme: UiTheme) -> (r: Line)
    ensures
        r@ == table_rule_line(nats(widths@), theme),
{
    let ghost cells = Seq::new(
        nats(widths@).len(),
        |i: int|
            SpanView {
                content: repeated('-', nats(widths@)[i]),
                style: Style::colored(theme.muted),
            },
    );
    let mut spans: Vec<Span> = Vec::new();
    let mut i: usize = 0;
    assert(cells.take(0) =~= Seq::empty());
    assert(span_views(spans@) =~= Seq::empty());
    while i < widths.len()
        invariant
            i <= widths@.len(),
            cells == Seq::new(
                nats(widths@).len(),
                |i: int|
                    SpanView {
                        content: repeated('-', nats(widths@)[i]),
                        style: Style::colored(theme.muted),
                    },
            ),
            span_views(spans@) == spaced(cells.take(i as int), theme),
        decreases widths@.len() - i,
    {
        let ghost before = span_views(spans@);
        if i > 0 {
            spans.push(gap_span(theme));
        }
        let span = Span::styled(repeat_char('-', widths[i]), Style::fg(theme.muted));
        let ghost cell = span@;
        spans.push(span);
        proof {
            assert(cells[i as int] == cell);
            assert(cells.take(i + 1) =~= cells.take(i as int).push(cell));
            lemma_spaced_push(cells.take(i as int), cell, theme);
            if i > 0 {
                assert(span_views(spans@) =~= before.push(cell_gap(theme)).push(cell));
            } else {
                assert(span_views(spans@) =~= seq![cell]);
            }
        }
        i = i + 1;
    }
    assert(cells.take(widths@.len() as int) =~= cells);
    Line { spans }
}

fn count_columns(rows: &Vec<Vec<String>>) -> (r: usize)
    ensures
        r == column_count(rows_view(rows@)),
{
    let ghost views = rows_view(rows@);
    let mut columns: usize = 0;
    let mut i: usize = 0;
    assert(views.take(0) =~= Seq::empty());
    while i < rows.len()
        invariant
            i <= rows@.len(),
            views == rows_view(rows@),
            columns == column_count(views.take(i as int)),
        decreases rows@.len() - i,
    {
        assert(views.take(i + 1).drop_last() =~= views.take(i as int));
        assert(views.take(i + 1).last() == texts(rows@[i as int]@));
        if rows[i].len() > columns {
            columns = rows[i].len();
        }
        i = i + 1;
    }
    assert(views.take(rows@.len() as int) =~= views);
    columns
}

fn measure_column(rows: &Vec<Vec<String>>, column: usize) -> (r: usize)
    ensures
        r == column_width(rows_view(rows@), column as int),
{
    let ghost views = rows_view(rows@);
    let mut width: usize = 0;
    let mut i: usize = 0;
    assert(views.take(0) =~= Seq::empty());
    while i < rows.len()
        invariant
            i <= rows@.len(),
            views == rows_view(rows@),
            width == column_width(views.take(i as int), column as int),
        decreases rows@.len() - i,
    {
        assert(views.take(i + 1).drop_last() =~= views.take(i as int));
        assert(views.take(i + 1).last() == texts(rows@[i as int]@));
        if column < rows[i].len() {
            assert(texts(rows@[i as int]@)[column as int] == rows@[i as int]@[column as int]@);
            let len: usize = rows[i][column].as_str().unicode_len();
            if len > width {
                width = len;
            }
        }
        i = i + 1;
    }
    assert(views.take(rows@.len() as int) =~= views);
    width
}

/// The lines of a table.
pub fn render_table(rows: Vec<Vec<String>>, theme: UiTheme) -> (r: Vec<Line>)
    ensures
        line_views(r@) == table_lines(rows_view(rows@), theme),
{
    let ghost views = rows_view(rows@);
    let columns = count_columns(&rows);
    let mut widths: Vec<usize> = Vec::new();
    let mut column: usize = 0;
    while column < columns
        invariant
            column <= columns,
            widths@.len() == column,
            views == rows_view(rows@),
            forall|k: int| 0 <= k < column ==> widths@[k] == column_width(views, k),
        decreases columns - column,
    {
        widths.push(measure_column(&rows, column));
        column = column + 1;
    }
    assert(nats(widths@) =~= column_widths(views));
    let mut lines: Vec<Line> = Vec::new();
    let ghost all = table_lines(views, theme);
    let mut i: usize = 0;
    while i < rows.len()
        invariant
            i <= rows@.len(),
            views == rows_view(rows@),
            nats(widths@) == column_widths(views),
            all == table_lines(views, theme),
            lines@.len() == (if i == 0 {
                0int
            } else {
                i + 1
            }),
            forall|k: int| 0 <= k < lines@.len() ==> (#[trigger] lines@[k])@ == all[k],
        decreases rows@.len() - i,
    {
        assert(views[i as int] == texts(rows@[i as int]@));
        lines.push(render_table_row(rows[i].as_slice(), widths.as_slice(), theme, i == 0));
        if i == 0 {
            lines.push(render_table_rule(widths.as_slice(), theme));
        } else {
            assert(views.drop_first()[i - 1] == views[i as int]);
        }
        i = i + 1;
    }
    assert(line_views(lines@) =~= all);
    lines
}

/// The width of a row: those of its columns, and two for each gap.
pub open spec fn table_width(widths: Seq<nat>) -> int
    decreases widths.len(),
{
    if widths.len() == 0 {
        0
    } else if widths.len() == 1 {
        widths[0] as int
    } else {
        table_width(widths.drop_last()) + 2 + widths.last()
    }
}

proof fn lemma_spaced_width(cells: Seq<SpanView>, widths: Seq<nat>, theme: UiTheme)
    requires
        cells.len() == widths.len(),
        forall|i: int| 0 <= i < cells.len() ==> (#[trigger] cells[i]).content.len() == widths[i],
    ensures
        line_text(spaced(cells, theme)).len() == table_width(widths),
    decreases cells.len(),
{
    if cells.len() == 1 {
        lemma_line_text_push(Seq::empty(), cells[0]);
        assert(Seq::<SpanView>::empty().push(cells[0]) =~= cells);
        assert(cells[0].content.len() == widths[0]);
    } else if cells.len() > 1 {
        let before = spaced(cells.drop_last(), theme);
        assert forall|i: int| 0 <= i < cells.drop_last().len() implies (
        #[trigger] cells.drop_last()[i]).content.len() == widths.drop_last()[i] by {
            assert(cells[i].content.len() == widths[i]);
        }
        lemma_spaced_width(cells.drop_last(), widths.drop_last(), theme);
        lemma_line_text_push(before, cell_gap(theme));
        lemma_line_text_push(before.push(cell_gap(theme)), cells.last());
        assert(cells[cells.len() - 1].content.len() == widths[widths.len() - 1]);
    }
}

proof fn lemma_cells_fit(rows: Cells, i: int, column: int)
    requires
        0 <= i < rows.len(),
        0 <= column,
    ensures
        rows[i].len() <= column_count(rows),
        cell_at(rows[i], column).len() <= column_width(rows, column),
    decreases rows.len(),
{
    if i < rows.len() - 1 {
        lemma_cells_fit(rows.drop_last(), i, column);
        assert(rows.drop_last()[i] == rows[i]);
    }
}

proof fn lemma_row_width(rows: Cells, i: int, theme: UiTheme, header: bool)
    requires
        0 <= i < rows.len(),
    ensures
        line_text(table_row_line(rows[i], column_widths(rows), theme, header)).len() == table_width(
            column_widths(rows),
        ),
{
    let widths = column_widths(rows);
    let style = if header {
        key_style(theme)
    } else {
        Style::plain_style()
    };
    let cells = Seq::new(
        widths.len(),
        |c: int| SpanView { content: padded(cell_at(rows[i], c), widths[c]), style },
    );
    assert forall|c: int| 0 <= c < cells.len() implies (#[trigger] cells[c]).content.len()
        == widths[c] by {
        lemma_cells_fit(rows, i, c);
    }
    lemma_spaced_width(cells, widths, theme);
}

/// Every line of a table is equally wide, so that its columns stand under one another.
pub proof fn law_table_lines_align(rows: Cells, theme: UiTheme, i: int)
    requires
        0 <= i < table_lines(rows, theme).len(),
    ensures
        line_text(table_lines(rows, theme)[i]).len() == table_width(column_widths(rows)),
{
    let widths = column_widths(rows);
    if i == 0 {
        lemma_row_width(rows, 0, theme, true);
    } else if i == 1 {
        let cells = Seq::new(
            widths.len(),
            |c: int|
                SpanView { content: repeated('-', widths[c]), style: Style::colored(theme.muted) },
        );
        lemma_spaced_width(cells, widths, theme);
    } else {
        assert(rows.drop_first()[i - 2] == rows[i - 1]);
        lemma_row_width(rows, i - 1, theme, false);
    }
}

/// A table has a line for each of its rows, and one for the rule.
pub proof fn law_table_line_count(rows: Cells, theme: UiTheme)
    requires
        rows.len() > 0,
    ensures
        table_lines(rows, theme).len() == rows.len() + 1,
{
}

/// Dashes belong to the line under a header from three on, with a colon at either
/// end or without.
pub proof fn law_rule_cells(n: nat)
    ensures
        is_rule_cell(repeated('-', n)) <==> n >= 3,
        n >= 3 ==> is_rule_cell(seq![':'] + repeated('-', n)),
        n >= 3 ==> is_rule_cell(repeated('-', n).push(':')),
        n >= 3 ==> is_rule_cell(seq![':'] + repeated('-', n).push(':')),
        n >= 3 ==> !is_rule_cell(repeated('-', n).push('x')),
{
    let dashes = repeated('-', n);
    let colon = CharClass::Only(':');
    lemma_trimmed_fixed(dashes, CharClass::Whitespace);
    lemma_trimmed_fixed(dashes, colon);
    if n >= 3 {
        let left = seq![':'] + dashes;
        let right = dashes.push(':');
        let both = seq![':'] + right;
        let other = dashes.push('x');
        lemma_trimmed_fixed(left, CharClass::Whitespace);
        lemma_trimmed_fixed(right, CharClass::Whitespace);
        lemma_trimmed_fixed(both, CharClass::Whitespace);
        lemma_trimmed_fixed(other, CharClass::Whitespace);
        lemma_trimmed_fixed(other, colon);
        assert(left.drop_first() =~= dashes);
        assert(both.drop_first() =~= right);
        assert(right.drop_last() =~= dashes);
        assert(trimmed_start(dashes, colon) == dashes);
        assert(trimmed_end(dashes, colon) == dashes);
        assert(trimmed_start(right, colon) == right);
        assert(trimmed_end(right, colon) == dashes);
        assert(trimmed_start(left, colon) == dashes);
        assert(trimmed_start(both, colon) == right);
        assert(other[n as int] == 'x');
    }
}

/// How often a character stands in a text.
pub open spec fn occurrences(s: Seq<char>, c: char) -> nat
    decreases s.len(),
{
    if s.len() == 0 {
        0
    } else {
        occurrences(s.drop_last(), c) + if s.last() == c {
            1nat
        } else {
            0
        }
    }
}

proof fn lemma_split_len(s: Seq<char>, c: char)
    ensures
        split(s, c).len() == occurrences(s, c) + 1,
    decreases s.len(),
{
    if s.len() > 0 {
        lemma_split_len(s.drop_last(), c);
    }
}

/// A row has one cell more than it has bars, those at its ends aside, and each
/// cell is what stands between two bars, without blanks around it.
pub proof fn law_row_has_all_its_cells(line: Seq<char>)
    ensures
        ({
            let inner = trimmed_by(trimmed(line), CharClass::Only('|'));
            &&& row_cells(line) is Some <==> trimmed(line).contains('|') && occurrences(inner, '|')
                >= 1
            &&& row_cells(line) matches Some(cells) ==> {
                &&& cells.len() == occurrences(inner, '|') + 1
                &&& join(split(inner, '|'), seq!['|']) == inner
                &&& split(inner, '|').len() == cells.len()
                &&& forall|i: int|
                    0 <= i < cells.len() ==> #[trigger] cells[i] == trimmed(split(inner, '|')[i])
                        && !split(inner, '|')[i].contains('|')
            }
        }),
{
    let inner = trimmed_by(trimmed(line), CharClass::Only('|'));
    lemma_split_len(inner, '|');
    lemma_split(inner, '|');
    law_join_split(inner, '|');
    assert forall|i: int| 0 <= i < split(inner, '|').len() implies !(#[trigger] split(
        inner,
        '|',
    )[i]).contains('|') by {}
}

/// Whether a text can stand in a row as a cell: it is not empty, has no blanks
/// around it, and no bar in it.
pub open spec fn is_cell(cell: Seq<char>) -> bool {
    cell.len() > 0 && is_trimmed(cell) && !cell.contains('|')
}

/// Cells as they stand between the bars of a row.
spec fn between_bars(cells: Seq<Seq<char>>) -> Seq<Seq<char>> {
    cells.map_values(|cell: Seq<char>| seq![' '] + cell + seq![' '])
}

proof fn lemma_between_bars(cells: Seq<Seq<char>>)
    requires
        cells.len() > 0,
    ensures
        join(between_bars(cells), seq!['|']) == seq![' '] + join(cells, seq![' ', '|', ' '])
            + seq![' '],
    decreases cells.len(),
{
    let spaced = between_bars(cells);
    if cells.len() > 1 {
        let front = cells.drop_last();
        lemma_between_bars(front);
        assert(between_bars(front) =~= spaced.drop_last());
        assert(spaced.last() == seq![' '] + cells.last() + seq![' ']);
        assert(join(spaced, seq!['|']) =~= seq![' '] + join(cells, seq![' ', '|', ' ']) + seq![' ']);
    } else {
        assert(spaced[0] == seq![' '] + cells[0] + seq![' ']);
    }
}

proof fn lemma_trimmed_between(cell: Seq<char>)
    requires
        cell.len() > 0,
        is_trimmed(cell),
    ensures
        trimmed(seq![' '] + cell + seq![' ']) == cell,
{
    let class = CharClass::Whitespace;
    let whole = seq![' '] + cell + seq![' '];
    assert(whole.drop_first() =~= cell.push(' '));
    assert(class.has(whole[0]));
    assert(trimmed_start(cell.push(' '), class) == cell.push(' '));
    assert(trimmed_start(whole, class) == cell.push(' '));
    assert(cell.push(' ').drop_last() =~= cell);
    assert(trimmed_end(cell, class) == cell);
}

/// Cells that are written with bars around them are read as the same cells,
/// however many there are.
pub proof fn law_row_round_trip(cells: Seq<Seq<char>>)
    requires
        cells.len() >= 2,
        forall|i: int| 0 <= i < cells.len() ==> is_cell(#[trigger] cells[i]),
    ensures
        row_cells("| "@ + join(cells, " | "@) + " |"@) == Some(cells),
{
    reveal_strlit("| ");
    reveal_strlit(" | ");
    reveal_strlit(" |");
    assert("| "@ =~= seq!['|', ' ']);
    assert(" | "@ =~= seq![' ', '|', ' ']);
    assert(" |"@ =~= seq![' ', '|']);
    let bar = CharClass::Only('|');
    let spaced = between_bars(cells);
    let inner = seq![' '] + join(cells, " | "@) + seq![' '];
    let line = "| "@ + join(cells, " | "@) + " |"@;
    assert(line =~= seq!['|'] + inner + seq!['|']);
    lemma_trimmed_fixed(line, CharClass::Whitespace);
    assert(line.drop_first() =~= inner.push('|'));
    assert(trimmed_start(inner.push('|'), bar) == inner.push('|'));
    assert(trimmed_start(line, bar) == inner.push('|'));
    assert(inner.push('|').drop_last() =~= inner);
    assert(inner.last() == ' ');
    assert(trimmed_end(inner, bar) == inner);
    assert(trimmed_by(line, bar) == inner);
    assert(line.contains('|')) by {
        assert(line[0] == '|');
    }
    lemma_between_bars(cells);
    assert(join(spaced, seq!['|']) == inner);
    assert forall|i: int| 0 <= i < spaced.len() implies !(#[trigger] spaced[i]).contains('|') by {
        assert(is_cell(cells[i]));
        if spaced[i].contains('|') {
            let k = choose|k: int| 0 <= k < spaced[i].len() && spaced[i][k] == '|';
            assert(spaced[i] == seq![' '] + cells[i] + seq![' ']);
            assert(cells[i][k - 1] == '|');
        }
    }
    law_split_join(spaced, '|');
    assert forall|i: int| 0 <= i < spaced.len() implies trimmed(#[trigger] spaced[i])
        == cells[i] by {
        assert(is_cell(cells[i]));
        lemma_trimmed_between(cells[i]);
    }
    assert(split(inner, '|').map_values(|cell: Seq<char>| trimmed(cell)) =~= cells);
}

proof fn lemma_rows_are_the_lines(lines: Seq<Seq<char>>, from: int)
    requires
        0 <= from,
    ensures
        forall|k: int|
            0 <= k < rows_from(lines, from).len() ==> row_cells(lines[from + k]) == Some(
                #[trigger] rows_from(lines, from)[k],
            ),
        from + rows_from(lines, from).len() < lines.len() ==> row_cells(
            lines[from + rows_from(lines, from).len()],
        ) is None,
    decreases lines.len() - from,
{
    if from < lines.len() && row_cells(lines[from]) is Some {
        lemma_rows_are_the_lines(lines, from + 1);
        let rest = rows_from(lines, from + 1);
        let all = rows_from(lines, from);
        assert(all.len() == rest.len() + 1);
        assert forall|k: int| 0 <= k < all.len() implies row_cells(lines[from + k]) == Some(
            #[trigger] all[k],
        ) by {
            if k > 0 {
                assert(all[k] == rest[k - 1]);
                assert(row_cells(lines[from + 1 + (k - 1)]) == Some(rest[k - 1]));
            }
        }
    }
}

/// A table is made of lines that are rows, one after another: its header, the
/// line under that, which is not shown, and every row that follows until a line
/// is none.
pub proof fn law_table_has_all_its_rows(lines: Seq<Seq<char>>, start: int)
    requires
        0 <= start,
    ensures
        table_at(lines, start) is Some <==> start + 1 < lines.len() && row_cells(lines[start])
            is Some && row_cells(lines[start + 1]) is Some && is_rule(
            row_cells(lines[start + 1])->0,
        ),
        table_at(lines, start) matches Some((rows, next)) ==> {
            &&& rows.len() >= 1
            &&& next == start + 1 + rows.len()
            &&& row_cells(lines[start]) == Some(rows[0])
            &&& forall|k: int|
                1 <= k < rows.len() ==> row_cells(lines[start + 1 + k]) == Some(#[trigger] rows[k])
            &&& next < lines.len() ==> row_cells(lines[next]) is None
        },
{
    if let Some((rows, next)) = table_at(lines, start) {
        let body = rows_from(lines, start + 2);
        lemma_rows_are_the_lines(lines, start + 2);
        assert forall|k: int| 1 <= k < rows.len() implies row_cells(lines[start + 1 + k]) == Some(
            #[trigger] rows[k],
        ) by {
            assert(rows[k] == body[k - 1]);
            assert(row_cells(lines[start + 2 + (k - 1)]) == Some(body[k - 1]));
        }
    }
}

proof fn lemma_spaced_at(cells: Seq<SpanView>, theme: UiTheme, c: int)
    requires
        0 <= c < cells.len(),
    ensures
        spaced(cells, theme).len() == 2 * cells.len() - 1,
        spaced(cells, theme)[2 * c] == cells[c],
        c + 1 < cells.len() ==> spaced(cells, theme)[2 * c + 1] == cell_gap(theme),
    decreases cells.len(),
{
    if cells.len() > 1 {
        let front = cells.drop_last();
        if c < front.len() {
            lemma_spaced_at(front, theme, c);
        } else {
            lemma_spaced_at(front, theme, 0);
        }
    }
}

proof fn lemma_widest_cell(rows: Cells, column: int)
    requires
        0 <= column,
    ensures
        column_width(rows, column) > 0 ==> exists|i: int|
            0 <= i < rows.len() && column < (#[trigger] rows[i]).len() && rows[i][column].len()
                == column_width(rows, column),
    decreases rows.len(),
{
    if rows.len() > 0 {
        let front = rows.drop_last();
        lemma_widest_cell(front, column);
        if column_width(rows, column) > 0 {
            if column_width(rows, column) == column_width(front, column) {
                let i = choose|i: int|
                    0 <= i < front.len() && column < (#[trigger] front[i]).len()
                        && front[i][column].len() == column_width(front, column);
                assert(rows[i] == front[i]);
            } else {
                assert(rows[rows.len() - 1] == rows.last());
            }
        }
    }
}

/// Each cell of a table is shown in its row and its column, with blanks behind
/// it and two blanks before the next; the header in the style of a title, and a
/// rule under it.
pub proof fn law_table_shows_its_cells(rows: Cells, theme: UiTheme, i: int, c: int)
    requires
        0 <= i < rows.len(),
        0 <= c < rows[i].len(),
    ensures
        ({
            let at = if i == 0 {
                0
            } else {
                i + 1
            };
            let shown = table_lines(rows, theme)[at];
            let width = column_width(rows, c);
            &&& 2 * c < shown.len()
            &&& rows[i][c].is_prefix_of(shown[2 * c].content)
            &&& shown[2 * c].content.len() == width
            &&& forall|k: int|
                rows[i][c].len() <= k < width ==> #[trigger] shown[2 * c].content[k] == ' '
            &&& shown[2 * c].style == if i == 0 {
                key_style(theme)
            } else {
                Style::plain_style()
            }
            &&& 2 * c + 1 < shown.len() ==> shown[2 * c + 1].content == seq![' ', ' ']
            &&& table_lines(rows, theme)[1].len() == shown.len()
            &&& table_lines(rows, theme)[1][2 * c].content == repeated('-', width)
        }),
{
    let widths = column_widths(rows);
    lemma_cells_fit(rows, i, c);
    let style = if i == 0 {
        key_style(theme)
    } else {
        Style::plain_style()
    };
    let cells = Seq::new(
        widths.len(),
        |k: int| SpanView { content: padded(cell_at(rows[i], k), widths[k]), style },
    );
    let rules = Seq::new(
        widths.len(),
        |k: int|
            SpanView { content: repeated('-', widths[k]), style: Style::colored(theme.muted) },
    );
    lemma_spaced_at(cells, theme, c);
    lemma_spaced_at(rules, theme, c);
    if i > 0 {
        assert(rows.drop_first()[i - 1] == rows[i]);
    }
    assert(cells[c].content == rows[i][c] + repeated(' ', (widths[c] - rows[i][c].len()) as nat));
    assert(rows[i][c] =~= cells[c].content.subrange(0, rows[i][c].len() as int));
}

/// A column is as wide as the widest of its cells, and there are as many columns
/// as the longest row has cells.
pub proof fn law_columns_are_as_wide_as_needed(rows: Cells, c: int)
    requires
        rows.len() > 0,
        0 <= c < column_widths(rows).len(),
    ensures
        forall|i: int|
            0 <= i < rows.len() ==> (#[trigger] rows[i]).len() <= column_widths(rows).len(),
        forall|i: int|
            0 <= i < rows.len() && c < (#[trigger] rows[i]).len() ==> rows[i][c].len()
                <= column_widths(rows)[c],
        column_widths(rows)[c] > 0 ==> exists|i: int|
            0 <= i < rows.len() && c < (#[trigger] rows[i]).len() && rows[i][c].len()
                == column_widths(rows)[c],
{
    assert forall|i: int| 0 <= i < rows.len() implies (#[trigger] rows[i]).len() <= column_widths(
        rows,
    ).len() by {
        lemma_cells_fit(rows, i, c);
    }
    assert forall|i: int| 0 <= i < rows.len() && c < (#[trigger] rows[i]).len() implies rows[
    i][c].len() <= column_widths(rows)[c] by {
        lemma_cells_fit(rows, i, c);
    }
    lemma_widest_cell(rows, c);
}

/// A row with fewer cells than another has blanks in place of those that it
/// lacks.
pub proof fn law_missing_cells_are_blank(rows: Cells, theme: UiTheme, i: int, c: int)
    requires
        0 <= i < rows.len(),
        rows[i].len() <= c < column_widths(rows).len(),
    ensures
        ({
            let at = if i == 0 {
                0
            } else {
                i + 1
            };
            let shown = table_lines(rows, theme)[at];
            &&& 2 * c < shown.len()
            &&& shown[2 * c].content == repeated(' ', column_widths(rows)[c])
        }),
{
    let widths = column_widths(rows);
    let style = if i == 0 {
        key_style(theme)
    } else {
        Style::plain_style()
    };
    let cells = Seq::new(
        widths.len(),
        |k: int| SpanView { content: padded(cell_at(rows[i], k), widths[k]), style },
    );
    lemma_spaced_at(cells, theme, c);
    if i > 0 {
        assert(rows.drop_first()[i - 1] == rows[i]);
    }
    assert(cell_at(rows[i], c) =~= Seq::<char>::empty());
    assert(cells[c].content =~= repeated(' ', widths[c]));
}

} // verus!
