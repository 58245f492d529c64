//! Cells and rectangles of the terminal.
use vstd::prelude::*;

use ratatui::layout::{Constraint, Direction, Layout};

use crate::field::min_int;

verus! {

/// A cell of the terminal.
#[derive(Debug, Clone, Copy, PartialEq, Eq, Structural)]
pub struct Position {
    pub x: u16,
    pub y: u16,
}

impl Position {
    pub fn new(x: u16, y: u16) -> (r: Self)
        ensures
            r == (Position { x, y }),
    {
        Position { x, y }
    }
}

/// A rectangle of terminal cells.
#[derive(Debug, Clone, Copy, PartialEq, Eq, Structural)]
pub struct Rect {
    pub x: u16,
    pub y: u16,
    pub width: u16,
    pub height: u16,
}

impl Rect {
    pub fn new(x: u16, y: u16, width: u16, height: u16) -> (r: Self)
        ensures
            r == (Rect { x, y, width, height }),
    {
        Rect { x, y, width, height }
    }

    /// Every cell of the rectangle has coordinates that a terminal can address.
    pub open spec fn addressable(self) -> bool {
        self.x + self.width <= u16::MAX && self.y + self.height <= u16::MAX
    }

    /// Whether a cell lies in the rectangle.
    pub open spec fn holds(self, p: Position) -> bool {
        self.x <= p.x < self.x + self.width && self.y <= p.y < self.y + self.height
    }

    /// Whether the rectangle lies in another.
    pub open spec fn within(self, outer: Rect) -> bool {
        &&& outer.x <= self.x && self.x + self.width <= outer.x + outer.width
        &&& outer.y <= self.y && self.y + self.height <= outer.y + outer.height
    }

    /// What is left inside of a border.
    pub open spec fn inside(self) -> Rect {
        Rect {
            x: (if self.width > 0 {
                self.x + 1
            } else {
                self.x as int
            }) as u16,
            y: (if self.height > 0 {
                self.y + 1
            } else {
                self.y as int
            }) as u16,
            width: (if self.width > 2 {
                self.width - 2
            } else {
                0
            }) as u16,
            height: (if self.height > 2 {
                self.height - 2
            } else {
                0
            }) as u16,
        }
    }

    /// What is left inside of a border.
    pub fn inner(self) -> (r: Rect)
        requires
            self.addressable(),
        ensures
            r == self.inside(),
            r.within(self),
            r.addressable(),
    {
        Rect {
            x: if self.width > 0 {
                self.x + 1
            } else {
                self.x
            },
            y: if self.height > 0 {
                self.y + 1
            } else {
                self.y
            },
            width: self.width.saturating_sub(2),
            height: self.height.saturating_sub(2),
        }
    }
}

/// How much of an area a part of it takes: so many cells, at least so many and
/// all that is left, or a percentage.
#[derive(Debug, Clone, Copy, PartialEq, Eq)]
pub enum Extent {
    Length(u16),
    Min(u16),
    Percentage(u16),
}

impl Extent {
    /// The number in it.
    pub open spec fn number(self) -> int {
        match self {
            Extent::Length(n) => n as int,
            Extent::Min(n) => n as int,
            Extent::Percentage(n) => n as int,
        }
    }
}

/// The numbers of several parts together.
pub open spec fn total(parts: Seq<Extent>) -> int
    decreases parts.len(),
{
    if parts.len() == 0 {
        0
    } else {
        total(parts.drop_last()) + parts.last().number()
    }
}

/// Whether the parts are percentages that leave room for one another.
pub open spec fn are_shares(parts: Seq<Extent>) -> bool {
    &&& parts.len() > 0
    &&& forall|i: int| 0 <= i < parts.len() ==> #[trigger] parts[i] is Percentage
    &&& total(parts) <= 100
}

/// Whether the part at `k` grows and all others have a length.
pub open spec fn grows_at(parts: Seq<Extent>, k: int) -> bool {
    &&& 0 <= k < parts.len()
    &&& parts[k] is Min && parts[k].number() <= i16::MAX
    &&& forall|i: int| 0 <= i < parts.len() && i != k ==> #[trigger] parts[i] is Length
}

/// A percentage of an extent, rounded to whole cells; half a cell counts as one.
pub open spec fn share(extent: int, percent: int) -> int {
    (extent * percent + 50) / 100
}

/// How far an area goes in the direction in which it is cut.
pub open spec fn extent_of(area: Rect, along_height: bool) -> int {
    if along_height {
        area.height as int
    } else {
        area.width as int
    }
}

/// The part of an area from one cell to another of its height or its width.
pub open spec fn cells_of(area: Rect, along_height: bool, from: int, to: int) -> Rect {
    if along_height {
        Rect { y: (area.y + from) as u16, height: (to - from) as u16, ..area }
    } else {
        Rect { x: (area.x + from) as u16, width: (to - from) as u16, ..area }
    }
}

/// The part of an area between two percentages of its height or its width.
pub open spec fn slice_of(area: Rect, along_height: bool, from: int, to: int) -> Rect {
    let extent = extent_of(area, along_height);
    cells_of(area, along_height, share(extent, from), share(extent, to))
}

/// Where part `i` begins in an extent in which the part at `k` grows, whose
/// least comes before the lengths of the others.
pub open spec fn border(parts: Seq<Extent>, k: int, extent: int, i: int) -> int {
    let least = min_int(parts[k].number(), extent);
    if i <= k {
        min_int(total(parts.take(i)), extent - least)
    } else {
        extent - min_int(total(parts.skip(i)), extent - least)
    }
}

/// Whether one area lies in another and goes as far across it.
pub open spec fn crosses(part: Rect, area: Rect, along_height: bool) -> bool {
    &&& part.within(area)
    &&& if along_height {
        part.x == area.x && part.width == area.width
    } else {
        part.y == area.y && part.height == area.height
    }
}

/// The first cell of an area in the direction in which it is cut.
pub open spec fn start_of(area: Rect, along_height: bool) -> int {
    if along_height {
        area.y as int
    } else {
        area.x as int
    }
}

/// The cell behind an area in the direction in which it is cut.
pub open spec fn end_of(area: Rect, along_height: bool) -> int {
    start_of(area, along_height) + extent_of(area, along_height)
}

/// Whether areas follow one another from the beginning of an area on.
pub open spec fn follow(parts: Seq<Rect>, area: Rect, along_height: bool) -> bool {
    &&& parts.len() > 0 ==> start_of(parts[0], along_height) == start_of(area, along_height)
    &&& forall|i: int, j: int|
        #![trigger parts[i], parts[j]]
        0 <= i && j == i + 1 && j < parts.len() ==> start_of(parts[j], along_height) == end_of(
            parts[i],
            along_height,
        )
}

/// Calls `Layout::split` of `ratatui`, along the height or along the width. The
/// parts follow one another, and each border is rounded to whole cells; the
/// borders of so few parts as these are never so close to where rounding turns
/// that two which meet could be rounded apart. Percentages that leave room for
/// one another are all met. Where one part grows and the others have a length,
/// they fill the area: the lengths are met and that part takes what is left.
/// In an area that is too small for them that part has its least first, and the
/// others have at most their lengths. How more than one of these share what
/// remains is not said: the solver has several best answers, and which it finds
/// rests with the order in which it walks its hash maps.
#[verifier::external_body]
fn split_area(area: Rect, along_height: bool, parts: &[Extent]) -> (r: Vec<Rect>)
    requires
        area.addressable(),
        parts@.len() <= 100,
        are_shares(parts@) || exists|k: int| grows_at(parts@, k),
    ensures
        r@.len() == parts@.len(),
        forall|i: int| 0 <= i < r@.len() ==> crosses(#[trigger] r@[i], area, along_height),
        follow(r@, area, along_height),
        forall|k: int| #[trigger]
            grows_at(parts@, k) ==> end_of(r@.last(), along_height) == end_of(area, along_height),
        forall|k: int| #[trigger]
            grows_at(parts@, k) && total(parts@) > extent_of(area, along_height) ==> extent_of(
                r@[k],
                along_height,
            ) == min_int(parts@[k].number(), extent_of(area, along_height)) && forall|i: int|
                0 <= i < r@.len() && i != k ==> extent_of(#[trigger] r@[i], along_height)
                    <= parts@[i].number(),
        are_shares(parts@) ==> forall|i: int|
            0 <= i < r@.len() ==> #[trigger] r@[i] == slice_of(
                area,
                along_height,
                total(parts@.take(i)),
                total(parts@.take(i + 1)),
            ),
        forall|k: int| #[trigger]
            grows_at(parts@, k) && (parts@.len() <= 2 || total(parts@) <= extent_of(
                area,
                along_height,
            )) ==> forall|i: int|
                0 <= i < r@.len() ==> #[trigger] r@[i] == cells_of(
                    area,
                    along_height,
                    border(parts@, k, extent_of(area, along_height), i),
                    border(parts@, k, extent_of(area, along_height), i + 1),
                ),
{
    let direction = if along_height { Direction::Vertical } else { Direction::Horizontal };
    let whole = ratatui::layout::Rect::new(area.x, area.y, area.width, area.height);
    let constraints = parts.iter().map(|part| match part {
        Extent::Length(n) => Constraint::Length(*n),
        Extent::Min(n) => Constraint::Min(*n),
        Extent::Percentage(n) => Constraint::Percentage(*n),
    });
    let chunks = Layout::default().direction(direction).constraints(constraints).split(whole);
    chunks.iter().map(|c| Rect { x: c.x, y: c.y, width: c.width, height: c.height }).collect()
}

proof fn lemma_share(extent: int, from: int, to: int)
    requires
        0 <= extent,
        0 <= from <= to <= 100,
    ensures
        0 <= share(extent, from) <= share(extent, to) <= extent,
{
    assert(0 <= extent * from <= extent * to <= extent * 100) by (nonlinear_arith)
        requires
            0 <= extent,
            0 <= from <= to <= 100,
    ;
}

/// The rectangle in the middle of an area that takes percentages of its width
/// and of its height, with the same share to either side.
pub open spec fn centered(percent_x: int, percent_y: int, area: Rect) -> Rect {
    let side_x = (100 - percent_x) / 2;
    let side_y = (100 - percent_y) / 2;
    slice_of(slice_of(area, true, side_y, side_y + percent_y), false, side_x, side_x + percent_x)
}

/// The rectangle in the middle of an area that takes percentages of its extent.
pub fn centered_rect(percent_x: u16, percent_y: u16, area: Rect) -> (r: Rect)
    requires
        percent_x <= 100,
        percent_y <= 100,
        area.addressable(),
    ensures
        r == centered(percent_x as int, percent_y as int, area),
        r.within(area),
        r.addressable(),
{
    let side_y: u16 = (100 - percent_y) / 2;
    let side_x: u16 = (100 - percent_x) / 2;
    let row = middle_share(area, true, side_y, percent_y);
    proof {
        lemma_share(area.height as int, side_y as int, side_y + percent_y);
        lemma_share(area.width as int, side_x as int, side_x + percent_x);
    }
    middle_share(row, false, side_x, percent_x)
}

/// The part of an area between two sides of the same share.
fn middle_share(area: Rect, along_height: bool, side: u16, percent: u16) -> (r: Rect)
    requires
        area.addressable(),
        2 * side + percent <= 100,
    ensures
        r == slice_of(area, along_height, side as int, side + percent),
{
    let parts = [Extent::Percentage(side), Extent::Percentage(percent), Extent::Percentage(side)];
    proof {
        reveal_with_fuel(total, 4);
        assert(parts@.drop_last().drop_last() =~= parts@.take(1));
        assert(parts@.drop_last() =~= parts@.take(2));
        assert(parts@.take(1).drop_last() =~= Seq::empty());
        assert(parts@.take(2).drop_last() =~= parts@.take(1));
    }
    let rows = split_area(area, along_height, &parts);
    rows[1]
}

/// How high a footer of one line is under a screen, which goes first.
pub open spec fn footer_height(height: int) -> int {
    if height >= 2 {
        1
    } else {
        0
    }
}

/// The areas of the screen and of the footer below it.
pub fn screen_areas(area: Rect) -> (r: (Rect, Rect))
    requires
        area.addressable(),
    ensures
        ({
            let cut = area.height - footer_height(area.height as int);
            &&& r.0 == cells_of(area, true, 0, cut)
            &&& r.1 == cells_of(area, true, cut, area.height as int)
        }),
        r.0.within(area) && r.0.addressable(),
        r.1.within(area) && r.1.addressable(),
{
    let parts = [Extent::Min(1), Extent::Length(1)];
    proof {
        lemma_two(parts@);
        assert(grows_at(parts@, 0));
    }
    let rows = split_area(area, true, &parts);
    (rows[0], rows[1])
}

/// How high a panel of `lines` lines is over another, of which at least one
/// line is shown.
pub open spec fn header_height(lines: int, height: int) -> int {
    if height == 0 {
        0
    } else {
        min_int(lines, height - 1)
    }
}

fn below_header(area: Rect, header: u16) -> (r: (Rect, Rect))
    requires
        area.addressable(),
    ensures
        ({
            let cut = header_height(header as int, area.height as int);
            &&& r.0 == cells_of(area, true, 0, cut)
            &&& r.1 == cells_of(area, true, cut, area.height as int)
        }),
        r.0.within(area) && r.0.addressable(),
        r.1.within(area) && r.1.addressable(),
{
    let parts = [Extent::Length(header), Extent::Min(1)];
    proof {
        lemma_two(parts@);
        assert(grows_at(parts@, 1));
    }
    let rows = split_area(area, true, &parts);
    (rows[0], rows[1])
}

fn columns(area: Rect, left: u16) -> (r: (Rect, Rect))
    requires
        area.addressable(),
        left <= 100,
    ensures
        r.0 == slice_of(area, false, 0, left as int),
        r.1 == slice_of(area, false, left as int, 100),
        r.0.within(area) && r.0.addressable(),
        r.1.within(area) && r.1.addressable(),
{
    let parts = [Extent::Percentage(left), Extent::Percentage(100 - left)];
    proof {
        lemma_two(parts@);
        assert(are_shares(parts@));
    }
    let found = split_area(area, false, &parts);
    (found[0], found[1])
}

proof fn lemma_two(parts: Seq<Extent>)
    requires
        parts.len() == 2,
    ensures
        total(parts) == parts[0].number() + parts[1].number(),
        total(parts.take(0)) == 0,
        total(parts.take(1)) == parts[0].number(),
        total(parts.take(2)) == total(parts),
        total(parts.skip(1)) == parts[1].number(),
        total(parts.skip(2)) == 0,
{
    reveal_with_fuel(total, 3);
    assert(parts.take(2) =~= parts);
    assert(parts.drop_last() =~= parts.take(1));
    assert(parts.take(1).drop_last() =~= Seq::empty());
    assert(parts.skip(1).drop_last() =~= Seq::empty());
}

/// The areas of the list of projects and of the preview beside it.
pub fn projects_areas(area: Rect) -> (r: (Rect, Rect))
    requires
        area.addressable(),
    ensures
        r.0 == slice_of(area, false, 0, 38),
        r.1 == slice_of(area, false, 38, 100),
{
    columns(area, 38)
}

/// The areas of a project's details, and of its tasks and the preview below.
pub fn project_detail_areas(area: Rect) -> (r: (Rect, Rect, Rect))
    requires
        area.addressable(),
    ensures
        ({
            let cut = header_height(7, area.height as int);
            let body = cells_of(area, true, cut, area.height as int);
            &&& r.0 == cells_of(area, true, 0, cut)
            &&& r.1 == slice_of(body, false, 0, 42)
            &&& r.2 == slice_of(body, false, 42, 100)
        }),
{
    let (header, body) = below_header(area, 7);
    let (list, preview) = columns(body, 42);
    (header, list, preview)
}

/// The areas of a task's details and of its content below.
pub fn task_detail_areas(area: Rect) -> (r: (Rect, Rect))
    requires
        area.addressable(),
    ensures
        ({
            let cut = header_height(9, area.height as int);
            &&& r.0 == cells_of(area, true, 0, cut)
            &&& r.1 == cells_of(area, true, cut, area.height as int)
        }),
{
    below_header(area, 9)
}

/// Where the fields of a form of a task begin in a height, and where the last
/// one ends: the content, which is second, takes what the others leave.
pub open spec fn edit_borders(height: int) -> Seq<int> {
    seq![0, 3, height - 12, height - 9, height - 6, height - 3, height]
}

/// The areas of the fields of a form of a task, one below the other from its
/// first line to its last. In a form that is too low for all of them the content
/// has its least first, and the others have at most three lines; how these share
/// what remains is not said.
pub fn edit_areas(inner: Rect) -> (r: Vec<Rect>)
    requires
        inner.addressable(),
    ensures
        r@.len() == 6,
        forall|i: int|
            0 <= i < 6 ==> crosses(#[trigger] r@[i], inner, true) && r@[i].addressable(),
        follow(r@, inner, true),
        end_of(r@[5], true) == end_of(inner, true),
        inner.height < 21 ==> r@[1].height == min_int(6, inner.height as int),
        inner.height < 21 ==> forall|i: int|
            0 <= i < 6 && i != 1 ==> (#[trigger] r@[i]).height <= 3,
        inner.height >= 21 ==> forall|i: int|
            0 <= i < 6 ==> #[trigger] r@[i] == cells_of(
                inner,
                true,
                edit_borders(inner.height as int)[i],
                edit_borders(inner.height as int)[i + 1],
            ),
{
    let parts = [
        Extent::Length(3),
        Extent::Min(6),
        Extent::Length(3),
        Extent::Length(3),
        Extent::Length(3),
        Extent::Length(3),
    ];
    proof {
        lemma_edit_parts(parts@);
    }
    let r = split_area(inner, true, &parts);
    proof {
        assert forall|i: int| inner.height < 21 && 0 <= i < 6 && i != 1 implies (
        #[trigger] r@[i]).height <= 3 by {
            assert(extent_of(r@[i], true) <= parts@[i].number());
        }
        if inner.height >= 21 {
            let h = inner.height as int;
            assert forall|i: int| 0 <= i < 6 implies #[trigger] r@[i] == cells_of(
                inner,
                true,
                edit_borders(h)[i],
                edit_borders(h)[i + 1],
            ) by {
                assert(border(parts@, 1, h, i) == edit_borders(h)[i]);
                assert(border(parts@, 1, h, i + 1) == edit_borders(h)[i + 1]);
            }
        }
    }
    r
}

proof fn lemma_edit_parts(parts: Seq<Extent>)
    requires
        parts =~= seq![
            Extent::Length(3),
            Extent::Min(6),
            Extent::Length(3),
            Extent::Length(3),
            Extent::Length(3),
            Extent::Length(3),
        ],
    ensures
        grows_at(parts, 1),
        total(parts) == 21,
        total(parts.take(0)) == 0,
        total(parts.take(1)) == 3,
        forall|i: int| 2 <= i <= 6 ==> total(#[trigger] parts.skip(i)) == 3 * (6 - i),
{
    reveal_with_fuel(total, 7);
    assert(parts.take(1).drop_last() =~= Seq::empty());
    assert(parts.drop_last().drop_last().drop_last().drop_last().drop_last().drop_last()
        =~= Seq::empty());
    assert forall|i: int| 2 <= i <= 6 implies total(#[trigger] parts.skip(i)) == 3 * (6 - i) by {
        lemma_lengths(parts.skip(i), 3);
    }
}

proof fn lemma_lengths(parts: Seq<Extent>, n: u16)
    requires
        forall|i: int| 0 <= i < parts.len() ==> #[trigger] parts[i] == Extent::Length(n),
    ensures
        total(parts) == n * parts.len(),
    decreases parts.len(),
{
    if parts.len() > 0 {
        lemma_lengths(parts.drop_last(), n);
        assert(n * (parts.len() - 1) + n == n * parts.len()) by (nonlinear_arith);
    } else {
        assert(n * parts.len() == 0) by (nonlinear_arith)
            requires
                parts.len() == 0,
        ;
    }
}

/// Where the chat bar stands: near the bottom, with a margin to both sides.
pub open spec fn chat_bar_place(full: Rect) -> Rect {
    let margin: int = if full.width >= 4 {
        2
    } else {
        full.width as int / 2
    };
    Rect {
        x: (full.x + margin) as u16,
        y: (full.y + (if full.height >= 4 {
            full.height - 4
        } else {
            0
        })) as u16,
        width: (full.width - 2 * margin) as u16,
        height: (if full.height >= 3 {
            3
        } else {
            full.height as int
        }) as u16,
    }
}

/// Where the chat bar stands.
pub fn chat_bar_area(full: Rect) -> (r: Rect)
    requires
        full.addressable(),
    ensures
        r == chat_bar_place(full),
        r.within(full),
        r.addressable(),
{
    let margin: u16 = if full.width >= 4 {
        2
    } else {
        full.width / 2
    };
    Rect {
        x: full.x + margin,
        y: full.y + full.height.saturating_sub(4),
        width: full.width - margin * 2,
        height: if full.height >= 3 {
            3
        } else {
            full.height
        },
    }
}

/// Where a message stands in a form: on its last line.
pub open spec fn message_place(inner: Rect) -> Rect {
    Rect {
        x: inner.x,
        y: (inner.y + (if inner.height > 0 {
            inner.height - 1
        } else {
            0
        })) as u16,
        width: inner.width,
        height: 1,
    }
}

/// Where a message stands in a form.
pub fn message_area(inner: Rect) -> (r: Rect)
    requires
        inner.addressable(),
    ensures
        r == message_place(inner),
        inner.height > 0 ==> r.within(inner),
{
    Rect {
        x: inner.x,
        y: inner.y + inner.height.saturating_sub(1),
        width: inner.width,
        height: 1,
    }
}

/// A percentage of an extent is met to half a cell; none of it is nothing, and
/// all of it is the whole.
pub proof fn law_share(extent: int, percent: int)
    requires
        0 <= extent,
        0 <= percent <= 100,
    ensures
        -50 <= 100 * share(extent, percent) - extent * percent <= 50,
        share(extent, 0) == 0,
        share(extent, 100) == extent,
        0 <= share(extent, percent) <= extent,
{
    lemma_share(extent, 0, percent);
    lemma_share(extent, percent, 100);
    assert(extent * 0 == 0) by (nonlinear_arith);
    let cells = extent * percent;
    assert(-50 <= 100 * ((cells + 50) / 100) - cells <= 50);
}

/// Two parts of an area that share a border meet there, and the first and the
/// last begin and end with the area: nothing of it is lost and nothing is covered
/// twice.
pub proof fn law_slices_meet(area: Rect, along_height: bool, from: int, cut: int, to: int)
    requires
        area.addressable(),
        0 <= from <= cut <= to <= 100,
    ensures
        ({
            let first = slice_of(area, along_height, from, cut);
            let second = slice_of(area, along_height, cut, to);
            &&& end_of(first, along_height) == start_of(second, along_height)
            &&& crosses(first, area, along_height) && crosses(second, area, along_height)
            &&& from == 0 ==> start_of(first, along_height) == start_of(area, along_height)
            &&& to == 100 ==> end_of(second, along_height) == end_of(area, along_height)
        }),
{
    let extent = extent_of(area, along_height);
    lemma_share(extent, from, cut);
    lemma_share(extent, cut, to);
    law_share(extent, 0);
}

/// The rectangle in the middle has as much of the area to its left as to its
/// right, and as much above as below, to the cell and to the odd percent; and it
/// has the width and the height that it should, to the cell.
pub proof fn law_centered(percent_x: int, percent_y: int, area: Rect)
    requires
        area.addressable(),
        0 <= percent_x <= 100 && percent_x % 2 == 0,
        0 <= percent_y <= 100 && percent_y % 2 == 0,
    ensures
        ({
            let middle = centered(percent_x, percent_y, area);
            let left = middle.x - area.x;
            let right = area.x + area.width - middle.x - middle.width;
            let above = middle.y - area.y;
            let below = area.y + area.height - middle.y - middle.height;
            &&& middle.within(area)
            &&& -1 <= left - right <= 1
            &&& -1 <= above - below <= 1
            &&& -100 <= 100 * middle.width - area.width * percent_x <= 100
            &&& -100 <= 100 * middle.height - area.height * percent_y <= 100
        }),
{
    lemma_middle(area.width as int, percent_x);
    lemma_middle(area.height as int, percent_y);
}

proof fn lemma_middle(extent: int, percent: int)
    requires
        0 <= extent,
        0 <= percent <= 100,
        percent % 2 == 0,
    ensures
        ({
            let side = (100 - percent) / 2;
            let before = share(extent, side);
            let end = share(extent, side + percent);
            &&& 0 <= before <= end <= extent
            &&& -1 <= before - (extent - end) <= 1
            &&& -100 <= 100 * (end - before) - extent * percent <= 100
        }),
{
    let side = (100 - percent) / 2;
    lemma_share(extent, side, side + percent);
    law_share(extent, side);
    law_share(extent, side + percent);
    assert(extent * (side + percent) == extent * side + extent * percent) by (nonlinear_arith);
    assert(extent * (side + percent) == 100 * extent - extent * side) by (nonlinear_arith)
        requires
            side + percent == 100 - side,
    ;
}

/// A border takes one cell on every side.
pub proof fn law_border(area: Rect)
    requires
        area.addressable(),
        area.width >= 2,
        area.height >= 2,
    ensures
        area.inside().x == area.x + 1,
        area.inside().y == area.y + 1,
        area.inside().x + area.inside().width + 1 == area.x + area.width,
        area.inside().y + area.inside().height + 1 == area.y + area.height,
{
}

/// The chat bar is three lines high and leaves a line below it and two columns on
/// either side, where there is room; it never leaves the terminal.
pub proof fn law_chat_bar_place(full: Rect)
    requires
        full.addressable(),
    ensures
        chat_bar_place(full).within(full),
        full.height >= 4 ==> chat_bar_place(full).height == 3 && chat_bar_place(full).y + 4
            == full.y + full.height,
        full.width >= 4 ==> chat_bar_place(full).x == full.x + 2 && chat_bar_place(full).x
            + chat_bar_place(full).width + 2 == full.x + full.width,
{
}

/// A message stands on the last line of a form, over all of its width.
pub proof fn law_message_place(inner: Rect)
    requires
        inner.addressable(),
        inner.height > 0,
    ensures
        message_place(inner).y + 1 == inner.y + inner.height,
        message_place(inner).height == 1,
        message_place(inner).x == inner.x && message_place(inner).width == inner.width,
{
}

/// A footer never takes the only line, and a panel above another leaves it a
/// line.
pub proof fn law_main_part_is_seen(lines: int, height: int)
    requires
        0 <= lines,
        0 < height,
    ensures
        0 <= footer_height(height) < height,
        height >= 2 ==> footer_height(height) == 1,
        0 <= header_height(lines, height) < height,
        lines < height ==> header_height(lines, height) == lines,
{
}

} // verus!
