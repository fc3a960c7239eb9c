use vstd::prelude::*;

verus! {

/// Largest screen coordinate that any edge of a rectangle may reach.
pub const MAX_COORD: usize = 0x3fff_ffff;

/// A rectangle on the screen, with markers for a height or width that must not change.
#[derive(Clone, Copy, Debug, PartialEq, Eq, Structural)]
pub struct PositionAndSize {
    pub x: usize,
    pub y: usize,
    pub rows: usize,
    pub cols: usize,
    pub rows_fixed: bool,
    pub cols_fixed: bool,
}

/// A point on the screen: `line` counts rows from the top, `column` columns from the left.
#[derive(Clone, Copy, Debug, PartialEq, Eq, Structural)]
pub struct Position {
    pub line: usize,
    pub column: usize,
}

/// The two screen axes: `Horizontal` is measured by `x` and `cols`, `Vertical` by `y` and `rows`.
#[derive(Clone, Copy, Debug, PartialEq, Eq, Structural)]
pub enum Axis {
    Horizontal,
    Vertical,
}

/// One of the two edges of a rectangle along an axis: `Start` is left or top, `End` right or bottom.
#[derive(Clone, Copy, Debug, PartialEq, Eq, Structural)]
pub enum Edge {
    Start,
    End,
}

pub open spec fn perpendicular(a: Axis) -> Axis {
    match a {
        Axis::Horizontal => Axis::Vertical,
        Axis::Vertical => Axis::Horizontal,
    }
}

pub open spec fn opposite(e: Edge) -> Edge {
    match e {
        Edge::Start => Edge::End,
        Edge::End => Edge::Start,
    }
}

/// Coordinate of the first cell of `r` along `a`.
pub open spec fn start(r: PositionAndSize, a: Axis) -> int {
    match a {
        Axis::Horizontal => r.x as int,
        Axis::Vertical => r.y as int,
    }
}

/// Number of cells of `r` along `a`.
pub open spec fn extent(r: PositionAndSize, a: Axis) -> int {
    match a {
        Axis::Horizontal => r.cols as int,
        Axis::Vertical => r.rows as int,
    }
}

/// Coordinate just past the last cell of `r` along `a`.
pub open spec fn end(r: PositionAndSize, a: Axis) -> int {
    start(r, a) + extent(r, a)
}

pub open spec fn edge(r: PositionAndSize, a: Axis, e: Edge) -> int {
    match e {
        Edge::Start => start(r, a),
        Edge::End => end(r, a),
    }
}

/// Whether the size of `r` along `a` is fixed.
pub open spec fn is_fixed(r: PositionAndSize, a: Axis) -> bool {
    match a {
        Axis::Horizontal => r.cols_fixed,
        Axis::Vertical => r.rows_fixed,
    }
}

/// Every edge of `r` lies within the coordinate range.
pub open spec fn bounded(r: PositionAndSize) -> bool {
    r.x + r.cols <= MAX_COORD && r.y + r.rows <= MAX_COORD
}

/// `r` covers at least one cell.
pub open spec fn non_empty(r: PositionAndSize) -> bool {
    r.rows > 0 && r.cols > 0
}

/// The two rectangles share at least one cell.
pub open spec fn intersects(a: PositionAndSize, b: PositionAndSize) -> bool {
    &&& a.x < b.x + b.cols
    &&& b.x < a.x + a.cols
    &&& a.y < b.y + b.rows
    &&& b.y < a.y + a.rows
}

/// `r` with its edge `e` along `a` moved outward by `n` when `grow`, inward otherwise;
/// the opposite edge stays where it is.
pub open spec fn moved(r: PositionAndSize, a: Axis, e: Edge, grow: bool, n: int) -> PositionAndSize {
    let d = if grow { n } else { -n };
    match (a, e) {
        (Axis::Horizontal, Edge::End) => PositionAndSize { cols: (r.cols + d) as usize, ..r },
        (Axis::Horizontal, Edge::Start) => PositionAndSize {
            x: (r.x - d) as usize,
            cols: (r.cols + d) as usize,
            ..r
        },
        (Axis::Vertical, Edge::End) => PositionAndSize { rows: (r.rows + d) as usize, ..r },
        (Axis::Vertical, Edge::Start) => PositionAndSize {
            y: (r.y - d) as usize,
            rows: (r.rows + d) as usize,
            ..r
        },
    }
}

/// The change that `moved` makes can be made: no coordinate leaves the range.
pub open spec fn can_move(r: PositionAndSize, a: Axis, e: Edge, grow: bool, n: int) -> bool {
    &&& n >= 0
    &&& bounded(r)
    &&& (grow && e == Edge::End) ==> end(r, a) + n <= MAX_COORD
    &&& (grow && e == Edge::Start) ==> start(r, a) >= n
    &&& !grow ==> extent(r, a) >= n
}

pub fn perpendicular_of(a: Axis) -> (r: Axis)
    ensures
        r == perpendicular(a),
{
    match a {
        Axis::Horizontal => Axis::Vertical,
        Axis::Vertical => Axis::Horizontal,
    }
}

pub fn opposite_of(e: Edge) -> (r: Edge)
    ensures
        r == opposite(e),
{
    match e {
        Edge::Start => Edge::End,
        Edge::End => Edge::Start,
    }
}

impl PositionAndSize {
    /// A rectangle without fixed markers.
    pub fn new(x: usize, y: usize, rows: usize, cols: usize) -> (r: PositionAndSize)
        ensures
            r == (PositionAndSize { x, y, rows, cols, rows_fixed: false, cols_fixed: false }),
    {
        PositionAndSize { x, y, rows, cols, rows_fixed: false, cols_fixed: false }
    }

    pub fn start_along(&self, a: Axis) -> (r: usize)
        ensures
            r == start(*self, a),
    {
        match a {
            Axis::Horizontal => self.x,
            Axis::Vertical => self.y,
        }
    }

    pub fn extent_along(&self, a: Axis) -> (r: usize)
        ensures
            r == extent(*self, a),
    {
        match a {
            Axis::Horizontal => self.cols,
            Axis::Vertical => self.rows,
        }
    }

    pub fn end_along(&self, a: Axis) -> (r: usize)
        requires
            bounded(*self),
        ensures
            r == end(*self, a),
    {
        match a {
            Axis::Horizontal => self.x + self.cols,
            Axis::Vertical => self.y + self.rows,
        }
    }

    pub fn edge_along(&self, a: Axis, e: Edge) -> (r: usize)
        requires
            bounded(*self),
        ensures
            r == edge(*self, a, e),
    {
        match e {
            Edge::Start => self.start_along(a),
            Edge::End => self.end_along(a),
        }
    }

    pub fn fixed_along(&self, a: Axis) -> (r: bool)
        ensures
            r == is_fixed(*self, a),
    {
        match a {
            Axis::Horizontal => self.cols_fixed,
            Axis::Vertical => self.rows_fixed,
        }
    }

    /// This rectangle with edge `e` along `a` moved outward (`grow`) or inward by `n`.
    pub fn move_edge(&self, a: Axis, e: Edge, grow: bool, n: usize) -> (r: PositionAndSize)
        requires
            can_move(*self, a, e, grow, n as int),
        ensures
            r == moved(*self, a, e, grow, n as int),
    {
        let mut r = *self;
        match (a, e) {
            (Axis::Horizontal, Edge::End) => {
                r.cols = if grow { self.cols + n } else { self.cols - n };
            },
            (Axis::Horizontal, Edge::Start) => {
                if grow {
                    r.x = self.x - n;
                    r.cols = self.cols + n;
                } else {
                    r.x = self.x + n;
                    r.cols = self.cols - n;
                }
            },
            (Axis::Vertical, Edge::End) => {
                r.rows = if grow { self.rows + n } else { self.rows - n };
            },
            (Axis::Vertical, Edge::Start) => {
                if grow {
                    r.y = self.y - n;
                    r.rows = self.rows + n;
                } else {
                    r.y = self.y + n;
                    r.rows = self.rows - n;
                }
            },
        }
        r
    }

    /// Whether the point lies inside this rectangle.
    pub fn contains(&self, point: &Position) -> (r: bool)
        requires
            bounded(*self),
        ensures
            r == (self.x <= point.column < self.x + self.cols && self.y <= point.line < self.y
                + self.rows),
    {
        self.x <= point.column && point.column < self.x + self.cols && self.y <= point.line
            && point.line < self.y + self.rows
    }
}

impl Position {
    /// This point in the coordinates of `rect`, whose top left cell becomes (0, 0).
    pub fn relative_to(&self, rect: &PositionAndSize) -> (r: Position)
        ensures
            r.line == if self.line >= rect.y { self.line - rect.y } else { 0 },
            r.column == if self.column >= rect.x { self.column - rect.x } else { 0 },
    {
        Position {
            line: if self.line >= rect.y { self.line - rect.y } else { 0 },
            column: if self.column >= rect.x { self.column - rect.x } else { 0 },
        }
    }
}

/// Splits a rectangle into a left and a right half; when the width is odd the left half takes
/// the extra column.
pub fn split_vertically(rect: &PositionAndSize) -> (r: (PositionAndSize, PositionAndSize))
    requires
        bounded(*rect),
    ensures
        r.0 == (PositionAndSize { cols: (rect.cols - rect.cols / 2) as usize, ..*rect }),
        r.1 == (PositionAndSize {
            x: (rect.x + rect.cols - rect.cols / 2) as usize,
            cols: (rect.cols / 2) as usize,
            ..*rect
        }),
{
    let width_of_each_half = rect.cols / 2;
    let mut first_rect = *rect;
    let mut second_rect = *rect;
    if rect.cols % 2 == 0 {
        first_rect.cols = width_of_each_half;
    } else {
        first_rect.cols = width_of_each_half + 1;
    }
    second_rect.x = first_rect.x + first_rect.cols;
    second_rect.cols = width_of_each_half;
    (first_rect, second_rect)
}

/// Splits a rectangle into a top and a bottom half; when the height is odd the top half takes
/// the extra row.
pub fn split_horizontally(rect: &PositionAndSize) -> (r: (PositionAndSize, PositionAndSize))
    requires
        bounded(*rect),
    ensures
        r.0 == (PositionAndSize { rows: (rect.rows - rect.rows / 2) as usize, ..*rect }),
        r.1 == (PositionAndSize {
            y: (rect.y + rect.rows - rect.rows / 2) as usize,
            rows: (rect.rows / 2) as usize,
            ..*rect
        }),
{
    let height_of_each_half = rect.rows / 2;
    let mut first_rect = *rect;
    let mut second_rect = *rect;
    if rect.rows % 2 == 0 {
        first_rect.rows = height_of_each_half;
    } else {
        first_rect.rows = height_of_each_half + 1;
    }
    second_rect.y = first_rect.y + first_rect.rows;
    second_rect.rows = height_of_each_half;
    (first_rect, second_rect)
}

/// Columns and rows that a frameless pane keeps free for the line between it and its
/// neighbours: one on each side that does not reach the viewport's right or bottom edge.
pub open spec fn content_offset(rect: PositionAndSize, viewport: PositionAndSize) -> (usize, usize) {
    (
        if rect.x + rect.cols < viewport.x + viewport.cols { 1 } else { 0 },
        if rect.y + rect.rows < viewport.y + viewport.rows { 1 } else { 0 },
    )
}

/// `(columns_offset, rows_offset)` of a frameless pane at `position_and_size`.
pub fn pane_content_offset(position_and_size: &PositionAndSize, viewport: &PositionAndSize) -> (r: (
    usize,
    usize,
))
    requires
        bounded(*position_and_size),
        bounded(*viewport),
    ensures
        r == content_offset(*position_and_size, *viewport),
{
    let columns_offset: usize = if position_and_size.x + position_and_size.cols < viewport.x + viewport.cols {
        1
    } else {
        0
    };
    let rows_offset: usize = if position_and_size.y + position_and_size.rows < viewport.y + viewport.rows {
        1
    } else {
        0
    };
    (columns_offset, rows_offset)
}

} // verus!
