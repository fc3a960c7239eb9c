use vstd::prelude::*;
use crate::geometry::{bounded, content_offset, edge, end, extent, is_fixed, non_empty, start, Axis, Position, PositionAndSize};

verus! {

pub const MIN_TERMINAL_HEIGHT: usize = 5;

pub const MIN_TERMINAL_WIDTH: usize = 5;

/// Identity of a pane: the handle of the terminal process or of the plugin behind it.
#[derive(Clone, Copy, Debug, PartialEq, Eq, Structural)]
pub enum PaneId {
    Terminal(i32),
    Plugin(u32),
}

/// Position of an identity in the registry order: every terminal comes before every plugin,
/// and within a kind the smaller handle comes first.
pub open spec fn id_rank(id: PaneId) -> int {
    match id {
        PaneId::Terminal(n) => n as int,
        PaneId::Plugin(n) => 0x1_0000_0000 + n as int,
    }
}

/// Whether `a` comes strictly before `b` in the registry order.
pub fn id_precedes(a: PaneId, b: PaneId) -> (r: bool)
    ensures
        r == (id_rank(a) < id_rank(b)),
{
    match (a, b) {
        (PaneId::Terminal(x), PaneId::Terminal(y)) => x < y,
        (PaneId::Terminal(_), PaneId::Plugin(_)) => true,
        (PaneId::Plugin(_), PaneId::Terminal(_)) => false,
        (PaneId::Plugin(x), PaneId::Plugin(y)) => x < y,
    }
}

/// How a pane draws its own border.
#[derive(Clone, Copy, Debug, PartialEq, Eq, Structural)]
pub enum Frame {
    /// No frame: the border lines between panes are drawn by the tab.
    Hidden,
    /// A frame on all four sides.
    Full,
    /// Only a title line on top.
    TitleOnly,
}

/// One tileable surface of a tab: a terminal or a plugin, with its place on the screen.
#[derive(Clone, Copy, Debug)]
pub struct Pane {
    pub id: PaneId,
    pub position_and_size: PositionAndSize,
    /// Where the pane is shown instead of `position_and_size`, while it is set (fullscreen).
    pub position_and_size_override: Option<PositionAndSize>,
    pub selectable: bool,
    pub invisible_borders: bool,
    pub frame: Frame,
    pub content_offset_cols: usize,
    pub content_offset_rows: usize,
    /// Tick of the tab's clock at which the pane was last shown as the active one.
    pub active_at: u64,
    pub should_render: bool,
    /// Number shown in the pane's title.
    pub title_position: usize,
}

/// A pane's rectangles lie in the coordinate range and its own one covers at least one cell.
pub open spec fn pane_ok(p: Pane) -> bool {
    &&& bounded(p.position_and_size)
    &&& non_empty(p.position_and_size)
    &&& p.position_and_size_override matches Some(o) ==> bounded(o)
}

/// The rectangle the pane is shown in.
pub open spec fn shown_rect(p: Pane) -> PositionAndSize {
    match p.position_and_size_override {
        Some(o) => o,
        None => p.position_and_size,
    }
}

/// Smallest size along `a` of a pane at `r`: its current size where that is fixed.
pub open spec fn min_extent_of(r: PositionAndSize, a: Axis) -> int {
    if is_fixed(r, a) {
        extent(r, a)
    } else {
        match a {
            Axis::Horizontal => MIN_TERMINAL_WIDTH as int,
            Axis::Vertical => MIN_TERMINAL_HEIGHT as int,
        }
    }
}

/// Smallest size of the pane along `a`.
pub open spec fn min_extent(p: Pane, a: Axis) -> int {
    min_extent_of(p.position_and_size, a)
}

/// Largest size of the pane along `a`, if it has one: its current size where that is fixed.
pub open spec fn max_extent(p: Pane, a: Axis) -> Option<int> {
    if is_fixed(p.position_and_size, a) {
        Some(extent(p.position_and_size, a))
    } else {
        None
    }
}

/// The pane may grow by `n` along `a` without passing its largest size.
pub open spec fn can_grow(p: Pane, a: Axis, n: int) -> bool {
    match max_extent(p, a) {
        Some(m) => extent(p.position_and_size, a) + n <= m,
        None => true,
    }
}

/// The pane may shrink by `n` along `a` and keep its smallest size and at least one cell.
pub open spec fn can_shrink(p: Pane, a: Axis, n: int) -> bool {
    extent(p.position_and_size, a) > n && extent(p.position_and_size, a) - n >= min_extent(p, a)
}

/// The pane is at least as large as its smallest size along both axes.
pub open spec fn has_min_size(p: Pane) -> bool {
    &&& extent(p.position_and_size, Axis::Horizontal) >= min_extent(p, Axis::Horizontal)
    &&& extent(p.position_and_size, Axis::Vertical) >= min_extent(p, Axis::Vertical)
}

/// Cells taken from a size by a frame or by a content offset.
pub open spec fn less(a: int, b: int) -> int {
    if a > b {
        a - b
    } else {
        0
    }
}

/// Columns of the pane that its content can use.
pub open spec fn content_columns(p: Pane) -> int {
    let cols = shown_rect(p).cols as int;
    match p.frame {
        Frame::Full => less(cols, 2),
        Frame::TitleOnly => cols,
        Frame::Hidden => less(cols, p.content_offset_cols as int),
    }
}

/// Rows of the pane that its content can use.
pub open spec fn content_rows(p: Pane) -> int {
    let rows = shown_rect(p).rows as int;
    match p.frame {
        Frame::Full => less(rows, 2),
        Frame::TitleOnly => less(rows, 1),
        Frame::Hidden => less(rows, p.content_offset_rows as int),
    }
}

/// `p` placed at `rect`, with the content offsets of a frameless pane worked out again.
pub open spec fn placed(p: Pane, rect: PositionAndSize, viewport: PositionAndSize, frames: bool) -> Pane {
    if frames {
        Pane { position_and_size: rect, ..p }
    } else {
        Pane {
            position_and_size: rect,
            content_offset_cols: content_offset(rect, viewport).0,
            content_offset_rows: content_offset(rect, viewport).1,
            ..p
        }
    }
}

impl Pane {
    /// A new selectable pane at `rect`, drawn without a frame.
    pub fn new(id: PaneId, rect: PositionAndSize, title_position: usize) -> (r: Pane)
        ensures
            r.id == id,
            r.position_and_size == rect,
            r.position_and_size_override is None,
            r.selectable,
            !r.invisible_borders,
            r.frame == Frame::Hidden,
            r.content_offset_cols == 0,
            r.content_offset_rows == 0,
            r.active_at == 0,
            r.should_render,
            r.title_position == title_position,
    {
        Pane {
            id,
            position_and_size: rect,
            position_and_size_override: None,
            selectable: true,
            invisible_borders: false,
            frame: Frame::Hidden,
            content_offset_cols: 0,
            content_offset_rows: 0,
            active_at: 0,
            should_render: true,
            title_position,
        }
    }

    pub fn x(&self) -> (r: usize)
        ensures
            r == self.position_and_size.x,
    {
        self.position_and_size.x
    }

    pub fn y(&self) -> (r: usize)
        ensures
            r == self.position_and_size.y,
    {
        self.position_and_size.y
    }

    pub fn rows(&self) -> (r: usize)
        ensures
            r == self.position_and_size.rows,
    {
        self.position_and_size.rows
    }

    pub fn columns(&self) -> (r: usize)
        ensures
            r == self.position_and_size.cols,
    {
        self.position_and_size.cols
    }

    pub fn min_width(&self) -> (r: usize)
        ensures
            r == min_extent(*self, Axis::Horizontal),
    {
        if self.position_and_size.cols_fixed {
            self.position_and_size.cols
        } else {
            MIN_TERMINAL_WIDTH
        }
    }

    pub fn min_height(&self) -> (r: usize)
        ensures
            r == min_extent(*self, Axis::Vertical),
    {
        if self.position_and_size.rows_fixed {
            self.position_and_size.rows
        } else {
            MIN_TERMINAL_HEIGHT
        }
    }

    pub fn max_width(&self) -> (r: Option<usize>)
        ensures
            r matches Some(m) ==> max_extent(*self, Axis::Horizontal) == Some(m as int),
            r is None ==> max_extent(*self, Axis::Horizontal) is None,
    {
        if self.position_and_size.cols_fixed {
            Some(self.position_and_size.cols)
        } else {
            None
        }
    }

    pub fn max_height(&self) -> (r: Option<usize>)
        ensures
            r matches Some(m) ==> max_extent(*self, Axis::Vertical) == Some(m as int),
            r is None ==> max_extent(*self, Axis::Vertical) is None,
    {
        if self.position_and_size.rows_fixed {
            Some(self.position_and_size.rows)
        } else {
            None
        }
    }

    pub fn min_along(&self, a: Axis) -> (r: usize)
        ensures
            r == min_extent(*self, a),
    {
        match a {
            Axis::Horizontal => self.min_width(),
            Axis::Vertical => self.min_height(),
        }
    }

    /// Whether the pane may grow by `n` along `a`.
    pub fn can_increase_by(&self, a: Axis, n: usize) -> (r: bool)
        requires
            pane_ok(*self),
            n <= crate::geometry::MAX_COORD,
        ensures
            r == can_grow(*self, a, n as int),
    {
        let max = match a {
            Axis::Horizontal => self.max_width(),
            Axis::Vertical => self.max_height(),
        };
        match max {
            Some(m) => self.position_and_size.extent_along(a) + n <= m,
            None => true,
        }
    }

    /// Whether the pane may shrink by `n` along `a`.
    pub fn can_reduce_by(&self, a: Axis, n: usize) -> (r: bool)
        ensures
            r == can_shrink(*self, a, n as int),
    {
        let len = self.position_and_size.extent_along(a);
        len > n && len - n >= self.min_along(a)
    }

    pub fn can_increase_height_by(&self, increase_by: usize) -> (r: bool)
        requires
            pane_ok(*self),
            increase_by <= crate::geometry::MAX_COORD,
        ensures
            r == can_grow(*self, Axis::Vertical, increase_by as int),
    {
        self.can_increase_by(Axis::Vertical, increase_by)
    }

    pub fn can_increase_width_by(&self, increase_by: usize) -> (r: bool)
        requires
            pane_ok(*self),
            increase_by <= crate::geometry::MAX_COORD,
        ensures
            r == can_grow(*self, Axis::Horizontal, increase_by as int),
    {
        self.can_increase_by(Axis::Horizontal, increase_by)
    }

    pub fn can_reduce_height_by(&self, reduce_by: usize) -> (r: bool)
        ensures
            r == can_shrink(*self, Axis::Vertical, reduce_by as int),
    {
        self.can_reduce_by(Axis::Vertical, reduce_by)
    }

    pub fn can_reduce_width_by(&self, reduce_by: usize) -> (r: bool)
        ensures
            r == can_shrink(*self, Axis::Horizontal, reduce_by as int),
    {
        self.can_reduce_by(Axis::Horizontal, reduce_by)
    }

    pub fn right_boundary_x_coords(&self) -> (r: usize)
        requires
            pane_ok(*self),
        ensures
            r == self.position_and_size.x + self.position_and_size.cols,
    {
        self.position_and_size.x + self.position_and_size.cols
    }

    pub fn bottom_boundary_y_coords(&self) -> (r: usize)
        requires
            pane_ok(*self),
        ensures
            r == self.position_and_size.y + self.position_and_size.rows,
    {
        self.position_and_size.y + self.position_and_size.rows
    }

    /// This pane's left edge is `other`'s right edge.
    pub fn is_directly_right_of(&self, other: &Pane) -> (r: bool)
        requires
            pane_ok(*other),
        ensures
            r == (start(self.position_and_size, Axis::Horizontal) == end(
                other.position_and_size,
                Axis::Horizontal,
            )),
    {
        self.x() == other.x() + other.columns()
    }

    /// This pane's right edge is `other`'s left edge.
    pub fn is_directly_left_of(&self, other: &Pane) -> (r: bool)
        requires
            pane_ok(*self),
        ensures
            r == (end(self.position_and_size, Axis::Horizontal) == start(
                other.position_and_size,
                Axis::Horizontal,
            )),
    {
        self.x() + self.columns() == other.x()
    }

    /// This pane's top edge is `other`'s bottom edge.
    pub fn is_directly_below(&self, other: &Pane) -> (r: bool)
        requires
            pane_ok(*other),
        ensures
            r == (start(self.position_and_size, Axis::Vertical) == end(
                other.position_and_size,
                Axis::Vertical,
            )),
    {
        self.y() == other.y() + other.rows()
    }

    /// This pane's bottom edge is `other`'s top edge.
    pub fn is_directly_above(&self, other: &Pane) -> (r: bool)
        requires
            pane_ok(*self),
        ensures
            r == (end(self.position_and_size, Axis::Vertical) == start(
                other.position_and_size,
                Axis::Vertical,
            )),
    {
        self.y() + self.rows() == other.y()
    }

    /// The two panes share at least one row, or one of them spans the other's rows.
    pub fn horizontally_overlaps_with(&self, other: &Pane) -> (r: bool)
        requires
            pane_ok(*self),
            pane_ok(*other),
        ensures
            r == spans_overlap(*self, *other, Axis::Vertical),
    {
        let (sy, sr, oy, or) = (self.y(), self.rows(), other.y(), other.rows());
        (sy >= oy && sy < oy + or) || (sy + sr <= oy + or && sy + sr > oy) || (sy <= oy && sy + sr
            >= oy + or) || (oy <= sy && oy + or >= sy + sr)
    }

    /// Number of rows that the two panes share.
    pub fn get_horizontal_overlap_with(&self, other: &Pane) -> (r: usize)
        requires
            pane_ok(*self),
            pane_ok(*other),
            spans_overlap(*self, *other, Axis::Vertical),
        ensures
            r == shared_span(*self, *other, Axis::Vertical),
    {
        let low = if self.y() > other.y() { self.y() } else { other.y() };
        let high = if self.y() + self.rows() < other.y() + other.rows() {
            self.y() + self.rows()
        } else {
            other.y() + other.rows()
        };
        if high > low { high - low } else { 0 }
    }

    /// The two panes share at least one column, or one of them spans the other's columns.
    pub fn vertically_overlaps_with(&self, other: &Pane) -> (r: bool)
        requires
            pane_ok(*self),
            pane_ok(*other),
        ensures
            r == spans_overlap(*self, *other, Axis::Horizontal),
    {
        let (sx, sc, ox, oc) = (self.x(), self.columns(), other.x(), other.columns());
        (sx >= ox && sx < ox + oc) || (sx + sc <= ox + oc && sx + sc > ox) || (sx <= ox && sx + sc
            >= ox + oc) || (ox <= sx && ox + oc >= sx + sc)
    }

    /// Number of columns that the two panes share.
    pub fn get_vertical_overlap_with(&self, other: &Pane) -> (r: usize)
        requires
            pane_ok(*self),
            pane_ok(*other),
            spans_overlap(*self, *other, Axis::Horizontal),
        ensures
            r == shared_span(*self, *other, Axis::Horizontal),
    {
        let low = if self.x() > other.x() { self.x() } else { other.x() };
        let high = if self.x() + self.columns() < other.x() + other.columns() {
            self.x() + self.columns()
        } else {
            other.x() + other.columns()
        };
        if high > low { high - low } else { 0 }
    }

    /// Whether the point lies in the rectangle the pane is shown in.
    pub fn contains(&self, position: &Position) -> (r: bool)
        requires
            pane_ok(*self),
        ensures
            r == (shown_rect(*self).x <= position.column < shown_rect(*self).x + shown_rect(
                *self,
            ).cols && shown_rect(*self).y <= position.line < shown_rect(*self).y + shown_rect(
                *self,
            ).rows),
    {
        match &self.position_and_size_override {
            Some(position_and_size) => position_and_size.contains(position),
            None => self.position_and_size.contains(position),
        }
    }

    /// The point in the coordinates of the rectangle the pane is shown in.
    pub fn relative_position(&self, position: &Position) -> (r: Position)
        ensures
            r.line == less(position.line as int, shown_rect(*self).y as int),
            r.column == less(position.column as int, shown_rect(*self).x as int),
    {
        match &self.position_and_size_override {
            Some(position_and_size) => position.relative_to(position_and_size),
            None => position.relative_to(&self.position_and_size),
        }
    }

    pub fn get_content_columns(&self) -> (r: usize)
        ensures
            r == content_columns(*self),
    {
        let cols = match &self.position_and_size_override {
            Some(o) => o.cols,
            None => self.position_and_size.cols,
        };
        match self.frame {
            Frame::Full => if cols > 2 { cols - 2 } else { 0 },
            Frame::TitleOnly => cols,
            Frame::Hidden => if cols > self.content_offset_cols {
                cols - self.content_offset_cols
            } else {
                0
            },
        }
    }

    pub fn get_content_rows(&self) -> (r: usize)
        ensures
            r == content_rows(*self),
    {
        let rows = match &self.position_and_size_override {
            Some(o) => o.rows,
            None => self.position_and_size.rows,
        };
        match self.frame {
            Frame::Full => if rows > 2 { rows - 2 } else { 0 },
            Frame::TitleOnly => if rows > 1 { rows - 1 } else { 0 },
            Frame::Hidden => if rows > self.content_offset_rows {
                rows - self.content_offset_rows
            } else {
                0
            },
        }
    }

    pub fn show_boundaries_frame(&mut self, render_only_title: bool)
        ensures
            *final(self) == (Pane {
                frame: if render_only_title { Frame::TitleOnly } else { Frame::Full },
                content_offset_cols: 0,
                content_offset_rows: 0,
                ..*old(self)
            }),
    {
        self.frame = if render_only_title { Frame::TitleOnly } else { Frame::Full };
        self.content_offset_cols = 0;
        self.content_offset_rows = 0;
    }

    pub fn remove_boundaries_frame(&mut self)
        ensures
            *final(self) == (Pane { frame: Frame::Hidden, ..*old(self) }),
    {
        self.frame = Frame::Hidden;
    }

    pub fn offset_content_columns(&mut self, by: usize)
        ensures
            *final(self) == (Pane { content_offset_cols: by, ..*old(self) }),
    {
        self.content_offset_cols = by;
    }

    pub fn offset_content_rows(&mut self, by: usize)
        ensures
            *final(self) == (Pane { content_offset_rows: by, ..*old(self) }),
    {
        self.content_offset_rows = by;
    }

    pub fn change_pos_and_size(&mut self, position_and_size: &PositionAndSize)
        ensures
            *final(self) == (Pane { position_and_size: *position_and_size, ..*old(self) }),
    {
        self.position_and_size = *position_and_size;
    }

    pub fn override_size_and_position(&mut self, x: usize, y: usize, size: &PositionAndSize)
        ensures
            *final(self) == (Pane {
                position_and_size_override: Some(PositionAndSize { x, y, ..*size }),
                ..*old(self)
            }),
    {
        self.position_and_size_override = Some(PositionAndSize { x, y, ..*size });
    }

    pub fn reset_size_and_position_override(&mut self)
        ensures
            *final(self) == (Pane { position_and_size_override: None, ..*old(self) }),
    {
        self.position_and_size_override = None;
    }
}

/// The spans of the two panes along `a` share a cell, or one of them contains the other.
pub open spec fn spans_overlap(p: Pane, q: Pane, a: Axis) -> bool {
    let (ps, pe) = (start(p.position_and_size, a), end(p.position_and_size, a));
    let (qs, qe) = (start(q.position_and_size, a), end(q.position_and_size, a));
    (ps >= qs && ps < qe) || (pe <= qe && pe > qs) || (ps <= qs && pe >= qe) || (qs <= ps && qe
        >= pe)
}

/// Number of cells shared by the spans of the two panes along `a`.
pub open spec fn shared_span(p: Pane, q: Pane, a: Axis) -> int {
    let low = if start(p.position_and_size, a) > start(q.position_and_size, a) {
        start(p.position_and_size, a)
    } else {
        start(q.position_and_size, a)
    };
    let high = if end(p.position_and_size, a) < end(q.position_and_size, a) {
        end(p.position_and_size, a)
    } else {
        end(q.position_and_size, a)
    };
    less(high, low)
}

} // verus!
