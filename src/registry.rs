use vstd::prelude::*;
use crate::geometry::{Position, PositionAndSize, MAX_COORD};
use crate::pane::{less, pane_ok, shown_rect, Pane, PaneId};
use crate::focus::same_tiling;
use crate::tab::{has_id, index_of, pane_map, rect_map, Signal, Tab};

verus! {

/// The point lies in the rectangle the pane is shown in.
pub open spec fn shows_point(p: Pane, point: Position) -> bool {
    let r = shown_rect(p);
    r.x <= point.column < r.x + r.cols && r.y <= point.line < r.y + r.rows
}

/// The pane under `point`: the active one while fullscreen is on, else the first selectable
/// pane in the registry that shows the point.
pub open spec fn pane_id_at(t: &Tab, point: Position) -> Option<PaneId> {
    if t.fullscreen_is_active {
        t.active_terminal
    } else if exists|j: int| 0 <= j < t.panes@.len() && first_at(t.panes@, point, j) {
        Some(t.panes@[choose|j: int| 0 <= j < t.panes@.len() && first_at(t.panes@, point, j)].id)
    } else {
        None
    }
}

/// The pane at `j` is the first selectable pane that shows `point`.
pub open spec fn first_at(s: Seq<Pane>, point: Position, j: int) -> bool {
    &&& 0 <= j < s.len()
    &&& s[j].selectable
    &&& shows_point(s[j], point)
    &&& forall|k: int| 0 <= k < j ==> !(#[trigger] s[k].selectable && shows_point(s[k], point))
}

/// The last selectable pane among `ids`, which all name panes of `s`.
pub open spec fn last_selectable(s: Seq<Pane>, ids: Seq<PaneId>, k: int) -> bool {
    &&& 0 <= k < ids.len()
    &&& has_id(s, ids[k])
    &&& s[index_of(s, ids[k])].selectable
    &&& forall|m: int|
        k < m < ids.len() && has_id(s, #[trigger] ids[m]) ==> !s[index_of(s, ids[m])].selectable
}

/// `point` in the coordinates of the rectangle that `p` is shown in.
pub open spec fn relative_in(p: Pane, point: Position) -> Position {
    Position {
        line: less(point.line as int, shown_rect(p).y as int) as usize,
        column: less(point.column as int, shown_rect(p).x as int) as usize,
    }
}

/// The signal hands `bytes` to the pane `id`.
pub open spec fn writes(sig: Signal, id: PaneId, bytes: Seq<u8>) -> bool {
    sig matches Signal::WriteToPane(x, b) && x == id && b@ == bytes
}

/// The viewport once the borderless region `rect` is taken from it: a region as wide as the
/// viewport on its top or bottom edge takes its rows, one as tall as the viewport on its left or
/// right edge takes its columns.
pub open spec fn viewport_after_offset(vp: PositionAndSize, rect: PositionAndSize) -> PositionAndSize {
    let v1 = if rect.x == vp.x && rect.x + rect.cols == vp.x + vp.cols {
        if rect.y == vp.y && rect.rows <= vp.rows {
            PositionAndSize { y: (vp.y + rect.rows) as usize, rows: (vp.rows - rect.rows) as usize, ..vp }
        } else if rect.y + rect.rows == vp.y + vp.rows && rect.rows <= vp.rows {
            PositionAndSize { rows: (vp.rows - rect.rows) as usize, ..vp }
        } else {
            vp
        }
    } else {
        vp
    };
    if rect.y == v1.y && rect.y + rect.rows == v1.y + v1.rows {
        if rect.x == v1.x && rect.cols <= v1.cols {
            PositionAndSize { x: (v1.x + rect.cols) as usize, cols: (v1.cols - rect.cols) as usize, ..v1 }
        } else if rect.x + rect.cols == v1.x + v1.cols && rect.cols <= v1.cols {
            PositionAndSize { cols: (v1.cols - rect.cols) as usize, ..v1 }
        } else {
            v1
        }
    } else {
        v1
    }
}

impl Tab {
    pub fn get_active_pane_id(&self) -> (r: Option<PaneId>)
        ensures
            r == self.active_terminal,
    {
        self.active_terminal
    }

    /// The active pane.
    pub fn get_active_pane(&self) -> (r: Option<Pane>)
        requires
            self.wf(),
        ensures
            r matches Some(p) ==> self.active_terminal == Some(p.id) && pane_map(self.panes@)[p.id] == p,
            r is None ==> self.active_terminal is None,
    {
        match self.active_terminal {
            Some(id) => match self.find(id) {
                Some(i) => Some(self.panes[i]),
                None => None,
            },
            None => None,
        }
    }

    /// The process handle of the active pane when it is a terminal.
    pub fn get_active_terminal_id(&self) -> (r: Option<i32>)
        ensures
            r matches Some(pid) ==> self.active_terminal == Some(PaneId::Terminal(pid)),
            r is None ==> !(self.active_terminal matches Some(PaneId::Terminal(_))),
    {
        match self.active_terminal {
            Some(PaneId::Terminal(pid)) => Some(pid),
            _ => None,
        }
    }

    pub fn has_terminal_pid(&self, pid: i32) -> (r: bool)
        requires
            self.wf(),
        ensures
            r == has_id(self.panes@, PaneId::Terminal(pid)),
    {
        self.find(PaneId::Terminal(pid)).is_some()
    }

    pub fn is_sync_panes_active(&self) -> (r: bool)
        ensures
            r == self.synchronize_is_active,
    {
        self.synchronize_is_active
    }

    pub fn toggle_sync_panes_is_active(&mut self)
        ensures
            final(self).synchronize_is_active == !old(self).synchronize_is_active,
            final(self).panes == old(self).panes,
            final(self).active_terminal == old(self).active_terminal,
    {
        self.synchronize_is_active = !self.synchronize_is_active;
    }

    /// Queues `input_bytes` for the pane `pane_id`, if it is there.
    pub fn write_to_pane_id(&mut self, input_bytes: Vec<u8>, pane_id: PaneId)
        requires
            old(self).wf(),
        ensures
            final(self).wf(),
            final(self).panes == old(self).panes,
            final(self).same_settings(old(self)),
            has_id(old(self).panes@, pane_id) ==> final(self).signals@ == old(self).signals@.push(
                Signal::WriteToPane(pane_id, input_bytes),
            ),
            !has_id(old(self).panes@, pane_id) ==> final(self).signals@ == old(self).signals@,
    {
        if self.find(pane_id).is_some() {
            self.signals.push(Signal::WriteToPane(pane_id, input_bytes));
        }
    }

    /// Queues `input_bytes` for the active pane.
    pub fn write_to_active_terminal(&mut self, input_bytes: Vec<u8>)
        requires
            old(self).wf(),
        ensures
            final(self).wf(),
            final(self).panes == old(self).panes,
            old(self).active_terminal matches Some(id) ==> final(self).signals@ == old(self).signals@.push(
                Signal::WriteToPane(id, input_bytes),
            ),
            old(self).active_terminal is None ==> final(self).signals@ == old(self).signals@,
    {
        if let Some(id) = self.active_terminal {
            self.write_to_pane_id(input_bytes, id);
        }
    }

    /// Queues `input_bytes` for every pane.
    pub fn write_to_terminals_on_current_tab(&mut self, input_bytes: Vec<u8>)
        requires
            old(self).wf(),
        ensures
            final(self).wf(),
            final(self).panes == old(self).panes,
            final(self).signals@.len() == old(self).signals@.len() + old(self).panes@.len(),
            forall|k: int| 0 <= k < old(self).panes@.len() ==> writes(#[trigger] final(self).signals@[old(self).signals@.len() + k], old(self).panes@[k].id, input_bytes@),
            final(self).signals@.subrange(0, old(self).signals@.len() as int) == old(self).signals@,
    {
        let ids = self.get_pane_ids();
        let mut k: usize = 0;
        while k < ids.len()
            invariant
                self.wf(),
                self.panes == old(self).panes,
                self.same_settings(old(self)),
                ids@ == crate::tab::ids_of(old(self).panes@),
                k <= ids@.len(),
                self.signals@.len() == old(self).signals@.len() + k,
                forall|m: int| 0 <= m < k ==> writes(#[trigger] self.signals@[old(self).signals@.len() + m], old(self).panes@[m].id, input_bytes@),
                self.signals@.subrange(0, old(self).signals@.len() as int) == old(self).signals@,
            decreases ids@.len() - k,
        {
            let id = ids[k];
            assert(self.panes@[k as int].id == id);
            assert(has_id(self.panes@, id));
            let ghost before = self.signals@;
            let bytes = input_bytes.clone();
            assert(bytes@ =~= input_bytes@);
            self.write_to_pane_id(bytes, id);
            assert(self.signals@.subrange(0, old(self).signals@.len() as int) =~= before.subrange(0, old(self).signals@.len() as int));
            k += 1;
        }
    }

    /// The last selectable pane among `ids`, as the pane that takes the focus.
    pub fn next_active_pane(&self, ids: &Vec<PaneId>) -> (r: Option<PaneId>)
        requires
            self.wf(),
        ensures
            r matches Some(id) ==> exists|k: int| #[trigger] last_selectable(self.panes@, ids@, k) && ids@[k] == id,
            r is None ==> forall|k: int| 0 <= k < ids@.len() && has_id(self.panes@, #[trigger] ids@[k]) ==> !self.panes@[index_of(self.panes@, ids@[k])].selectable,
    {
        let mut k: usize = ids.len();
        while k > 0
            invariant
                self.wf(),
                k <= ids@.len(),
                forall|m: int| k <= m < ids@.len() && has_id(self.panes@, #[trigger] ids@[m]) ==> !self.panes@[index_of(self.panes@, ids@[m])].selectable,
            decreases k,
        {
            k -= 1;
            if let Some(i) = self.find(ids[k]) {
                if self.panes[i].selectable {
                    assert(last_selectable(self.panes@, ids@, k as int));
                    return Some(ids[k]);
                }
            }
        }
        None
    }

    /// Makes the pane `id` selectable or not; when the active pane stops being selectable, the
    /// focus goes to the last selectable pane in the registry.
    pub fn set_pane_selectable(&mut self, id: PaneId, selectable: bool)
        requires
            old(self).wf(),
        ensures
            final(self).wf(),
            rect_map(final(self).panes@) == rect_map(old(self).panes@),
            has_id(old(self).panes@, id) ==> pane_map(final(self).panes@)[id].selectable == selectable,
            !(has_id(old(self).panes@, id) && old(self).active_terminal == Some(id) && !selectable) ==> final(self).active_terminal == old(self).active_terminal,
            has_id(old(self).panes@, id) && old(self).active_terminal == Some(id) && !selectable ==> match final(self).active_terminal {
                Some(n) => exists|k: int| #[trigger] last_selectable(final(self).panes@, crate::tab::ids_of(final(self).panes@), k) && crate::tab::ids_of(final(self).panes@)[k] == n,
                None => forall|k: int| 0 <= k < final(self).panes@.len() ==> !(#[trigger] final(self).panes@[k]).selectable,
            },
    {
        if let Some(i) = self.find(id) {
            let ghost s = self.panes@;
            let mut p = self.panes[i];
            p.selectable = selectable;
            assert(pane_ok(s[i as int]));
            self.replace_pane(i, p);
            proof {
                crate::tab::lemma_map_update(s, i as int, p);
                assert(rect_map(s).insert(p.id, p.position_and_size) =~= rect_map(s)) by {
                    crate::tab::lemma_index_of(s, i as int);
                }
                assert(pane_map(self.panes@)[id] == p);
            }
            if self.active_terminal == Some(id) && !selectable {
                let ids = self.get_pane_ids();
                let next = self.next_active_pane(&ids);
                proof {
                    let t = self.panes@;
                    if let Some(n) = next {
                        let k = choose|k: int| #[trigger] last_selectable(t, ids@, k) && ids@[k] == n;
                        assert(has_id(t, n));
                    } else {
                        assert forall|k: int| 0 <= k < t.len() implies !(#[trigger] t[k]).selectable by {
                            assert(ids@[k] == t[k].id);
                            crate::tab::lemma_index_of(t, k);
                            assert(has_id(t, ids@[k]));
                        }
                    }
                }
                self.active_terminal = next;
            }
        }
    }

    /// Changes a field of the pane `id` that is not part of the tiling.
    pub fn set_pane_invisible_borders(&mut self, id: PaneId, invisible_borders: bool)
        requires
            old(self).wf(),
        ensures
            final(self).wf(),
            final(self).same_settings(old(self)),
            rect_map(final(self).panes@) == rect_map(old(self).panes@),
            has_id(old(self).panes@, id) ==> pane_map(final(self).panes@) == pane_map(old(self).panes@).insert(id, Pane { invisible_borders, ..pane_map(old(self).panes@)[id] }),
            !has_id(old(self).panes@, id) ==> final(self).panes@ == old(self).panes@,
    {
        if let Some(i) = self.find(id) {
            let ghost s = self.panes@;
            let mut p = self.panes[i];
            p.invisible_borders = invisible_borders;
            assert(pane_ok(s[i as int]));
            self.replace_pane(i, p);
            proof {
                crate::tab::lemma_map_update(s, i as int, p);
                crate::tab::lemma_index_of(s, i as int);
                assert(rect_map(s).insert(p.id, p.position_and_size) =~= rect_map(s));
            }
        }
    }

    /// Fixes the height of the pane `id` at `fixed_height` rows; a height that would leave the
    /// pane empty or past the coordinate range is ignored.
    pub fn set_pane_fixed_height(&mut self, id: PaneId, fixed_height: usize)
        requires
            old(self).wf(),
        ensures
            final(self).wf(),
            final(self).same_settings(old(self)),
            has_id(old(self).panes@, id) && fixed_height > 0 && rect_map(old(self).panes@)[id].y + fixed_height <= MAX_COORD
                ==> rect_map(final(self).panes@) == rect_map(old(self).panes@).insert(id, PositionAndSize { rows: fixed_height, rows_fixed: true, ..rect_map(old(self).panes@)[id] }),
            !(has_id(old(self).panes@, id) && fixed_height > 0 && rect_map(old(self).panes@)[id].y + fixed_height <= MAX_COORD)
                ==> final(self).panes@ == old(self).panes@,
    {
        if let Some(i) = self.find(id) {
            let ghost s = self.panes@;
            proof { crate::tab::lemma_index_of(s, i as int); }
            assert(pane_ok(s[i as int]));
            let r = self.panes[i].position_and_size;
            if fixed_height > 0 && fixed_height <= MAX_COORD - r.y {
                let mut p = self.panes[i];
                p.position_and_size = PositionAndSize { rows: fixed_height, rows_fixed: true, ..r };
                self.replace_pane(i, p);
                proof { crate::tab::lemma_map_update(s, i as int, p); }
            }
        }
    }

    /// Fixes the width of the pane `id` at `fixed_width` columns; a width that would leave the
    /// pane empty or past the coordinate range is ignored.
    pub fn set_pane_fixed_width(&mut self, id: PaneId, fixed_width: usize)
        requires
            old(self).wf(),
        ensures
            final(self).wf(),
            final(self).same_settings(old(self)),
            has_id(old(self).panes@, id) && fixed_width > 0 && rect_map(old(self).panes@)[id].x + fixed_width <= MAX_COORD
                ==> rect_map(final(self).panes@) == rect_map(old(self).panes@).insert(id, PositionAndSize { cols: fixed_width, cols_fixed: true, ..rect_map(old(self).panes@)[id] }),
            !(has_id(old(self).panes@, id) && fixed_width > 0 && rect_map(old(self).panes@)[id].x + fixed_width <= MAX_COORD)
                ==> final(self).panes@ == old(self).panes@,
    {
        if let Some(i) = self.find(id) {
            let ghost s = self.panes@;
            proof { crate::tab::lemma_index_of(s, i as int); }
            assert(pane_ok(s[i as int]));
            let r = self.panes[i].position_and_size;
            if fixed_width > 0 && fixed_width <= MAX_COORD - r.x {
                let mut p = self.panes[i];
                p.position_and_size = PositionAndSize { cols: fixed_width, cols_fixed: true, ..r };
                self.replace_pane(i, p);
                proof { crate::tab::lemma_map_update(s, i as int, p); }
            }
        }
    }

    /// Marks the active pane to be drawn again.
    pub fn mark_active_pane_for_rerender(&mut self)
        requires
            old(self).wf(),
        ensures
            final(self).wf(),
            final(self).same_settings(old(self)),
            rect_map(final(self).panes@) == rect_map(old(self).panes@),
            old(self).active_terminal matches Some(id) ==> pane_map(final(self).panes@)[id].should_render,
    {
        if let Some(id) = self.active_terminal {
            if let Some(i) = self.find(id) {
                let ghost s = self.panes@;
                let mut p = self.panes[i];
                p.should_render = true;
                assert(pane_ok(s[i as int]));
                self.replace_pane(i, p);
                proof {
                    crate::tab::lemma_map_update(s, i as int, p);
                    crate::tab::lemma_index_of(s, i as int);
                    assert(rect_map(s).insert(p.id, p.position_and_size) =~= rect_map(s));
                }
            }
        }
    }

    /// The screen position of the active pane's cursor, given where the cursor is inside it.
    pub fn get_active_terminal_cursor_position(&self, cursor_in_pane: Option<(usize, usize)>) -> (r: Option<(usize, usize)>)
        requires
            self.wf(),
            cursor_in_pane matches Some((cx, cy)) ==> cx <= MAX_COORD && cy <= MAX_COORD,
        ensures
            r matches Some((x, y)) ==> self.active_terminal is Some && cursor_in_pane is Some
                && x == pane_map(self.panes@)[self.active_terminal.unwrap()].position_and_size.x + cursor_in_pane.unwrap().0
                && y == pane_map(self.panes@)[self.active_terminal.unwrap()].position_and_size.y + cursor_in_pane.unwrap().1,
            self.active_terminal is Some && cursor_in_pane is Some ==> r is Some,
            r is None ==> self.active_terminal is None || cursor_in_pane is None,
    {
        let p = self.get_active_pane()?;
        let (cx, cy) = cursor_in_pane?;
        assert(pane_ok(p)) by {
            let k = index_of(self.panes@, p.id);
            crate::tab::lemma_index_of(self.panes@, choose|j: int| 0 <= j < self.panes@.len() && (#[trigger] self.panes@[j]).id == p.id);
        }
        Some((p.position_and_size.x + cx, p.position_and_size.y + cy))
    }

    /// Scrolls the active terminal's content by `lines` (up when `up` is set).
    fn scroll_active_terminal(&mut self, up: bool, lines: usize)
        requires
            old(self).wf(),
        ensures
            final(self).wf(),
            same_tiling(old(self).panes@, final(self).panes@),
            final(self).active_terminal == old(self).active_terminal,
            old(self).active_terminal matches Some(PaneId::Terminal(pid)) ==> final(self).signals@.contains(Signal::Scroll { id: PaneId::Terminal(pid), up, lines }),
    {
        if let Some(PaneId::Terminal(pid)) = self.active_terminal {
            self.signals.push(Signal::Scroll { id: PaneId::Terminal(pid), up, lines });
            let ghost pushed = self.signals@;
            let ghost s1 = self.panes@;
            self.render();
            proof {
                assert(pushed[pushed.len() - 1] == Signal::Scroll { id: PaneId::Terminal(pid), up, lines });
                assert(self.signals@[pushed.len() - 1] == pushed[pushed.len() - 1]);
                assert forall|k: int| 0 <= k < self.panes@.len() implies (#[trigger] self.panes@[k]).id == s1[k].id && self.panes@[k].position_and_size == s1[k].position_and_size && self.panes@[k].selectable == s1[k].selectable by {
                    assert(self.panes@[k] == (Pane { active_at: self.panes@[k].active_at, ..s1[k] }));
                }
            }
        }
    }

    pub fn scroll_active_terminal_up(&mut self)
        requires
            old(self).wf(),
        ensures
            final(self).wf(),
            same_tiling(old(self).panes@, final(self).panes@),
            old(self).active_terminal matches Some(PaneId::Terminal(pid)) ==> final(self).signals@.contains(Signal::Scroll { id: PaneId::Terminal(pid), up: true, lines: 1 }),
    {
        self.scroll_active_terminal(true, 1);
    }

    pub fn scroll_active_terminal_down(&mut self)
        requires
            old(self).wf(),
        ensures
            final(self).wf(),
            same_tiling(old(self).panes@, final(self).panes@),
            old(self).active_terminal matches Some(PaneId::Terminal(pid)) ==> final(self).signals@.contains(Signal::Scroll { id: PaneId::Terminal(pid), up: false, lines: 1 }),
    {
        self.scroll_active_terminal(false, 1);
    }

    /// Rows of the active pane less one (at least zero): the length of a page scroll.
    pub fn page_rows(&self) -> (r: usize)
        requires
            self.wf(),
        ensures
            self.active_terminal matches Some(id) ==> r == less(pane_map(self.panes@)[id].position_and_size.rows as int, 1),
    {
        match self.get_active_pane() {
            Some(p) => if p.position_and_size.rows > 1 { p.position_and_size.rows - 1 } else { 0 },
            None => 0,
        }
    }

    pub fn scroll_active_terminal_up_page(&mut self)
        requires
            old(self).wf(),
        ensures
            final(self).wf(),
            same_tiling(old(self).panes@, final(self).panes@),
            old(self).active_terminal matches Some(PaneId::Terminal(pid)) ==> final(self).signals@.contains(Signal::Scroll { id: PaneId::Terminal(pid), up: true, lines: less(pane_map(old(self).panes@)[PaneId::Terminal(pid)].position_and_size.rows as int, 1) as usize }),
    {
        let lines = self.page_rows();
        self.scroll_active_terminal(true, lines);
    }

    pub fn scroll_active_terminal_down_page(&mut self)
        requires
            old(self).wf(),
        ensures
            final(self).wf(),
            same_tiling(old(self).panes@, final(self).panes@),
            old(self).active_terminal matches Some(PaneId::Terminal(pid)) ==> final(self).signals@.contains(Signal::Scroll { id: PaneId::Terminal(pid), up: false, lines: less(pane_map(old(self).panes@)[PaneId::Terminal(pid)].position_and_size.rows as int, 1) as usize }),
    {
        let lines = self.page_rows();
        self.scroll_active_terminal(false, lines);
    }

    /// Scrolls the active terminal back to the end of its content and draws the tab.
    pub fn scroll_active_terminal_to_bottom(&mut self)
        requires
            old(self).wf(),
        ensures
            final(self).wf(),
            same_tiling(old(self).panes@, final(self).panes@),
            old(self).active_terminal matches Some(PaneId::Terminal(pid)) ==> final(self).signals@.contains(Signal::ClearScroll(PaneId::Terminal(pid))),
    {
        if let Some(PaneId::Terminal(pid)) = self.active_terminal {
            self.signals.push(Signal::ClearScroll(PaneId::Terminal(pid)));
            let ghost pushed = self.signals@;
            let ghost s1 = self.panes@;
            self.render();
            proof {
                assert(self.signals@[pushed.len() - 1] == pushed[pushed.len() - 1]);
                assert forall|k: int| 0 <= k < self.panes@.len() implies (#[trigger] self.panes@[k]).id == s1[k].id && self.panes@[k].position_and_size == s1[k].position_and_size && self.panes@[k].selectable == s1[k].selectable by {
                    assert(self.panes@[k] == (Pane { active_at: self.panes@[k].active_at, ..s1[k] }));
                }
            }
        }
    }

    /// Scrolls the active terminal back to the end of its content.
    pub fn clear_active_terminal_scroll(&mut self)
        requires
            old(self).wf(),
        ensures
            final(self).wf(),
            final(self).panes == old(self).panes,
            old(self).active_terminal matches Some(PaneId::Terminal(pid)) ==> final(self).signals@ == old(self).signals@.push(Signal::ClearScroll(PaneId::Terminal(pid))),
    {
        if let Some(PaneId::Terminal(pid)) = self.active_terminal {
            self.signals.push(Signal::ClearScroll(PaneId::Terminal(pid)));
        }
    }

    /// The pane under `point` (see `pane_id_at`).
    pub fn get_pane_id_at(&self, point: &Position) -> (r: Option<PaneId>)
        requires
            self.wf(),
        ensures
            r == pane_id_at(self, *point),
    {
        if self.fullscreen_is_active {
            return self.active_terminal;
        }
        let mut j: usize = 0;
        while j < self.panes.len()
            invariant
                self.wf(),
                !self.fullscreen_is_active,
                j <= self.panes@.len(),
                forall|k: int| 0 <= k < j ==> !(#[trigger] self.panes@[k].selectable && shows_point(self.panes@[k], *point)),
            decreases self.panes@.len() - j,
        {
            assert(pane_ok(self.panes@[j as int]));
            if self.panes[j].selectable && self.panes[j].contains(point) {
                proof {
                    assert(first_at(self.panes@, *point, j as int));
                    let c = choose|c: int| 0 <= c < self.panes@.len() && first_at(self.panes@, *point, c);
                    if c < j {
                        assert(!(self.panes@[c].selectable && shows_point(self.panes@[c], *point)));
                    } else if c > j {
                        assert(!(self.panes@[j as int].selectable && shows_point(self.panes@[j as int], *point)));
                    }
                }
                return Some(self.panes[j].id);
            }
            j += 1;
        }
        None
    }

    /// Gives the focus to the pane under `point`, if there is one.
    pub fn focus_pane_at(&mut self, point: &Position)
        requires
            old(self).wf(),
        ensures
            final(self).wf(),
            same_tiling(old(self).panes@, final(self).panes@),
            pane_id_at(old(self), *point) is Some ==> final(self).active_terminal == pane_id_at(old(self), *point),
            pane_id_at(old(self), *point) is None ==> final(self).active_terminal == old(self).active_terminal,
    {
        if let Some(id) = self.get_pane_id_at(point) {
            proof {
                if !self.fullscreen_is_active {
                    let c = choose|c: int| 0 <= c < self.panes@.len() && first_at(self.panes@, *point, c);
                    assert(has_id(self.panes@, self.panes@[c].id));
                }
            }
            self.active_terminal = Some(id);
            let ghost s1 = self.panes@;
            self.render();
            proof {
                assert forall|k: int| 0 <= k < self.panes@.len() implies (#[trigger] self.panes@[k]).id == s1[k].id && self.panes@[k].position_and_size == s1[k].position_and_size && self.panes@[k].selectable == s1[k].selectable by {
                    assert(self.panes@[k] == (Pane { active_at: self.panes@[k].active_at, ..s1[k] }));
                }
            }
        }
    }

    /// Focuses the pane under `position` and starts a text selection there.
    pub fn handle_left_click(&mut self, position: &Position)
        requires
            old(self).wf(),
        ensures
            final(self).wf(),
            same_tiling(old(self).panes@, final(self).panes@),
            pane_id_at(old(self), *position) is Some ==> final(self).active_terminal == pane_id_at(old(self), *position),
            pane_id_at(final(self), *position) matches Some(id) ==> final(self).signals@.len() > 0
                && final(self).signals@.last() == Signal::StartSelection(id, relative_in(pane_map(final(self).panes@)[id], *position)),
    {
        self.focus_pane_at(position);
        if let Some(id) = self.get_pane_id_at(position) {
            if let Some(i) = self.find(id) {
                proof { crate::tab::lemma_index_of(self.panes@, i as int); }
                let relative = self.panes[i].relative_position(position);
                self.signals.push(Signal::StartSelection(id, relative));
            }
        }
    }

    /// Ends the text selection: in the pane under `position` when it is the active one, else in
    /// the active pane without an end point.
    pub fn handle_mouse_release(&mut self, position: &Position)
        requires
            old(self).wf(),
        ensures
            final(self).wf(),
            final(self).panes == old(self).panes,
            final(self).active_terminal == old(self).active_terminal,
            old(self).active_terminal matches Some(aid) ==> final(self).signals@ == old(self).signals@.push(
                if pane_id_at(old(self), *position) == Some(aid) {
                    Signal::EndSelection(aid, Some(relative_in(pane_map(old(self).panes@)[aid], *position)))
                } else {
                    Signal::EndSelection(aid, None)
                },
            ),
            old(self).active_terminal is None ==> final(self).signals@ == old(self).signals@,
    {
        let active = self.active_terminal;
        let at = self.get_pane_id_at(position);
        if let Some(id) = active {
            if let Some(i) = self.find(id) {
                proof { crate::tab::lemma_index_of(self.panes@, i as int); }
                if at == active {
                    let relative = self.panes[i].relative_position(position);
                    self.signals.push(Signal::EndSelection(id, Some(relative)));
                } else {
                    self.signals.push(Signal::EndSelection(id, None));
                }
            }
        }
    }

    /// Extends the active pane's text selection to `position_on_screen`.
    pub fn handle_mouse_hold(&mut self, position_on_screen: &Position)
        requires
            old(self).wf(),
        ensures
            final(self).wf(),
            final(self).panes == old(self).panes,
            final(self).active_terminal == old(self).active_terminal,
            old(self).active_terminal matches Some(aid) ==> final(self).signals@ == old(self).signals@.push(
                Signal::UpdateSelection(aid, relative_in(pane_map(old(self).panes@)[aid], *position_on_screen)),
            ),
            old(self).active_terminal is None ==> final(self).signals@ == old(self).signals@,
    {
        if let Some(p) = self.get_active_pane() {
            let relative = p.relative_position(position_on_screen);
            self.signals.push(Signal::UpdateSelection(p.id, relative));
        }
    }

    /// Asks for the active pane's selected text to be copied to the clipboard.
    pub fn copy_selection(&mut self)
        requires
            old(self).wf(),
        ensures
            final(self).wf(),
            final(self).panes == old(self).panes,
            old(self).active_terminal matches Some(id) ==> final(self).signals@ == old(self).signals@.push(Signal::CopySelection(id)),
            old(self).active_terminal is None ==> final(self).signals@ == old(self).signals@,
    {
        if let Some(id) = self.active_terminal {
            self.signals.push(Signal::CopySelection(id));
        }
    }

    /// Scrolls the pane under `point` up by `lines`.
    pub fn scroll_terminal_up(&mut self, point: &Position, lines: usize)
        requires
            old(self).wf(),
        ensures
            final(self).wf(),
            final(self).panes == old(self).panes,
            pane_id_at(old(self), *point) matches Some(id) ==> final(self).signals@ == old(self).signals@.push(Signal::Scroll { id, up: true, lines }),
    {
        if let Some(id) = self.get_pane_id_at(point) {
            self.signals.push(Signal::Scroll { id, up: true, lines });
        }
    }

    /// Scrolls the pane under `point` down by `lines`.
    pub fn scroll_terminal_down(&mut self, point: &Position, lines: usize)
        requires
            old(self).wf(),
        ensures
            final(self).wf(),
            final(self).panes == old(self).panes,
            pane_id_at(old(self), *point) matches Some(id) ==> final(self).signals@ == old(self).signals@.push(Signal::Scroll { id, up: false, lines }),
    {
        if let Some(id) = self.get_pane_id_at(point) {
            self.signals.push(Signal::Scroll { id, up: false, lines });
        }
    }

    /// Shrinks the viewport by `rect` when `rect` spans it from edge to edge along one axis and
    /// sits on its top, bottom, left or right edge.
    pub fn offset_viewport(&mut self, rect: &PositionAndSize)
        requires
            old(self).wf(),
        ensures
            final(self).wf(),
            final(self).panes == old(self).panes,
            final(self).panes_to_hide@ == old(self).panes_to_hide@,
            final(self).display_area == old(self).display_area,
            final(self).active_terminal == old(self).active_terminal,
            final(self).fullscreen_is_active == old(self).fullscreen_is_active,
            final(self).draw_pane_frames == old(self).draw_pane_frames,
            final(self).signals@ == old(self).signals@,
            final(self).viewport == viewport_after_offset(old(self).viewport, *rect),
    {
        let vp = self.viewport;
        let mut v = vp;
        if rect.x == vp.x && rect.cols == vp.cols {
            if rect.y == vp.y && rect.rows <= vp.rows {
                v.y = vp.y + rect.rows;
                v.rows = vp.rows - rect.rows;
            } else if rect.rows <= vp.rows && rect.y == vp.y + vp.rows - rect.rows {
                v.rows = vp.rows - rect.rows;
            }
        }
        let v1 = v;
        if rect.y == v1.y && rect.rows == v1.rows {
            if rect.x == v1.x && rect.cols <= v1.cols {
                v.x = v1.x + rect.cols;
                v.cols = v1.cols - rect.cols;
            } else if rect.cols <= v1.cols && rect.x == v1.x + v1.cols - rect.cols {
                v.cols = v1.cols - rect.cols;
            }
        }
        self.viewport = v;
    }

    /// Applies to the viewport and the display area how much the whole tab grew or shrank, as
    /// the pass that redistributes the space among the panes reported it; fullscreen ends first.
    pub fn resize_whole_tab(&mut self, column_difference: i64, row_difference: i64)
        requires
            old(self).wf(),
            0 <= old(self).viewport.cols + column_difference,
            0 <= old(self).viewport.rows + row_difference,
            0 <= old(self).display_area.cols + column_difference,
            0 <= old(self).display_area.rows + row_difference,
            old(self).viewport.x + old(self).viewport.cols + column_difference <= MAX_COORD,
            old(self).viewport.y + old(self).viewport.rows + row_difference <= MAX_COORD,
            old(self).display_area.x + old(self).display_area.cols + column_difference <= MAX_COORD,
            old(self).display_area.y + old(self).display_area.rows + row_difference <= MAX_COORD,
        ensures
            final(self).wf(),
            rect_map(final(self).panes@) == rect_map(old(self).panes@),
            final(self).viewport.cols == old(self).viewport.cols + column_difference,
            final(self).viewport.rows == old(self).viewport.rows + row_difference,
            final(self).display_area.cols == old(self).display_area.cols + column_difference,
            final(self).display_area.rows == old(self).display_area.rows + row_difference,
            final(self).should_clear_display_before_rendering,
    {
        if self.fullscreen_is_active {
            self.toggle_active_pane_fullscreen();
        }
        proof {
            crate::tab::lemma_same_ids(old(self).panes@, self.panes@);
            assert(rect_map(self.panes@) =~= rect_map(old(self).panes@)) by {
                assert forall|x: PaneId| #[trigger] rect_map(self.panes@).contains_key(x) implies rect_map(self.panes@)[x] == rect_map(old(self).panes@)[x] by {
                    let k = index_of(old(self).panes@, x);
                    crate::tab::lemma_index_of(old(self).panes@, choose|j: int| 0 <= j < old(self).panes@.len() && (#[trigger] old(self).panes@[j]).id == x);
                }
            }
        }
        self.should_clear_display_before_rendering = true;
        let vc = self.viewport.cols as i64;
        let vr = self.viewport.rows as i64;
        let dc = self.display_area.cols as i64;
        let dr = self.display_area.rows as i64;
        self.viewport.cols = (vc + column_difference) as usize;
        self.viewport.rows = (vr + row_difference) as usize;
        self.display_area.cols = (dc + column_difference) as usize;
        self.display_area.rows = (dr + row_difference) as usize;
    }
}

} // verus!
