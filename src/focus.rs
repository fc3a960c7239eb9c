use vstd::prelude::*;
use crate::geometry::{perpendicular, end, Axis, Edge, PositionAndSize};
use crate::pane::{pane_ok, spans_overlap, Frame, Pane, PaneId};
use crate::resize::touches;
use crate::tab::{resize_signal, has_id, index_of, Tab};

verus! {

/// The pane at `j` can take the focus from the pane at `i` in direction `e` along `a`: it is
/// selectable, lies just beyond that edge and shares part of its span along the other axis.
pub open spec fn focus_candidate(s: Seq<Pane>, i: int, a: Axis, e: Edge, j: int) -> bool {
    &&& 0 <= j < s.len()
    &&& s[j].selectable
    &&& touches(s[j].position_and_size, s[i].position_and_size, a, e)
    &&& spans_overlap(s[j], s[i], perpendicular(a))
}

/// Among the candidates, the pane at `j` was active most recently, and comes last in the
/// registry among those active at that tick.
pub open spec fn focus_best(s: Seq<Pane>, i: int, a: Axis, e: Edge, j: int) -> bool {
    &&& focus_candidate(s, i, a, e, j)
    &&& forall|k: int|
        #[trigger] focus_candidate(s, i, a, e, k) ==> s[k].active_at < s[j].active_at || (
        s[k].active_at == s[j].active_at && k <= j)
}

/// The pane lies within the viewport.
pub open spec fn inside_viewport(p: Pane, vp: PositionAndSize) -> bool {
    let r = p.position_and_size;
    r.x >= vp.x && r.x + r.cols <= vp.x + vp.cols && r.y >= vp.y && r.y + r.rows <= vp.y + vp.rows
}

/// Screen order of panes: by row, then by column, then by registry position.
pub open spec fn screen_before(s: Seq<Pane>, j: int, k: int) -> bool {
    let (pj, pk) = (s[j].position_and_size, s[k].position_and_size);
    pj.y < pk.y || (pj.y == pk.y && pj.x < pk.x) || (pj.y == pk.y && pj.x == pk.x && j < k)
}

/// Number of selectable panes.
pub open spec fn selectable_count(s: Seq<Pane>) -> nat
    decreases s.len(),
{
    if s.len() == 0 {
        0
    } else {
        selectable_count(s.drop_last()) + if s.last().selectable { 1nat } else { 0nat }
    }
}

/// The identities of the selectable panes other than `active` that lie within `vp`, in order.
pub open spec fn ids_to_hide(s: Seq<Pane>, active: PaneId, vp: PositionAndSize) -> Seq<PaneId>
    decreases s.len(),
{
    if s.len() == 0 {
        seq![]
    } else {
        ids_to_hide(s.drop_last(), active, vp) + if s.last().id != active && s.last().selectable && inside_viewport(
            s.last(),
            vp,
        ) {
            seq![s.last().id]
        } else {
            seq![]
        }
    }
}

/// `t` holds the panes of `s` with the same identities, rectangles and selectability.
pub open spec fn same_tiling(s: Seq<Pane>, t: Seq<Pane>) -> bool {
    &&& s.len() == t.len()
    &&& forall|k: int|
        0 <= k < s.len() ==> (#[trigger] t[k]).id == s[k].id && t[k].position_and_size
            == s[k].position_and_size && t[k].selectable == s[k].selectable
}

/// What a fullscreen toggle does: the pane rectangles stay, and
/// - while fullscreen is on, it ends: nothing is hidden and the active pane is shown at its own
///   rectangle again;
/// - otherwise, if some other selectable pane lies within the viewport, every such pane is hidden
///   and the active pane is shown over the whole viewport;
/// - otherwise only the list of hidden panes is emptied.
/// Other panes keep their shown rectangles, and without an active pane nothing changes.
pub open spec fn fullscreen_toggled(before: &Tab, after: &Tab) -> bool {
    let (s, t) = (before.panes@, after.panes@);
    &&& same_tiling(s, t)
    &&& after.active_terminal == before.active_terminal
    &&& after.viewport == before.viewport
    &&& after.display_area == before.display_area
    &&& after.max_panes == before.max_panes
    &&& after.draw_pane_frames == before.draw_pane_frames
    &&& crate::tab::extends(before.signals@, after.signals@)
    &&& match before.active_terminal {
        None => t == s && after.panes_to_hide@ == before.panes_to_hide@
            && after.fullscreen_is_active == before.fullscreen_is_active
            && after.signals@ == before.signals@,
        Some(id) => {
            let k = index_of(s, id);
            &&& forall|j: int|
                0 <= j < t.len() && j != k ==> (#[trigger] t[j]).position_and_size_override
                    == s[j].position_and_size_override
            &&& if before.fullscreen_is_active {
                &&& !after.fullscreen_is_active
                &&& after.panes_to_hide@.len() == 0
                &&& t[k].position_and_size_override is None
            } else if ids_to_hide(s, id, before.viewport).len() == 0 {
                &&& !after.fullscreen_is_active
                &&& after.panes_to_hide@.len() == 0
                &&& t == s
                &&& after.signals@ == before.signals@
            } else {
                &&& after.fullscreen_is_active
                &&& after.panes_to_hide@ == ids_to_hide(s, id, before.viewport)
                &&& t[k].position_and_size_override == Some(before.viewport)
            }
        },
    }
}

/// The pane that takes the focus from the pane at `i` in direction `e` along `a`, if any.
pub open spec fn focus_target(s: Seq<Pane>, i: int, a: Axis, e: Edge) -> Option<int> {
    if exists|j: int| focus_best(s, i, a, e, j) {
        Some(choose|j: int| focus_best(s, i, a, e, j))
    } else {
        None
    }
}

/// The active pane after a directional focus move in a tab.
pub open spec fn focus_moved(t: &Tab, a: Axis, e: Edge) -> Option<PaneId> {
    match t.active_terminal {
        Some(id) if !t.fullscreen_is_active => match focus_target(
            t.panes@,
            index_of(t.panes@, id),
            a,
            e,
        ) {
            Some(j) => Some(t.panes@[j].id),
            None => t.active_terminal,
        },
        _ => t.active_terminal,
    }
}

/// `j` comes before `k` in the order of travel: screen order going forward, its reverse going back.
pub open spec fn first_in_order(s: Seq<Pane>, forward: bool, j: int, k: int) -> bool {
    if forward {
        screen_before(s, j, k)
    } else {
        screen_before(s, k, j)
    }
}

/// The pane at `m` lies after the pane at `i` in the order of travel.
pub open spec fn beyond_in_order(s: Seq<Pane>, i: int, forward: bool, m: int) -> bool {
    first_in_order(s, forward, i, m)
}

/// The pane at `j` is where the focus goes from the pane at `i`: the nearest selectable pane
/// after it in the order of travel, or, when there is none, the first selectable pane.
pub open spec fn cycle_target(s: Seq<Pane>, i: int, forward: bool, j: int) -> bool {
    &&& 0 <= j < s.len()
    &&& s[j].selectable
    &&& if exists|m: int| 0 <= m < s.len() && (#[trigger] s[m]).selectable && beyond_in_order(s, i, forward, m) {
        &&& beyond_in_order(s, i, forward, j)
        &&& forall|m: int| 0 <= m < s.len() && (#[trigger] s[m]).selectable && beyond_in_order(s, i, forward, m) ==> m == j || first_in_order(s, forward, j, m)
    } else {
        forall|m: int| 0 <= m < s.len() && (#[trigger] s[m]).selectable ==> m == j || first_in_order(s, forward, j, m)
    }
}

/// The focus moved as `focus_next_pane` (`forward`) or `focus_previous_pane` moves it; without
/// an active pane, while fullscreen is on, or with no selectable pane it stays.
pub open spec fn focus_cycled(before: &Tab, after: &Tab, forward: bool) -> bool {
    let s = before.panes@;
    match before.active_terminal {
        Some(id) if !before.fullscreen_is_active && exists|k: int| 0 <= k < s.len() && (#[trigger] s[k]).selectable => exists|j: int|
            cycle_target(s, index_of(s, id), forward, j) && after.active_terminal == Some(#[trigger] s[j].id),
        _ => after.active_terminal == before.active_terminal,
    }
}

/// The pane at `j` is the next selectable pane after the one at `i` in registry order, or the
/// first selectable pane when none follows.
pub open spec fn registry_next(s: Seq<Pane>, i: int, j: int) -> bool {
    &&& 0 <= j < s.len()
    &&& s[j].selectable
    &&& if exists|m: int| i < m < s.len() && (#[trigger] s[m]).selectable {
        i < j && forall|m: int| i < m < j ==> !(#[trigger] s[m]).selectable
    } else {
        forall|m: int| 0 <= m < j ==> !(#[trigger] s[m]).selectable
    }
}

impl Tab {
    pub fn get_selectable_pane_count(&self) -> (r: usize)
        ensures
            r == selectable_count(self.panes@),
    {
        let mut count: usize = 0;
        let mut k: usize = 0;
        while k < self.panes.len()
            invariant
                k <= self.panes@.len(),
                count == selectable_count(self.panes@.subrange(0, k as int)),
                count <= k,
            decreases self.panes@.len() - k,
        {
            proof {
                let sub = self.panes@.subrange(0, k as int + 1);
                assert(sub.drop_last() =~= self.panes@.subrange(0, k as int));
            }
            if self.panes[k].selectable {
                count += 1;
            }
            k += 1;
        }
        assert(self.panes@.subrange(0, k as int) =~= self.panes@);
        count
    }

    pub fn has_selectable_panes(&self) -> (r: bool)
        ensures
            r == exists|k: int| 0 <= k < self.panes@.len() && (#[trigger] self.panes@[k]).selectable,
    {
        let mut k: usize = 0;
        while k < self.panes.len()
            invariant
                k <= self.panes@.len(),
                forall|m: int| 0 <= m < k ==> !(#[trigger] self.panes@[m]).selectable,
            decreases self.panes@.len() - k,
        {
            if self.panes[k].selectable {
                return true;
            }
            k += 1;
        }
        false
    }

    pub fn has_panes(&self) -> (r: bool)
        ensures
            r == (self.panes@.len() > 0),
    {
        self.panes.len() > 0
    }

    /// Whether the pane `id` is selectable and no other pane is.
    pub fn is_the_only_selectable_pane(&self, id: PaneId) -> (r: bool)
        requires
            self.wf(),
        ensures
            r == (selectable_count(self.panes@) == 1 && has_id(self.panes@, id)
                && self.panes@[index_of(self.panes@, id)].selectable),
    {
        if self.get_selectable_pane_count() != 1 {
            return false;
        }
        match self.find(id) {
            Some(i) => self.panes[i].selectable,
            None => false,
        }
    }

    /// Whether the pane at `i` lies within the viewport.
    pub fn is_inside_viewport(&self, i: usize) -> (r: bool)
        requires
            self.wf(),
            i < self.panes@.len(),
        ensures
            r == inside_viewport(self.panes@[i as int], self.viewport),
    {
        assert(pane_ok(self.panes@[i as int]));
        let p = self.panes[i].position_and_size;
        let vp = self.viewport;
        p.x >= vp.x && p.x + p.cols <= vp.x + vp.cols && p.y >= vp.y && p.y + p.rows <= vp.y + vp.rows
    }

    /// Marks every pane to be drawn again.
    pub fn set_force_render(&mut self)
        requires
            old(self).wf(),
        ensures
            final(self).wf(),
            final(self).same_settings(old(self)),
            final(self).signals@ == old(self).signals@,
            final(self).panes@.len() == old(self).panes@.len(),
            forall|k: int| 0 <= k < final(self).panes@.len() ==> #[trigger] final(self).panes@[k] == (Pane { should_render: true, ..old(self).panes@[k] }),
    {
        let mut k: usize = 0;
        while k < self.panes.len()
            invariant
                self.wf(),
                self.same_settings(old(self)),
                self.signals@ == old(self).signals@,
                self.panes@.len() == old(self).panes@.len(),
                k <= self.panes@.len(),
                forall|m: int| 0 <= m < k ==> #[trigger] self.panes@[m] == (Pane { should_render: true, ..old(self).panes@[m] }),
                forall|m: int| k <= m < self.panes@.len() ==> #[trigger] self.panes@[m] == old(self).panes@[m],
            decreases self.panes@.len() - k,
        {
            let mut p = self.panes[k];
            p.should_render = true;
            assert(pane_ok(self.panes@[k as int]));
            self.replace_pane(k, p);
            k += 1;
        }
    }

    /// The identities of the panes that fullscreen hides.
    pub fn panes_to_hide_for(&self, active: PaneId) -> (r: Vec<PaneId>)
        requires
            self.wf(),
        ensures
            r@ == ids_to_hide(self.panes@, active, self.viewport),
    {
        let mut r: Vec<PaneId> = Vec::new();
        let mut k: usize = 0;
        while k < self.panes.len()
            invariant
                self.wf(),
                k <= self.panes@.len(),
                r@ == ids_to_hide(self.panes@.subrange(0, k as int), active, self.viewport),
            decreases self.panes@.len() - k,
        {
            proof {
                let sub = self.panes@.subrange(0, k as int + 1);
                assert(sub.drop_last() =~= self.panes@.subrange(0, k as int));
            }
            if self.panes[k].id != active && self.panes[k].selectable && self.is_inside_viewport(k) {
                r.push(self.panes[k].id);
            }
            proof {
                let sub = self.panes@.subrange(0, k as int + 1);
                assert(r@ =~= ids_to_hide(sub, active, self.viewport));
            }
            k += 1;
        }
        assert(self.panes@.subrange(0, k as int) =~= self.panes@);
        r
    }

    /// Shows the active pane over the whole viewport and hides the others there, or ends that.
    pub fn toggle_active_pane_fullscreen(&mut self)
        requires
            old(self).wf(),
        ensures
            final(self).wf(),
            fullscreen_toggled(old(self), final(self)),
    {
        proof { crate::tab::lemma_extends_refl(old(self).signals@); }
        let active_id = match self.active_terminal {
            Some(id) => id,
            None => return,
        };
        let i = match self.find(active_id) {
            Some(i) => i,
            None => return,
        };
        let ghost s0 = self.panes@;
        let ghost t0 = *self;
        assert(pane_ok(s0[i as int]));
        let frames = self.draw_pane_frames;
        let viewport = self.viewport;
        if self.fullscreen_is_active {
            self.panes_to_hide = Vec::new();
            let selectable_pane_count = self.get_selectable_pane_count();
            let mut active = self.panes[i];
            if selectable_pane_count > 1 && frames {
                active.show_boundaries_frame(false);
            }
            if !frames {
                let (cols_offset, rows_offset) = crate::geometry::pane_content_offset(&active.position_and_size, &viewport);
                active.offset_content_columns(cols_offset);
                active.offset_content_rows(rows_offset);
            }
            active.reset_size_and_position_override();
            self.replace_pane(i, active);
        } else {
            let hide = self.panes_to_hide_for(active_id);
            let nothing_to_hide = hide.len() == 0;
            self.panes_to_hide = hide;
            if nothing_to_hide {
                return;
            }
            let mut active = self.panes[i];
            if frames {
                active.show_boundaries_frame(true);
            } else {
                active.offset_content_rows(0);
                active.offset_content_columns(0);
            }
            active.override_size_and_position(viewport.x, viewport.y, &viewport);
            self.replace_pane(i, active);
        }
        let ghost t1 = *self;
        self.finish_fullscreen_toggle(i);
        proof {
            let t = self.panes@;
            let s1 = t1.panes@;
            assert forall|j: int| 0 <= j < t.len() implies (#[trigger] t[j]).id == s0[j].id && t[j].position_and_size == s0[j].position_and_size && t[j].selectable == s0[j].selectable by {
                assert(s1[j].id == t[j].id);
                if j != i {
                    assert(s1[j] == s0[j]);
                }
            }
            assert forall|j: int| 0 <= j < t.len() && j != i implies (#[trigger] t[j]).position_and_size_override == s0[j].position_and_size_override by {
                assert(s1[j].position_and_size_override == t[j].position_and_size_override);
                assert(s1[j] == s0[j]);
            }
            assert(t[i as int].position_and_size_override == s1[i as int].position_and_size_override);
        }
    }

    /// The end of a fullscreen toggle: the active pane's process takes its new size, every pane
    /// is drawn again and the fullscreen flag flips.
    fn finish_fullscreen_toggle(&mut self, i: usize)
        requires
            old(self).wf(),
            i < old(self).panes@.len(),
        ensures
            final(self).wf(),
            final(self).active_terminal == old(self).active_terminal,
            final(self).viewport == old(self).viewport,
            final(self).display_area == old(self).display_area,
            final(self).max_panes == old(self).max_panes,
            final(self).draw_pane_frames == old(self).draw_pane_frames,
            final(self).panes_to_hide@ == old(self).panes_to_hide@,
            final(self).fullscreen_is_active == !old(self).fullscreen_is_active,
            crate::tab::extends(old(self).signals@, final(self).signals@),
            final(self).panes@.len() == old(self).panes@.len(),
            forall|j: int| 0 <= j < final(self).panes@.len() ==> (#[trigger] final(self).panes@[j]).id == old(self).panes@[j].id
                && final(self).panes@[j].position_and_size == old(self).panes@[j].position_and_size
                && final(self).panes@[j].selectable == old(self).panes@[j].selectable
                && final(self).panes@[j].position_and_size_override == old(self).panes@[j].position_and_size_override,
    {
        let ghost g0 = self.signals@;
        self.push_resize_signal(i);
        proof { crate::tab::lemma_extends_append(g0, resize_signal(old(self).panes@[i as int])); }
        let ghost g1 = self.signals@;
        self.set_force_render();
        let ghost s2 = self.panes@;
        self.render();
        proof {
            if self.signals@ == g1 {
                crate::tab::lemma_extends_refl(g1);
            } else {
                crate::tab::lemma_extends_append(g1, seq![self.signals@.last()]);
                assert(g1 + seq![self.signals@.last()] =~= self.signals@);
            }
            crate::tab::lemma_extends_trans(g0, g1, self.signals@);
        }
        self.fullscreen_is_active = !self.fullscreen_is_active;
        proof {
            let t = self.panes@;
            assert forall|j: int| 0 <= j < t.len() implies (#[trigger] t[j]).id == old(self).panes@[j].id
                && t[j].position_and_size == old(self).panes@[j].position_and_size
                && t[j].selectable == old(self).panes@[j].selectable
                && t[j].position_and_size_override == old(self).panes@[j].position_and_size_override by {
                assert(t[j] == (Pane { active_at: t[j].active_at, ..s2[j] }));
                assert(s2[j] == (Pane { should_render: true, ..old(self).panes@[j] }));
            }
        }
    }

    pub fn toggle_fullscreen_is_active(&mut self)
        ensures
            final(self).fullscreen_is_active == !old(self).fullscreen_is_active,
            final(self).panes == old(self).panes,
            final(self).active_terminal == old(self).active_terminal,
    {
        self.fullscreen_is_active = !self.fullscreen_is_active;
    }

    /// The pane that takes the focus from the pane at `i` in direction `e` along `a`.
    pub fn focus_target_index(&self, i: usize, a: Axis, e: Edge) -> (r: Option<usize>)
        requires
            self.wf(),
            i < self.panes@.len(),
        ensures
            r matches Some(j) ==> focus_target(self.panes@, i as int, a, e) == Some(j as int),
            r is None ==> focus_target(self.panes@, i as int, a, e) is None,
    {
        let s = Ghost(self.panes@);
        let active = self.panes[i];
        assert(pane_ok(s@[i as int]));
        let mut best: Option<usize> = None;
        let mut j: usize = 0;
        while j < self.panes.len()
            invariant
                self.wf(),
                s@ == self.panes@,
                active == s@[i as int],
                pane_ok(active),
                j <= s@.len(),
                best matches Some(b) ==> b < j && focus_candidate(s@, i as int, a, e, b as int),
                forall|k: int| 0 <= k < j && #[trigger] focus_candidate(s@, i as int, a, e, k) ==> (best matches Some(b) && (s@[k].active_at < s@[b as int].active_at || (s@[k].active_at == s@[b as int].active_at && k <= b))),
            decreases s@.len() - j,
        {
            let c = self.panes[j];
            assert(pane_ok(s@[j as int]));
            let near = match (a, e) {
                (Axis::Horizontal, Edge::Start) => c.is_directly_left_of(&active),
                (Axis::Horizontal, Edge::End) => c.is_directly_right_of(&active),
                (Axis::Vertical, Edge::Start) => c.is_directly_above(&active),
                (Axis::Vertical, Edge::End) => c.is_directly_below(&active),
            };
            let overlaps = match a {
                Axis::Horizontal => c.horizontally_overlaps_with(&active),
                Axis::Vertical => c.vertically_overlaps_with(&active),
            };
            let is_candidate = c.selectable && near && overlaps;
            assert(is_candidate == focus_candidate(s@, i as int, a, e, j as int));
            if is_candidate {
                match best {
                    None => {
                        best = Some(j);
                    },
                    Some(b) => {
                        if c.active_at >= self.panes[b].active_at {
                            best = Some(j);
                        }
                    },
                }
            }
            j += 1;
        }
        proof {
            match best {
                Some(b) => {
                    assert(focus_best(s@, i as int, a, e, b as int));
                    let c = choose|c: int| focus_best(s@, i as int, a, e, c);
                    assert(focus_candidate(s@, i as int, a, e, c));
                    assert(focus_candidate(s@, i as int, a, e, b as int));
                },
                None => {
                    if exists|c: int| focus_best(s@, i as int, a, e, c) {
                        let c = choose|c: int| focus_best(s@, i as int, a, e, c);
                        assert(focus_candidate(s@, i as int, a, e, c));
                    }
                },
            }
        }
        best
    }

    /// Gives the focus to the pane next to the active one in direction `e` along `a`, the most
    /// recently active one if there are several; returns whether the focus moved.
    pub fn move_focus_toward(&mut self, a: Axis, e: Edge) -> (r: bool)
        requires
            old(self).wf(),
        ensures
            final(self).wf(),
            final(self).active_terminal == focus_moved(old(self), a, e),
            r == (final(self).active_terminal != old(self).active_terminal),
            same_tiling(old(self).panes@, final(self).panes@),
            final(self).viewport == old(self).viewport,
            final(self).fullscreen_is_active == old(self).fullscreen_is_active,
            final(self).panes_to_hide@ == old(self).panes_to_hide@,
    {
        if self.fullscreen_is_active {
            return false;
        }
        let id = match self.active_terminal {
            Some(id) => id,
            None => return false,
        };
        let i = match self.find(id) {
            Some(i) => i,
            None => return false,
        };
        match self.focus_target_index(i, a, e) {
            None => false,
            Some(j) => {
                let ghost s0 = self.panes@;
                let next = self.panes[j].id;
                proof {
                    let c = choose|c: int| focus_best(s0, i as int, a, e, c);
                    assert(focus_best(s0, i as int, a, e, j as int));
                    if next == id {
                        assert(touches(s0[j as int].position_and_size, s0[i as int].position_and_size, a, e));
                        crate::tab::lemma_ids_unique(s0, i as int, j as int);
                        assert(pane_ok(s0[i as int]));
                    }
                }
                let mut previous = self.panes[i];
                previous.should_render = true;
                assert(pane_ok(s0[i as int]));
                self.replace_pane(i, previous);
                let mut target = self.panes[j];
                target.should_render = true;
                assert(pane_ok(s0[j as int]));
                self.replace_pane(j, target);
                let ghost s1 = self.panes@;
                self.active_terminal = Some(next);
                proof {
                    assert(self.panes@[j as int].id == next);
                    assert(has_id(self.panes@, next));
                }
                self.render();
                proof {
                    let t = self.panes@;
                    assert forall|k: int| 0 <= k < t.len() implies (#[trigger] t[k]).id == s0[k].id && t[k].position_and_size == s0[k].position_and_size && t[k].selectable == s0[k].selectable by {
                        assert(t[k] == (Pane { active_at: t[k].active_at, ..s1[k] }));
                    }
                }
                true
            },
        }
    }

    /// Moves the focus to the pane on the left; returns whether it moved.
    pub fn move_focus_left(&mut self) -> (r: bool)
        requires
            old(self).wf(),
        ensures
            final(self).wf(),
            final(self).active_terminal == focus_moved(old(self), Axis::Horizontal, Edge::Start),
            r == (final(self).active_terminal != old(self).active_terminal),
            same_tiling(old(self).panes@, final(self).panes@),
    {
        self.move_focus_toward(Axis::Horizontal, Edge::Start)
    }

    /// Moves the focus to the pane on the right; returns whether it moved.
    pub fn move_focus_right(&mut self) -> (r: bool)
        requires
            old(self).wf(),
        ensures
            final(self).wf(),
            final(self).active_terminal == focus_moved(old(self), Axis::Horizontal, Edge::End),
            r == (final(self).active_terminal != old(self).active_terminal),
            same_tiling(old(self).panes@, final(self).panes@),
    {
        self.move_focus_toward(Axis::Horizontal, Edge::End)
    }

    /// Moves the focus to the pane below.
    pub fn move_focus_down(&mut self)
        requires
            old(self).wf(),
        ensures
            final(self).wf(),
            final(self).active_terminal == focus_moved(old(self), Axis::Vertical, Edge::End),
            same_tiling(old(self).panes@, final(self).panes@),
    {
        let moved = self.move_focus_toward(Axis::Vertical, Edge::End);
        if !moved {
            let ghost s1 = self.panes@;
            self.render();
            proof {
                let t = self.panes@;
                assert forall|k: int| 0 <= k < t.len() implies (#[trigger] t[k]).id == old(self).panes@[k].id && t[k].position_and_size == old(self).panes@[k].position_and_size && t[k].selectable == old(self).panes@[k].selectable by {
                    assert(t[k] == (Pane { active_at: t[k].active_at, ..s1[k] }));
                }
            }
        }
    }

    /// Moves the focus to the pane above.
    pub fn move_focus_up(&mut self)
        requires
            old(self).wf(),
        ensures
            final(self).wf(),
            final(self).active_terminal == focus_moved(old(self), Axis::Vertical, Edge::Start),
            same_tiling(old(self).panes@, final(self).panes@),
    {
        let moved = self.move_focus_toward(Axis::Vertical, Edge::Start);
        if !moved {
            let ghost s1 = self.panes@;
            self.render();
            proof {
                let t = self.panes@;
                assert forall|k: int| 0 <= k < t.len() implies (#[trigger] t[k]).id == old(self).panes@[k].id && t[k].position_and_size == old(self).panes@[k].position_and_size && t[k].selectable == old(self).panes@[k].selectable by {
                    assert(t[k] == (Pane { active_at: t[k].active_at, ..s1[k] }));
                }
            }
        }
    }

    /// Whether the pane at `j` comes before the pane at `k` in screen order.
    pub fn screen_precedes(&self, j: usize, k: usize) -> (r: bool)
        requires
            j < self.panes@.len(),
            k < self.panes@.len(),
        ensures
            r == screen_before(self.panes@, j as int, k as int),
    {
        let pj = self.panes[j].position_and_size;
        let pk = self.panes[k].position_and_size;
        pj.y < pk.y || (pj.y == pk.y && pj.x < pk.x) || (pj.y == pk.y && pj.x == pk.x && j < k)
    }

    /// The selectable pane that follows the pane at `i` in screen order (`forward`) or precedes
    /// it, wrapping around at the ends.
    pub fn screen_neighbor(&self, i: usize, forward: bool) -> (r: Option<usize>)
        requires
            i < self.panes@.len(),
        ensures
            r matches Some(j) ==> cycle_target(self.panes@, i as int, forward, j as int),
            r is None ==> forall|k: int| 0 <= k < self.panes@.len() ==> !(#[trigger] self.panes@[k]).selectable,
    {
        let s = Ghost(self.panes@);
        let mut near: Option<usize> = None;
        let mut wrap: Option<usize> = None;
        let mut k: usize = 0;
        while k < self.panes.len()
            invariant
                s@ == self.panes@,
                i < s@.len(),
                k <= s@.len(),
                near matches Some(n) ==> n < k && s@[n as int].selectable && beyond_in_order(s@, i as int, forward, n as int)
                    && forall|m: int| 0 <= m < k && (#[trigger] s@[m]).selectable && beyond_in_order(s@, i as int, forward, m) ==> m == n || first_in_order(s@, forward, n as int, m),
                near is None ==> forall|m: int| 0 <= m < k && (#[trigger] s@[m]).selectable ==> !beyond_in_order(s@, i as int, forward, m),
                wrap matches Some(w) ==> w < k && s@[w as int].selectable
                    && forall|m: int| 0 <= m < k && (#[trigger] s@[m]).selectable ==> m == w || first_in_order(s@, forward, w as int, m),
                wrap is None ==> forall|m: int| 0 <= m < k ==> !(#[trigger] s@[m]).selectable,
            decreases s@.len() - k,
        {
            if self.panes[k].selectable {
                let is_beyond = if forward { self.screen_precedes(i, k) } else { self.screen_precedes(k, i) };
                if is_beyond {
                    match near {
                        None => { near = Some(k); },
                        Some(n) => {
                            let better = if forward { self.screen_precedes(k, n) } else { self.screen_precedes(n, k) };
                            if better { near = Some(k); }
                        },
                    }
                }
                match wrap {
                    None => { wrap = Some(k); },
                    Some(w) => {
                        let better = if forward { self.screen_precedes(k, w) } else { self.screen_precedes(w, k) };
                        if better { wrap = Some(k); }
                    },
                }
            }
            k += 1;
        }
        match near {
            Some(n) => Some(n),
            None => wrap,
        }
    }

    /// Moves the focus to the selectable pane after the active one in screen order (by row,
    /// then column), back to the first after the last.
    pub fn focus_next_pane(&mut self)
        requires
            old(self).wf(),
        ensures
            final(self).wf(),
            same_tiling(old(self).panes@, final(self).panes@),
            focus_cycled(old(self), final(self), true),
    {
        self.focus_cycle(true);
    }

    /// Moves the focus to the selectable pane before the active one in screen order, back to
    /// the last before the first.
    pub fn focus_previous_pane(&mut self)
        requires
            old(self).wf(),
        ensures
            final(self).wf(),
            same_tiling(old(self).panes@, final(self).panes@),
            focus_cycled(old(self), final(self), false),
    {
        self.focus_cycle(false);
    }

    fn focus_cycle(&mut self, forward: bool)
        requires
            old(self).wf(),
        ensures
            final(self).wf(),
            same_tiling(old(self).panes@, final(self).panes@),
            focus_cycled(old(self), final(self), forward),
    {
        if self.fullscreen_is_active {
            return;
        }
        let id = match self.active_terminal {
            Some(id) => id,
            None => return,
        };
        let i = match self.find(id) {
            Some(i) => i,
            None => return,
        };
        if let Some(j) = self.screen_neighbor(i, forward) {
            let next = self.panes[j].id;
            proof {
                crate::tab::lemma_index_of(self.panes@, j as int);
            }
            let ghost s1 = self.panes@;
            self.active_terminal = Some(next);
            self.render();
            proof {
                assert forall|k: int| 0 <= k < self.panes@.len() implies (#[trigger] self.panes@[k]).id == s1[k].id && self.panes@[k].position_and_size == s1[k].position_and_size && self.panes@[k].selectable == s1[k].selectable by {
                    assert(self.panes@[k] == (Pane { active_at: self.panes@[k].active_at, ..s1[k] }));
                }
            }
        }
    }

    /// Moves the focus to the next selectable pane in registry order, back to the first after
    /// the last.
    pub fn move_focus(&mut self)
        requires
            old(self).wf(),
        ensures
            final(self).wf(),
            same_tiling(old(self).panes@, final(self).panes@),
            match old(self).active_terminal {
                Some(id) if !old(self).fullscreen_is_active && exists|k: int| 0 <= k < old(self).panes@.len() && (#[trigger] old(self).panes@[k]).selectable => exists|j: int|
                    registry_next(old(self).panes@, index_of(old(self).panes@, id), j) && final(self).active_terminal == Some(#[trigger] old(self).panes@[j].id),
                _ => final(self).active_terminal == old(self).active_terminal,
            },
    {
        if self.fullscreen_is_active {
            return;
        }
        let id = match self.active_terminal {
            Some(id) => id,
            None => return,
        };
        let i = match self.find(id) {
            Some(i) => i,
            None => return,
        };
        let mut after: Option<usize> = None;
        let mut first: Option<usize> = None;
        let mut k: usize = 0;
        while k < self.panes.len()
            invariant
                self.wf(),
                self.panes@ == old(self).panes@,
                i < self.panes@.len(),
                k <= self.panes@.len(),
                after matches Some(a) ==> i < a < k && self.panes@[a as int].selectable && forall|m: int| i < m < a ==> !(#[trigger] self.panes@[m]).selectable,
                after is None ==> forall|m: int| i < m < k ==> !(#[trigger] self.panes@[m]).selectable,
                first matches Some(f) ==> f < k && self.panes@[f as int].selectable && forall|m: int| 0 <= m < f ==> !(#[trigger] self.panes@[m]).selectable,
                first is None ==> forall|m: int| 0 <= m < k ==> !(#[trigger] self.panes@[m]).selectable,
            decreases self.panes@.len() - k,
        {
            if self.panes[k].selectable {
                if first.is_none() {
                    first = Some(k);
                }
                if k > i && after.is_none() {
                    after = Some(k);
                }
            }
            k += 1;
        }
        let target = match after {
            Some(a) => Some(a),
            None => first,
        };
        if let Some(j) = target {
            let next = self.panes[j].id;
            proof {
                crate::tab::lemma_index_of(self.panes@, j as int);
                crate::tab::lemma_index_of(self.panes@, i as int);
                assert(registry_next(old(self).panes@, i as int, j as int));
            }
            let ghost s1 = self.panes@;
            self.active_terminal = Some(next);
            self.render();
            proof {
                assert forall|k: int| 0 <= k < self.panes@.len() implies (#[trigger] self.panes@[k]).id == s1[k].id && self.panes@[k].position_and_size == s1[k].position_and_size && self.panes@[k].selectable == s1[k].selectable by {
                    assert(self.panes@[k] == (Pane { active_at: self.panes@[k].active_at, ..s1[k] }));
                }
            }
        }
    }

    /// Draws frames around the panes, or stops: with frames on, the active pane shows only a
    /// title when it is the only selectable pane or fills the screen; with frames off, every
    /// pane keeps content offsets for the lines between panes. Every terminal is told its size.
    pub fn set_pane_frames(&mut self, draw_pane_frames: bool)
        requires
            old(self).wf(),
        ensures
            final(self).wf(),
            final(self).draw_pane_frames == draw_pane_frames,
            same_tiling(old(self).panes@, final(self).panes@),
            forall|k: int| 0 <= k < final(self).panes@.len() ==> (#[trigger] final(self).panes@[k]).frame == if !draw_pane_frames {
                Frame::Hidden
            } else if old(self).active_terminal == Some(old(self).panes@[k].id) && (selectable_count(old(self).panes@) == 1 || old(self).fullscreen_is_active) {
                Frame::TitleOnly
            } else {
                Frame::Full
            },
    {
        self.draw_pane_frames = draw_pane_frames;
        let selectable_pane_count = self.get_selectable_pane_count();
        let viewport = self.viewport;
        let mut k: usize = 0;
        while k < self.panes.len()
            invariant
                self.wf(),
                self.draw_pane_frames == draw_pane_frames,
                self.active_terminal == old(self).active_terminal,
                self.fullscreen_is_active == old(self).fullscreen_is_active,
                selectable_pane_count == selectable_count(old(self).panes@),
                viewport == self.viewport,
                self.panes@.len() == old(self).panes@.len(),
                k <= self.panes@.len(),
                forall|m: int| 0 <= m < self.panes@.len() ==> (#[trigger] self.panes@[m]).id == old(self).panes@[m].id && self.panes@[m].position_and_size == old(self).panes@[m].position_and_size && self.panes@[m].selectable == old(self).panes@[m].selectable,
                forall|m: int| k <= m < self.panes@.len() ==> #[trigger] self.panes@[m] == old(self).panes@[m],
                forall|m: int| 0 <= m < k ==> (#[trigger] self.panes@[m]).frame == if !draw_pane_frames {
                    Frame::Hidden
                } else if old(self).active_terminal == Some(old(self).panes@[m].id) && (selectable_count(old(self).panes@) == 1 || old(self).fullscreen_is_active) {
                    Frame::TitleOnly
                } else {
                    Frame::Full
                },
            decreases self.panes@.len() - k,
        {
            let mut p = self.panes[k];
            assert(pane_ok(self.panes@[k as int]));
            if draw_pane_frames {
                let is_active = self.active_terminal == Some(p.id);
                let only_title = is_active && (selectable_pane_count == 1 || self.fullscreen_is_active);
                p.show_boundaries_frame(only_title);
            } else {
                let shown = match p.position_and_size_override {
                    Some(o) => o,
                    None => p.position_and_size,
                };
                p.remove_boundaries_frame();
                let (cols_offset, rows_offset) = crate::geometry::pane_content_offset(&shown, &viewport);
                p.offset_content_columns(cols_offset);
                p.offset_content_rows(rows_offset);
            }
            self.replace_pane(k, p);
            self.push_resize_signal(k);
            k += 1;
        }
    }
}

} // verus!
