use vstd::prelude::*;
use crate::geometry::{bounded, content_offset, extent, non_empty, split_horizontally, split_vertically, Axis, PositionAndSize, MAX_COORD};
use crate::pane::{min_extent, min_extent_of, pane_ok, placed, Frame, Pane, PaneId, MIN_TERMINAL_HEIGHT, MIN_TERMINAL_WIDTH};
use crate::focus::same_tiling;
use crate::tab::{has_id, index_of, lemma_index_of, lemma_same_ids, pane_map, rect_map, render_signals, resize_signal, Signal, Tab};

verus! {

/// Cells of height that one terminal row is taken to be worth next to a column, when choosing
/// which pane to split.
pub const CURSOR_HEIGHT_WIDTH_RATIO: usize = 4;

/// The two halves of `r` when its size along `a` is divided: the first (left or top) one takes
/// the extra cell of an odd size.
pub open spec fn split_halves(r: PositionAndSize, a: Axis) -> (PositionAndSize, PositionAndSize) {
    match a {
        Axis::Horizontal => (
            PositionAndSize { cols: (r.cols - r.cols / 2) as usize, ..r },
            PositionAndSize {
                x: (r.x + r.cols - r.cols / 2) as usize,
                cols: (r.cols / 2) as usize,
                ..r
            },
        ),
        Axis::Vertical => (
            PositionAndSize { rows: (r.rows - r.rows / 2) as usize, ..r },
            PositionAndSize {
                y: (r.y + r.rows - r.rows / 2) as usize,
                rows: (r.rows / 2) as usize,
                ..r
            },
        ),
    }
}

/// Number of terminal panes.
pub open spec fn terminal_count(s: Seq<Pane>) -> nat
    decreases s.len(),
{
    if s.len() == 0 {
        0
    } else {
        terminal_count(s.drop_last()) + if s.last().id is Terminal { 1nat } else { 0nat }
    }
}

/// The pane has room to be divided in two: at least the smallest terminal size, and more
/// than twice its own smallest size along some axis.
pub open spec fn can_be_split(p: Pane) -> bool {
    let r = p.position_and_size;
    &&& r.cols >= MIN_TERMINAL_WIDTH
    &&& r.rows >= MIN_TERMINAL_HEIGHT
    &&& (r.cols > 2 * min_extent(p, Axis::Horizontal) || r.rows > 2 * min_extent(p, Axis::Vertical))
}

/// How large a pane looks when choosing which one to split.
pub open spec fn split_weight(p: Pane) -> int {
    p.position_and_size.rows * CURSOR_HEIGHT_WIDTH_RATIO * p.position_and_size.cols
}

/// The pane at `j` is the one a new pane splits: it can be split, and it weighs most among
/// those that can, the first in the registry on a tie.
pub open spec fn split_choice(s: Seq<Pane>, j: int) -> bool {
    &&& 0 <= j < s.len()
    &&& can_be_split(s[j])
    &&& forall|k: int|
        0 <= k < s.len() && #[trigger] can_be_split(s[k]) ==> split_weight(s[k]) < split_weight(
            s[j],
        ) || (split_weight(s[k]) == split_weight(s[j]) && j <= k)
}

/// The axis along which a new pane divides the pane `p`: rows when it is tall enough to look
/// taller than wide and to split, columns otherwise.
pub open spec fn new_pane_axis(p: Pane) -> Axis {
    let r = p.position_and_size;
    if r.rows * CURSOR_HEIGHT_WIDTH_RATIO > r.cols && r.rows > 2 * min_extent(p, Axis::Vertical) {
        Axis::Vertical
    } else {
        Axis::Horizontal
    }
}

/// A new pane `id` at `rect`, numbered `position`, with a frame when `framed` (only a title when
/// `title_only`) or else with the content offsets of a frameless pane in `vp`.
pub open spec fn new_pane_at(
    id: PaneId,
    rect: PositionAndSize,
    framed: bool,
    title_only: bool,
    position: nat,
    vp: PositionAndSize,
) -> Pane {
    let p = Pane {
        id,
        position_and_size: rect,
        position_and_size_override: None,
        selectable: true,
        invisible_borders: false,
        frame: Frame::Hidden,
        content_offset_cols: 0,
        content_offset_rows: 0,
        active_at: 0,
        should_render: true,
        title_position: position as usize,
    };
    if framed {
        Pane { frame: if title_only { Frame::TitleOnly } else { Frame::Full }, ..p }
    } else {
        Pane { content_offset_cols: content_offset(rect, vp).0, content_offset_rows: content_offset(rect, vp).1, ..p }
    }
}

/// The pane `p` once it keeps the first half `rect` of a split: with a full frame when frames
/// are drawn, else with the content offsets of its new place.
pub open spec fn kept_half(p: Pane, rect: PositionAndSize, vp: PositionAndSize, frames: bool) -> Pane {
    placed(
        if frames {
            Pane { frame: Frame::Full, content_offset_cols: 0, content_offset_rows: 0, ..p }
        } else {
            p
        },
        rect,
        vp,
        frames,
    )
}

/// Two registries with the same identities hold as many terminals.
pub proof fn lemma_terminal_count_same_ids(s: Seq<Pane>, t: Seq<Pane>)
    requires
        s.len() == t.len(),
        forall|k: int| 0 <= k < s.len() ==> (#[trigger] t[k]).id == s[k].id,
    ensures
        terminal_count(s) == terminal_count(t),
    decreases s.len(),
{
    if s.len() > 0 {
        lemma_terminal_count_same_ids(s.drop_last(), t.drop_last());
    }
}

/// No pane has to close to make room under the limit on the number of panes.
pub open spec fn below_pane_limit(t: &Tab) -> bool {
    t.max_panes matches Some(m) ==> t.panes@.len() < m
}

/// The tab turned down a new pane `id`: the panes and the focus stay, and the pane's process
/// is told to end.
pub open spec fn split_rejected(before: &Tab, after: &Tab, id: PaneId) -> bool {
    &&& after.panes@ == before.panes@
    &&& after.active_terminal == before.active_terminal
    &&& after.signals@ == before.signals@.push(Signal::ClosePane(id))
}

/// Nothing changed: the panes, the focus and the queued requests are as before.
pub open spec fn split_ignored(before: &Tab, after: &Tab) -> bool {
    &&& after.panes@ == before.panes@
    &&& after.active_terminal == before.active_terminal
    &&& after.signals@ == before.signals@
}

/// The new terminal pane `id` came into the empty tab over its whole viewport and took the
/// focus; its process is asked to take that size.
pub open spec fn placed_alone(before: &Tab, after: &Tab, id: PaneId) -> bool {
    let fresh = new_pane_at(id, before.viewport, before.draw_pane_frames, true, 1, before.viewport);
    &&& rect_map(after.panes@) == Map::<PaneId, PositionAndSize>::empty().insert(id, before.viewport)
    &&& after.active_terminal == Some(id)
    &&& pane_map(after.panes@)[id] == fresh
    &&& after.signals@ == before.signals@ + resize_signal(fresh)
}

/// The pane `aid` was divided along `a`: it keeps the first half (with a full frame, or with
/// content offsets), the new terminal pane `id` takes the second half and the focus, both
/// processes are asked to take their new sizes and the tab is drawn.
pub open spec fn split_done(before: &Tab, after: &Tab, aid: PaneId, id: PaneId, a: Axis) -> bool {
    let s = before.panes@;
    let p = pane_map(s)[aid];
    let (h0, h1) = split_halves(p.position_and_size, a);
    let kept = kept_half(p, h0, before.viewport, before.draw_pane_frames);
    let fresh = new_pane_at(
        id,
        h1,
        before.draw_pane_frames,
        terminal_count(s) == 0,
        terminal_count(s) + 1,
        before.viewport,
    );
    &&& rect_map(after.panes@) == rect_map(s).insert(aid, h0).insert(id, h1)
    &&& after.active_terminal == Some(id)
    &&& pane_map(after.panes@)[aid] == kept
    &&& pane_map(after.panes@)[id] == (Pane { active_at: pane_map(after.panes@)[id].active_at, ..fresh })
    &&& after.signals@ == before.signals@ + resize_signal(kept) + resize_signal(fresh) + render_signals(before)
}

/// What splitting the active pane along `a` for a new terminal pane `id` does: into an empty
/// tab the pane comes over the whole viewport; otherwise the active pane keeps the first half
/// and the new one takes the second and the focus, unless the active pane is smaller than twice
/// its smallest size along `a`, in which case the new pane is turned down. A plugin or an
/// identity already in the tab changes nothing.
pub open spec fn split_outcome(before: &Tab, after: &Tab, id: PaneId, a: Axis) -> bool {
    let s = before.panes@;
    if !(id is Terminal) || has_id(s, id) {
        split_ignored(before, after)
    } else if s.len() + 1 >= MAX_COORD || (s.len() == 0 && !non_empty(before.viewport)) || (s.len()
        > 0 && before.active_terminal is None) {
        split_rejected(before, after, id)
    } else if s.len() == 0 {
        placed_alone(before, after, id)
    } else {
        let aid = before.active_terminal.unwrap();
        let r = rect_map(s)[aid];
        if extent(r, a) < 2 * min_extent_of(r, a) {
            split_rejected(before, after, id)
        } else {
            split_done(before, after, aid, id, a)
        }
    }
}

/// What adding the terminal pane `id` without a direction does: into an empty tab it comes
/// over the whole viewport; otherwise the pane that `split_choice` names is divided along
/// `new_pane_axis` and the new pane takes the second half and the focus; with no pane that can
/// be divided that way it is turned down. A plugin or an identity already in the tab changes
/// nothing.
pub open spec fn new_pane_outcome(before: &Tab, after: &Tab, id: PaneId) -> bool {
    let s = before.panes@;
    if !(id is Terminal) || has_id(s, id) {
        split_ignored(before, after)
    } else if s.len() + 1 >= MAX_COORD || (s.len() == 0 && !non_empty(before.viewport)) || (s.len()
        > 0 && !exists|j: int| split_choice(s, j)) {
        split_rejected(before, after, id)
    } else if s.len() == 0 {
        placed_alone(before, after, id)
    } else {
        let p = s[choose|j: int| split_choice(s, j)];
        let a = new_pane_axis(p);
        if a == Axis::Vertical || p.position_and_size.cols > 2 * min_extent(p, Axis::Horizontal) {
            split_done(before, after, p.id, id, a)
        } else {
            split_rejected(before, after, id)
        }
    }
}

/// What closing panes down to the limit and leaving fullscreen makes of `before`: the panes
/// that remain were there, and, under the limit, the rectangles and the focus stay.
pub open spec fn prepared(before: &Tab, mid: &Tab) -> bool {
    &&& mid.wf()
    &&& mid.viewport == before.viewport
    &&& mid.draw_pane_frames == before.draw_pane_frames
    &&& (mid.fullscreen_is_active ==> mid.active_terminal is None)
    &&& forall|x: PaneId| #[trigger] has_id(mid.panes@, x) ==> has_id(before.panes@, x)
    &&& (before.max_panes matches Some(m) ==> forall|x: PaneId|
        #[trigger] has_id(mid.panes@, x) ==> exists|k: int|
            0 <= k < m - 1 && k < before.panes@.len() && (#[trigger] before.panes@[k]).id == x)
    &&& below_pane_limit(before) ==> rect_map(mid.panes@) == rect_map(before.panes@)
        && mid.active_terminal == before.active_terminal
}

impl Tab {
    /// One more than the number of terminal panes: the number of a new pane's title.
    pub fn get_next_selectable_pane_position(&self) -> (r: usize)
        requires
            self.wf(),
        ensures
            r == terminal_count(self.panes@) + 1,
    {
        let mut count: usize = 0;
        let mut k: usize = 0;
        while k < self.panes.len()
            invariant
                k <= self.panes@.len(),
                count == terminal_count(self.panes@.subrange(0, k as int)),
                count <= k,
            decreases self.panes@.len() - k,
        {
            proof {
                let sub = self.panes@.subrange(0, k as int + 1);
                assert(sub.drop_last() =~= self.panes@.subrange(0, k as int));
            }
            if let PaneId::Terminal(_) = self.panes[k].id {
                count += 1;
            }
            k += 1;
        }
        assert(self.panes@.subrange(0, k as int) =~= self.panes@);
        count + 1
    }

    /// A new pane `id` at `rect`, with a frame when `framed` (only a title when `title_only`)
    /// or else with content offsets; its process is asked to take its size.
    pub fn add_pane(&mut self, id: PaneId, rect: PositionAndSize, framed: bool, title_only: bool)
        requires
            old(self).wf(),
            !has_id(old(self).panes@, id),
            old(self).panes@.len() + 1 < MAX_COORD,
            bounded(rect),
            non_empty(rect),
        ensures
            final(self).wf(),
            final(self).same_settings(old(self)),
            rect_map(final(self).panes@) == rect_map(old(self).panes@).insert(id, rect),
            pane_map(final(self).panes@).contains_key(id),
            pane_map(final(self).panes@) == pane_map(old(self).panes@).insert(
                id,
                new_pane_at(id, rect, framed, title_only, terminal_count(old(self).panes@) + 1, old(self).viewport),
            ),
            pane_map(final(self).panes@)[id].selectable,
            pane_map(final(self).panes@)[id].position_and_size_override is None,
            final(self).panes@.len() == old(self).panes@.len() + 1,
            final(self).signals@ == old(self).signals@ + resize_signal(
                new_pane_at(id, rect, framed, title_only, terminal_count(old(self).panes@) + 1, old(self).viewport),
            ),
            old(self).signals@.len() <= final(self).signals@.len(),
            final(self).signals@.subrange(0, old(self).signals@.len() as int) == old(self).signals@,
    {
        let position = self.get_next_selectable_pane_position();
        let mut pane = Pane::new(id, rect, position);
        if framed {
            pane.show_boundaries_frame(title_only);
        } else {
            let (cols_offset, rows_offset) = crate::geometry::pane_content_offset(&rect, &self.viewport);
            pane.offset_content_columns(cols_offset);
            pane.offset_content_rows(rows_offset);
        }
        if let PaneId::Terminal(pid) = id {
            self.signals.push(Signal::ResizeTerminal {
                pid,
                cols: pane.get_content_columns(),
                rows: pane.get_content_rows(),
            });
        }
        let ghost signals = self.signals@;
        assert(pane == new_pane_at(id, rect, framed, title_only, terminal_count(old(self).panes@) + 1, old(self).viewport));
        assert(signals =~= old(self).signals@ + resize_signal(pane));
        self.insert_pane(pane);
        assert(self.signals@.subrange(0, old(self).signals@.len() as int) =~= old(self).signals@);
    }

    /// Divides the pane at `i` along `a`: it keeps the first half and a new pane `id` takes the
    /// second, and becomes the active one.
    pub fn split_pane_at(&mut self, i: usize, id: PaneId, a: Axis)
        requires
            old(self).wf(),
            i < old(self).panes@.len(),
            !has_id(old(self).panes@, id),
            old(self).panes@.len() + 1 < MAX_COORD,
            extent(old(self).panes@[i as int].position_and_size, a) >= 2,
        ensures
            final(self).wf(),
            rect_map(final(self).panes@) == rect_map(old(self).panes@).insert(
                old(self).panes@[i as int].id,
                split_halves(old(self).panes@[i as int].position_and_size, a).0,
            ).insert(id, split_halves(old(self).panes@[i as int].position_and_size, a).1),
            final(self).active_terminal == Some(id),
            final(self).fullscreen_is_active == old(self).fullscreen_is_active,
            final(self).viewport == old(self).viewport,
            final(self).max_panes == old(self).max_panes,
            pane_map(final(self).panes@)[old(self).panes@[i as int].id] == kept_half(
                old(self).panes@[i as int],
                split_halves(old(self).panes@[i as int].position_and_size, a).0,
                old(self).viewport,
                old(self).draw_pane_frames,
            ),
            pane_map(final(self).panes@)[id] == (Pane {
                active_at: pane_map(final(self).panes@)[id].active_at,
                ..new_pane_at(
                    id,
                    split_halves(old(self).panes@[i as int].position_and_size, a).1,
                    old(self).draw_pane_frames,
                    terminal_count(old(self).panes@) == 0,
                    terminal_count(old(self).panes@) + 1,
                    old(self).viewport,
                )
            }),
            final(self).signals@ == old(self).signals@ + resize_signal(
                kept_half(
                    old(self).panes@[i as int],
                    split_halves(old(self).panes@[i as int].position_and_size, a).0,
                    old(self).viewport,
                    old(self).draw_pane_frames,
                ),
            ) + resize_signal(
                new_pane_at(
                    id,
                    split_halves(old(self).panes@[i as int].position_and_size, a).1,
                    old(self).draw_pane_frames,
                    terminal_count(old(self).panes@) == 0,
                    terminal_count(old(self).panes@) + 1,
                    old(self).viewport,
                ),
            ) + render_signals(old(self)),
    {
        let ghost s = self.panes@;
        assert(pane_ok(s[i as int]));
        let rect = self.panes[i].position_and_size;
        let (first, second) = match a {
            Axis::Horizontal => split_vertically(&rect),
            Axis::Vertical => split_horizontally(&rect),
        };
        self.keep_first_half(i, first);
        let ghost s1 = self.panes@;
        let ghost sig1 = self.signals@;
        proof {
            lemma_terminal_count_same_ids(s, s1);
        }
        let position = self.get_next_selectable_pane_position();
        let framed = self.draw_pane_frames;
        self.add_pane(id, second, framed, position == 1);
        let ghost s2 = self.panes@;
        self.active_terminal = Some(id);
        assert(pane_map(s2).contains_key(id));
        let ghost r2 = rect_map(s2);
        let ghost pm2 = pane_map(s2);
        let ghost sig2 = self.signals@;
        self.render();
        proof {
            let t = self.panes@;
            let k = index_of(s2, id);
            lemma_index_of(s2, choose|j: int| 0 <= j < s2.len() && (#[trigger] s2[j]).id == id);
            crate::tab::lemma_map_update(s2, k, Pane { active_at: t[k].active_at, ..s2[k] });
            assert(sig1 == old(self).signals@ + resize_signal(s1[i as int]));
            assert(self.signals@ =~= old(self).signals@ + resize_signal(s1[i as int]) + resize_signal(
                new_pane_at(id, second, framed, terminal_count(s) == 0, terminal_count(s) + 1, old(self).viewport)) + render_signals(old(self)));
            assert(same_tiling(s2, t)) by {
                assert forall|k: int| 0 <= k < s2.len() implies (#[trigger] t[k]).id == s2[k].id && t[k].position_and_size == s2[k].position_and_size && t[k].selectable == s2[k].selectable by {
                    assert(t[k] == (Pane { active_at: t[k].active_at, ..s2[k] }));
                }
            }
            lemma_same_ids(s2, t);
            assert(rect_map(t) =~= r2) by {
                assert forall|x: PaneId| #[trigger] rect_map(t).contains_key(x) implies rect_map(t)[x] == r2[x] by {
                    let k = index_of(s2, x);
                    lemma_index_of(s2, k);
                }
            }
        }
    }

    /// Identities of the panes, in registry order.
    pub fn get_pane_ids(&self) -> (r: Vec<PaneId>)
        ensures
            r@ == crate::tab::ids_of(self.panes@),
    {
        let mut r: Vec<PaneId> = Vec::new();
        let mut k: usize = 0;
        while k < self.panes.len()
            invariant
                k <= self.panes@.len(),
                r@ == crate::tab::ids_of(self.panes@.subrange(0, k as int)),
            decreases self.panes@.len() - k,
        {
            r.push(self.panes[k].id);
            proof {
                assert(r@ =~= crate::tab::ids_of(self.panes@.subrange(0, k as int + 1)));
            }
            k += 1;
        }
        assert(self.panes@.subrange(0, k as int) =~= self.panes@);
        r
    }

    /// Closes panes, last ones in the registry first, until a new one fits under the limit on
    /// the number of panes.
    pub fn close_down_to_max_terminals(&mut self)
        requires
            old(self).wf(),
        ensures
            final(self).wf(),
            below_pane_limit(old(self)) ==> *final(self) == *old(self),
            final(self).viewport == old(self).viewport,
            final(self).draw_pane_frames == old(self).draw_pane_frames,
            forall|x: PaneId| #[trigger] has_id(final(self).panes@, x) ==> has_id(old(self).panes@, x),
            old(self).max_panes matches Some(m) ==> forall|x: PaneId|
                #[trigger] has_id(final(self).panes@, x) ==> exists|k: int|
                    0 <= k < m - 1 && k < old(self).panes@.len() && (#[trigger] old(self).panes@[k]).id == x,
    {
        if let Some(max_panes) = self.max_panes {
            let ids = self.get_pane_ids();
            assert(ids@.len() == self.panes@.len());
            if max_panes - 1 >= ids.len() {
                proof {
                    assert forall|x: PaneId| #[trigger] has_id(self.panes@, x) implies exists|k: int|
                        0 <= k < max_panes - 1 && k < old(self).panes@.len() && (#[trigger] old(self).panes@[k]).id == x by {
                        let k = choose|k: int| 0 <= k < self.panes@.len() && (#[trigger] self.panes@[k]).id == x;
                        assert(old(self).panes@[k].id == x);
                    }
                }
                return;
            }
            let mut k: usize = max_panes - 1;
            while k < ids.len()
                invariant
                    self.wf(),
                    self.viewport == old(self).viewport,
                    self.draw_pane_frames == old(self).draw_pane_frames,
                    ids@ == crate::tab::ids_of(old(self).panes@),
                    max_panes - 1 <= k <= ids@.len(),
                    forall|x: PaneId| #[trigger] has_id(self.panes@, x) ==> has_id(old(self).panes@, x),
                    forall|m: int| max_panes - 1 <= m < k ==> !has_id(self.panes@, #[trigger] ids@[m]),
                decreases ids@.len() - k,
            {
                let id = ids[k];
                let ghost before = self.panes@;
                self.signals.push(Signal::ClosePane(id));
                self.close_pane_without_rerender(id);
                proof {
                    assert forall|x: PaneId| #[trigger] has_id(self.panes@, x) implies has_id(before, x) && x != id by {
                        assert(rect_map(self.panes@).contains_key(x));
                    }
                    assert forall|m: int| max_panes - 1 <= m < k + 1 implies !has_id(self.panes@, #[trigger] ids@[m]) by {
                        if has_id(self.panes@, ids@[m]) {
                            assert(has_id(before, ids@[m]));
                        }
                    }
                }
                k += 1;
            }
            proof {
                assert forall|x: PaneId| #[trigger] has_id(self.panes@, x) implies exists|k: int|
                    0 <= k < max_panes - 1 && k < old(self).panes@.len() && (#[trigger] old(self).panes@[k]).id == x by {
                    assert(has_id(old(self).panes@, x));
                    let j = choose|j: int| 0 <= j < old(self).panes@.len() && (#[trigger] old(self).panes@[j]).id == x;
                    assert(ids@[j] == x);
                    if j >= max_panes - 1 {
                        assert(!has_id(self.panes@, ids@[j]));
                    }
                }
            }
        }
    }

    /// Closes panes down to the limit and leaves fullscreen, before a pane is added.
    fn prepare_for_new_pane(&mut self)
        requires
            old(self).wf(),
        ensures
            prepared(old(self), final(self)),
            below_pane_limit(old(self)) && !old(self).fullscreen_is_active ==> *final(self) == *old(self),
    {
        self.close_down_to_max_terminals();
        let ghost t1 = *self;
        if self.fullscreen_is_active {
            self.toggle_active_pane_fullscreen();
        }
        proof {
            lemma_same_ids(t1.panes@, self.panes@);
            if below_pane_limit(old(self)) {
                assert(rect_map(self.panes@) =~= rect_map(old(self).panes@)) by {
                    assert forall|x: PaneId| #[trigger] rect_map(self.panes@).contains_key(x) implies rect_map(self.panes@)[x] == rect_map(old(self).panes@)[x] by {
                        let k = index_of(old(self).panes@, x);
                        lemma_index_of(old(self).panes@, choose|j: int| 0 <= j < old(self).panes@.len() && (#[trigger] old(self).panes@[j]).id == x);
                    }
                }
            }
            assert forall|x: PaneId| #[trigger] has_id(self.panes@, x) implies has_id(old(self).panes@, x) by {
                assert(has_id(t1.panes@, x));
            }
            if let Some(m) = old(self).max_panes {
                assert forall|x: PaneId| #[trigger] has_id(self.panes@, x) implies exists|k: int|
                    0 <= k < m - 1 && k < old(self).panes@.len() && (#[trigger] old(self).panes@[k]).id == x by {
                    assert(has_id(t1.panes@, x));
                }
            }
        }
    }

    /// Splits the active pane along `a` for the new terminal pane `id` (see `split_outcome`),
    /// after closing panes down to the limit and leaving fullscreen.
    pub fn split_active(&mut self, id: PaneId, a: Axis)
        requires
            old(self).wf(),
        ensures
            final(self).wf(),
            exists|mid: Tab| prepared(old(self), &mid) && split_outcome(&mid, final(self), id, a),
            below_pane_limit(old(self)) && !old(self).fullscreen_is_active ==> split_outcome(old(self), final(self), id, a),
    {
        self.prepare_for_new_pane();
        let ghost mid = *self;
        self.split_after_preparation(id, a);
        assert(prepared(old(self), &mid) && split_outcome(&mid, self, id, a));
    }

    /// The part of `split_active` after the preparation, with `split_outcome` stated of the
    /// prepared tab.
    fn split_after_preparation(&mut self, id: PaneId, a: Axis)
        requires
            old(self).wf(),
        ensures
            final(self).wf(),
            split_outcome(old(self), final(self), id, a),
    {
        if let PaneId::Plugin(_) = id {
            return;
        }
        if self.find(id).is_some() {
            return;
        }
        if self.panes.len() + 1 >= MAX_COORD {
            self.signals.push(Signal::ClosePane(id));
            return;
        }
        if self.panes.len() == 0 {
            if self.viewport.rows == 0 || self.viewport.cols == 0 {
                self.signals.push(Signal::ClosePane(id));
                return;
            }
            let viewport = self.viewport;
            let framed = self.draw_pane_frames;
            self.add_pane(id, viewport, framed, true);
            self.active_terminal = Some(id);
            proof {
                assert(rect_map(old(self).panes@) =~= Map::<PaneId, PositionAndSize>::empty());
                assert(pane_map(self.panes@).contains_key(id));
            }
            return;
        }
        let aid = match self.active_terminal {
            Some(aid) => aid,
            None => {
                self.signals.push(Signal::ClosePane(id));
                return;
            },
        };
        let i = match self.find(aid) {
            Some(i) => i,
            None => return,
        };
        proof {
            lemma_index_of(self.panes@, i as int);
            assert(rect_map(self.panes@)[aid] == self.panes@[i as int].position_and_size);
        }
        let p = self.panes[i];
        let len = p.position_and_size.extent_along(a);
        let min = p.min_along(a);
        if len < 2 * min {
            self.signals.push(Signal::ClosePane(id));
            return;
        }
        assert(pane_ok(self.panes@[i as int]));
        self.split_pane_at(i, id, a);
    }

    /// Splits the active pane into a left and a right half; the new terminal pane `pid` takes
    /// the right one and the focus.
    pub fn vertical_split(&mut self, pid: PaneId)
        requires
            old(self).wf(),
        ensures
            final(self).wf(),
            exists|mid: Tab| prepared(old(self), &mid) && split_outcome(&mid, final(self), pid, Axis::Horizontal),
            below_pane_limit(old(self)) && !old(self).fullscreen_is_active ==> split_outcome(old(self), final(self), pid, Axis::Horizontal),
    {
        self.split_active(pid, Axis::Horizontal);
    }

    /// Splits the active pane into a top and a bottom half; the new terminal pane `pid` takes
    /// the bottom one and the focus.
    pub fn horizontal_split(&mut self, pid: PaneId)
        requires
            old(self).wf(),
        ensures
            final(self).wf(),
            exists|mid: Tab| prepared(old(self), &mid) && split_outcome(&mid, final(self), pid, Axis::Vertical),
            below_pane_limit(old(self)) && !old(self).fullscreen_is_active ==> split_outcome(old(self), final(self), pid, Axis::Vertical),
    {
        self.split_active(pid, Axis::Vertical);
    }

    /// The position of the pane that a new pane splits, if one can be split.
    pub fn pane_to_split(&self) -> (r: Option<usize>)
        requires
            self.wf(),
        ensures
            r matches Some(j) ==> split_choice(self.panes@, j as int),
            r is None ==> !exists|j: int| split_choice(self.panes@, j),
    {
        let s = Ghost(self.panes@);
        let mut best: Option<usize> = None;
        let mut best_weight: u64 = 0;
        let mut j: usize = 0;
        while j < self.panes.len()
            invariant
                self.wf(),
                s@ == self.panes@,
                j <= s@.len(),
                best matches Some(b) ==> b < j && can_be_split(s@[b as int]) && best_weight == split_weight(s@[b as int]),
                forall|k: int| 0 <= k < j && #[trigger] can_be_split(s@[k]) ==> (best matches Some(b) && (split_weight(s@[k]) < split_weight(s@[b as int]) || (split_weight(s@[k]) == split_weight(s@[b as int]) && b <= k))),
            decreases s@.len() - j,
        {
            let p = self.panes[j];
            assert(pane_ok(s@[j as int]));
            let r = p.position_and_size;
            let splittable = r.cols >= MIN_TERMINAL_WIDTH && r.rows >= MIN_TERMINAL_HEIGHT && (r.cols > p.min_width() * 2 || r.rows > p.min_height() * 2);
            assert(splittable == can_be_split(p));
            if splittable {
                let rows = r.rows as u64;
                let cols = r.cols as u64;
                assert(rows * 4 <= 0x1_0000_0000);
                assert(rows * 4 * cols <= 0x1_0000_0000 * 0x4000_0000) by (nonlinear_arith)
                    requires
                        rows * 4 <= 0x1_0000_0000,
                        cols <= 0x4000_0000,
                ;
                let weight: u64 = rows * (CURSOR_HEIGHT_WIDTH_RATIO as u64) * cols;
                match best {
                    None => {
                        best = Some(j);
                        best_weight = weight;
                    },
                    Some(_) => {
                        if weight > best_weight {
                            best = Some(j);
                            best_weight = weight;
                        }
                    },
                }
            }
            j += 1;
        }
        proof {
            if best is None {
                if exists|j: int| split_choice(s@, j) {
                    let j = choose|j: int| split_choice(s@, j);
                    assert(can_be_split(s@[j]));
                }
            }
        }
        best
    }

    /// Adds the terminal pane `pid` where there is most room (see `new_pane_outcome`), after
    /// closing panes down to the limit and leaving fullscreen.
    pub fn new_pane(&mut self, pid: PaneId)
        requires
            old(self).wf(),
        ensures
            final(self).wf(),
            exists|mid: Tab| prepared(old(self), &mid) && new_pane_outcome(&mid, final(self), pid),
            below_pane_limit(old(self)) && !old(self).fullscreen_is_active ==> new_pane_outcome(old(self), final(self), pid),
    {
        self.prepare_for_new_pane();
        let ghost mid = *self;
        self.new_pane_after_preparation(pid);
        assert(prepared(old(self), &mid) && new_pane_outcome(&mid, self, pid));
    }

    fn new_pane_after_preparation(&mut self, pid: PaneId)
        requires
            old(self).wf(),
        ensures
            final(self).wf(),
            new_pane_outcome(old(self), final(self), pid),
    {
        let ghost mid = *self;
        if let PaneId::Plugin(_) = pid {
            return;
        }
        if self.find(pid).is_some() {
            return;
        }
        if self.panes.len() + 1 >= MAX_COORD {
            self.signals.push(Signal::ClosePane(pid));
            return;
        }
        if self.panes.len() == 0 {
            if self.viewport.rows == 0 || self.viewport.cols == 0 {
                self.signals.push(Signal::ClosePane(pid));
                return;
            }
            let viewport = self.viewport;
            let framed = self.draw_pane_frames;
            self.add_pane(pid, viewport, framed, true);
            self.active_terminal = Some(pid);
            proof {
                assert(rect_map(mid.panes@) =~= Map::<PaneId, PositionAndSize>::empty());
                assert(pane_map(self.panes@).contains_key(pid));
            }
            return;
        }
        let j = match self.pane_to_split() {
            Some(j) => j,
            None => {
                self.signals.push(Signal::ClosePane(pid));
                return;
            },
        };
        proof {
            let c = choose|c: int| split_choice(mid.panes@, c);
            assert(split_choice(mid.panes@, j as int));
            assert(can_be_split(mid.panes@[c]));
            assert(can_be_split(mid.panes@[j as int]));
        }
        let p = self.panes[j];
        let r = p.position_and_size;
        assert(pane_ok(mid.panes@[j as int]));
        if (r.rows as u64) * (CURSOR_HEIGHT_WIDTH_RATIO as u64) > r.cols as u64 && r.rows > p.min_height() * 2 {
            self.split_pane_at(j, pid, Axis::Vertical);
        } else if r.cols > p.min_width() * 2 {
            self.split_pane_at(j, pid, Axis::Horizontal);
        } else {
            self.signals.push(Signal::ClosePane(pid));
        }
    }

    /// The pane at `i` keeps `first`, the first half of its rectangle, with a full frame when
    /// frames are drawn; its process is asked to take the new size.
    fn keep_first_half(&mut self, i: usize, first: PositionAndSize)
        requires
            old(self).wf(),
            i < old(self).panes@.len(),
            bounded(first),
            non_empty(first),
        ensures
            final(self).wf(),
            final(self).same_settings(old(self)),
            final(self).panes@.len() == old(self).panes@.len(),
            forall|k: int| 0 <= k < old(self).panes@.len() ==> (#[trigger] final(self).panes@[k]).id == old(self).panes@[k].id,
            final(self).panes@[i as int] == kept_half(old(self).panes@[i as int], first, old(self).viewport, old(self).draw_pane_frames),
            pane_map(final(self).panes@) == pane_map(old(self).panes@).insert(
                old(self).panes@[i as int].id,
                kept_half(old(self).panes@[i as int], first, old(self).viewport, old(self).draw_pane_frames),
            ),
            rect_map(final(self).panes@) == rect_map(old(self).panes@).insert(old(self).panes@[i as int].id, first),
            final(self).signals@ == old(self).signals@ + resize_signal(
                kept_half(old(self).panes@[i as int], first, old(self).viewport, old(self).draw_pane_frames),
            ),
    {
        let ghost s = self.panes@;
        assert(pane_ok(s[i as int]));
        let mut existing = self.panes[i];
        if self.draw_pane_frames {
            existing.show_boundaries_frame(false);
        }
        self.replace_pane(i, existing);
        self.set_pane_rect(i, first);
        proof {
            crate::tab::lemma_map_update(s, i as int, existing);
            let s1 = self.panes@;
            crate::tab::lemma_map_update(s.update(i as int, existing), i as int, s1[i as int]);
            assert(pane_map(s).insert(existing.id, existing).insert(existing.id, s1[i as int]) =~= pane_map(s).insert(existing.id, s1[i as int]));
            assert(rect_map(s).insert(existing.id, existing.position_and_size).insert(existing.id, first) =~= rect_map(s).insert(existing.id, first));
            assert forall|k: int| 0 <= k < s.len() implies (#[trigger] s1[k]).id == s[k].id by {}
        }
    }
}

} // verus!
