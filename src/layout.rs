use vstd::prelude::*;
use crate::geometry::{bounded, non_empty, PositionAndSize, MAX_COORD};
use crate::pane::{pane_ok, Pane, PaneId};
use crate::split::terminal_count;
use crate::tab::{has_id, index_of, rect_map, Signal, Tab};

verus! {

/// What runs in a slot of a layout.
#[derive(Clone, Copy, Debug, PartialEq, Eq, Structural)]
pub enum LayoutRun {
    /// A terminal, whose process comes from the identities handed to `apply_layout`.
    Terminal,
    /// A plugin already loaded under this identity.
    Plugin(u32),
}

/// One slot of a layout, with the rectangle worked out for it.
#[derive(Clone, Copy, Debug)]
pub struct LayoutSlot {
    pub borderless: bool,
    pub run: LayoutRun,
    pub position_and_size: PositionAndSize,
}

/// Number of terminal slots among `slots`.
pub open spec fn terminal_slots(slots: Seq<LayoutSlot>) -> nat
    decreases slots.len(),
{
    if slots.len() == 0 {
        0
    } else {
        terminal_slots(slots.drop_last()) + if slots.last().run == LayoutRun::Terminal { 1nat } else { 0nat }
    }
}

/// Slots that existing terminal panes do not take: those past the first `taken`.
pub open spec fn slots_left(slots: Seq<LayoutSlot>, taken: nat) -> Seq<LayoutSlot> {
    if taken < slots.len() {
        slots.subrange(taken as int, slots.len() as int)
    } else {
        seq![]
    }
}

/// The slot that the terminal pane at `j` takes, counting terminal panes in registry order.
pub open spec fn slot_of(s: Seq<Pane>, j: int) -> nat {
    terminal_count(s.subrange(0, j))
}

/// The viewport once every borderless slot of `slots` has been taken from it, in order.
pub open spec fn viewport_after_layout(vp: PositionAndSize, slots: Seq<LayoutSlot>) -> PositionAndSize
    decreases slots.len(),
{
    if slots.len() == 0 {
        vp
    } else {
        let v = viewport_after_layout(vp, slots.drop_last());
        if slots.last().borderless {
            crate::registry::viewport_after_offset(v, slots.last().position_and_size)
        } else {
            v
        }
    }
}

/// The identity of the new pane in slot `q`, where the first `taken` slots went to existing
/// panes: the slot's plugin, or the next unused terminal identity.
pub open spec fn new_slot_id(slots: Seq<LayoutSlot>, new_pids: Seq<i32>, taken: nat, q: int) -> PaneId {
    match slots[q].run {
        LayoutRun::Plugin(p) => PaneId::Plugin(p),
        LayoutRun::Terminal => PaneId::Terminal(new_pids[terminal_slots(slots.subrange(taken as int, q)) as int]),
    }
}

/// The identities handed to a layout are new to the tab and to each other.
pub open spec fn fresh_identities(s: Seq<Pane>, slots: Seq<LayoutSlot>, new_pids: Seq<i32>) -> bool {
    &&& forall|k: int| 0 <= k < new_pids.len() ==> !has_id(s, PaneId::Terminal(#[trigger] new_pids[k]))
    &&& forall|k1: int, k2: int| 0 <= k1 < k2 < new_pids.len() ==> #[trigger] new_pids[k1] != #[trigger] new_pids[k2]
    &&& forall|q: int| 0 <= q < slots.len() ==> (#[trigger] slots[q].run matches LayoutRun::Plugin(p) ==> !has_id(s, PaneId::Plugin(p)))
    &&& forall|q1: int, q2: int| 0 <= q1 < q2 < slots.len() && (#[trigger] slots[q1].run) is Plugin ==> #[trigger] slots[q2].run != slots[q1].run
}

/// Terminal slots never get fewer as the range of slots grows.
pub proof fn lemma_terminal_slots_grow(slots: Seq<LayoutSlot>, start: int, q: int, r: int)
    requires
        0 <= start <= q <= r <= slots.len(),
    ensures
        terminal_slots(slots.subrange(start, q)) <= terminal_slots(slots.subrange(start, r)),
    decreases r - q,
{
    if q < r {
        lemma_terminal_slots_grow(slots, start, q, r - 1);
        assert(slots.subrange(start, r).drop_last() =~= slots.subrange(start, r - 1));
    }
}

impl Tab {
    /// Lays the panes out by a precomputed layout: borderless slots first shrink the viewport,
    /// existing terminal panes take the slots in order (those left over are hidden), and each
    /// slot left gets a new pane: the loaded plugin, or a terminal from `new_pids` in order.
    /// Identities not used are closed, and the first pane becomes the active one.
    pub fn apply_layout(&mut self, slots: Vec<LayoutSlot>, new_pids: Vec<i32>)
        requires
            old(self).wf(),
            forall|k: int| 0 <= k < slots@.len() ==> bounded(#[trigger] slots@[k].position_and_size) && non_empty(slots@[k].position_and_size),
            terminal_slots(slots_left(slots@, terminal_count(old(self).panes@))) <= new_pids@.len(),
            old(self).panes@.len() + slots@.len() + 1 < MAX_COORD,
            fresh_identities(old(self).panes@, slots@, new_pids@),
        ensures
            final(self).wf(),
            final(self).viewport == viewport_after_layout(old(self).viewport, slots@),
            forall|q: int|
                terminal_count(old(self).panes@) <= q < slots@.len() ==> rect_map(final(self).panes@).contains_key(
                    #[trigger] new_slot_id(slots@, new_pids@, terminal_count(old(self).panes@), q),
                ) && rect_map(final(self).panes@)[new_slot_id(slots@, new_pids@, terminal_count(old(self).panes@), q)]
                    == slots@[q].position_and_size,
            forall|k: int|
                terminal_slots(slots_left(slots@, terminal_count(old(self).panes@))) <= k < new_pids@.len()
                    ==> final(self).signals@.contains(Signal::ClosePane(PaneId::Terminal(#[trigger] new_pids@[k]))),
            forall|j: int|
                0 <= j < old(self).panes@.len() && (#[trigger] old(self).panes@[j]).id is Terminal ==> if slot_of(old(self).panes@, j) < slots@.len() {
                    rect_map(final(self).panes@).contains_key(old(self).panes@[j].id)
                        && rect_map(final(self).panes@)[old(self).panes@[j].id] == slots@[slot_of(old(self).panes@, j) as int].position_and_size
                } else {
                    final(self).panes_to_hide@.contains(old(self).panes@[j].id)
                },
            final(self).panes@.len() > 0 ==> final(self).active_terminal == Some(final(self).panes@[0].id),
    {
        self.panes_to_hide = Vec::new();
        let mut k: usize = 0;
        let mut borderless: usize = 0;
        while k < slots.len()
            invariant
                self.wf(),
                self.panes@ == old(self).panes@,
                self.panes_to_hide@.len() == 0,
                self.signals@ == old(self).signals@,
                self.viewport == viewport_after_layout(old(self).viewport, slots@.subrange(0, k as int)),
                k <= slots@.len(),
                borderless <= k,
            decreases slots@.len() - k,
        {
            proof {
                assert(slots@.subrange(0, k as int + 1).drop_last() =~= slots@.subrange(0, k as int));
            }
            if slots[k].borderless {
                let rect = slots[k].position_and_size;
                self.offset_viewport(&rect);
                borderless += 1;
            }
            k += 1;
        }
        assert(slots@.subrange(0, k as int) =~= slots@);
        let total_with_border = slots.len() - borderless;
        let ghost s0 = self.panes@;
        let len = self.panes.len();
        let mut next_slot: usize = 0;
        let mut j: usize = 0;
        while j < len
            invariant
                self.wf(),
                len == s0.len(),
                self.panes@.len() == len,
                s0 == old(self).panes@,
                forall|m: int| 0 <= m < len ==> (#[trigger] self.panes@[m]).id == s0[m].id,
                forall|m: int| j <= m < len ==> #[trigger] self.panes@[m] == s0[m],
                forall|x: int| 0 <= x < slots@.len() ==> bounded(#[trigger] slots@[x].position_and_size) && non_empty(slots@[x].position_and_size),
                j <= len,
                self.viewport == viewport_after_layout(old(self).viewport, slots@),
                self.signals@.subrange(0, old(self).signals@.len() as int) == old(self).signals@,
                old(self).signals@.len() <= self.signals@.len(),
                next_slot == slot_of(s0, j as int),
                forall|m: int|
                    0 <= m < j && (#[trigger] s0[m]).id is Terminal ==> if slot_of(s0, m) < slots@.len() {
                        self.panes@[m].position_and_size == slots@[slot_of(s0, m) as int].position_and_size
                    } else {
                        self.panes_to_hide@.contains(s0[m].id)
                    },
            decreases len - j,
        {
            proof {
                let sub = s0.subrange(0, j as int + 1);
                assert(sub.drop_last() =~= s0.subrange(0, j as int));
                lemma_terminal_count_bound(s0.subrange(0, j as int));
            }
            let id = self.panes[j].id;
            let ghost hidden_before = self.panes_to_hide@;
            let ghost panes_before = self.panes@;
            if let PaneId::Terminal(_) = id {
                let slot = if next_slot < slots.len() {
                    Some(slots[next_slot].position_and_size)
                } else {
                    None
                };
                self.lay_out_existing_pane(j, slot);
                next_slot += 1;
            }
            proof {
                assert forall|m: int|
                    0 <= m < j + 1 && (#[trigger] s0[m]).id is Terminal implies if slot_of(s0, m) < slots@.len() {
                        self.panes@[m].position_and_size == slots@[slot_of(s0, m) as int].position_and_size
                    } else {
                        self.panes_to_hide@.contains(s0[m].id)
                    } by {
                    if m < j {
                        assert(self.panes@[m] == panes_before[m]);
                        if slot_of(s0, m) >= slots@.len() {
                            assert(hidden_before.contains(s0[m].id));
                            let w = choose|w: int| 0 <= w < hidden_before.len() && hidden_before[w] == s0[m].id;
                            assert(self.panes_to_hide@[w] == s0[m].id);
                        }
                    } else {
                        if slot_of(s0, m) >= slots@.len() {
                            assert(self.panes_to_hide@[self.panes_to_hide@.len() - 1] == s0[m].id);
                        }
                    }
                }
            }
            j += 1;
        }
        proof {
            assert forall|m: int| 0 <= m < len && (#[trigger] s0[m]).id is Terminal && slot_of(s0, m) < slots@.len() implies rect_map(self.panes@).contains_key(s0[m].id) && rect_map(self.panes@)[s0[m].id] == slots@[slot_of(s0, m) as int].position_and_size by {
                crate::tab::lemma_index_of(self.panes@, m);
            }
        }
        let ghost hidden = self.panes_to_hide@;
        let ghost placed_rects = rect_map(self.panes@);
        let ghost vp = self.viewport;
        proof {
            lemma_terminal_count_bound(s0);
            assert(s0.subrange(0, len as int) =~= s0);
        }
        proof {
            crate::tab::lemma_same_ids(old(self).panes@, self.panes@);
            assert(next_slot == terminal_count(old(self).panes@));
            assert(fresh_identities(self.panes@, slots@, new_pids@));
        }
        self.add_slot_panes(&slots, &new_pids, next_slot, total_with_border);
        self.active_terminal = if self.panes.len() > 0 {
            Some(self.panes[0].id)
        } else {
            None
        };
        proof {
            if self.panes@.len() > 0 {
                assert(has_id(self.panes@, self.panes@[0].id));
            }
        }
        let ghost before_render = self.panes@;
        let ghost sig_before_render = self.signals@;
        self.render();
        proof {
            crate::tab::lemma_same_ids(before_render, self.panes@);
            assert forall|k: int|
                terminal_slots(slots_left(slots@, terminal_count(old(self).panes@))) <= k < new_pids@.len()
                    implies self.signals@.contains(Signal::ClosePane(PaneId::Terminal(#[trigger] new_pids@[k]))) by {
                assert(sig_before_render.contains(Signal::ClosePane(PaneId::Terminal(new_pids@[k]))));
                let w = choose|w: int| 0 <= w < sig_before_render.len() && sig_before_render[w] == Signal::ClosePane(PaneId::Terminal(new_pids@[k]));
                assert(self.signals@[w] == sig_before_render[w]);
            }
            assert forall|x: PaneId| #[trigger] rect_map(before_render).contains_key(x) implies rect_map(self.panes@)[x] == rect_map(before_render)[x] by {
                let k = index_of(before_render, x);
                crate::tab::lemma_index_of(before_render, choose|i: int| 0 <= i < before_render.len() && (#[trigger] before_render[i]).id == x);
                assert(self.panes@[k] == (Pane { active_at: self.panes@[k].active_at, ..before_render[k] }));
            }
        }
    }
}

impl Tab {
    /// Puts the pane at `j` at `slot`, shown there, or hides it when there is no slot for it.
    fn lay_out_existing_pane(&mut self, j: usize, slot: Option<PositionAndSize>)
        requires
            old(self).wf(),
            j < old(self).panes@.len(),
            slot matches Some(r) ==> bounded(r) && non_empty(r),
        ensures
            final(self).wf(),
            final(self).panes@.len() == old(self).panes@.len(),
            forall|m: int| 0 <= m < final(self).panes@.len() && m != j ==> #[trigger] final(self).panes@[m] == old(self).panes@[m],
            final(self).panes@[j as int].id == old(self).panes@[j as int].id,
            slot matches Some(r) ==> final(self).panes@[j as int].position_and_size == r && final(self).panes_to_hide@ == old(self).panes_to_hide@,
            slot is None ==> final(self).panes@ == old(self).panes@ && final(self).panes_to_hide@ == old(self).panes_to_hide@.push(old(self).panes@[j as int].id),
            final(self).viewport == old(self).viewport,
            old(self).signals@.len() <= final(self).signals@.len(),
            final(self).signals@.subrange(0, old(self).signals@.len() as int) == old(self).signals@,
    {
        match slot {
            Some(rect) => {
                let mut p = self.panes[j];
                p.reset_size_and_position_override();
                assert(pane_ok(self.panes@[j as int]));
                self.replace_pane(j, p);
                self.set_pane_rect(j, rect);
                assert(self.signals@.subrange(0, old(self).signals@.len() as int) =~= old(self).signals@);
            },
            None => {
                let id = self.panes[j].id;
                self.panes_to_hide.push(id);
                assert(self.signals@.subrange(0, old(self).signals@.len() as int) =~= old(self).signals@);
            },
        }
    }
}

impl Tab {
    /// Gives each slot from `start` on a new pane: its plugin, or the next identity of
    /// `new_pids`; then asks for the identities left over to be closed.
    fn add_slot_panes(&mut self, slots: &Vec<LayoutSlot>, new_pids: &Vec<i32>, start: usize, total_with_border: usize)
        requires
            old(self).wf(),
            forall|k: int| 0 <= k < slots@.len() ==> bounded(#[trigger] slots@[k].position_and_size) && non_empty(slots@[k].position_and_size),
            old(self).panes@.len() + slots@.len() + 1 < MAX_COORD,
            terminal_slots(slots_left(slots@, start as nat)) <= new_pids@.len(),
            fresh_identities(old(self).panes@, slots@, new_pids@),
        ensures
            final(self).wf(),
            final(self).viewport == old(self).viewport,
            final(self).panes_to_hide@ == old(self).panes_to_hide@,
            forall|x: PaneId| #[trigger] rect_map(old(self).panes@).contains_key(x) ==> rect_map(final(self).panes@).contains_key(x) && rect_map(final(self).panes@)[x] == rect_map(old(self).panes@)[x],
            forall|q: int|
                start <= q < slots@.len() ==> rect_map(final(self).panes@).contains_key(#[trigger] new_slot_id(slots@, new_pids@, start as nat, q))
                    && rect_map(final(self).panes@)[new_slot_id(slots@, new_pids@, start as nat, q)] == slots@[q].position_and_size,
            forall|k: int|
                terminal_slots(slots_left(slots@, start as nat)) <= k < new_pids@.len()
                    ==> final(self).signals@.contains(Signal::ClosePane(PaneId::Terminal(#[trigger] new_pids@[k]))),
            old(self).signals@.len() <= final(self).signals@.len(),
            final(self).signals@.subrange(0, old(self).signals@.len() as int) == old(self).signals@,
    {
        let ghost s0 = self.panes@;
        let ghost r0 = rect_map(self.panes@);
        let ghost sig0 = self.signals@;
        let npids = new_pids.len();
        let mut pid_cursor: usize = 0;
        let mut q: usize = start;
        if start >= slots.len() {
            q = slots.len();
        }
        let ghost first = q;
        proof {
            if start < slots@.len() {
                assert(slots@.subrange(start as int, start as int).len() == 0);
            }
        }
        while q < slots.len()
            invariant
                self.wf(),
                self.viewport == old(self).viewport,
                self.panes_to_hide@ == old(self).panes_to_hide@,
                first == (if start < slots@.len() { start as int } else { slots@.len() as int }),
                first <= q <= slots@.len(),
                forall|k: int| 0 <= k < slots@.len() ==> bounded(#[trigger] slots@[k].position_and_size) && non_empty(slots@[k].position_and_size),
                s0.len() + slots@.len() + 1 < MAX_COORD,
                self.panes@.len() <= s0.len() + (q - first),
                terminal_slots(slots_left(slots@, start as nat)) <= new_pids@.len(),
                fresh_identities(s0, slots@, new_pids@),
                start < slots@.len() ==> pid_cursor == terminal_slots(slots@.subrange(start as int, q as int)),
                start >= slots@.len() ==> pid_cursor == 0,
                pid_cursor <= new_pids@.len(),
                npids == new_pids@.len(),
                forall|x: PaneId| #[trigger] r0.contains_key(x) ==> rect_map(self.panes@).contains_key(x) && rect_map(self.panes@)[x] == r0[x],
                forall|p: int|
                    start <= p < q ==> rect_map(self.panes@).contains_key(#[trigger] new_slot_id(slots@, new_pids@, start as nat, p))
                        && rect_map(self.panes@)[new_slot_id(slots@, new_pids@, start as nat, p)] == slots@[p].position_and_size,
                forall|k: int| pid_cursor <= k < new_pids@.len() ==> !has_id(self.panes@, PaneId::Terminal(#[trigger] new_pids@[k])),
                forall|p: int| q <= p < slots@.len() ==> (#[trigger] slots@[p].run matches LayoutRun::Plugin(pl) ==> !has_id(self.panes@, PaneId::Plugin(pl))),
                forall|x: PaneId| has_id(s0, x) ==> has_id(self.panes@, x),
                sig0.len() <= self.signals@.len(),
                self.signals@.subrange(0, sig0.len() as int) == sig0,
            decreases slots@.len() - q,
        {
            proof {
                assert(slots@.subrange(start as int, q as int + 1).drop_last() =~= slots@.subrange(start as int, q as int));
                lemma_terminal_slots_grow(slots@, start as int, q as int + 1, slots@.len() as int);
                assert(slots_left(slots@, start as nat) == slots@.subrange(start as int, slots@.len() as int));
            }
            let ghost cursor0 = pid_cursor;
            let ghost panes0 = self.panes@;
            assert(forall|k: int| cursor0 <= k < new_pids@.len() ==> !has_id(panes0, PaneId::Terminal(#[trigger] new_pids@[k])));
            let slot = slots[q];
            let rect = slot.position_and_size;
            let framed = self.draw_pane_frames && !slot.borderless;
            let id = match slot.run {
                LayoutRun::Plugin(plugin) => PaneId::Plugin(plugin),
                LayoutRun::Terminal => {
                    proof {
                        assert(slots@.subrange(start as int, q as int + 1).last() == slots@[q as int]);
                        assert(terminal_slots(slots@.subrange(start as int, q as int + 1)) == pid_cursor + 1);
                    }
                    let pid = new_pids[pid_cursor];
                    pid_cursor += 1;
                    PaneId::Terminal(pid)
                },
            };
            assert(id == new_slot_id(slots@, new_pids@, start as nat, q as int));
            assert(!has_id(self.panes@, id));
            let title_only = !slot.borderless && total_with_border == 1 && (matches!(slot.run, LayoutRun::Plugin(_)) || self.get_next_selectable_pane_position() == 1);
            let ghost before = rect_map(self.panes@);
            let ghost before_panes = self.panes@;
            let ghost before_sig = self.signals@;
            self.add_pane(id, rect, framed, title_only);
            proof {
                assert(self.signals@.subrange(0, sig0.len() as int) =~= before_sig.subrange(0, sig0.len() as int));
                assert forall|x: PaneId| #[trigger] r0.contains_key(x) implies rect_map(self.panes@).contains_key(x) && rect_map(self.panes@)[x] == r0[x] by {
                    assert(before.contains_key(x));
                }
                assert forall|p: int| start <= p < q + 1 implies rect_map(self.panes@).contains_key(#[trigger] new_slot_id(slots@, new_pids@, start as nat, p))
                    && rect_map(self.panes@)[new_slot_id(slots@, new_pids@, start as nat, p)] == slots@[p].position_and_size by {
                    if p < q {
                        assert(before.contains_key(new_slot_id(slots@, new_pids@, start as nat, p)));
                    }
                }
                assert forall|k: int| pid_cursor <= k < new_pids@.len() implies !has_id(self.panes@, PaneId::Terminal(#[trigger] new_pids@[k])) by {
                    assert(cursor0 <= k);
                    assert(!has_id(panes0, PaneId::Terminal(new_pids@[k])));
                    if slot.run == LayoutRun::Terminal {
                        assert(cursor0 < k);
                        assert(new_pids@[cursor0 as int] != new_pids@[k]);
                    }
                    assert(PaneId::Terminal(new_pids@[k]) != id);
                    assert(!before.contains_key(PaneId::Terminal(new_pids@[k])));
                    assert(!rect_map(self.panes@).contains_key(PaneId::Terminal(new_pids@[k])));
                }
                assert forall|p: int| q + 1 <= p < slots@.len() implies (#[trigger] slots@[p].run matches LayoutRun::Plugin(pl) ==> !has_id(self.panes@, PaneId::Plugin(pl))) by {
                    if let LayoutRun::Plugin(pl) = slots@[p].run {
                        assert(!has_id(before_panes, PaneId::Plugin(pl)));
                        if slot.run is Plugin {
                            assert(slots@[p].run != slots@[q as int].run);
                        }
                        assert(PaneId::Plugin(pl) != id);
                        assert(!before.contains_key(PaneId::Plugin(pl)));
                        assert(!rect_map(self.panes@).contains_key(PaneId::Plugin(pl)));
                    }
                }
                assert forall|x: PaneId| has_id(s0, x) implies has_id(self.panes@, x) by {
                    assert(before.contains_key(x));
                    assert(rect_map(self.panes@).contains_key(x));
                }
            }
            q += 1;
        }
        let used = pid_cursor;
        proof {
            if start < slots@.len() {
                assert(slots_left(slots@, start as nat) == slots@.subrange(start as int, slots@.len() as int));
            }
        }
        while pid_cursor < new_pids.len()
            invariant
                self.wf(),
                self.viewport == old(self).viewport,
                self.panes_to_hide@ == old(self).panes_to_hide@,
                used == terminal_slots(slots_left(slots@, start as nat)),
                used <= pid_cursor <= new_pids@.len(),
                forall|x: PaneId| #[trigger] r0.contains_key(x) ==> rect_map(self.panes@).contains_key(x) && rect_map(self.panes@)[x] == r0[x],
                forall|p: int|
                    start <= p < slots@.len() ==> rect_map(self.panes@).contains_key(#[trigger] new_slot_id(slots@, new_pids@, start as nat, p))
                        && rect_map(self.panes@)[new_slot_id(slots@, new_pids@, start as nat, p)] == slots@[p].position_and_size,
                forall|k: int| used <= k < pid_cursor ==> self.signals@.contains(Signal::ClosePane(PaneId::Terminal(#[trigger] new_pids@[k]))),
                sig0.len() <= self.signals@.len(),
                self.signals@.subrange(0, sig0.len() as int) == sig0,
            decreases new_pids@.len() - pid_cursor,
        {
            let ghost before_sig = self.signals@;
            self.signals.push(Signal::ClosePane(PaneId::Terminal(new_pids[pid_cursor])));
            proof {
                assert(self.signals@.subrange(0, sig0.len() as int) =~= before_sig.subrange(0, sig0.len() as int));
                assert forall|k: int| used <= k < pid_cursor + 1 implies self.signals@.contains(Signal::ClosePane(PaneId::Terminal(#[trigger] new_pids@[k]))) by {
                    if k < pid_cursor {
                        let w = choose|w: int| 0 <= w < before_sig.len() && before_sig[w] == Signal::ClosePane(PaneId::Terminal(new_pids@[k]));
                        assert(self.signals@[w] == before_sig[w]);
                    } else {
                        assert(self.signals@[self.signals@.len() - 1] == Signal::ClosePane(PaneId::Terminal(new_pids@[k])));
                    }
                }
            }
            pid_cursor += 1;
        }
    }
}

/// There are no more terminal panes than panes.
pub proof fn lemma_terminal_count_bound(s: Seq<Pane>)
    ensures
        terminal_count(s) <= s.len(),
    decreases s.len(),
{
    if s.len() > 0 {
        lemma_terminal_count_bound(s.drop_last());
    }
}

} // verus!
