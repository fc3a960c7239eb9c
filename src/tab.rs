use vstd::prelude::*;
use vstd::string::StringExecFns;
use crate::geometry::{bounded, non_empty, Position, PositionAndSize, MAX_COORD};
use crate::pane::{content_columns, content_rows, id_precedes, id_rank, pane_ok, placed, Pane, PaneId};

verus! {

/// What the tab asks of the world around it. The tab only queues these; whoever drives it
/// carries them out in order.
#[derive(Debug)]
pub enum Signal {
    /// Resize the terminal process `pid` to `cols` columns and `rows` rows of content.
    ResizeTerminal { pid: i32, cols: usize, rows: usize },
    /// The process behind this pane is not needed any more.
    ClosePane(PaneId),
    /// Draw the tab; clear the display first when `clear_display` is set.
    Render { clear_display: bool },
    /// Hand these input bytes to the pane.
    WriteToPane(PaneId, Vec<u8>),
    /// Scroll the pane's content by a number of lines (up when `up` is set).
    Scroll { id: PaneId, up: bool, lines: usize },
    /// Scroll the pane's content back to its end.
    ClearScroll(PaneId),
    /// Begin a text selection at a point given relative to the pane.
    StartSelection(PaneId, Position),
    /// Extend the text selection to a point given relative to the pane.
    UpdateSelection(PaneId, Position),
    /// End the text selection, at a point relative to the pane if there is one, copy the
    /// selected text to the clipboard and clear the selection.
    EndSelection(PaneId, Option<Position>),
    /// Copy the pane's selected text to the clipboard.
    CopySelection(PaneId),
    /// Output of the terminal process `pid`, for its pane to take in.
    PtyBytes(i32, Vec<u8>),
}

/// One tiled workspace: its panes, which of them is active, and the screen area they share.
pub struct Tab {
    pub index: usize,
    pub position: usize,
    pub name: String,
    /// The panes, ordered by identity (`id_rank`), each identity once.
    pub panes: Vec<Pane>,
    /// Panes that are not drawn: all but the active one while fullscreen is on.
    pub panes_to_hide: Vec<PaneId>,
    pub active_terminal: Option<PaneId>,
    pub max_panes: Option<usize>,
    /// The area of the selectable panes.
    pub viewport: PositionAndSize,
    /// The whole screen, fixed panes such as status bars included.
    pub display_area: PositionAndSize,
    pub fullscreen_is_active: bool,
    pub synchronize_is_active: bool,
    pub should_clear_display_before_rendering: bool,
    pub draw_pane_frames: bool,
    /// Whether a client is attached, so that drawing is worth doing.
    pub session_attached: bool,
    /// Ticks once for each drawing; panes remember the tick at which they were last active.
    pub clock: u64,
    /// Requests to the world around the tab, oldest first.
    pub signals: Vec<Signal>,
}

/// The decimal digits of `n`, most significant first.
pub open spec fn decimal(n: nat) -> Seq<char>
    decreases n,
{
    if n < 10 {
        seq![digit_char(n)]
    } else {
        decimal(n / 10).push(digit_char(n % 10))
    }
}

pub open spec fn digit_char(d: nat) -> char {
    if d == 0 { '0' } else if d == 1 { '1' } else if d == 2 { '2' } else if d == 3 { '3' } else if d
        == 4 { '4' } else if d == 5 { '5' } else if d == 6 { '6' } else if d == 7 { '7' } else if d
        == 8 { '8' } else { '9' }
}

/// Relies on `ToString` through the `Display` of `usize`, which writes the number in decimal
/// without leading zeros.
#[verifier::external_body]
fn decimal_string(number: usize) -> (r: String)
    ensures
        r@ == decimal(number as nat),
{
    number.to_string()
}

/// The name of an unnamed tab: `Tab #` and its number.
pub fn numbered_tab_name(number: usize) -> (r: String)
    ensures
        r@ == seq!['T', 'a', 'b', ' ', '#'] + decimal(number as nat),
{
    proof {
        reveal_strlit("Tab #");
    }
    let digits = decimal_string(number);
    let mut name = String::from_str("Tab #");
    name.append(digits.as_str());
    assert(name@ =~= seq!['T', 'a', 'b', ' ', '#'] + decimal(number as nat));
    name
}

/// The identities of the panes strictly increase in registry order.
pub open spec fn ids_sorted(s: Seq<Pane>) -> bool {
    forall|i: int, j: int| 0 <= i < j < s.len() ==> id_rank((#[trigger] s[i]).id) < id_rank((#[trigger] s[j]).id)
}

pub open spec fn has_id(s: Seq<Pane>, id: PaneId) -> bool {
    exists|i: int| 0 <= i < s.len() && (#[trigger] s[i]).id == id
}

/// Position of the pane `id` in the registry.
pub open spec fn index_of(s: Seq<Pane>, id: PaneId) -> int {
    choose|i: int| 0 <= i < s.len() && (#[trigger] s[i]).id == id
}

/// The identities of the panes, in registry order.
pub open spec fn ids_of(s: Seq<Pane>) -> Seq<PaneId> {
    s.map_values(|p: Pane| p.id)
}

pub open spec fn all_panes_ok(s: Seq<Pane>) -> bool {
    forall|i: int| 0 <= i < s.len() ==> pane_ok(#[trigger] s[i])
}

/// What the tab asks of the terminal process behind `p` after `p` changed size.
pub open spec fn resize_signal(p: Pane) -> Seq<Signal> {
    match p.id {
        PaneId::Terminal(pid) => seq![
            Signal::ResizeTerminal {
                pid,
                cols: content_columns(p) as usize,
                rows: content_rows(p) as usize,
            },
        ],
        PaneId::Plugin(_) => seq![],
    }
}

/// What drawing a tab with an active pane queues: a `Render` request when a client is attached.
pub open spec fn render_signals(t: &Tab) -> Seq<Signal> {
    if t.session_attached {
        seq![Signal::Render { clear_display: t.should_clear_display_before_rendering }]
    } else {
        seq![]
    }
}

/// `s` holds the panes of `t`, each changed at most in when it was last active.
pub open spec fn same_but_activity(s: Seq<Pane>, t: Seq<Pane>) -> bool {
    &&& s.len() == t.len()
    &&& forall|k: int| 0 <= k < s.len() ==> #[trigger] s[k] == Pane { active_at: s[k].active_at, ..t[k] }
}

/// `after` holds the requests of `before` first, in order, and possibly more after them.
pub open spec fn extends(before: Seq<Signal>, after: Seq<Signal>) -> bool {
    before.len() <= after.len() && after.subrange(0, before.len() as int) == before
}

pub proof fn lemma_extends_refl(a: Seq<Signal>)
    ensures
        extends(a, a),
{
    assert(a.subrange(0, a.len() as int) =~= a);
}

pub proof fn lemma_extends_append(a: Seq<Signal>, b: Seq<Signal>)
    ensures
        extends(a, a + b),
{
    assert((a + b).subrange(0, a.len() as int) =~= a);
}

pub proof fn lemma_extends_trans(a: Seq<Signal>, b: Seq<Signal>, c: Seq<Signal>)
    requires
        extends(a, b),
        extends(b, c),
    ensures
        extends(a, c),
{
    assert(c.subrange(0, a.len() as int) =~= b.subrange(0, a.len() as int));
}

/// Two panes with one identity are one pane.
pub proof fn lemma_ids_unique(s: Seq<Pane>, i: int, j: int)
    requires
        ids_sorted(s),
        0 <= i < s.len(),
        0 <= j < s.len(),
        s[i].id == s[j].id,
    ensures
        i == j,
{
    if i < j {
        assert(id_rank(s[i].id) < id_rank(s[j].id));
    } else if j < i {
        assert(id_rank(s[j].id) < id_rank(s[i].id));
    }
}

/// The pane at `i` is the one that `index_of` names.
pub proof fn lemma_index_of(s: Seq<Pane>, i: int)
    requires
        ids_sorted(s),
        0 <= i < s.len(),
    ensures
        has_id(s, s[i].id),
        index_of(s, s[i].id) == i,
{
    assert(has_id(s, s[i].id));
    let k = index_of(s, s[i].id);
    lemma_ids_unique(s, i, k);
}

/// The panes keyed by identity.
pub open spec fn pane_map(s: Seq<Pane>) -> Map<PaneId, Pane> {
    Map::new(|id: PaneId| has_id(s, id), |id: PaneId| s[index_of(s, id)])
}

/// The rectangles of the panes keyed by identity.
pub open spec fn rect_map(s: Seq<Pane>) -> Map<PaneId, PositionAndSize> {
    Map::new(|id: PaneId| has_id(s, id), |id: PaneId| s[index_of(s, id)].position_and_size)
}

/// Replacing a pane by one with the same identity replaces it in the keyed view.
pub proof fn lemma_map_update(s: Seq<Pane>, i: int, p: Pane)
    requires
        ids_sorted(s),
        0 <= i < s.len(),
        p.id == s[i].id,
    ensures
        ids_sorted(s.update(i, p)),
        pane_map(s.update(i, p)) == pane_map(s).insert(p.id, p),
        rect_map(s.update(i, p)) == rect_map(s).insert(p.id, p.position_and_size),
{
    let t = s.update(i, p);
    assert forall|x: int, y: int| 0 <= x < y < t.len() implies id_rank((#[trigger] t[x]).id) < id_rank((#[trigger] t[y]).id) by {
        assert(id_rank(s[x].id) < id_rank(s[y].id));
    }
    assert forall|id: PaneId| has_id(t, id) <==> has_id(s, id) by {
        if has_id(t, id) {
            let k = choose|k: int| 0 <= k < t.len() && (#[trigger] t[k]).id == id;
            assert(s[k].id == id);
        }
        if has_id(s, id) {
            let k = choose|k: int| 0 <= k < s.len() && (#[trigger] s[k]).id == id;
            assert(t[k].id == id);
        }
    }
    assert forall|id: PaneId| has_id(t, id) implies t[index_of(t, id)] == (if id == p.id { p } else { s[index_of(s, id)] }) by {
        let k = index_of(t, id);
        lemma_index_of(t, k);
        let m = index_of(s, id);
        lemma_index_of(s, m);
        if id == p.id {
            lemma_ids_unique(t, k, i);
        } else {
            assert(k != i);
            assert(t[k] == s[k]);
            lemma_ids_unique(s, k, m);
        }
    }
    assert(pane_map(t) =~= pane_map(s).insert(p.id, p));
    assert(rect_map(t) =~= rect_map(s).insert(p.id, p.position_and_size));
}

/// Inserting a pane at its place in the order adds it to the keyed view.
pub proof fn lemma_map_insert(s: Seq<Pane>, k: int, p: Pane)
    requires
        ids_sorted(s),
        0 <= k <= s.len(),
        forall|m: int| 0 <= m < k ==> id_rank((#[trigger] s[m]).id) < id_rank(p.id),
        forall|m: int| k <= m < s.len() ==> id_rank(p.id) < id_rank((#[trigger] s[m]).id),
    ensures
        ids_sorted(s.insert(k, p)),
        !has_id(s, p.id),
        pane_map(s.insert(k, p)) == pane_map(s).insert(p.id, p),
        rect_map(s.insert(k, p)) == rect_map(s).insert(p.id, p.position_and_size),
{
    let t = s.insert(k, p);
    assert forall|x: int, y: int| 0 <= x < y < t.len() implies id_rank((#[trigger] t[x]).id) < id_rank((#[trigger] t[y]).id) by {
        if y < k {
            assert(id_rank(s[x].id) < id_rank(s[y].id));
        } else if y == k {
        } else if x < k {
            assert(t[y] == s[y - 1]);
            assert(id_rank(s[x].id) < id_rank(p.id));
        } else if x == k {
            assert(t[y] == s[y - 1]);
        } else {
            assert(id_rank(s[x - 1].id) < id_rank(s[y - 1].id));
        }
    }
    if has_id(s, p.id) {
        let m = choose|m: int| 0 <= m < s.len() && (#[trigger] s[m]).id == p.id;
        if m < k {
            assert(id_rank(s[m].id) < id_rank(p.id));
        } else {
            assert(id_rank(p.id) < id_rank(s[m].id));
        }
    }
    assert forall|id: PaneId| has_id(t, id) <==> (has_id(s, id) || id == p.id) by {
        if has_id(t, id) {
            let m = choose|m: int| 0 <= m < t.len() && (#[trigger] t[m]).id == id;
            if m < k {
                assert(s[m].id == id);
            } else if m > k {
                assert(s[m - 1].id == id);
            }
        }
        if has_id(s, id) {
            let m = choose|m: int| 0 <= m < s.len() && (#[trigger] s[m]).id == id;
            if m < k {
                assert(t[m].id == id);
            } else {
                assert(t[m + 1].id == id);
            }
        }
        if id == p.id {
            assert(t[k].id == id);
        }
    }
    assert forall|id: PaneId| has_id(t, id) implies t[index_of(t, id)] == (if id == p.id { p } else { s[index_of(s, id)] }) by {
        let x = index_of(t, id);
        lemma_index_of(t, x);
        if id == p.id {
            assert(t[k].id == p.id);
            lemma_ids_unique(t, x, k);
        } else {
            let m = index_of(s, id);
            lemma_index_of(s, m);
            if m < k {
                assert(t[m].id == id);
                lemma_ids_unique(t, x, m);
            } else {
                assert(t[m + 1].id == id);
                lemma_ids_unique(t, x, m + 1);
            }
        }
    }
    assert(pane_map(t) =~= pane_map(s).insert(p.id, p));
    assert(rect_map(t) =~= rect_map(s).insert(p.id, p.position_and_size));
}

/// Removing a pane removes it from the keyed view.
pub proof fn lemma_map_remove(s: Seq<Pane>, i: int)
    requires
        ids_sorted(s),
        0 <= i < s.len(),
    ensures
        ids_sorted(s.remove(i)),
        pane_map(s.remove(i)) == pane_map(s).remove(s[i].id),
        rect_map(s.remove(i)) == rect_map(s).remove(s[i].id),
{
    let t = s.remove(i);
    assert forall|x: int, y: int| 0 <= x < y < t.len() implies id_rank((#[trigger] t[x]).id) < id_rank((#[trigger] t[y]).id) by {
        let xs = if x < i { x } else { x + 1 };
        let ys = if y < i { y } else { y + 1 };
        assert(t[x] == s[xs]);
        assert(t[y] == s[ys]);
        assert(id_rank(s[xs].id) < id_rank(s[ys].id));
    }
    assert forall|id: PaneId| has_id(t, id) <==> (has_id(s, id) && id != s[i].id) by {
        if has_id(t, id) {
            let m = choose|m: int| 0 <= m < t.len() && (#[trigger] t[m]).id == id;
            let ms = if m < i { m } else { m + 1 };
            assert(s[ms].id == id);
            if id == s[i].id {
                lemma_ids_unique(s, ms, i);
            }
        }
        if has_id(s, id) && id != s[i].id {
            let m = choose|m: int| 0 <= m < s.len() && (#[trigger] s[m]).id == id;
            if m < i {
                assert(t[m].id == id);
            } else {
                assert(m != i);
                assert(t[m - 1].id == id);
            }
        }
    }
    assert forall|id: PaneId| has_id(t, id) implies t[index_of(t, id)] == s[index_of(s, id)] by {
        let x = index_of(t, id);
        lemma_index_of(t, x);
        let xs = if x < i { x } else { x + 1 };
        assert(t[x] == s[xs]);
        lemma_index_of(s, xs);
    }
    assert(pane_map(t) =~= pane_map(s).remove(s[i].id));
    assert(rect_map(t) =~= rect_map(s).remove(s[i].id));
}

/// Two registries with the same identities at the same places find each identity at one place.
pub proof fn lemma_same_ids(s: Seq<Pane>, t: Seq<Pane>)
    requires
        ids_sorted(s),
        s.len() == t.len(),
        forall|k: int| 0 <= k < s.len() ==> (#[trigger] t[k]).id == s[k].id,
    ensures
        ids_sorted(t),
        forall|id: PaneId| #[trigger] has_id(t, id) == has_id(s, id),
        forall|id: PaneId| has_id(s, id) ==> #[trigger] index_of(t, id) == index_of(s, id),
{
    assert forall|x: int, y: int| 0 <= x < y < t.len() implies id_rank((#[trigger] t[x]).id) < id_rank((#[trigger] t[y]).id) by {
        assert(id_rank(s[x].id) < id_rank(s[y].id));
    }
    assert forall|id: PaneId| #[trigger] has_id(t, id) == has_id(s, id) by {
        if has_id(t, id) {
            let k = choose|k: int| 0 <= k < t.len() && (#[trigger] t[k]).id == id;
            assert(s[k].id == id);
        }
        if has_id(s, id) {
            let k = choose|k: int| 0 <= k < s.len() && (#[trigger] s[k]).id == id;
            assert(t[k].id == id);
        }
    }
    assert forall|id: PaneId| has_id(s, id) implies #[trigger] index_of(t, id) == index_of(s, id) by {
        let k = index_of(s, id);
        lemma_index_of(s, k);
        assert(t[k].id == id);
        lemma_index_of(t, k);
    }
}

impl Tab {
    /// The invariant of a tab.
    pub open spec fn wf(&self) -> bool {
        &&& ids_sorted(self.panes@)
        &&& all_panes_ok(self.panes@)
        &&& self.panes@.len() < MAX_COORD
        &&& (self.active_terminal matches Some(id) ==> has_id(self.panes@, id))
        &&& bounded(self.viewport)
        &&& bounded(self.display_area)
        &&& self.max_panes != Some(0usize)
    }

    /// Everything but the panes and the queued signals is as in `other`.
    pub open spec fn same_settings(&self, other: &Tab) -> bool {
        &&& self.index == other.index
        &&& self.position == other.position
        &&& self.name@ == other.name@
        &&& self.panes_to_hide@ == other.panes_to_hide@
        &&& self.active_terminal == other.active_terminal
        &&& self.max_panes == other.max_panes
        &&& self.viewport == other.viewport
        &&& self.display_area == other.display_area
        &&& self.fullscreen_is_active == other.fullscreen_is_active
        &&& self.synchronize_is_active == other.synchronize_is_active
        &&& self.should_clear_display_before_rendering
            == other.should_clear_display_before_rendering
        &&& self.draw_pane_frames == other.draw_pane_frames
        &&& self.session_attached == other.session_attached
        &&& self.clock == other.clock
    }

    /// A tab at `viewport`, holding one pane over all of it when `pane_id` names a terminal.
    pub fn new(
        index: usize,
        position: usize,
        name: String,
        viewport: &PositionAndSize,
        max_panes: Option<usize>,
        pane_id: Option<PaneId>,
        draw_pane_frames: bool,
    ) -> (r: Tab)
        requires
            bounded(*viewport),
            pane_id matches Some(PaneId::Terminal(_)) ==> non_empty(*viewport),
            max_panes != Some(0usize),
        ensures
            r.wf(),
            r.index == index,
            r.position == position,
            name@.len() > 0 ==> r.name@ == name@,
            name@.len() == 0 && position < usize::MAX ==> r.name@ == seq!['T', 'a', 'b', ' ', '#'] + decimal((position + 1) as nat),
            r.viewport == *viewport,
            r.display_area == *viewport,
            r.max_panes == max_panes,
            r.draw_pane_frames == draw_pane_frames,
            !r.fullscreen_is_active,
            !r.synchronize_is_active,
            r.panes_to_hide@.len() == 0,
            pane_id matches Some(PaneId::Terminal(_)) ==> {
                &&& r.panes@.len() == 1
                &&& r.panes@[0].id == pane_id.unwrap()
                &&& r.panes@[0].position_and_size == *viewport
                &&& r.active_terminal == pane_id
            },
            !(pane_id matches Some(PaneId::Terminal(_))) ==> r.panes@.len() == 0
                && r.active_terminal is None && r.signals@.len() == 0,
            pane_id matches Some(PaneId::Terminal(pid)) ==> r.signals@ == seq![
                Signal::ResizeTerminal { pid, cols: viewport.cols, rows: viewport.rows },
            ],
    {
        let mut panes: Vec<Pane> = Vec::new();
        let mut signals: Vec<Signal> = Vec::new();
        let mut active_terminal: Option<PaneId> = None;
        if let Some(PaneId::Terminal(pid)) = pane_id {
            let mut new_terminal = Pane::new(PaneId::Terminal(pid), *viewport, 1);
            if draw_pane_frames {
                new_terminal.show_boundaries_frame(true);
            }
            signals.push(
                Signal::ResizeTerminal {
                    pid,
                    cols: new_terminal.columns(),
                    rows: new_terminal.rows(),
                },
            );
            panes.push(new_terminal);
            active_terminal = pane_id;
        }
        let name = if name.as_str().is_empty() && position < usize::MAX {
            numbered_tab_name(position + 1)
        } else {
            name
        };
        let r = Tab {
            index,
            position,
            name,
            panes,
            panes_to_hide: Vec::new(),
            active_terminal,
            max_panes,
            viewport: *viewport,
            display_area: *viewport,
            fullscreen_is_active: false,
            synchronize_is_active: false,
            should_clear_display_before_rendering: false,
            draw_pane_frames,
            session_attached: true,
            clock: 1,
            signals,
        };
        proof {
            if r.panes@.len() == 1 {
                assert(has_id(r.panes@, r.panes@[0].id));
            }
        }
        r
    }

    /// Position of the pane `id` in the registry, if it is there.
    pub fn find(&self, id: PaneId) -> (r: Option<usize>)
        requires
            self.wf(),
        ensures
            r matches Some(i) ==> i < self.panes@.len() && self.panes@[i as int].id == id
                && index_of(self.panes@, id) == i,
            r is None ==> !has_id(self.panes@, id),
    {
        let mut i: usize = 0;
        while i < self.panes.len()
            invariant
                self.wf(),
                i <= self.panes@.len(),
                forall|k: int| 0 <= k < i ==> (#[trigger] self.panes@[k]).id != id,
            decreases self.panes@.len() - i,
        {
            if self.panes[i].id == id {
                proof {
                    lemma_index_of(self.panes@, i as int);
                }
                return Some(i);
            }
            i += 1;
        }
        None
    }

    /// Puts `p` in place of the pane at `i`, which has the same identity.
    pub fn replace_pane(&mut self, i: usize, p: Pane)
        requires
            old(self).wf(),
            i < old(self).panes@.len(),
            p.id == old(self).panes@[i as int].id,
            pane_ok(p),
        ensures
            final(self).wf(),
            final(self).same_settings(old(self)),
            final(self).panes@ == old(self).panes@.update(i as int, p),
            final(self).signals@ == old(self).signals@,
    {
        self.panes.set(i, p);
        proof {
            let s0 = old(self).panes@;
            assert forall|k: int| 0 <= k < self.panes@.len() implies pane_ok(#[trigger] self.panes@[k]) by {
                if k != i {
                    assert(self.panes@[k] == s0[k]);
                }
            }
            assert forall|x: int, y: int| 0 <= x < y < self.panes@.len() implies id_rank((#[trigger] self.panes@[x]).id) < id_rank((#[trigger] self.panes@[y]).id) by {
                assert(id_rank(s0[x].id) < id_rank(s0[y].id));
            }
            if let Some(id) = self.active_terminal {
                let k = choose|k: int| 0 <= k < s0.len() && (#[trigger] s0[k]).id == id;
                assert(self.panes@[k].id == id);
            }
        }
    }

    /// Puts the pane at `i` at `rect`, works out its content offsets again when frames are not
    /// drawn, and asks its process to take the new size.
    pub fn set_pane_rect(&mut self, i: usize, rect: PositionAndSize)
        requires
            old(self).wf(),
            i < old(self).panes@.len(),
            bounded(rect),
            non_empty(rect),
        ensures
            final(self).wf(),
            final(self).same_settings(old(self)),
            final(self).panes@ == old(self).panes@.update(
                i as int,
                placed(old(self).panes@[i as int], rect, old(self).viewport, old(self).draw_pane_frames),
            ),
            final(self).signals@ == old(self).signals@ + resize_signal(
                final(self).panes@[i as int],
            ),
    {
        let viewport = self.viewport;
        let frames = self.draw_pane_frames;
        let mut pane = self.panes[i];
        pane.change_pos_and_size(&rect);
        if !frames {
            let (cols_offset, rows_offset) = crate::geometry::pane_content_offset(&rect, &viewport);
            pane.offset_content_columns(cols_offset);
            pane.offset_content_rows(rows_offset);
        }
        self.replace_pane(i, pane);
        self.push_resize_signal(i);
    }

    /// Queues the resize request of the pane at `i`.
    pub fn push_resize_signal(&mut self, i: usize)
        requires
            i < old(self).panes@.len(),
        ensures
            final(self).panes == old(self).panes,
            final(self).same_settings(old(self)),
            final(self).signals@ == old(self).signals@ + resize_signal(old(self).panes@[i as int]),
    {
        let pane = self.panes[i];
        if let PaneId::Terminal(pid) = pane.id {
            self.signals.push(
                Signal::ResizeTerminal {
                    pid,
                    cols: pane.get_content_columns(),
                    rows: pane.get_content_rows(),
                },
            );
        }
        assert(self.signals@ =~= old(self).signals@ + resize_signal(old(self).panes@[i as int]));
    }

    /// Everything but the panes, the queued signals, the clock and the clearing flag is as in
    /// `other`.
    pub open spec fn same_settings_but_drawing(&self, other: &Tab) -> bool {
        &&& Tab { clock: other.clock, should_clear_display_before_rendering: other.should_clear_display_before_rendering, ..*self }.same_settings(other)
    }

    /// Draws the tab when it has an active pane and a client is attached: the active pane is
    /// stamped with the clock's tick, the clock moves on and a `Render` request is queued.
    pub fn render(&mut self)
        requires
            old(self).wf(),
        ensures
            final(self).wf(),
            final(self).same_settings_but_drawing(old(self)),
            same_but_activity(final(self).panes@, old(self).panes@),
            match old(self).active_terminal {
                Some(id) if old(self).session_attached => {
                    &&& final(self).panes@ == old(self).panes@.update(
                        index_of(old(self).panes@, id),
                        Pane { active_at: old(self).clock, ..old(self).panes@[index_of(old(self).panes@, id)] },
                    )
                    &&& final(self).clock == if old(self).clock < u64::MAX { (old(self).clock + 1) as u64 } else { old(self).clock }
                    &&& !final(self).should_clear_display_before_rendering
                    &&& final(self).signals@ == old(self).signals@.push(
                        Signal::Render { clear_display: old(self).should_clear_display_before_rendering },
                    )
                },
                _ => {
                    &&& final(self).panes@ == old(self).panes@
                    &&& final(self).clock == old(self).clock
                    &&& final(self).should_clear_display_before_rendering == old(self).should_clear_display_before_rendering
                    &&& final(self).signals@ == old(self).signals@
                },
            },
    {
        if !self.session_attached {
            return;
        }
        let id = match self.active_terminal {
            Some(id) => id,
            None => return,
        };
        let i = match self.find(id) {
            Some(i) => i,
            None => return,
        };
        let mut pane = self.panes[i];
        pane.active_at = self.clock;
        proof {
            assert(pane_ok(old(self).panes@[i as int]));
        }
        self.replace_pane(i, pane);
        if self.clock < u64::MAX {
            self.clock = self.clock + 1;
        }
        let clear_display = self.should_clear_display_before_rendering;
        self.should_clear_display_before_rendering = false;
        self.signals.push(Signal::Render { clear_display });
        proof {
            let s0 = old(self).panes@;
            assert forall|k: int| 0 <= k < self.panes@.len() implies #[trigger] self.panes@[k] == Pane { active_at: self.panes@[k].active_at, ..s0[k] } by {}
        }
    }

    /// Adds `p` at its place in the registry order.
    pub fn insert_pane(&mut self, p: Pane)
        requires
            old(self).wf(),
            pane_ok(p),
            !has_id(old(self).panes@, p.id),
            old(self).panes@.len() + 1 < MAX_COORD,
        ensures
            final(self).wf(),
            final(self).same_settings(old(self)),
            final(self).signals@ == old(self).signals@,
            pane_map(final(self).panes@) == pane_map(old(self).panes@).insert(p.id, p),
            rect_map(final(self).panes@) == rect_map(old(self).panes@).insert(p.id, p.position_and_size),
            final(self).panes@.len() == old(self).panes@.len() + 1,
    {
        let mut k: usize = 0;
        while k < self.panes.len() && id_precedes(self.panes[k].id, p.id)
            invariant
                self.wf(),
                *self == *old(self),
                k <= self.panes@.len(),
                forall|m: int| 0 <= m < k ==> id_rank((#[trigger] self.panes@[m]).id) < id_rank(p.id),
            decreases self.panes@.len() - k,
        {
            k += 1;
        }
        let ghost s = self.panes@;
        proof {
            assert forall|m: int| k <= m < s.len() implies id_rank(p.id) < id_rank((#[trigger] s[m]).id) by {
                assert(!(id_rank(s[k as int].id) < id_rank(p.id)));
                if s[k as int].id == p.id {
                    assert(has_id(s, p.id));
                }
                if m > k {
                    assert(id_rank(s[k as int].id) < id_rank(s[m].id));
                }
                if s[m].id == p.id {
                    assert(has_id(s, p.id));
                }
                match (p.id, s[m].id) {
                    (PaneId::Terminal(x), PaneId::Terminal(y)) => { assert(x != y); },
                    (PaneId::Plugin(x), PaneId::Plugin(y)) => { assert(x != y); },
                    _ => {},
                }
            }
            lemma_map_insert(s, k as int, p);
        }
        self.panes.insert(k, p);
        proof {
            let t = self.panes@;
            assert forall|m: int| 0 <= m < t.len() implies pane_ok(#[trigger] t[m]) by {
                if m < k {
                    assert(t[m] == s[m]);
                } else if m > k {
                    assert(t[m] == s[m - 1]);
                }
            }
            if let Some(id) = self.active_terminal {
                assert(pane_map(s).contains_key(id));
                assert(pane_map(t).contains_key(id));
            }
        }
    }

    /// Removes the pane at `i`, which is not the active one.
    pub fn remove_pane(&mut self, i: usize)
        requires
            old(self).wf(),
            i < old(self).panes@.len(),
            old(self).active_terminal != Some(old(self).panes@[i as int].id),
        ensures
            final(self).wf(),
            final(self).same_settings(old(self)),
            final(self).signals@ == old(self).signals@,
            final(self).panes@ == old(self).panes@.remove(i as int),
            pane_map(final(self).panes@) == pane_map(old(self).panes@).remove(old(self).panes@[i as int].id),
            rect_map(final(self).panes@) == rect_map(old(self).panes@).remove(old(self).panes@[i as int].id),
    {
        let ghost s = self.panes@;
        proof {
            lemma_map_remove(s, i as int);
        }
        self.panes.remove(i);
        proof {
            let t = self.panes@;
            assert forall|m: int| 0 <= m < t.len() implies pane_ok(#[trigger] t[m]) by {
                if m < i {
                    assert(t[m] == s[m]);
                } else {
                    assert(t[m] == s[m + 1]);
                }
            }
            if let Some(id) = self.active_terminal {
                assert(pane_map(s).contains_key(id));
                assert(pane_map(t).contains_key(id));
            }
        }
    }

    /// Hands output of the terminal process `pid` to its pane; output for a pane that is gone
    /// is dropped.
    pub fn handle_pty_bytes(&mut self, pid: i32, bytes: Vec<u8>)
        requires
            old(self).wf(),
        ensures
            final(self).wf(),
            final(self).panes == old(self).panes,
            final(self).same_settings(old(self)),
            has_id(old(self).panes@, PaneId::Terminal(pid)) ==> final(self).signals@ == old(self).signals@.push(Signal::PtyBytes(pid, bytes)),
            !has_id(old(self).panes@, PaneId::Terminal(pid)) ==> final(self).signals@ == old(self).signals@,
    {
        if self.find(PaneId::Terminal(pid)).is_some() {
            self.signals.push(Signal::PtyBytes(pid, bytes));
        }
    }
}

} // verus!
