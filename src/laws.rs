use vstd::prelude::*;
use crate::geometry::{bounded, end, extent, intersects, is_fixed, moved, non_empty, opposite, perpendicular, start, Axis, Edge, PositionAndSize};
use crate::pane::{can_grow, can_shrink, has_min_size, max_extent, min_extent, min_extent_of, pane_ok, Pane, PaneId};
use crate::resize::{can_pull, can_push, chain_moves, chains_can_grow, chains_can_shrink, opposite_moves, resized, step_target, stepped};
use crate::focus::{fullscreen_toggled, same_tiling};
use crate::tab::{all_panes_ok, has_id, index_of, rect_map, Tab};
use crate::pane::MIN_TERMINAL_WIDTH;

verus! {

/// Moving one edge along `a` leaves the size along the other axis and the fixed markers alone.
pub proof fn lemma_moved_keeps_other_axis(r: PositionAndSize, a: Axis, e: Edge, grow: bool, n: int)
    ensures
        extent(moved(r, a, e, grow, n), perpendicular(a)) == extent(r, perpendicular(a)),
        moved(r, a, e, grow, n).rows_fixed == r.rows_fixed,
        moved(r, a, e, grow, n).cols_fixed == r.cols_fixed,
        grow && n >= 0 && extent(r, a) + n <= usize::MAX ==> extent(moved(r, a, e, grow, n), a) == extent(r, a) + n,
        !grow && n >= 0 && extent(r, a) - n >= 0 ==> extent(moved(r, a, e, grow, n), a) == extent(r, a) - n,
{
    match (a, e) {
        (Axis::Horizontal, Edge::Start) => {},
        (Axis::Horizontal, Edge::End) => {},
        (Axis::Vertical, Edge::Start) => {},
        (Axis::Vertical, Edge::End) => {},
    }
}

/// Every pane of a tab is at least as large as its smallest size.
pub open spec fn all_min_size(s: Seq<Pane>) -> bool {
    forall|k: int| 0 <= k < s.len() ==> has_min_size(#[trigger] s[k])
}

/// A resize keeps every pane at least as large as its smallest size.
pub proof fn lemma_resize_keeps_min_size(
    s: Seq<Pane>,
    i: int,
    a: Axis,
    toward: Edge,
    n: int,
    vp: PositionAndSize,
    frames: bool,
)
    requires
        all_panes_ok(s),
        all_min_size(s),
        0 <= i < s.len(),
        n >= 0,
    ensures
        all_min_size(resized(s, i, a, toward, n, vp, frames)),
{
    let t = resized(s, i, a, toward, n, vp, frames);
    if can_push(s, i, a, toward, n) && chains_can_grow(s, i, a, toward, n, vp) {
        assert forall|j: int| 0 <= j < t.len() implies has_min_size(#[trigger] t[j]) by {
            lemma_step_keeps_min_size(s, i, a, toward, true, n, vp, frames, j);
        }
    } else if can_pull(s, i, a, opposite(toward), n) && chains_can_shrink(s, i, a, opposite(toward), n, vp) {
        assert forall|j: int| 0 <= j < t.len() implies has_min_size(#[trigger] t[j]) by {
            lemma_step_keeps_min_size(s, i, a, opposite(toward), false, n, vp, frames, j);
        }
    }
}

proof fn lemma_step_keeps_min_size(
    s: Seq<Pane>,
    i: int,
    a: Axis,
    e: Edge,
    grow: bool,
    n: int,
    vp: PositionAndSize,
    frames: bool,
    j: int,
)
    requires
        all_panes_ok(s),
        all_min_size(s),
        0 <= i < s.len(),
        0 <= j < s.len(),
        n >= 0,
        grow ==> can_push(s, i, a, e, n),
        !grow ==> can_pull(s, i, a, e, n) && chains_can_shrink(s, i, a, e, n, vp),
    ensures
        has_min_size(stepped(s, i, a, e, grow, n, vp, frames)[j]),
{
    let t = stepped(s, i, a, e, grow, n, vp, frames);
    assert(has_min_size(s[j]));
    assert(pane_ok(s[j]));
    match step_target(s, i, a, e, grow, n, vp, j) {
        Some(r) => {
            let q = s[j].position_and_size;
            assert(t[j].position_and_size == r);
            if j == i {
                lemma_moved_keeps_other_axis(q, a, e, grow, n);
            } else if opposite_moves(s, i, a, e, vp, j) {
                lemma_moved_keeps_other_axis(q, a, opposite(e), !grow, n);
                if grow {
                    assert(crate::resize::beyond(s, i, a, e, j));
                    assert(can_shrink(s[j], a, n));
                }
            } else {
                lemma_moved_keeps_other_axis(q, a, e, grow, n);
                if !grow {
                    assert(chain_moves(s, i, a, e, vp, j));
                }
            }
            match a {
                Axis::Horizontal => {},
                Axis::Vertical => {},
            }
        },
        None => {},
    }
}

/// Resizing never takes the active pane below its smallest size, nor past its largest one.
pub proof fn lemma_resize_bounded(
    s: Seq<Pane>,
    i: int,
    a: Axis,
    toward: Edge,
    n: int,
    vp: PositionAndSize,
    frames: bool,
)
    requires
        all_panes_ok(s),
        0 <= i < s.len(),
        n >= 0,
        extent(s[i].position_and_size, a) >= min_extent(s[i], a),
        max_extent(s[i], a) matches Some(m) ==> extent(s[i].position_and_size, a) <= m,
    ensures
        ({
            let p = resized(s, i, a, toward, n, vp, frames)[i];
            &&& extent(p.position_and_size, a) >= min_extent(s[i], a)
            &&& max_extent(s[i], a) matches Some(m) ==> extent(p.position_and_size, a) <= m
        }),
{
    let q = s[i].position_and_size;
    assert(pane_ok(s[i]));
    if can_push(s, i, a, toward, n) && chains_can_grow(s, i, a, toward, n, vp) {
        lemma_moved_keeps_other_axis(q, a, toward, true, n);
    } else if can_pull(s, i, a, opposite(toward), n) && chains_can_shrink(s, i, a, opposite(toward), n, vp) {
        lemma_moved_keeps_other_axis(q, a, opposite(toward), false, n);
    }
}

/// Resizing by a positive step never changes the size of a pane along an axis where that size
/// is fixed: a fixed pane neither grows past its largest size nor shrinks below its smallest.
pub proof fn lemma_resize_keeps_fixed_sizes(
    s: Seq<Pane>,
    i: int,
    a: Axis,
    toward: Edge,
    n: int,
    vp: PositionAndSize,
    frames: bool,
    k: int,
)
    requires
        all_panes_ok(s),
        0 <= i < s.len(),
        0 <= k < s.len(),
        n > 0,
        is_fixed(s[k].position_and_size, a),
    ensures
        resized(s, i, a, toward, n, vp, frames)[k].position_and_size == s[k].position_and_size,
{
    assert(pane_ok(s[k]));
    if can_push(s, i, a, toward, n) && chains_can_grow(s, i, a, toward, n, vp) {
        lemma_step_leaves_fixed(s, i, a, toward, true, n, vp, frames, k);
    } else if can_pull(s, i, a, opposite(toward), n) && chains_can_shrink(s, i, a, opposite(toward), n, vp) {
        lemma_step_leaves_fixed(s, i, a, opposite(toward), false, n, vp, frames, k);
    }
}

proof fn lemma_step_leaves_fixed(
    s: Seq<Pane>,
    i: int,
    a: Axis,
    e: Edge,
    grow: bool,
    n: int,
    vp: PositionAndSize,
    frames: bool,
    k: int,
)
    requires
        all_panes_ok(s),
        0 <= i < s.len(),
        0 <= k < s.len(),
        n > 0,
        is_fixed(s[k].position_and_size, a),
        grow ==> can_push(s, i, a, e, n) && chains_can_grow(s, i, a, e, n, vp),
        !grow ==> can_pull(s, i, a, e, n) && chains_can_shrink(s, i, a, e, n, vp),
    ensures
        step_target(s, i, a, e, grow, n, vp, k) is None,
        stepped(s, i, a, e, grow, n, vp, frames)[k].position_and_size == s[k].position_and_size,
{
    if k == i {
    } else if opposite_moves(s, i, a, e, vp, k) {
        assert(crate::resize::beyond(s, i, a, e, k));
    } else if chain_moves(s, i, a, e, vp, k) {
    }
}

/// The panes after `times` resizes of the pane at `i` in one direction.
pub open spec fn resized_times(
    s: Seq<Pane>,
    i: int,
    a: Axis,
    toward: Edge,
    n: int,
    vp: PositionAndSize,
    frames: bool,
    times: nat,
) -> Seq<Pane>
    decreases times,
{
    if times == 0 {
        s
    } else {
        resized(resized_times(s, i, a, toward, n, vp, frames, (times - 1) as nat), i, a, toward, n, vp, frames)
    }
}

/// However often the active pane is resized in one direction, it stays between its smallest
/// and its largest size.
pub proof fn lemma_resize_repeatedly_bounded(
    s: Seq<Pane>,
    i: int,
    a: Axis,
    toward: Edge,
    n: int,
    vp: PositionAndSize,
    frames: bool,
    times: nat,
)
    requires
        all_panes_ok(s),
        0 <= i < s.len(),
        n >= 0,
        extent(s[i].position_and_size, a) >= min_extent(s[i], a),
        max_extent(s[i], a) matches Some(m) ==> extent(s[i].position_and_size, a) <= m,
    ensures
        ({
            let t = resized_times(s, i, a, toward, n, vp, frames, times);
            &&& all_panes_ok(t)
            &&& t.len() == s.len()
            &&& extent(t[i].position_and_size, a) >= min_extent(t[i], a)
            &&& max_extent(t[i], a) matches Some(m) ==> extent(t[i].position_and_size, a) <= m
            &&& is_fixed(t[i].position_and_size, a) == is_fixed(s[i].position_and_size, a)
            &&& is_fixed(s[i].position_and_size, a) ==> extent(t[i].position_and_size, a) == extent(s[i].position_and_size, a)
            &&& !is_fixed(s[i].position_and_size, a) ==> extent(t[i].position_and_size, a) >= min_extent(s[i], a)
        }),
    decreases times,
{
    if times > 0 {
        lemma_resize_repeatedly_bounded(s, i, a, toward, n, vp, frames, (times - 1) as nat);
        let t0 = resized_times(s, i, a, toward, n, vp, frames, (times - 1) as nat);
        lemma_resize_bounded(t0, i, a, toward, n, vp, frames);
        lemma_resized_ok(t0, i, a, toward, n, vp, frames);
        let q = t0[i].position_and_size;
        if can_push(t0, i, a, toward, n) && chains_can_grow(t0, i, a, toward, n, vp) {
            lemma_moved_keeps_other_axis(q, a, toward, true, n);
        } else if can_pull(t0, i, a, opposite(toward), n) && chains_can_shrink(t0, i, a, opposite(toward), n, vp) {
            lemma_moved_keeps_other_axis(q, a, opposite(toward), false, n);
        }
    }
}

/// A resize keeps every pane within the coordinate range and covering a cell.
pub proof fn lemma_resized_ok(
    s: Seq<Pane>,
    i: int,
    a: Axis,
    toward: Edge,
    n: int,
    vp: PositionAndSize,
    frames: bool,
)
    requires
        all_panes_ok(s),
        0 <= i < s.len(),
        n >= 0,
    ensures
        all_panes_ok(resized(s, i, a, toward, n, vp, frames)),
        resized(s, i, a, toward, n, vp, frames).len() == s.len(),
{
    let t = resized(s, i, a, toward, n, vp, frames);
    if can_push(s, i, a, toward, n) && chains_can_grow(s, i, a, toward, n, vp) {
        assert forall|j: int| 0 <= j < t.len() implies pane_ok(#[trigger] t[j]) by {
            assert(pane_ok(s[j]));
            if step_target(s, i, a, toward, true, n, vp, j) is Some {
                crate::resize::lemma_step_target_ok(s, i, a, toward, true, n, vp, j);
            }
        }
    } else if can_pull(s, i, a, opposite(toward), n) && chains_can_shrink(s, i, a, opposite(toward), n, vp) {
        assert forall|j: int| 0 <= j < t.len() implies pane_ok(#[trigger] t[j]) by {
            assert(pane_ok(s[j]));
            if step_target(s, i, a, opposite(toward), false, n, vp, j) is Some {
                crate::resize::lemma_step_target_ok(s, i, a, opposite(toward), false, n, vp, j);
            }
        }
    }
}

/// Toggling fullscreen twice from a tab where every pane is shown at its own rectangle shows
/// every pane at its own rectangle again, hides none, and leaves the rectangles as they were.
pub proof fn lemma_fullscreen_twice(t0: &Tab, t1: &Tab, t2: &Tab)
    requires
        t0.wf(),
        !t0.fullscreen_is_active,
        forall|k: int| 0 <= k < t0.panes@.len() ==> (#[trigger] t0.panes@[k]).position_and_size_override is None,
        fullscreen_toggled(t0, t1),
        fullscreen_toggled(t1, t2),
    ensures
        !t2.fullscreen_is_active,
        t0.active_terminal is Some ==> t2.panes_to_hide@.len() == 0,
        same_tiling(t0.panes@, t2.panes@),
        t0.active_terminal is Some ==> forall|k: int| 0 <= k < t2.panes@.len() ==> (#[trigger] t2.panes@[k]).position_and_size_override is None,
{
    let (s0, s1, s2) = (t0.panes@, t1.panes@, t2.panes@);
    assert(same_tiling(s0, s2)) by {
        assert forall|k: int| 0 <= k < s0.len() implies (#[trigger] s2[k]).id == s0[k].id && s2[k].position_and_size == s0[k].position_and_size && s2[k].selectable == s0[k].selectable by {
            assert(s1[k].id == s0[k].id);
        }
    }
    if let Some(id) = t0.active_terminal {
        let k0 = index_of(s0, id);
        crate::tab::lemma_same_ids(s0, s1);
        assert forall|k: int| 0 <= k < s2.len() implies (#[trigger] s2[k]).position_and_size_override is None by {
            assert(s0[k].position_and_size_override is None);
        }
    }
}

/// No two panes share a cell.
pub open spec fn no_overlap(m: Map<PaneId, PositionAndSize>) -> bool {
    forall|x: PaneId, y: PaneId|
        #![trigger m[x], m[y]]
        m.contains_key(x) && m.contains_key(y) && x != y ==> !intersects(m[x], m[y])
}

/// Every pane is at least as large as its smallest size.
pub open spec fn min_size_rects(m: Map<PaneId, PositionAndSize>) -> bool {
    forall|x: PaneId|
        #[trigger] m.contains_key(x) ==> extent(m[x], Axis::Horizontal) >= min_extent_of(
            m[x],
            Axis::Horizontal,
        ) && extent(m[x], Axis::Vertical) >= min_extent_of(m[x], Axis::Vertical)
}

/// `inner` lies within `outer`.
pub open spec fn within(inner: PositionAndSize, outer: PositionAndSize) -> bool {
    outer.x <= inner.x && inner.x + inner.cols <= outer.x + outer.cols && outer.y <= inner.y
        && inner.y + inner.rows <= outer.y + outer.rows
}

/// Dividing the pane `aid` at `r` into halves for a new pane `id` keeps panes apart and, when
/// `r` is at least twice its smallest size along `a`, keeps every pane at its smallest size.
pub proof fn lemma_halves_keep_tiling(
    m: Map<PaneId, PositionAndSize>,
    aid: PaneId,
    id: PaneId,
    a: Axis,
)
    requires
        m.contains_key(aid),
        !m.contains_key(id),
        extent(m[aid], a) >= 2,
        bounded(m[aid]),
    ensures
        no_overlap(m) ==> no_overlap(
            m.insert(aid, crate::split::split_halves(m[aid], a).0).insert(
                id,
                crate::split::split_halves(m[aid], a).1,
            ),
        ),
        min_size_rects(m) && extent(m[aid], a) >= 2 * min_extent_of(m[aid], a) ==> min_size_rects(
            m.insert(aid, crate::split::split_halves(m[aid], a).0).insert(
                id,
                crate::split::split_halves(m[aid], a).1,
            ),
        ),
{
    let r = m[aid];
    let (h0, h1) = crate::split::split_halves(r, a);
    let m2 = m.insert(aid, h0).insert(id, h1);
    assert(within(h0, r) && within(h1, r) && !intersects(h0, h1));
    if no_overlap(m) {
        assert forall|x: PaneId, y: PaneId| #![trigger m2[x], m2[y]] m2.contains_key(x) && m2.contains_key(y) && x != y implies !intersects(m2[x], m2[y]) by {
            if x != aid && x != id && y != aid && y != id {
                assert(!intersects(m[x], m[y]));
            } else if x == aid || x == id {
                if y != aid && y != id {
                    assert(!intersects(m[aid], m[y]));
                }
            } else {
                assert(!intersects(m[x], m[aid]));
            }
        }
    }
    if min_size_rects(m) && extent(r, a) >= 2 * min_extent_of(r, a) {
        assert forall|x: PaneId| #[trigger] m2.contains_key(x) implies extent(m2[x], Axis::Horizontal) >= min_extent_of(m2[x], Axis::Horizontal) && extent(m2[x], Axis::Vertical) >= min_extent_of(m2[x], Axis::Vertical) by {
            if x != aid && x != id {
                assert(m.contains_key(x));
            } else {
                assert(m.contains_key(aid));
            }
        }
    }
}

/// Splitting the active pane keeps panes apart and, when the new pane does not come into an
/// empty tab smaller than a pane's smallest size, every pane at its smallest size.
pub proof fn lemma_split_keeps_tiling(before: &Tab, after: &Tab, id: PaneId, a: Axis)
    requires
        before.wf(),
        crate::split::split_outcome(before, after, id, a),
    ensures
        no_overlap(rect_map(before.panes@)) ==> no_overlap(rect_map(after.panes@)),
        min_size_rects(rect_map(before.panes@)) && (before.panes@.len() == 0 ==> before.viewport.rows
            >= crate::pane::MIN_TERMINAL_HEIGHT && before.viewport.cols >= crate::pane::MIN_TERMINAL_WIDTH)
            ==> min_size_rects(rect_map(after.panes@)),
{
    let s = before.panes@;
    let m = rect_map(s);
    if (id is Terminal) && !has_id(s, id) && s.len() + 1 < crate::geometry::MAX_COORD && s.len() > 0 && before.active_terminal is Some {
        let aid = before.active_terminal.unwrap();
        let r = m[aid];
        let k = index_of(s, aid);
        assert(has_id(s, aid));
        crate::tab::lemma_index_of(s, choose|j: int| 0 <= j < s.len() && (#[trigger] s[j]).id == aid);
        assert(pane_ok(s[k]));
        if extent(r, a) >= 2 * min_extent_of(r, a) {
            assert(min_extent_of(r, a) >= 1);
            lemma_halves_keep_tiling(m, aid, id, a);
        }
    }
}

/// Splitting the active pane along `a` and closing the new second half at once gives the pane
/// back its rectangle. Left out: for a split into a top and a bottom half, a tab where the panes
/// to the left or to the right of the new half can take over its space, since they come first.
pub proof fn lemma_split_then_close(t0: &Tab, t1: &Tab, id: PaneId, a: Axis)
    requires
        t0.wf(),
        t1.wf(),
        no_overlap(rect_map(t0.panes@)),
        crate::split::split_outcome(t0, t1, id, a),
        t1.active_terminal == Some(id),
        t0.active_terminal is Some,
        t0.active_terminal != Some(id),
        a == Axis::Vertical ==> has_id(t1.panes@, id) && !crate::close::can_reclaim(t1.panes@, index_of(t1.panes@, id), Axis::Horizontal, Edge::Start)
            && !crate::close::can_reclaim(t1.panes@, index_of(t1.panes@, id), Axis::Horizontal, Edge::End),
    ensures
        has_id(t1.panes@, id),
        crate::close::closed_rects(t1.panes@, index_of(t1.panes@, id))[t0.active_terminal.unwrap()]
            == rect_map(t0.panes@)[t0.active_terminal.unwrap()],
{
    let s0 = t0.panes@;
    let s1 = t1.panes@;
    let m0 = rect_map(s0);
    let m1 = rect_map(s1);
    let aid = t0.active_terminal.unwrap();
    let r = m0[aid];
    let (h0, h1) = crate::split::split_halves(r, a);
    assert(has_id(s0, aid));
    let k0 = index_of(s0, aid);
    crate::tab::lemma_index_of(s0, choose|j: int| 0 <= j < s0.len() && (#[trigger] s0[j]).id == aid);
    assert(pane_ok(s0[k0]));
    assert(r == s0[k0].position_and_size);
    assert((id is Terminal) && !has_id(s0, id));
    assert(!(extent(r, a) < 2 * min_extent_of(r, a)));
    assert(!is_fixed(r, a));
    assert(m1 == m0.insert(aid, h0).insert(id, h1));
    assert(m1.contains_key(id));
    assert(has_id(s1, id));
    let i = index_of(s1, id);
    crate::tab::lemma_index_of(s1, choose|j: int| 0 <= j < s1.len() && (#[trigger] s1[j]).id == id);
    assert(m1[id] == h1);
    assert(m1[id] == s1[i].position_and_size);
    assert(m1.contains_key(aid));
    let ka = index_of(s1, aid);
    crate::tab::lemma_index_of(s1, choose|j: int| 0 <= j < s1.len() && (#[trigger] s1[j]).id == aid);
    assert(aid != id);
    assert(m1[aid] == h0);
    assert(m1[aid] == s1[ka].position_and_size);
    assert(pane_ok(s1[ka]));
    assert(pane_ok(s1[i]));
    let e = Edge::Start;
    assert(crate::resize::beyond(s1, i, a, e, ka));
    assert(crate::close::close_borders(s1, i, a, e).contains(start(h1, perpendicular(a))));
    assert(crate::close::close_borders(s1, i, a, e).contains(end(h1, perpendicular(a))));
    assert forall|j: int| #[trigger] crate::close::close_candidate(s1, i, a, e, j) implies can_grow(s1[j], a, extent(h1, a)) by {
        if j != ka {
            let x = s1[j].id;
            crate::tab::lemma_index_of(s1, j);
            assert(m1.contains_key(x));
            assert(x != aid);
            if x == id {
                crate::tab::lemma_ids_unique(s1, j, i);
                assert(pane_ok(s1[i]));
            }
            assert(m1[x] == s1[j].position_and_size);
            assert(m0.contains_key(x));
            assert(m0[x] == s1[j].position_and_size);
            assert(!intersects(m0[x], m0[aid]));
            assert(pane_ok(s1[j]));
            match a {
                Axis::Horizontal => {},
                Axis::Vertical => {},
            }
        }
    }
    assert(crate::close::can_reclaim(s1, i, a, e));
    match a {
        Axis::Horizontal => {},
        Axis::Vertical => {},
    }
    assert(crate::close::reclaim_side(s1, i) == Some((a, e)));
    assert(crate::close::close_candidate(s1, i, a, e, ka));
    assert(has_id(s1, aid) && aid != s1[i].id);
    match a {
        Axis::Horizontal => {},
        Axis::Vertical => {},
    }
}

/// Adding a pane without a direction keeps panes apart and, when the new pane does not come
/// into an empty tab smaller than a pane's smallest size, every pane at its smallest size.
pub proof fn lemma_new_pane_keeps_tiling(before: &Tab, after: &Tab, id: PaneId)
    requires
        before.wf(),
        crate::split::new_pane_outcome(before, after, id),
    ensures
        no_overlap(rect_map(before.panes@)) ==> no_overlap(rect_map(after.panes@)),
        min_size_rects(rect_map(before.panes@)) && (before.panes@.len() == 0 ==> before.viewport.rows
            >= crate::pane::MIN_TERMINAL_HEIGHT && before.viewport.cols >= crate::pane::MIN_TERMINAL_WIDTH)
            ==> min_size_rects(rect_map(after.panes@)),
{
    let s = before.panes@;
    let m = rect_map(s);
    if (id is Terminal) && !has_id(s, id) && s.len() + 1 < crate::geometry::MAX_COORD && s.len() > 0 && exists|j: int| crate::split::split_choice(s, j) {
        let j = choose|j: int| crate::split::split_choice(s, j);
        let p = s[j];
        let a = crate::split::new_pane_axis(p);
        crate::tab::lemma_index_of(s, j);
        assert(pane_ok(p));
        assert(m[p.id] == p.position_and_size);
        if a == Axis::Vertical || p.position_and_size.cols > 2 * min_extent(p, Axis::Horizontal) {
            lemma_halves_keep_tiling(m, p.id, id, a);
        }
    }
}

/// Closing a pane keeps every other pane at least as large as its smallest size.
pub proof fn lemma_close_keeps_min_size(s: Seq<Pane>, i: int)
    requires
        crate::tab::ids_sorted(s),
        all_panes_ok(s),
        0 <= i < s.len(),
        min_size_rects(rect_map(s)),
    ensures
        min_size_rects(crate::close::closed_rects(s, i)),
{
    let m = crate::close::closed_rects(s, i);
    assert forall|x: PaneId| #[trigger] m.contains_key(x) implies extent(m[x], Axis::Horizontal) >= min_extent_of(m[x], Axis::Horizontal) && extent(m[x], Axis::Vertical) >= min_extent_of(m[x], Axis::Vertical) by {
        let k = index_of(s, x);
        crate::tab::lemma_index_of(s, choose|j: int| 0 <= j < s.len() && (#[trigger] s[j]).id == x);
        assert(pane_ok(s[k]));
        assert(rect_map(s).contains_key(x));
        let q = s[k].position_and_size;
        assert(pane_ok(s[i]));
        if let Some((a, e)) = crate::close::reclaim_side(s, i) {
            lemma_moved_keeps_other_axis(q, a, opposite(e), true, extent(s[i].position_and_size, a));
        }
    }
}

/// A pane beyond edge `e` of `r`, within its span along the other axis, that grows over `r`
/// stays clear of a pane that was clear of both.
pub proof fn lemma_grown_stays_clear(q: PositionAndSize, r: PositionAndSize, p: PositionAndSize, a: Axis, e: Edge)
    requires
        crate::resize::touches(q, r, a, e),
        start(q, perpendicular(a)) >= start(r, perpendicular(a)),
        end(q, perpendicular(a)) <= end(r, perpendicular(a)),
        non_empty(q),
        non_empty(p),
        bounded(q),
        bounded(r),
        !intersects(q, p),
        !intersects(r, p),
    ensures
        !intersects(moved(q, a, opposite(e), true, extent(r, a)), p),
{
    match (a, e) {
        (Axis::Horizontal, Edge::Start) => {},
        (Axis::Horizontal, Edge::End) => {},
        (Axis::Vertical, Edge::Start) => {},
        (Axis::Vertical, Edge::End) => {},
    }
}

/// Two panes beyond the same edge of `r` that were apart stay apart when both grow over `r`.
pub proof fn lemma_grown_pair_apart(q1: PositionAndSize, q2: PositionAndSize, r: PositionAndSize, a: Axis, e: Edge)
    requires
        crate::resize::touches(q1, r, a, e),
        crate::resize::touches(q2, r, a, e),
        non_empty(q1),
        non_empty(q2),
        bounded(q1),
        bounded(q2),
        bounded(r),
        !intersects(q1, q2),
    ensures
        !intersects(
            moved(q1, a, opposite(e), true, extent(r, a)),
            moved(q2, a, opposite(e), true, extent(r, a)),
        ),
{
    match (a, e) {
        (Axis::Horizontal, Edge::Start) => {},
        (Axis::Horizontal, Edge::End) => {},
        (Axis::Vertical, Edge::Start) => {},
        (Axis::Vertical, Edge::End) => {},
    }
}

/// Closing a pane keeps panes apart.
pub proof fn lemma_close_keeps_apart(s: Seq<Pane>, i: int)
    requires
        crate::tab::ids_sorted(s),
        all_panes_ok(s),
        0 <= i < s.len(),
        no_overlap(rect_map(s)),
    ensures
        no_overlap(crate::close::closed_rects(s, i)),
{
    let m = crate::close::closed_rects(s, i);
    let r = s[i].position_and_size;
    assert(pane_ok(s[i]));
    assert forall|x: PaneId, y: PaneId| #![trigger m[x], m[y]] m.contains_key(x) && m.contains_key(y) && x != y implies !intersects(m[x], m[y]) by {
        let kx = index_of(s, x);
        let ky = index_of(s, y);
        crate::tab::lemma_index_of(s, choose|j: int| 0 <= j < s.len() && (#[trigger] s[j]).id == x);
        crate::tab::lemma_index_of(s, choose|j: int| 0 <= j < s.len() && (#[trigger] s[j]).id == y);
        crate::tab::lemma_index_of(s, i);
        assert(pane_ok(s[kx]));
        assert(pane_ok(s[ky]));
        let qx = s[kx].position_and_size;
        let qy = s[ky].position_and_size;
        assert(rect_map(s)[x] == qx);
        assert(rect_map(s)[y] == qy);
        assert(rect_map(s)[s[i].id] == r);
        assert(!intersects(qx, qy));
        assert(!intersects(qx, r));
        assert(!intersects(qy, r));
        match crate::close::reclaim_side(s, i) {
            Some((a, e)) => {
                let cx = crate::close::close_candidate(s, i, a, e, kx);
                let cy = crate::close::close_candidate(s, i, a, e, ky);
                if cx && cy {
                    lemma_grown_pair_apart(qx, qy, r, a, e);
                } else if cx {
                    lemma_grown_stays_clear(qx, r, qy, a, e);
                } else if cy {
                    lemma_grown_stays_clear(qy, r, qx, a, e);
                    assert(!intersects(qx, moved(qy, a, opposite(e), true, extent(r, a))) ) by {
                        match (a, e) {
                            (Axis::Horizontal, Edge::Start) => {},
                            (Axis::Horizontal, Edge::End) => {},
                            (Axis::Vertical, Edge::Start) => {},
                            (Axis::Vertical, Edge::End) => {},
                        }
                    }
                }
            },
            None => {},
        }
    }
}

} // verus!
