use vstd::prelude::*;
use crate::geometry::{end, extent, moved, opposite, opposite_of, perpendicular, perpendicular_of, start, Axis, Edge, PositionAndSize, MAX_COORD};
use crate::pane::{can_grow, pane_ok, Pane, PaneId};
use crate::resize::{beyond, vec_contains};
use crate::focus::same_tiling;
use crate::tab::{all_panes_ok, has_id, ids_sorted, index_of, lemma_index_of, lemma_map_remove, lemma_same_ids, rect_map, Signal, Tab};

verus! {

/// Lines along the other axis that the panes beyond edge `e` of the pane at `i` mark: where each
/// begins and where each ends.
pub open spec fn close_borders(s: Seq<Pane>, i: int, a: Axis, e: Edge) -> Set<int> {
    Set::new(
        |c: int|
            exists|j: int|
                beyond(s, i, a, e, j) && (start(s[j].position_and_size, perpendicular(a)) == c
                    || end(s[j].position_and_size, perpendicular(a)) == c),
    )
}

/// The pane at `j` is beyond edge `e` of the pane at `i` and within its span along the other
/// axis.
pub open spec fn close_candidate(s: Seq<Pane>, i: int, a: Axis, e: Edge, j: int) -> bool {
    &&& beyond(s, i, a, e, j)
    &&& start(s[j].position_and_size, perpendicular(a)) >= start(
        s[i].position_and_size,
        perpendicular(a),
    )
    &&& end(s[j].position_and_size, perpendicular(a)) <= end(
        s[i].position_and_size,
        perpendicular(a),
    )
}

/// The panes beyond edge `e` can take over the space of the pane at `i`: their borders meet
/// both ends of its span exactly, and each of those within the span may grow by its size.
pub open spec fn can_reclaim(s: Seq<Pane>, i: int, a: Axis, e: Edge) -> bool {
    let ap = perpendicular(a);
    &&& exists|j: int| beyond(s, i, a, e, j)
    &&& close_borders(s, i, a, e).contains(start(s[i].position_and_size, ap))
    &&& close_borders(s, i, a, e).contains(end(s[i].position_and_size, ap))
    &&& forall|j: int|
        #[trigger] close_candidate(s, i, a, e, j) ==> can_grow(
            s[j],
            a,
            extent(s[i].position_and_size, a),
        )
}

/// The side whose panes take over the space of the closed pane at `i`: left, right, above, below,
/// the first that can.
pub open spec fn reclaim_side(s: Seq<Pane>, i: int) -> Option<(Axis, Edge)> {
    if can_reclaim(s, i, Axis::Horizontal, Edge::Start) {
        Some((Axis::Horizontal, Edge::Start))
    } else if can_reclaim(s, i, Axis::Horizontal, Edge::End) {
        Some((Axis::Horizontal, Edge::End))
    } else if can_reclaim(s, i, Axis::Vertical, Edge::Start) {
        Some((Axis::Vertical, Edge::Start))
    } else if can_reclaim(s, i, Axis::Vertical, Edge::End) {
        Some((Axis::Vertical, Edge::End))
    } else {
        None
    }
}

/// The rectangle of the pane at `j` once the pane at `i` is closed.
pub open spec fn rect_after_close(s: Seq<Pane>, i: int, j: int) -> PositionAndSize {
    match reclaim_side(s, i) {
        Some((a, e)) => if close_candidate(s, i, a, e, j) {
            moved(s[j].position_and_size, a, opposite(e), true, extent(s[i].position_and_size, a))
        } else {
            s[j].position_and_size
        },
        None => s[j].position_and_size,
    }
}

/// The rectangles, keyed by identity, once the pane at `i` is closed.
pub open spec fn closed_rects(s: Seq<Pane>, i: int) -> Map<PaneId, PositionAndSize> {
    Map::new(
        |id: PaneId| has_id(s, id) && id != s[i].id,
        |id: PaneId| rect_after_close(s, i, index_of(s, id)),
    )
}

/// The pane at `j` took over space of the closed pane at `i` from `side`.
pub open spec fn grew_in_close(s: Seq<Pane>, i: int, side: Option<(Axis, Edge)>, j: int) -> bool {
    match side {
        Some((a, e)) => close_candidate(s, i, a, e, j),
        None => false,
    }
}

/// Among the selectable panes that grew, the one at `j` was active most recently.
pub open spec fn most_recent_grown(s: Seq<Pane>, i: int, side: Option<(Axis, Edge)>, j: int) -> bool {
    &&& 0 <= j < s.len()
    &&& grew_in_close(s, i, side, j)
    &&& s[j].selectable
    &&& forall|k: int|
        0 <= k < s.len() && #[trigger] grew_in_close(s, i, side, k) && s[k].selectable
            ==> s[k].active_at <= s[j].active_at
}

/// Among the selectable panes other than the one at `i`, the one at `j` was active most recently.
pub open spec fn most_recent_other(s: Seq<Pane>, i: int, j: int) -> bool {
    &&& 0 <= j < s.len()
    &&& j != i
    &&& s[j].selectable
    &&& forall|k: int|
        0 <= k < s.len() && k != i && (#[trigger] s[k]).selectable ==> s[k].active_at
            <= s[j].active_at
}

/// Who is active once the pane at `i`, the active one, is closed and `side` took its space: the
/// most recently active selectable pane that grew, else the most recently active selectable
/// pane left, else nobody.
pub open spec fn next_active_ok(s: Seq<Pane>, i: int, side: Option<(Axis, Edge)>, next: Option<PaneId>) -> bool {
    match next {
        Some(id) => exists|j: int|
            #![trigger s[j]]
            s[j].id == id && (most_recent_grown(s, i, side, j) || (!(exists|k: int|
                0 <= k < s.len() && #[trigger] grew_in_close(s, i, side, k) && s[k].selectable)
                && most_recent_other(s, i, j))),
        None => forall|k: int| 0 <= k < s.len() && k != i ==> !(#[trigger] s[k]).selectable,
    }
}

/// Once the panes other than the one at `i` are at their rectangles after the close, removing
/// that pane leaves the rectangles that `closed_rects` gives.
pub proof fn lemma_closed_rects(s: Seq<Pane>, t: Seq<Pane>, i: int)
    requires
        ids_sorted(s),
        0 <= i < s.len(),
        t.len() == s.len(),
        forall|m: int| 0 <= m < t.len() ==> (#[trigger] t[m]).id == s[m].id && t[m].position_and_size == rect_after_close(s, i, m),
    ensures
        rect_map(t.remove(i)) == closed_rects(s, i),
{
    lemma_same_ids(s, t);
    lemma_map_remove(t, i);
    assert forall|x: PaneId| #[trigger] rect_map(t.remove(i)).contains_key(x) <==> closed_rects(s, i).contains_key(x) by {}
    assert forall|x: PaneId| #[trigger] rect_map(t.remove(i)).contains_key(x) implies rect_map(t.remove(i))[x] == closed_rects(s, i)[x] by {
        let k = index_of(s, x);
        lemma_index_of(s, k);
    }
    assert(rect_map(t.remove(i)) =~= closed_rects(s, i));
}

/// Closing depends on the tiling alone: identities, rectangles and selectability.
pub proof fn lemma_close_same_tiling(s: Seq<Pane>, t: Seq<Pane>, i: int)
    requires
        ids_sorted(s),
        0 <= i < s.len(),
        same_tiling(s, t),
    ensures
        reclaim_side(s, i) == reclaim_side(t, i),
        closed_rects(s, i) == closed_rects(t, i),
        forall|j: int| #[trigger] grew_in_close(s, i, reclaim_side(s, i), j) == grew_in_close(t, i, reclaim_side(t, i), j),
{
    lemma_same_ids(s, t);
    assert forall|a: Axis, e: Edge| #[trigger] can_reclaim(s, i, a, e) == can_reclaim(t, i, a, e) by {
        assert forall|j: int| #[trigger] beyond(s, i, a, e, j) == beyond(t, i, a, e, j) by {
            if 0 <= j < s.len() {
                assert(t[j].position_and_size == s[j].position_and_size);
            }
        }
        assert forall|j: int| #[trigger] close_candidate(s, i, a, e, j) == close_candidate(t, i, a, e, j) by {
            if 0 <= j < s.len() {
                assert(t[j].position_and_size == s[j].position_and_size);
            }
        }
        assert(close_borders(s, i, a, e) =~= close_borders(t, i, a, e)) by {
            assert forall|c: int| close_borders(s, i, a, e).contains(c) == close_borders(t, i, a, e).contains(c) by {
                if close_borders(s, i, a, e).contains(c) {
                    let j = choose|j: int| beyond(s, i, a, e, j) && (start(s[j].position_and_size, perpendicular(a)) == c || end(s[j].position_and_size, perpendicular(a)) == c);
                    assert(t[j].position_and_size == s[j].position_and_size);
                    assert(beyond(t, i, a, e, j));
                }
                if close_borders(t, i, a, e).contains(c) {
                    let j = choose|j: int| beyond(t, i, a, e, j) && (start(t[j].position_and_size, perpendicular(a)) == c || end(t[j].position_and_size, perpendicular(a)) == c);
                    assert(t[j].position_and_size == s[j].position_and_size);
                    assert(beyond(s, i, a, e, j));
                }
            }
        }
        assert(t[i].position_and_size == s[i].position_and_size);
        let gs = forall|j: int| #[trigger] close_candidate(s, i, a, e, j) ==> can_grow(s[j], a, extent(s[i].position_and_size, a));
        let gt = forall|j: int| #[trigger] close_candidate(t, i, a, e, j) ==> can_grow(t[j], a, extent(t[i].position_and_size, a));
        assert(gs == gt) by {
            if gs {
                assert forall|j: int| #[trigger] close_candidate(t, i, a, e, j) implies can_grow(t[j], a, extent(t[i].position_and_size, a)) by {
                    assert(close_candidate(s, i, a, e, j));
                    assert(t[j].position_and_size == s[j].position_and_size);
                }
            }
            if gt {
                assert forall|j: int| #[trigger] close_candidate(s, i, a, e, j) implies can_grow(s[j], a, extent(s[i].position_and_size, a)) by {
                    assert(close_candidate(t, i, a, e, j));
                    assert(t[j].position_and_size == s[j].position_and_size);
                }
            }
        }
        assert((exists|j: int| beyond(s, i, a, e, j)) == (exists|j: int| beyond(t, i, a, e, j))) by {
            if exists|j: int| beyond(s, i, a, e, j) {
                let j = choose|j: int| beyond(s, i, a, e, j);
                assert(beyond(t, i, a, e, j));
            }
            if exists|j: int| beyond(t, i, a, e, j) {
                let j = choose|j: int| beyond(t, i, a, e, j);
                assert(beyond(s, i, a, e, j));
            }
        }
        assert(t[i].position_and_size == s[i].position_and_size);
    }
    assert(reclaim_side(s, i) == reclaim_side(t, i)) by {
        assert(can_reclaim(s, i, Axis::Horizontal, Edge::Start) == can_reclaim(t, i, Axis::Horizontal, Edge::Start));
        assert(can_reclaim(s, i, Axis::Horizontal, Edge::End) == can_reclaim(t, i, Axis::Horizontal, Edge::End));
        assert(can_reclaim(s, i, Axis::Vertical, Edge::Start) == can_reclaim(t, i, Axis::Vertical, Edge::Start));
        assert(can_reclaim(s, i, Axis::Vertical, Edge::End) == can_reclaim(t, i, Axis::Vertical, Edge::End));
    }
    assert forall|j: int| #[trigger] grew_in_close(s, i, reclaim_side(s, i), j) == grew_in_close(t, i, reclaim_side(t, i), j) by {
        if let Some((a, e)) = reclaim_side(s, i) {
            assert(close_candidate(s, i, a, e, j) == close_candidate(t, i, a, e, j)) by {
                if 0 <= j < s.len() {
                    assert(t[j].position_and_size == s[j].position_and_size);
                }
            }
        }
    }
    assert(closed_rects(s, i) =~= closed_rects(t, i)) by {
        assert forall|x: PaneId| #[trigger] closed_rects(s, i).contains_key(x) implies closed_rects(s, i)[x] == closed_rects(t, i)[x] by {
            let k = index_of(s, x);
            lemma_index_of(s, k);
            assert(t[k].position_and_size == s[k].position_and_size);
            assert(grew_in_close(s, i, reclaim_side(s, i), k) == grew_in_close(t, i, reclaim_side(t, i), k));
        }
    }
}

impl Tab {
    /// Whether one of the panes at `ids` begins at `c` along `ap`, or ends one line before it.
    pub fn marks_border(&self, ids: &Vec<usize>, ap: Axis, c: usize) -> (r: bool)
        requires
            self.wf(),
            forall|m: int| 0 <= m < ids@.len() ==> #[trigger] ids@[m] < self.panes@.len(),
        ensures
            r == exists|m: int| 0 <= m < ids@.len() && (start(self.panes@[#[trigger] ids@[m] as int].position_and_size, ap) == c || end(self.panes@[ids@[m] as int].position_and_size, ap) == c),
    {
        let mut k: usize = 0;
        while k < ids.len()
            invariant
                self.wf(),
                forall|m: int| 0 <= m < ids@.len() ==> #[trigger] ids@[m] < self.panes@.len(),
                k <= ids@.len(),
                forall|m: int| 0 <= m < k ==> !(start(self.panes@[#[trigger] ids@[m] as int].position_and_size, ap) == c || end(self.panes@[ids@[m] as int].position_and_size, ap) == c),
            decreases ids@.len() - k,
        {
            assert(pane_ok(self.panes@[ids@[k as int] as int]));
            let q = self.panes[ids[k]].position_and_size;
            if q.start_along(ap) == c || q.end_along(ap) == c {
                return true;
            }
            k += 1;
        }
        false
    }

    /// The panes at `ids` (those beyond edge `e` of the pane at `i`) that lie within its span.
    pub fn close_candidates(&self, i: usize, a: Axis, e: Edge, ids: &Vec<usize>) -> (r: Vec<usize>)
        requires
            self.wf(),
            i < self.panes@.len(),
            forall|m: int| 0 <= m < ids@.len() ==> beyond(self.panes@, i as int, a, e, #[trigger] ids@[m] as int),
            forall|j: int| #[trigger] beyond(self.panes@, i as int, a, e, j) ==> ids@.contains(j as usize),
        ensures
            forall|j: int| 0 <= j < self.panes@.len() ==> (r@.contains(j as usize) <==> close_candidate(self.panes@, i as int, a, e, j)),
            forall|k: int| 0 <= k < r@.len() ==> close_candidate(self.panes@, i as int, a, e, #[trigger] r@[k] as int),
    {
        let s = Ghost(self.panes@);
        let len = self.panes.len();
        let ap = perpendicular_of(a);
        assert(pane_ok(s@[i as int]));
        let closing = self.panes[i].position_and_size;
        let upper = closing.start_along(ap);
        let lower = closing.end_along(ap);
        let mut cands: Vec<usize> = Vec::new();
        let mut k: usize = 0;
        while k < ids.len()
            invariant
                self.wf(),
                s@ == self.panes@,
                len == s@.len(),
                ap == perpendicular(a),
                closing == s@[i as int].position_and_size,
                upper == start(closing, ap),
                lower == end(closing, ap),
                forall|m: int| 0 <= m < ids@.len() ==> beyond(s@, i as int, a, e, #[trigger] ids@[m] as int),
                k <= ids@.len(),
                forall|m: int| 0 <= m < cands@.len() ==> close_candidate(s@, i as int, a, e, #[trigger] cands@[m] as int),
                forall|m: int| 0 <= m < k && close_candidate(s@, i as int, a, e, #[trigger] ids@[m] as int) ==> cands@.contains(ids@[m]),
            decreases ids@.len() - k,
        {
            let j = ids[k];
            assert(beyond(s@, i as int, a, e, j as int));
            assert(pane_ok(s@[j as int]));
            let q = self.panes[j].position_and_size;
            let ghost before = cands@;
            if q.start_along(ap) >= upper && q.end_along(ap) <= lower {
                cands.push(j);
            }
            proof {
                assert forall|m: int| 0 <= m < k + 1 && close_candidate(s@, i as int, a, e, #[trigger] ids@[m] as int) implies cands@.contains(ids@[m]) by {
                    if m < k {
                        let w = choose|w: int| 0 <= w < before.len() && before[w] == ids@[m];
                        assert(cands@[w] == ids@[m]);
                    } else {
                        assert(cands@[cands@.len() - 1] == j);
                    }
                }
            }
            k += 1;
        }
        proof {
            assert forall|j: int| 0 <= j < len implies (cands@.contains(j as usize) <==> close_candidate(s@, i as int, a, e, j)) by {
                if cands@.contains(j as usize) {
                    let w = choose|w: int| 0 <= w < cands@.len() && cands@[w] == j as usize;
                    assert(close_candidate(s@, i as int, a, e, cands@[w] as int));
                }
                if close_candidate(s@, i as int, a, e, j) {
                    assert(ids@.contains(j as usize));
                    let m = choose|m: int| 0 <= m < ids@.len() && ids@[m] == j as usize;
                    assert(ids@[m] as int == j);
                }
            }
        }
        cands
    }

    /// Positions of the panes that can take over the space of the pane at `i` from beyond its
    /// edge `e` along `a`, when they can.
    pub fn panes_between_aligning_borders(&self, i: usize, a: Axis, e: Edge) -> (r: Option<Vec<usize>>)
        requires
            self.wf(),
            i < self.panes@.len(),
        ensures
            r is Some <==> can_reclaim(self.panes@, i as int, a, e),
            r matches Some(v) ==> forall|j: int| 0 <= j < self.panes@.len() ==> (v@.contains(j as usize) <==> close_candidate(self.panes@, i as int, a, e, j)),
            r matches Some(v) ==> forall|k: int| 0 <= k < v@.len() ==> close_candidate(self.panes@, i as int, a, e, #[trigger] v@[k] as int),
    {
        let s = Ghost(self.panes@);
        let len = self.panes.len();
        let ap = perpendicular_of(a);
        let (ids, _) = self.borders_beyond(i, a, e);
        if ids.len() == 0 {
            proof {
                if exists|j: int| beyond(s@, i as int, a, e, j) {
                    let j = choose|j: int| beyond(s@, i as int, a, e, j);
                    assert(ids@.contains(j as usize));
                }
            }
            return None;
        }
        assert(beyond(s@, i as int, a, e, ids@[0] as int));
        assert(pane_ok(s@[i as int]));
        let closing = self.panes[i].position_and_size;
        let upper = closing.start_along(ap);
        let lower = closing.end_along(ap);
        let has_upper = self.marks_border(&ids, ap, upper);
        let has_lower = self.marks_border(&ids, ap, lower);
        proof {
            let bs = close_borders(s@, i as int, a, e);
            assert forall|c: int| 0 <= c <= MAX_COORD + 1 implies bs.contains(c) == exists|m: int| 0 <= m < ids@.len() && (start(s@[#[trigger] ids@[m] as int].position_and_size, ap) == c || end(s@[ids@[m] as int].position_and_size, ap) == c) by {
                if exists|m: int| 0 <= m < ids@.len() && (start(s@[#[trigger] ids@[m] as int].position_and_size, ap) == c || end(s@[ids@[m] as int].position_and_size, ap) == c) {
                    let m = choose|m: int| 0 <= m < ids@.len() && (start(s@[#[trigger] ids@[m] as int].position_and_size, ap) == c || end(s@[ids@[m] as int].position_and_size, ap) == c);
                    assert(beyond(s@, i as int, a, e, ids@[m] as int));
                }
                if bs.contains(c) {
                    let j = choose|j: int| beyond(s@, i as int, a, e, j) && (start(s@[j].position_and_size, ap) == c || end(s@[j].position_and_size, ap) == c);
                    assert(ids@.contains(j as usize));
                    let m = choose|m: int| 0 <= m < ids@.len() && ids@[m] == j as usize;
                    assert(j < len);
                    assert(ids@[m] as int == j);
                }
            }
        }
        if !(has_upper && has_lower) {
            return None;
        }
        let cands = self.close_candidates(i, a, e, &ids);
        let amount = closing.extent_along(a);
        let all_grow = self.all_can_change(&cands, a, false, amount);
        proof {
            assert(all_grow == forall|j: int| #[trigger] close_candidate(s@, i as int, a, e, j) ==> can_grow(s@[j], a, extent(s@[i as int].position_and_size, a))) by {
                if all_grow {
                    assert forall|j: int| #[trigger] close_candidate(s@, i as int, a, e, j) implies can_grow(s@[j], a, extent(s@[i as int].position_and_size, a)) by {
                        assert(cands@.contains(j as usize));
                        let w = choose|w: int| 0 <= w < cands@.len() && cands@[w] == j as usize;
                        assert(cands@[w] as int == j);
                    }
                } else {
                    let m = choose|m: int| 0 <= m < cands@.len() && !can_grow(s@[cands@[m] as int], a, amount as int);
                    assert(close_candidate(s@, i as int, a, e, cands@[m] as int));
                }
            }
        }
        if all_grow {
            Some(cands)
        } else {
            None
        }
    }

    /// The most recently active selectable pane among those that `mask` marks; the later one in
    /// the registry on a tie.
    pub fn most_recent_index(&self, mask: &Vec<bool>) -> (r: Option<usize>)
        requires
            mask@.len() == self.panes@.len(),
        ensures
            r matches Some(j) ==> j < self.panes@.len() && mask@[j as int] && self.panes@[j as int].selectable
                && forall|k: int| 0 <= k < self.panes@.len() && #[trigger] mask@[k] && self.panes@[k].selectable ==> self.panes@[k].active_at <= self.panes@[j as int].active_at,
            r is None ==> forall|k: int| 0 <= k < self.panes@.len() && #[trigger] mask@[k] ==> !self.panes@[k].selectable,
    {
        let mut best: Option<usize> = None;
        let mut j: usize = 0;
        while j < self.panes.len()
            invariant
                mask@.len() == self.panes@.len(),
                j <= self.panes@.len(),
                best matches Some(b) ==> b < j && mask@[b as int] && self.panes@[b as int].selectable,
                forall|k: int| 0 <= k < j && #[trigger] mask@[k] && self.panes@[k].selectable ==> (best matches Some(b) && self.panes@[k].active_at <= self.panes@[b as int].active_at),
            decreases self.panes@.len() - j,
        {
            if mask[j] && self.panes[j].selectable {
                match best {
                    None => {
                        best = Some(j);
                    },
                    Some(b) => {
                        if self.panes[j].active_at >= self.panes[b].active_at {
                            best = Some(j);
                        }
                    },
                }
            }
            j += 1;
        }
        best
    }

    /// The pane that becomes active when the pane at `i` goes and the panes that `cands` marks
    /// took its space.
    pub fn next_active_after_close(&self, i: usize, side: Ghost<Option<(Axis, Edge)>>, cands: &Vec<usize>) -> (r: Option<PaneId>)
        requires
            self.wf(),
            i < self.panes@.len(),
            side@ matches Some((a, e)) ==> forall|j: int| 0 <= j < self.panes@.len() ==> (cands@.contains(j as usize) <==> close_candidate(self.panes@, i as int, a, e, j)),
            side@ is None ==> cands@.len() == 0,
        ensures
            next_active_ok(self.panes@, i as int, side@, r),
            r matches Some(id) ==> has_id(self.panes@, id) && id != self.panes@[i as int].id,
    {
        let s = Ghost(self.panes@);
        let len = self.panes.len();
        let mut grew: Vec<bool> = Vec::new();
        let mut rest: Vec<bool> = Vec::new();
        let mut j: usize = 0;
        while j < len
            invariant
                len == s@.len(),
                s@ == self.panes@,
                j <= len,
                grew@.len() == j,
                rest@.len() == j,
                forall|k: int| 0 <= k < j ==> #[trigger] grew@[k] == cands@.contains(k as usize),
                forall|k: int| 0 <= k < j ==> #[trigger] rest@[k] == (k != i),
            decreases len - j,
        {
            grew.push(vec_contains(cands, j));
            rest.push(j != i);
            j += 1;
        }
        proof {
            assert forall|k: int| 0 <= k < len implies #[trigger] grew@[k] == grew_in_close(s@, i as int, side@, k) by {
                if side@ is None {
                    assert(!cands@.contains(k as usize));
                }
            }
        }
        match self.most_recent_index(&grew) {
            Some(g) => {
                proof {
                    assert(grew@[g as int]);
                    assert forall|k: int| 0 <= k < s@.len() && #[trigger] grew_in_close(s@, i as int, side@, k) && s@[k].selectable implies s@[k].active_at <= s@[g as int].active_at by {
                        assert(grew@[k]);
                    }
                    assert(most_recent_grown(s@, i as int, side@, g as int));
                    assert(has_id(s@, s@[g as int].id));
                    if s@[g as int].id == s@[i as int].id {
                        crate::tab::lemma_ids_unique(s@, g as int, i as int);
                        let (a, e) = side@.unwrap();
                        assert(pane_ok(s@[i as int]));
                    }
                }
                Some(self.panes[g].id)
            },
            None => {
                let r = self.most_recent_index(&rest);
                proof {
                    assert forall|k: int| 0 <= k < s@.len() && #[trigger] grew_in_close(s@, i as int, side@, k) implies !s@[k].selectable by {
                        assert(grew@[k]);
                    }
                }
                match r {
                    Some(x) => {
                        proof {
                            assert(rest@[x as int]);
                            assert forall|k: int| 0 <= k < s@.len() && k != i && (#[trigger] s@[k]).selectable implies s@[k].active_at <= s@[x as int].active_at by {
                                assert(rest@[k]);
                            }
                            assert(most_recent_other(s@, i as int, x as int));
                            assert(has_id(s@, s@[x as int].id));
                            if s@[x as int].id == s@[i as int].id {
                                crate::tab::lemma_ids_unique(s@, x as int, i as int);
                            }
                        }
                        Some(self.panes[x].id)
                    },
                    None => {
                        proof {
                            assert forall|k: int| 0 <= k < s@.len() && k != i implies !(#[trigger] s@[k]).selectable by {
                                assert(rest@[k]);
                            }
                        }
                        None
                    },
                }
            },
        }
    }

    /// Removes the pane at `i`, lets the first side that can take over its space do so, and
    /// when it was active hands the focus on.
    pub fn remove_and_reclaim(&mut self, i: usize)
        requires
            old(self).wf(),
            i < old(self).panes@.len(),
        ensures
            final(self).wf(),
            rect_map(final(self).panes@) == closed_rects(old(self).panes@, i as int),
            old(self).active_terminal == Some(old(self).panes@[i as int].id) ==> next_active_ok(
                old(self).panes@,
                i as int,
                reclaim_side(old(self).panes@, i as int),
                final(self).active_terminal,
            ),
            old(self).active_terminal != Some(old(self).panes@[i as int].id)
                ==> final(self).active_terminal == old(self).active_terminal,
            final(self).fullscreen_is_active == old(self).fullscreen_is_active,
            final(self).viewport == old(self).viewport,
            final(self).draw_pane_frames == old(self).draw_pane_frames,
            crate::tab::extends(old(self).signals@, final(self).signals@),
    {
        let ghost s = self.panes@;
        let id = self.panes[i].id;
        assert(pane_ok(s[i as int]));
        let rect = self.panes[i].position_and_size;
        let (side, cands) = self.reclaim_side_of(i);
        assert(side == reclaim_side(s, i as int));
        let was_active = self.active_terminal == Some(id);
        let next = if was_active {
            self.next_active_after_close(i, Ghost(side), &cands)
        } else {
            self.active_terminal
        };
        proof { crate::tab::lemma_extends_refl(old(self).signals@); }
        if let Some((a, e)) = side {
            self.grow_into_closed(i, a, e, &cands);
        }
        let ghost g1 = self.signals@;
        let ghost t = self.panes@;
        proof {
            lemma_same_ids(s, t);
            assert(!grew_in_close(s, i as int, side, i as int)) by {
                if let Some((a, e)) = side {
                    if close_candidate(s, i as int, a, e, i as int) {
                        assert(pane_ok(s[i as int]));
                    }
                }
            }
        }
        self.active_terminal = next;
        proof {
            if let Some(n) = next {
                assert(has_id(s, n));
                assert(has_id(t, n));
            }
        }
        self.remove_pane(i);
        proof {
            lemma_closed_rects(s, t, i as int);
        }
        proof { crate::tab::lemma_extends_refl(g1); }
        if was_active {
            self.frame_sole_pane();
        }
        proof { crate::tab::lemma_extends_trans(old(self).signals@, g1, self.signals@); }
    }

    /// Gives the active pane a title-only frame when frames are drawn and it is the only
    /// selectable pane.
    pub fn frame_sole_pane(&mut self)
        requires
            old(self).wf(),
        ensures
            final(self).wf(),
            rect_map(final(self).panes@) == rect_map(old(self).panes@),
            final(self).active_terminal == old(self).active_terminal,
            final(self).fullscreen_is_active == old(self).fullscreen_is_active,
            final(self).viewport == old(self).viewport,
            final(self).draw_pane_frames == old(self).draw_pane_frames,
            crate::tab::extends(old(self).signals@, final(self).signals@),
    {
        proof { crate::tab::lemma_extends_refl(old(self).signals@); }
        if let Some(n) = self.active_terminal {
            if self.draw_pane_frames && self.is_the_only_selectable_pane(n) {
                if let Some(k) = self.find(n) {
                    let ghost u = self.panes@;
                    let mut p = self.panes[k];
                    p.show_boundaries_frame(true);
                    assert(pane_ok(u[k as int]));
                    self.replace_pane(k, p);
                    proof {
                        crate::tab::lemma_map_update(u, k as int, p);
                        assert(rect_map(u).insert(p.id, p.position_and_size) =~= rect_map(u)) by {
                            lemma_index_of(u, k as int);
                        }
                    }
                }
            }
        }
    }

    /// Grows each pane that `cands` marks over the space of the pane at `i`, from beyond its
    /// edge `e` along `a`.
    fn grow_into_closed(&mut self, i: usize, a: Axis, e: Edge, cands: &Vec<usize>)
        requires
            old(self).wf(),
            i < old(self).panes@.len(),
            reclaim_side(old(self).panes@, i as int) == Some((a, e)),
            forall|x: int| 0 <= x < old(self).panes@.len() ==> (cands@.contains(x as usize) <==> close_candidate(old(self).panes@, i as int, a, e, x)),
        ensures
            final(self).wf(),
            final(self).same_settings(old(self)),
            final(self).panes@.len() == old(self).panes@.len(),
            forall|m: int| 0 <= m < final(self).panes@.len() ==> (#[trigger] final(self).panes@[m]).id == old(self).panes@[m].id && final(self).panes@[m].position_and_size == rect_after_close(old(self).panes@, i as int, m),
            crate::tab::extends(old(self).signals@, final(self).signals@),
    {
        proof { crate::tab::lemma_extends_refl(old(self).signals@); }
        let ghost s = self.panes@;
        assert(pane_ok(s[i as int]));
        assert(can_reclaim(s, i as int, a, e));
        let rect = self.panes[i].position_and_size;
        let amount = rect.extent_along(a);
        let len = self.panes.len();
        let mut j: usize = 0;
        while j < len
            invariant
                self.wf(),
                self.same_settings(old(self)),
                len == s.len(),
                s == old(self).panes@,
                self.panes@.len() == len,
                i < len,
                reclaim_side(s, i as int) == Some((a, e)),
                rect == s[i as int].position_and_size,
                amount == extent(rect, a),
                can_reclaim(s, i as int, a, e),
                all_panes_ok(s),
                forall|x: int| 0 <= x < len ==> (cands@.contains(x as usize) <==> close_candidate(s, i as int, a, e, x)),
                j <= len,
                crate::tab::extends(old(self).signals@, self.signals@),
                forall|m: int| 0 <= m < j ==> (#[trigger] self.panes@[m]).id == s[m].id && self.panes@[m].position_and_size == rect_after_close(s, i as int, m),
                forall|m: int| j <= m < len ==> #[trigger] self.panes@[m] == s[m],
            decreases len - j,
        {
            if vec_contains(cands, j) {
                let q = self.panes[j].position_and_size;
                assert(close_candidate(s, i as int, a, e, j as int));
                assert(pane_ok(s[j as int]));
                assert(can_grow(s[j as int], a, extent(rect, a)));
                let grown = q.move_edge(a, opposite_of(e), true, amount);
                let ghost g = self.signals@;
                self.set_pane_rect(j, grown);
                proof {
                    crate::tab::lemma_extends_append(g, crate::tab::resize_signal(self.panes@[j as int]));
                    crate::tab::lemma_extends_trans(old(self).signals@, g, self.signals@);
                }
            }
            j += 1;
        }
    }

    /// The side that takes over the space of the pane at `i`, and the positions of its panes
    /// that grow.
    pub fn reclaim_side_of(&self, i: usize) -> (r: (Option<(Axis, Edge)>, Vec<usize>))
        requires
            self.wf(),
            i < self.panes@.len(),
        ensures
            r.0 == reclaim_side(self.panes@, i as int),
            r.0 matches Some((a, e)) ==> forall|j: int| 0 <= j < self.panes@.len() ==> (r.1@.contains(j as usize) <==> close_candidate(self.panes@, i as int, a, e, j)),
            r.0 is None ==> r.1@.len() == 0,
    {
        if let Some(c) = self.panes_between_aligning_borders(i, Axis::Horizontal, Edge::Start) {
            (Some((Axis::Horizontal, Edge::Start)), c)
        } else if let Some(c) = self.panes_between_aligning_borders(i, Axis::Horizontal, Edge::End) {
            (Some((Axis::Horizontal, Edge::End)), c)
        } else if let Some(c) = self.panes_between_aligning_borders(i, Axis::Vertical, Edge::Start) {
            (Some((Axis::Vertical, Edge::Start)), c)
        } else if let Some(c) = self.panes_between_aligning_borders(i, Axis::Vertical, Edge::End) {
            (Some((Axis::Vertical, Edge::End)), c)
        } else {
            (None, Vec::new())
        }
    }

    /// Closes the pane `id` (leaving fullscreen first): the first side whose panes can take over
    /// its space grows over it, and when it was the active pane the focus moves on.
    pub fn close_pane_without_rerender(&mut self, id: PaneId)
        requires
            old(self).wf(),
        ensures
            final(self).wf(),
            has_id(old(self).panes@, id) ==> rect_map(final(self).panes@) == closed_rects(
                old(self).panes@,
                index_of(old(self).panes@, id),
            ),
            !has_id(old(self).panes@, id) ==> rect_map(final(self).panes@) == rect_map(old(self).panes@),
            !old(self).fullscreen_is_active && old(self).active_terminal == Some(id) ==> next_active_ok(
                old(self).panes@,
                index_of(old(self).panes@, id),
                reclaim_side(old(self).panes@, index_of(old(self).panes@, id)),
                final(self).active_terminal,
            ),
            old(self).active_terminal != Some(id) ==> final(self).active_terminal == old(self).active_terminal,
            old(self).active_terminal is Some ==> !final(self).fullscreen_is_active,
            old(self).active_terminal is None ==> final(self).fullscreen_is_active == old(self).fullscreen_is_active,
            final(self).draw_pane_frames == old(self).draw_pane_frames,
            final(self).viewport == old(self).viewport,
            crate::tab::extends(old(self).signals@, final(self).signals@),
    {
        let ghost s0 = self.panes@;
        proof { crate::tab::lemma_extends_refl(old(self).signals@); }
        if self.fullscreen_is_active {
            self.toggle_active_pane_fullscreen();
        }
        let ghost s1 = self.panes@;
        let ghost g1 = self.signals@;
        proof {
            if !old(self).fullscreen_is_active {
                assert(s1 == s0);
            }
            assert(same_tiling(s0, s1));
            lemma_same_ids(s0, s1);
        }
        let i = match self.find(id) {
            Some(i) => i,
            None => {
                proof {
                    assert(rect_map(s1) =~= rect_map(s0)) by {
                        assert forall|x: PaneId| #[trigger] rect_map(s1).contains_key(x) implies rect_map(s1)[x] == rect_map(s0)[x] by {
                            let k = index_of(s0, x);
                            lemma_index_of(s0, k);
                        }
                    }
                }
                return;
            },
        };
        proof {
            lemma_index_of(s1, i as int);
            lemma_close_same_tiling(s0, s1, i as int);
        }
        self.remove_and_reclaim(i);
        proof { crate::tab::lemma_extends_trans(old(self).signals@, g1, self.signals@); }
    }

    /// Closes the pane `id` if it is there.
    pub fn close_pane(&mut self, id: PaneId)
        requires
            old(self).wf(),
        ensures
            final(self).wf(),
            has_id(old(self).panes@, id) ==> rect_map(final(self).panes@) == closed_rects(
                old(self).panes@,
                index_of(old(self).panes@, id),
            ),
            !has_id(old(self).panes@, id) ==> final(self).panes@ == old(self).panes@
                && final(self).fullscreen_is_active == old(self).fullscreen_is_active
                && final(self).panes_to_hide@ == old(self).panes_to_hide@
                && final(self).signals@ == old(self).signals@,
            old(self).active_terminal != Some(id) ==> final(self).active_terminal == old(self).active_terminal,
            crate::tab::extends(old(self).signals@, final(self).signals@),
    {
        proof { crate::tab::lemma_extends_refl(old(self).signals@); }
        if self.find(id).is_some() {
            self.close_pane_without_rerender(id);
        }
    }

    /// Closes the active pane and tells its process to end.
    pub fn close_focused_pane(&mut self)
        requires
            old(self).wf(),
        ensures
            final(self).wf(),
            old(self).active_terminal matches Some(id) ==> rect_map(final(self).panes@) == closed_rects(
                old(self).panes@,
                index_of(old(self).panes@, id),
            ) && final(self).signals@.last() == Signal::ClosePane(id),
            crate::tab::extends(old(self).signals@, final(self).signals@),
            old(self).active_terminal is None ==> final(self).panes@ == old(self).panes@,
    {
        proof { crate::tab::lemma_extends_refl(old(self).signals@); }
        if let Some(id) = self.active_terminal {
            self.close_pane(id);
            let ghost g = self.signals@;
            self.signals.push(Signal::ClosePane(id));
            proof {
                crate::tab::lemma_extends_append(g, seq![Signal::ClosePane(id)]);
                assert(g + seq![Signal::ClosePane(id)] =~= self.signals@);
                crate::tab::lemma_extends_trans(old(self).signals@, g, self.signals@);
            }
        }
    }
}

} // verus!
