use vstd::prelude::*;
use crate::geometry::{bounded, can_move, edge, end, extent, moved, non_empty, opposite, opposite_of, perpendicular, perpendicular_of, start, Axis, Edge, PositionAndSize, MAX_COORD};
use crate::pane::{can_grow, can_shrink, min_extent, pane_ok, placed, Pane};
use crate::tab::{all_panes_ok, index_of, same_but_activity, Tab};

verus! {

/// Columns by which one step of a horizontal resize moves an edge.
pub const RESIZE_STEP_COLS: usize = 10;

/// Rows by which one step of a vertical resize moves an edge.
pub const RESIZE_STEP_ROWS: usize = 2;

/// `q` lies just beyond edge `e` of `p` along `a`: the two rectangles meet on that edge's line.
pub open spec fn touches(q: PositionAndSize, p: PositionAndSize, a: Axis, e: Edge) -> bool {
    match e {
        Edge::End => start(q, a) == end(p, a),
        Edge::Start => end(q, a) == start(p, a),
    }
}

/// The pane at `j` lies just beyond edge `e` of the pane at `i`, wherever it is along the other axis.
pub open spec fn beyond(s: Seq<Pane>, i: int, a: Axis, e: Edge, j: int) -> bool {
    0 <= j < s.len() && touches(s[j].position_and_size, s[i].position_and_size, a, e)
}

/// Where the panes beyond edge `e` of the pane at `i` begin along the other axis.
pub open spec fn border_set(s: Seq<Pane>, i: int, a: Axis, e: Edge) -> Set<int> {
    Set::new(
        |c: int|
            exists|j: int| beyond(s, i, a, e, j) && start(s[j].position_and_size, perpendicular(a)) == c,
    )
}

/// The pane at `j` could continue a chain that has reached `cur`: it shares edge `e` of the pane
/// at `i` and lies just beyond `cur` toward `toward` along the other axis.
pub open spec fn chain_candidate(
    s: Seq<Pane>,
    i: int,
    a: Axis,
    e: Edge,
    toward: Edge,
    cur: PositionAndSize,
    j: int,
) -> bool {
    &&& 0 <= j < s.len()
    &&& j != i
    &&& edge(s[j].position_and_size, a, e) == edge(s[i].position_and_size, a, e)
    &&& touches(s[j].position_and_size, cur, perpendicular(a), toward)
}

/// Among the candidates, the pane at `j` starts last along the other axis, and comes first in
/// the registry among those that start there.
pub open spec fn chain_best(
    s: Seq<Pane>,
    i: int,
    a: Axis,
    e: Edge,
    toward: Edge,
    cur: PositionAndSize,
    j: int,
) -> bool {
    &&& chain_candidate(s, i, a, e, toward, cur, j)
    &&& forall|k: int|
        #![trigger chain_candidate(s, i, a, e, toward, cur, k)]
        chain_candidate(s, i, a, e, toward, cur, k) ==> start(
            s[k].position_and_size,
            perpendicular(a),
        ) < start(s[j].position_and_size, perpendicular(a)) || (start(
            s[k].position_and_size,
            perpendicular(a),
        ) == start(s[j].position_and_size, perpendicular(a)) && j <= k)
}

pub open spec fn chain_next(
    s: Seq<Pane>,
    i: int,
    a: Axis,
    e: Edge,
    toward: Edge,
    cur: PositionAndSize,
) -> Option<int> {
    if exists|j: int| chain_best(s, i, a, e, toward, cur, j) {
        Some(choose|j: int| chain_best(s, i, a, e, toward, cur, j))
    } else {
        None
    }
}

/// The panes that share edge `e` of the pane at `i` and follow on from `cur` one after another
/// toward `toward`, each flush with the one before; at most `fuel` of them.
pub open spec fn chain(
    s: Seq<Pane>,
    i: int,
    a: Axis,
    e: Edge,
    toward: Edge,
    cur: PositionAndSize,
    fuel: nat,
) -> Seq<int>
    decreases fuel,
{
    if fuel == 0 {
        seq![]
    } else {
        match chain_next(s, i, a, e, toward, cur) {
            Some(j) => seq![j] + chain(s, i, a, e, toward, s[j].position_and_size, (fuel - 1) as nat),
            None => seq![],
        }
    }
}

/// The chain of the pane at `i` toward `toward`; it cannot hold more panes than the tab.
pub open spec fn full_chain(s: Seq<Pane>, i: int, a: Axis, e: Edge, toward: Edge) -> Seq<int> {
    chain(s, i, a, e, toward, s[i].position_and_size, s.len() as nat)
}

/// The border of a chain that the panes beyond edge `e` anchor: the far edge of the chain member
/// nearest to `toward`'s end whose boundary meets one of `borders`, or `init` if none does.
pub open spec fn chain_border(
    s: Seq<Pane>,
    c: Seq<int>,
    borders: Set<int>,
    ap: Axis,
    toward: Edge,
    init: int,
) -> int
    decreases c.len(),
{
    if c.len() == 0 {
        init
    } else {
        let acc = chain_border(s, c.drop_last(), borders, ap, toward, init);
        let k = c.last();
        match toward {
            Edge::Start => {
                let b = end(s[k].position_and_size, ap);
                if borders.contains(b) && acc < b {
                    b
                } else {
                    acc
                }
            },
            Edge::End => {
                let b = start(s[k].position_and_size, ap);
                if borders.contains(b) && b < acc {
                    b
                } else {
                    acc
                }
            },
        }
    }
}

/// The pane at `k` lies on the near side of `border`.
pub open spec fn kept(s: Seq<Pane>, k: int, ap: Axis, toward: Edge, border: int) -> bool {
    match toward {
        Edge::Start => start(s[k].position_and_size, ap) >= border,
        Edge::End => end(s[k].position_and_size, ap) <= border,
    }
}

pub open spec fn raw_side_border(
    s: Seq<Pane>,
    i: int,
    a: Axis,
    e: Edge,
    toward: Edge,
    vp: PositionAndSize,
) -> int {
    chain_border(
        s,
        full_chain(s, i, a, e, toward),
        border_set(s, i, a, e),
        perpendicular(a),
        toward,
        match toward {
            Edge::Start => 0,
            Edge::End => end(vp, perpendicular(a)),
        },
    )
}

/// The pane at `k` moves along with the pane at `i`: it is in the chain toward `toward` and on
/// the near side of the chain's border.
pub open spec fn in_side(
    s: Seq<Pane>,
    i: int,
    a: Axis,
    e: Edge,
    toward: Edge,
    vp: PositionAndSize,
    k: int,
) -> bool {
    full_chain(s, i, a, e, toward).contains(k) && kept(
        s,
        k,
        perpendicular(a),
        toward,
        raw_side_border(s, i, a, e, toward, vp),
    )
}

/// How far toward `toward` along the other axis the panes beyond edge `e` take part in the resize.
pub open spec fn side_bound(
    s: Seq<Pane>,
    i: int,
    a: Axis,
    e: Edge,
    toward: Edge,
    vp: PositionAndSize,
) -> int {
    if exists|k: int| in_side(s, i, a, e, toward, vp, k) {
        raw_side_border(s, i, a, e, toward, vp)
    } else {
        edge(s[i].position_and_size, perpendicular(a), toward)
    }
}

/// The pane at `j` is beyond edge `e` of the pane at `i` and between the two side bounds.
pub open spec fn opposite_moves(
    s: Seq<Pane>,
    i: int,
    a: Axis,
    e: Edge,
    vp: PositionAndSize,
    j: int,
) -> bool {
    &&& beyond(s, i, a, e, j)
    &&& start(s[j].position_and_size, perpendicular(a)) >= side_bound(s, i, a, e, Edge::Start, vp)
    &&& end(s[j].position_and_size, perpendicular(a)) <= side_bound(s, i, a, e, Edge::End, vp)
}

/// The pane at `j` moves with the pane at `i` because it is in one of its two chains.
pub open spec fn chain_moves(
    s: Seq<Pane>,
    i: int,
    a: Axis,
    e: Edge,
    vp: PositionAndSize,
    j: int,
) -> bool {
    in_side(s, i, a, e, Edge::Start, vp, j) || in_side(s, i, a, e, Edge::End, vp, j)
}

/// Where a step that moves edge `e` of the pane at `i` by `n` (outward when `grow`) puts the
/// pane at `j`; `None` when it stays.
pub open spec fn step_target(
    s: Seq<Pane>,
    i: int,
    a: Axis,
    e: Edge,
    grow: bool,
    n: int,
    vp: PositionAndSize,
    j: int,
) -> Option<PositionAndSize> {
    if j == i {
        Some(moved(s[j].position_and_size, a, e, grow, n))
    } else if opposite_moves(s, i, a, e, vp, j) {
        Some(moved(s[j].position_and_size, a, opposite(e), !grow, n))
    } else if chain_moves(s, i, a, e, vp, j) {
        Some(moved(s[j].position_and_size, a, e, grow, n))
    } else {
        None
    }
}

/// The panes after that step.
pub open spec fn stepped(
    s: Seq<Pane>,
    i: int,
    a: Axis,
    e: Edge,
    grow: bool,
    n: int,
    vp: PositionAndSize,
    frames: bool,
) -> Seq<Pane> {
    Seq::new(
        s.len(),
        |j: int|
            match step_target(s, i, a, e, grow, n, vp, j) {
                Some(r) => placed(s[j], r, vp, frames),
                None => s[j],
            },
    )
}

/// Edge `e` of the pane at `i` may move outward by `n`: the pane may grow, there are panes
/// beyond that edge, and each of them may shrink by `n`.
pub open spec fn can_push(s: Seq<Pane>, i: int, a: Axis, e: Edge, n: int) -> bool {
    &&& can_grow(s[i], a, n)
    &&& exists|j: int| beyond(s, i, a, e, j)
    &&& forall|j: int| #[trigger] beyond(s, i, a, e, j) ==> can_shrink(s[j], a, n)
}

/// Edge `e` of the pane at `i` may move inward by `n`: the pane may shrink, there are panes
/// beyond that edge, and each of them may grow by `n`.
pub open spec fn can_pull(s: Seq<Pane>, i: int, a: Axis, e: Edge, n: int) -> bool {
    &&& can_shrink(s[i], a, n)
    &&& exists|j: int| beyond(s, i, a, e, j)
    &&& forall|j: int| #[trigger] beyond(s, i, a, e, j) ==> can_grow(s[j], a, n)
}

/// Every pane of both chains may grow by `n` without passing its largest size.
pub open spec fn chains_can_grow(
    s: Seq<Pane>,
    i: int,
    a: Axis,
    e: Edge,
    n: int,
    vp: PositionAndSize,
) -> bool {
    forall|k: int| #[trigger] chain_moves(s, i, a, e, vp, k) ==> can_grow(s[k], a, n)
}

/// Every pane of both chains keeps its smallest size after shrinking by `n`.
pub open spec fn chains_can_shrink(
    s: Seq<Pane>,
    i: int,
    a: Axis,
    e: Edge,
    n: int,
    vp: PositionAndSize,
) -> bool {
    forall|k: int|
        #[trigger] chain_moves(s, i, a, e, vp, k) ==> extent(s[k].position_and_size, a) - n
            >= min_extent(s[k], a)
}

/// The panes after a resize of the pane at `i` in direction `toward` along `a`: its edge on that
/// side moves outward when it and its chains can, else its other edge moves inward when it and
/// its chains can, else nothing changes.
pub open spec fn resized(
    s: Seq<Pane>,
    i: int,
    a: Axis,
    toward: Edge,
    n: int,
    vp: PositionAndSize,
    frames: bool,
) -> Seq<Pane> {
    if can_push(s, i, a, toward, n) && chains_can_grow(s, i, a, toward, n, vp) {
        stepped(s, i, a, toward, true, n, vp, frames)
    } else if can_pull(s, i, a, opposite(toward), n) && chains_can_shrink(
        s,
        i,
        a,
        opposite(toward),
        n,
        vp,
    ) {
        stepped(s, i, a, opposite(toward), false, n, vp, frames)
    } else {
        s
    }
}

/// Whether `v` holds `x`.
pub fn vec_contains(v: &Vec<usize>, x: usize) -> (r: bool)
    ensures
        r == v@.contains(x),
{
    let mut k: usize = 0;
    while k < v.len()
        invariant
            k <= v@.len(),
            forall|m: int| 0 <= m < k ==> v@[m] != x,
        decreases v@.len() - k,
    {
        if v[k] == x {
            return true;
        }
        k += 1;
    }
    false
}

/// Every member of a chain is a candidate: another pane that shares the edge.
pub proof fn lemma_chain_members(
    s: Seq<Pane>,
    i: int,
    a: Axis,
    e: Edge,
    toward: Edge,
    cur: PositionAndSize,
    fuel: nat,
)
    ensures
        forall|m: int|
            0 <= m < chain(s, i, a, e, toward, cur, fuel).len() ==> {
                let k = #[trigger] chain(s, i, a, e, toward, cur, fuel)[m];
                &&& 0 <= k < s.len()
                &&& k != i
                &&& edge(s[k].position_and_size, a, e) == edge(s[i].position_and_size, a, e)
            },
    decreases fuel,
{
    if fuel > 0 {
        if let Some(j) = chain_next(s, i, a, e, toward, cur) {
            let ex = choose|j: int| chain_best(s, i, a, e, toward, cur, j);
            assert(chain_best(s, i, a, e, toward, cur, ex));
            lemma_chain_members(s, i, a, e, toward, s[j].position_and_size, (fuel - 1) as nat);
            let rest = chain(s, i, a, e, toward, s[j].position_and_size, (fuel - 1) as nat);
            assert(chain(s, i, a, e, toward, cur, fuel) == seq![j] + rest);
            assert forall|m: int| 0 <= m < chain(s, i, a, e, toward, cur, fuel).len() implies {
                let k = #[trigger] chain(s, i, a, e, toward, cur, fuel)[m];
                &&& 0 <= k < s.len()
                &&& k != i
                &&& edge(s[k].position_and_size, a, e) == edge(s[i].position_and_size, a, e)
            } by {
                if m > 0 {
                    assert(chain(s, i, a, e, toward, cur, fuel)[m] == rest[m - 1]);
                }
            }
        }
    }
}

/// Every pane that a step moves along with the pane at `i` shares edge `e` with it.
pub proof fn lemma_chain_moves_aligned(
    s: Seq<Pane>,
    i: int,
    a: Axis,
    e: Edge,
    vp: PositionAndSize,
    k: int,
)
    requires
        chain_moves(s, i, a, e, vp, k),
    ensures
        0 <= k < s.len(),
        k != i,
        edge(s[k].position_and_size, a, e) == edge(s[i].position_and_size, a, e),
{
    lemma_chain_members(s, i, a, e, Edge::Start, s[i].position_and_size, s.len() as nat);
    lemma_chain_members(s, i, a, e, Edge::End, s[i].position_and_size, s.len() as nat);
    if in_side(s, i, a, e, Edge::Start, vp, k) {
        let c = full_chain(s, i, a, e, Edge::Start);
        let m = choose|m: int| 0 <= m < c.len() && c[m] == k;
        assert(c[m] == k);
    } else {
        let c = full_chain(s, i, a, e, Edge::End);
        let m = choose|m: int| 0 <= m < c.len() && c[m] == k;
        assert(c[m] == k);
    }
}

/// Each rectangle that a feasible step produces can be made and covers a cell.
pub proof fn lemma_step_target_ok(
    s: Seq<Pane>,
    i: int,
    a: Axis,
    e: Edge,
    grow: bool,
    n: int,
    vp: PositionAndSize,
    j: int,
)
    requires
        all_panes_ok(s),
        0 <= i < s.len(),
        0 <= j < s.len(),
        n >= 0,
        grow ==> can_push(s, i, a, e, n),
        !grow ==> can_pull(s, i, a, e, n) && chains_can_shrink(s, i, a, e, n, vp),
        step_target(s, i, a, e, grow, n, vp, j) is Some,
    ensures
        ({
            let r = step_target(s, i, a, e, grow, n, vp, j).unwrap();
            let d = if j == i {
                e
            } else if opposite_moves(s, i, a, e, vp, j) {
                opposite(e)
            } else {
                e
            };
            let g = if j != i && opposite_moves(s, i, a, e, vp, j) {
                !grow
            } else {
                grow
            };
            &&& can_move(s[j].position_and_size, a, d, g, n)
            &&& r == moved(s[j].position_and_size, a, d, g, n)
            &&& bounded(r)
            &&& non_empty(r)
        }),
{
    assert(pane_ok(s[i]));
    assert(pane_ok(s[j]));
    let p = s[i].position_and_size;
    let q = s[j].position_and_size;
    let j0 = choose|j0: int| beyond(s, i, a, e, j0);
    assert(pane_ok(s[j0]));
    let o = s[j0].position_and_size;
    if grow {
        assert(can_shrink(s[j0], a, n));
    }
    if j == i {
    } else if opposite_moves(s, i, a, e, vp, j) {
        if grow {
            assert(can_shrink(s[j], a, n));
        }
    } else {
        lemma_chain_moves_aligned(s, i, a, e, vp, j);
        if !grow {
            assert(chain_moves(s, i, a, e, vp, j));
            assert(extent(q, a) - n >= min_extent(s[j], a));
        }
    }
}

/// Where the step puts the pane at `j`, worked out from the vectors of the panes that move.
fn step_rect_at(
    s: Ghost<Seq<Pane>>,
    i: usize,
    j: usize,
    q: PositionAndSize,
    a: Axis,
    e: Edge,
    grow: bool,
    n: usize,
    vp: PositionAndSize,
    beyond_ids: &Vec<usize>,
    low: usize,
    high: usize,
    low_ids: &Vec<usize>,
    high_ids: &Vec<usize>,
) -> (r: Option<PositionAndSize>)
    requires
        all_panes_ok(s@),
        i < s@.len(),
        j < s@.len(),
        q == s@[j as int].position_and_size,
        n <= MAX_COORD,
        grow ==> can_push(s@, i as int, a, e, n as int),
        !grow ==> can_pull(s@, i as int, a, e, n as int) && chains_can_shrink(s@, i as int, a, e, n as int, vp),
        low == side_bound(s@, i as int, a, e, Edge::Start, vp),
        high == side_bound(s@, i as int, a, e, Edge::End, vp),
        forall|k: int| 0 <= k < beyond_ids@.len() ==> beyond(s@, i as int, a, e, #[trigger] beyond_ids@[k] as int),
        forall|x: int| #[trigger] beyond(s@, i as int, a, e, x) ==> beyond_ids@.contains(x as usize),
        forall|k: int| 0 <= k < s@.len() ==> (low_ids@.contains(k as usize) <==> in_side(s@, i as int, a, e, Edge::Start, vp, k)),
        forall|k: int| 0 <= k < s@.len() ==> (high_ids@.contains(k as usize) <==> in_side(s@, i as int, a, e, Edge::End, vp, k)),
    ensures
        r == step_target(s@, i as int, a, e, grow, n as int, vp, j as int),
        r matches Some(x) ==> bounded(x) && non_empty(x),
{
    assert(pane_ok(s@[j as int]));
    let ap = perpendicular_of(a);
    let is_beyond = vec_contains(beyond_ids, j);
    proof {
        if beyond(s@, i as int, a, e, j as int) {
            assert(beyond_ids@.contains(j));
        }
        if is_beyond {
            let w = choose|w: int| 0 <= w < beyond_ids@.len() && beyond_ids@[w] == j;
            assert(beyond(s@, i as int, a, e, beyond_ids@[w] as int));
        }
    }
    let opposite_moves_here = is_beyond && q.start_along(ap) >= low && q.end_along(ap) <= high;
    let chain_moves_here = vec_contains(low_ids, j) || vec_contains(high_ids, j);
    assert(opposite_moves_here == opposite_moves(s@, i as int, a, e, vp, j as int));
    assert(chain_moves_here == chain_moves(s@, i as int, a, e, vp, j as int));
    proof {
        if j == i || opposite_moves_here || chain_moves_here {
            lemma_step_target_ok(s@, i as int, a, e, grow, n as int, vp, j as int);
        }
    }
    if j == i {
        Some(q.move_edge(a, e, grow, n))
    } else if opposite_moves_here {
        Some(q.move_edge(a, opposite_of(e), !grow, n))
    } else if chain_moves_here {
        Some(q.move_edge(a, e, grow, n))
    } else {
        None
    }
}

impl Tab {
    /// Positions of the panes just beyond edge `e` of the pane at `i` along `a`, in registry order.
    pub fn indices_beyond(&self, i: usize, a: Axis, e: Edge) -> (r: Vec<usize>)
        requires
            self.wf(),
            i < self.panes@.len(),
        ensures
            forall|k: int| 0 <= k < r@.len() ==> beyond(self.panes@, i as int, a, e, #[trigger] r@[k] as int),
            forall|j: int| #[trigger] beyond(self.panes@, i as int, a, e, j) ==> r@.contains(j as usize),
    {
        let s = Ghost(self.panes@);
        let p = self.panes[i].position_and_size;
        assert(pane_ok(s@[i as int]));
        let line = p.edge_along(a, e);
        let mut r: Vec<usize> = Vec::new();
        let mut j: usize = 0;
        while j < self.panes.len()
            invariant
                self.wf(),
                s@ == self.panes@,
                i < s@.len(),
                p == s@[i as int].position_and_size,
                line == edge(p, a, e),
                j <= s@.len(),
                forall|k: int| 0 <= k < r@.len() ==> beyond(s@, i as int, a, e, #[trigger] r@[k] as int),
                forall|m: int| 0 <= m < j && beyond(s@, i as int, a, e, m) ==> r@.contains(m as usize),
            decreases s@.len() - j,
        {
            let q = self.panes[j].position_and_size;
            assert(pane_ok(s@[j as int]));
            let facing = match e {
                Edge::End => q.start_along(a),
                Edge::Start => q.end_along(a),
            };
            let ghost before = r@;
            if facing == line {
                r.push(j);
                assert(r@[r@.len() - 1] == j);
            }
            proof {
                assert forall|m: int| 0 <= m < j + 1 && beyond(s@, i as int, a, e, m) implies r@.contains(m as usize) by {
                    if m < j {
                        let w = choose|w: int| 0 <= w < before.len() && before[w] == m as usize;
                        assert(r@[w] == m as usize);
                    }
                }
            }
            j += 1;
        }
        r
    }

    /// Where the panes at `ids` begin along `ap`.
    pub fn starts_along(&self, ids: &Vec<usize>, ap: Axis) -> (r: Vec<usize>)
        requires
            forall|k: int| 0 <= k < ids@.len() ==> #[trigger] ids@[k] < self.panes@.len(),
        ensures
            r@.len() == ids@.len(),
            forall|k: int|
                0 <= k < ids@.len() ==> #[trigger] r@[k] == start(
                    self.panes@[ids@[k] as int].position_and_size,
                    ap,
                ),
    {
        let mut r: Vec<usize> = Vec::new();
        let mut k: usize = 0;
        while k < ids.len()
            invariant
                k <= ids@.len(),
                r@.len() == k,
                forall|m: int| 0 <= m < ids@.len() ==> #[trigger] ids@[m] < self.panes@.len(),
                forall|m: int|
                    0 <= m < k ==> #[trigger] r@[m] == start(
                        self.panes@[ids@[m] as int].position_and_size,
                        ap,
                    ),
            decreases ids@.len() - k,
        {
            let q = self.panes[ids[k]].position_and_size;
            r.push(q.start_along(ap));
            k += 1;
        }
        r
    }

    /// Lines along the other axis at which the panes beyond edge `e` of the pane at `i` begin.
    pub fn borders_beyond(&self, i: usize, a: Axis, e: Edge) -> (r: (Vec<usize>, Vec<usize>))
        requires
            self.wf(),
            i < self.panes@.len(),
        ensures
            forall|k: int| 0 <= k < r.0@.len() ==> beyond(self.panes@, i as int, a, e, #[trigger] r.0@[k] as int),
            forall|j: int| #[trigger] beyond(self.panes@, i as int, a, e, j) ==> r.0@.contains(j as usize),
            forall|c: int| 0 <= c <= usize::MAX ==> (r.1@.contains(c as usize) <==> border_set(self.panes@, i as int, a, e).contains(c)),
    {
        let ids = self.indices_beyond(i, a, e);
        let ap = perpendicular_of(a);
        let borders = self.starts_along(&ids, ap);
        let len = self.panes.len();
        proof {
            let s = self.panes@;
            assert forall|c: int| 0 <= c <= usize::MAX implies (borders@.contains(c as usize) <==> border_set(s, i as int, a, e).contains(c)) by {
                if borders@.contains(c as usize) {
                    let k = choose|k: int| 0 <= k < borders@.len() && borders@[k] == c as usize;
                    let j = ids@[k] as int;
                    assert(beyond(s, i as int, a, e, j));
                    assert(start(s[j].position_and_size, perpendicular(a)) == c);
                }
                if border_set(s, i as int, a, e).contains(c) {
                    let j = choose|j: int| beyond(s, i as int, a, e, j) && start(s[j].position_and_size, perpendicular(a)) == c;
                    assert(ids@.contains(j as usize));
                    let k = choose|k: int| 0 <= k < ids@.len() && ids@[k] == j as usize;
                    assert(j < len);
                    assert(ids@[k] as int == j);
                    assert(borders@[k] == start(s[ids@[k] as int].position_and_size, perpendicular(a)));
                    assert(borders@[k] == c as usize);
                }
            }
        }
        (ids, borders)
    }

    /// The next pane of the chain of the pane at `i` that has reached `cur`.
    pub fn chain_next_index(&self, i: usize, a: Axis, e: Edge, toward: Edge, cur: PositionAndSize) -> (r: Option<usize>)
        requires
            self.wf(),
            i < self.panes@.len(),
            bounded(cur),
        ensures
            r matches Some(j) ==> chain_next(self.panes@, i as int, a, e, toward, cur) == Some(j as int),
            r is None ==> chain_next(self.panes@, i as int, a, e, toward, cur) is None,
    {
        let s = Ghost(self.panes@);
        let ap = perpendicular_of(a);
        assert(pane_ok(s@[i as int]));
        let line = self.panes[i].position_and_size.edge_along(a, e);
        let target = match toward {
            Edge::Start => cur.start_along(ap),
            Edge::End => cur.end_along(ap),
        };
        let mut best: Option<usize> = None;
        let mut j: usize = 0;
        while j < self.panes.len()
            invariant
                self.wf(),
                s@ == self.panes@,
                i < s@.len(),
                ap == perpendicular(a),
                line == edge(s@[i as int].position_and_size, a, e),
                target == edge(cur, ap, toward),
                j <= s@.len(),
                best matches Some(b) ==> b < j && chain_candidate(s@, i as int, a, e, toward, cur, b as int),
                forall|k: int|
                    0 <= k < j && #[trigger] chain_candidate(s@, i as int, a, e, toward, cur, k) ==> (best matches Some(b) && (start(s@[k].position_and_size, ap) < start(s@[b as int].position_and_size, ap) || (start(s@[k].position_and_size, ap) == start(s@[b as int].position_and_size, ap) && b <= k))),
            decreases s@.len() - j,
        {
            let q = self.panes[j].position_and_size;
            assert(pane_ok(s@[j as int]));
            let facing = match toward {
                Edge::Start => q.end_along(ap),
                Edge::End => q.start_along(ap),
            };
            let is_candidate = j != i && q.edge_along(a, e) == line && facing == target;
            assert(is_candidate == chain_candidate(s@, i as int, a, e, toward, cur, j as int));
            if is_candidate {
                match best {
                    None => {
                        best = Some(j);
                    },
                    Some(b) => {
                        if q.start_along(ap) > self.panes[b].position_and_size.start_along(ap) {
                            best = Some(j);
                        }
                    },
                }
            }
            j += 1;
        }
        proof {
            match best {
                Some(b) => {
                    assert(chain_best(s@, i as int, a, e, toward, cur, b as int));
                    let c = choose|c: int| chain_best(s@, i as int, a, e, toward, cur, c);
                    assert(chain_candidate(s@, i as int, a, e, toward, cur, c));
                    assert(chain_candidate(s@, i as int, a, e, toward, cur, b as int));
                },
                None => {
                    if exists|c: int| chain_best(s@, i as int, a, e, toward, cur, c) {
                        let c = choose|c: int| chain_best(s@, i as int, a, e, toward, cur, c);
                        assert(chain_candidate(s@, i as int, a, e, toward, cur, c));
                    }
                },
            }
        }
        best
    }

    /// The chain of the pane at `i` toward `toward`, in order from the pane outward.
    pub fn chain_of(&self, i: usize, a: Axis, e: Edge, toward: Edge) -> (r: Vec<usize>)
        requires
            self.wf(),
            i < self.panes@.len(),
        ensures
            r@.len() == full_chain(self.panes@, i as int, a, e, toward).len(),
            forall|m: int| 0 <= m < r@.len() ==> #[trigger] r@[m] as int == full_chain(self.panes@, i as int, a, e, toward)[m],
    {
        let s = Ghost(self.panes@);
        let ghost whole = full_chain(s@, i as int, a, e, toward);
        assert(pane_ok(s@[i as int]));
        let mut cur = self.panes[i].position_and_size;
        let mut fuel: usize = self.panes.len();
        let mut r: Vec<usize> = Vec::new();
        while fuel > 0
            invariant
                self.wf(),
                s@ == self.panes@,
                i < s@.len(),
                bounded(cur),
                r@.len() + chain(s@, i as int, a, e, toward, cur, fuel as nat).len() == whole.len(),
                forall|m: int| 0 <= m < r@.len() ==> #[trigger] r@[m] as int == whole[m],
                forall|m: int| 0 <= m < chain(s@, i as int, a, e, toward, cur, fuel as nat).len() ==> #[trigger] chain(s@, i as int, a, e, toward, cur, fuel as nat)[m] == whole[r@.len() + m],
            decreases fuel,
        {
            match self.chain_next_index(i, a, e, toward, cur) {
                Some(j) => {
                    let ghost rest = chain(s@, i as int, a, e, toward, s@[j as int].position_and_size, (fuel - 1) as nat);
                    assert(chain(s@, i as int, a, e, toward, cur, fuel as nat) == seq![j as int] + rest);
                    assert(chain(s@, i as int, a, e, toward, cur, fuel as nat)[0] == j as int);
                    proof {
                        let ex = choose|x: int| chain_best(s@, i as int, a, e, toward, cur, x);
                        assert(chain_best(s@, i as int, a, e, toward, cur, ex));
                        assert(j < s@.len());
                        assert forall|m: int| 0 <= m < rest.len() implies #[trigger] rest[m] == whole[r@.len() + 1 + m] by {
                            assert(rest[m] == chain(s@, i as int, a, e, toward, cur, fuel as nat)[m + 1]);
                        }
                    }
                    assert(pane_ok(s@[j as int]));
                    r.push(j);
                    cur = self.panes[j].position_and_size;
                    fuel = fuel - 1;
                },
                None => {
                    assert(chain(s@, i as int, a, e, toward, cur, fuel as nat).len() == 0);
                    fuel = 0;
                },
            }
        }
        r
    }

    /// The panes that move along with the pane at `i` on the side `toward`, and how far that
    /// side reaches along the other axis. `borders` holds where the panes beyond edge `e` begin.
    pub fn aligned_contiguous_panes(
        &self,
        i: usize,
        a: Axis,
        e: Edge,
        toward: Edge,
        borders: &Vec<usize>,
    ) -> (r: (usize, Vec<usize>))
        requires
            self.wf(),
            i < self.panes@.len(),
            forall|c: int| 0 <= c <= usize::MAX ==> (borders@.contains(c as usize) <==> border_set(self.panes@, i as int, a, e).contains(c)),
        ensures
            r.0 == side_bound(self.panes@, i as int, a, e, toward, self.viewport),
            forall|k: int| 0 <= k < r.1@.len() ==> #[trigger] r.1@[k] < self.panes@.len(),
            forall|k: int| 0 <= k < self.panes@.len() ==> (r.1@.contains(k as usize) <==> in_side(self.panes@, i as int, a, e, toward, self.viewport, k)),
    {
        let s = Ghost(self.panes@);
        let ghost whole = full_chain(s@, i as int, a, e, toward);
        let ghost bset = border_set(s@, i as int, a, e);
        let chain = self.chain_of(i, a, e, toward);
        proof {
            lemma_chain_members(s@, i as int, a, e, toward, s@[i as int].position_and_size, s@.len() as nat);
        }
        let ap = perpendicular_of(a);
        let init: usize = match toward {
            Edge::Start => 0,
            Edge::End => self.viewport.end_along(ap),
        };
        let mut border: usize = init;
        let mut m: usize = 0;
        while m < chain.len()
            invariant
                self.wf(),
                s@ == self.panes@,
                ap == perpendicular(a),
                chain@.len() == whole.len(),
                forall|x: int| 0 <= x < chain@.len() ==> #[trigger] chain@[x] as int == whole[x],
                forall|x: int| 0 <= x < whole.len() ==> 0 <= #[trigger] whole[x] < s@.len(),
                forall|c: int| 0 <= c <= usize::MAX ==> (borders@.contains(c as usize) <==> bset.contains(c)),
                m <= chain@.len(),
                border == chain_border(s@, whole.subrange(0, m as int), bset, ap, toward, init as int),
            decreases chain@.len() - m,
        {
            let k = chain[m];
            assert(whole[m as int] == k as int);
            assert(pane_ok(s@[k as int]));
            let q = self.panes[k].position_and_size;
            match toward {
                Edge::Start => {
                    let b = q.end_along(ap);
                    if vec_contains(borders, b) && border < b {
                        border = b;
                    }
                },
                Edge::End => {
                    let b = q.start_along(ap);
                    if vec_contains(borders, b) && b < border {
                        border = b;
                    }
                },
            }
            proof {
                let sub = whole.subrange(0, m as int + 1);
                assert(sub.drop_last() =~= whole.subrange(0, m as int));
                assert(sub.last() == k as int);
            }
            m += 1;
        }
        assert(whole.subrange(0, whole.len() as int) =~= whole);
        let len = self.panes.len();
        let mut kept_ids: Vec<usize> = Vec::new();
        let mut m: usize = 0;
        while m < chain.len()
            invariant
                self.wf(),
                s@ == self.panes@,
                ap == perpendicular(a),
                chain@.len() == whole.len(),
                forall|x: int| 0 <= x < chain@.len() ==> #[trigger] chain@[x] as int == whole[x],
                forall|x: int| 0 <= x < whole.len() ==> 0 <= #[trigger] whole[x] < s@.len(),
                border == raw_side_border(s@, i as int, a, e, toward, self.viewport),
                len == s@.len(),
                m <= chain@.len(),
                forall|x: int| 0 <= x < kept_ids@.len() ==> #[trigger] kept_ids@[x] < s@.len(),
                forall|k: usize| k < len ==> (#[trigger] kept_ids@.contains(k) <==> (exists|x: int| 0 <= x < m && #[trigger] whole[x] == k as int) && kept(s@, k as int, ap, toward, border as int)),
            decreases chain@.len() - m,
        {
            let k = chain[m];
            assert(whole[m as int] == k as int);
            assert(pane_ok(s@[k as int]));
            let q = self.panes[k].position_and_size;
            let keep = match toward {
                Edge::Start => q.start_along(ap) >= border,
                Edge::End => q.end_along(ap) <= border,
            };
            let ghost before = kept_ids@;
            assert(keep == kept(s@, k as int, ap, toward, border as int));
            if keep {
                kept_ids.push(k);
            }
            proof {
                assert forall|k2: usize| k2 < len implies (#[trigger] kept_ids@.contains(k2) <==> (exists|x: int| 0 <= x < m + 1 && #[trigger] whole[x] == k2 as int) && kept(s@, k2 as int, ap, toward, border as int)) by {
                    if kept_ids@.contains(k2) {
                        let w = choose|w: int| 0 <= w < kept_ids@.len() && kept_ids@[w] == k2;
                        if w < before.len() {
                            assert(before[w] == k2);
                            assert(before.contains(k2));
                            let x = choose|x: int| 0 <= x < m && #[trigger] whole[x] == k2 as int;
                            assert(0 <= x < m + 1 && whole[x] == k2 as int);
                        } else {
                            assert(k2 == k);
                            assert(whole[m as int] == k2 as int);
                        }
                    }
                    if (exists|x: int| 0 <= x < m + 1 && #[trigger] whole[x] == k2 as int) && kept(s@, k2 as int, ap, toward, border as int) {
                        let x = choose|x: int| 0 <= x < m + 1 && #[trigger] whole[x] == k2 as int;
                        if x < m {
                            assert(before.contains(k2));
                            let w = choose|w: int| 0 <= w < before.len() && before[w] == k2;
                            assert(kept_ids@[w] == k2);
                        } else {
                            assert(kept_ids@[kept_ids@.len() - 1] == k2);
                        }
                    }
                }
            }
            m += 1;
        }
        proof {
            assert forall|k: int| 0 <= k < s@.len() implies (kept_ids@.contains(k as usize) <==> in_side(s@, i as int, a, e, toward, self.viewport, k)) by {
                let ku = k as usize;
                assert(ku < len);
                assert(kept_ids@.contains(ku) <==> (exists|x: int| 0 <= x < m && #[trigger] whole[x] == ku as int) && kept(s@, ku as int, ap, toward, border as int));
                if whole.contains(k) {
                    let x = choose|x: int| 0 <= x < whole.len() && whole[x] == k;
                    assert(whole[x] == k);
                }
            }
        }
        assert(pane_ok(s@[i as int]));
        let bound = if kept_ids.len() == 0 {
            self.panes[i].position_and_size.edge_along(ap, toward)
        } else {
            border
        };
        proof {
            if kept_ids@.len() == 0 {
                assert forall|k: int| !in_side(s@, i as int, a, e, toward, self.viewport, k) by {
                    if in_side(s@, i as int, a, e, toward, self.viewport, k) {
                        let x = choose|x: int| 0 <= x < whole.len() && whole[x] == k;
                        assert(0 <= k < s@.len());
                        assert(kept_ids@.contains(k as usize));
                    }
                }
            } else {
                let k = kept_ids@[0];
                assert(kept_ids@.contains(k));
                assert(in_side(s@, i as int, a, e, toward, self.viewport, k as int));
            }
        }
        (bound, kept_ids)
    }

    /// Whether every pane at `ids` may shrink (`shrink`) or grow by `n` along `a`.
    pub fn all_can_change(&self, ids: &Vec<usize>, a: Axis, shrink: bool, n: usize) -> (r: bool)
        requires
            self.wf(),
            n <= MAX_COORD,
            forall|k: int| 0 <= k < ids@.len() ==> #[trigger] ids@[k] < self.panes@.len(),
        ensures
            r == forall|k: int| 0 <= k < ids@.len() ==> (if shrink {
                can_shrink(self.panes@[#[trigger] ids@[k] as int], a, n as int)
            } else {
                can_grow(self.panes@[ids@[k] as int], a, n as int)
            }),
    {
        let mut k: usize = 0;
        while k < ids.len()
            invariant
                self.wf(),
                n <= MAX_COORD,
                k <= ids@.len(),
                forall|m: int| 0 <= m < ids@.len() ==> #[trigger] ids@[m] < self.panes@.len(),
                forall|m: int| 0 <= m < k ==> (if shrink {
                    can_shrink(self.panes@[#[trigger] ids@[m] as int], a, n as int)
                } else {
                    can_grow(self.panes@[ids@[m] as int], a, n as int)
                }),
            decreases ids@.len() - k,
        {
            let p = self.panes[ids[k]];
            assert(pane_ok(self.panes@[ids@[k as int] as int]));
            let ok = if shrink { p.can_reduce_by(a, n) } else { p.can_increase_by(a, n) };
            if !ok {
                return false;
            }
            k += 1;
        }
        true
    }

    /// Whether edge `e` of the pane at `i` can move outward by `n` (see `can_push`).
    pub fn can_increase_pane_and_surroundings(&self, i: usize, a: Axis, e: Edge, n: usize) -> (r: bool)
        requires
            self.wf(),
            i < self.panes@.len(),
            n <= MAX_COORD,
        ensures
            r == can_push(self.panes@, i as int, a, e, n as int),
    {
        let s = Ghost(self.panes@);
        assert(pane_ok(s@[i as int]));
        if !self.panes[i].can_increase_by(a, n) {
            return false;
        }
        let ids = self.indices_beyond(i, a, e);
        if ids.len() == 0 {
            assert forall|j: int| !beyond(s@, i as int, a, e, j) by {
                if beyond(s@, i as int, a, e, j) {
                    assert(ids@.contains(j as usize));
                }
            }
            return false;
        }
        let r = self.all_can_change(&ids, a, true, n);
        let len = self.panes.len();
        proof {
            assert(beyond(s@, i as int, a, e, ids@[0] as int));
            if r {
                assert forall|j: int| #[trigger] beyond(s@, i as int, a, e, j) implies can_shrink(s@[j], a, n as int) by {
                    assert(ids@.contains(j as usize));
                    let k = choose|k: int| 0 <= k < ids@.len() && ids@[k] == j as usize;
                    assert(j < len);
                    assert(ids@[k] as int == j);
                    assert(can_shrink(s@[ids@[k] as int], a, n as int));
                }
            } else {
                let k = choose|k: int| 0 <= k < ids@.len() && !can_shrink(s@[ids@[k] as int], a, n as int);
                assert(beyond(s@, i as int, a, e, ids@[k] as int));
            }
        }
        r
    }

    /// Whether edge `e` of the pane at `i` can move inward by `n` (see `can_pull`).
    pub fn can_reduce_pane_and_surroundings(&self, i: usize, a: Axis, e: Edge, n: usize) -> (r: bool)
        requires
            self.wf(),
            i < self.panes@.len(),
            n <= MAX_COORD,
        ensures
            r == can_pull(self.panes@, i as int, a, e, n as int),
    {
        let s = Ghost(self.panes@);
        if !self.panes[i].can_reduce_by(a, n) {
            return false;
        }
        let ids = self.indices_beyond(i, a, e);
        if ids.len() == 0 {
            assert forall|j: int| !beyond(s@, i as int, a, e, j) by {
                if beyond(s@, i as int, a, e, j) {
                    assert(ids@.contains(j as usize));
                }
            }
            return false;
        }
        let r = self.all_can_change(&ids, a, false, n);
        let len = self.panes.len();
        proof {
            assert(beyond(s@, i as int, a, e, ids@[0] as int));
            if r {
                assert forall|j: int| #[trigger] beyond(s@, i as int, a, e, j) implies can_grow(s@[j], a, n as int) by {
                    assert(ids@.contains(j as usize));
                    let k = choose|k: int| 0 <= k < ids@.len() && ids@[k] == j as usize;
                    assert(j < len);
                    assert(ids@[k] as int == j);
                    assert(can_grow(s@[ids@[k] as int], a, n as int));
                }
            } else {
                let k = choose|k: int| 0 <= k < ids@.len() && !can_grow(s@[ids@[k] as int], a, n as int);
                assert(beyond(s@, i as int, a, e, ids@[k] as int));
            }
        }
        r
    }

    /// Moves edge `e` of the pane at `i` by `n`, outward when `grow`, together with the panes
    /// beyond that edge between the side bounds (which give way) and the panes of its two chains
    /// (which follow it). A shrinking step whose chains cannot shrink changes nothing.
    pub fn change_pane_and_surroundings(&mut self, i: usize, a: Axis, e: Edge, grow: bool, n: usize) -> (r: bool)
        requires
            old(self).wf(),
            i < old(self).panes@.len(),
            n <= MAX_COORD,
            grow ==> can_push(old(self).panes@, i as int, a, e, n as int),
            !grow ==> can_pull(old(self).panes@, i as int, a, e, n as int),
        ensures
            final(self).wf(),
            final(self).same_settings(old(self)),
            r == if grow {
                chains_can_grow(old(self).panes@, i as int, a, e, n as int, old(self).viewport)
            } else {
                chains_can_shrink(old(self).panes@, i as int, a, e, n as int, old(self).viewport)
            },
            final(self).panes@ == if !r {
                old(self).panes@
            } else {
                stepped(old(self).panes@, i as int, a, e, grow, n as int, old(self).viewport, old(self).draw_pane_frames)
            },
            old(self).signals@.len() <= final(self).signals@.len(),
            final(self).signals@.subrange(0, old(self).signals@.len() as int) == old(self).signals@,
    {
        let s0 = Ghost(self.panes@);
        let vp = self.viewport;
        let ghost frames = self.draw_pane_frames;
        let (beyond_ids, borders) = self.borders_beyond(i, a, e);
        let ap = perpendicular_of(a);
        let (low, low_ids) = self.aligned_contiguous_panes(i, a, e, Edge::Start, &borders);
        let (high, high_ids) = self.aligned_contiguous_panes(i, a, e, Edge::End, &borders);
        if !self.chains_allow(i, a, e, grow, n, &low_ids, &high_ids) {
            return false;
        }
        let ghost target = stepped(s0@, i as int, a, e, grow, n as int, vp, frames);
        let ghost signals0 = self.signals@;
        let ghost before = *self;
        let len = self.panes.len();
        let mut j: usize = 0;
        while j < len
            invariant
                self.wf(),
                self.same_settings(&before),
                before.viewport == vp,
                before.draw_pane_frames == frames,
                len == s0@.len(),
                self.panes@.len() == len,
                i < len,
                n <= MAX_COORD,
                grow ==> can_push(s0@, i as int, a, e, n as int),
                !grow ==> can_pull(s0@, i as int, a, e, n as int) && chains_can_shrink(s0@, i as int, a, e, n as int, vp),
                target == stepped(s0@, i as int, a, e, grow, n as int, vp, frames),
                low == side_bound(s0@, i as int, a, e, Edge::Start, vp),
                high == side_bound(s0@, i as int, a, e, Edge::End, vp),
                forall|k: int| 0 <= k < beyond_ids@.len() ==> beyond(s0@, i as int, a, e, #[trigger] beyond_ids@[k] as int),
                forall|x: int| #[trigger] beyond(s0@, i as int, a, e, x) ==> beyond_ids@.contains(x as usize),
                forall|k: int| 0 <= k < s0@.len() ==> (low_ids@.contains(k as usize) <==> in_side(s0@, i as int, a, e, Edge::Start, vp, k)),
                forall|k: int| 0 <= k < s0@.len() ==> (high_ids@.contains(k as usize) <==> in_side(s0@, i as int, a, e, Edge::End, vp, k)),
                all_panes_ok(s0@),
                j <= len,
                forall|m: int| 0 <= m < j ==> #[trigger] self.panes@[m] == target[m],
                forall|m: int| j <= m < len ==> #[trigger] self.panes@[m] == s0@[m],
                signals0.len() <= self.signals@.len(),
                self.signals@.subrange(0, signals0.len() as int) == signals0,
            decreases len - j,
        {
            let q = self.panes[j].position_and_size;
            let target_rect = step_rect_at(s0, i, j, q, a, e, grow, n, vp, &beyond_ids, low, high, &low_ids, &high_ids);
            let ghost signals_before = self.signals@;
            if let Some(r) = target_rect {
                self.set_pane_rect(j, r);
                assert(self.signals@.subrange(0, signals0.len() as int) =~= signals_before.subrange(0, signals0.len() as int));
            }
            j += 1;
        }
        assert(self.panes@ =~= target);
        true
    }

    /// Whether every pane at `ids` keeps its smallest size along `a` after shrinking by `n`.
    pub fn all_keep_min(&self, ids: &Vec<usize>, a: Axis, n: usize) -> (r: bool)
        requires
            self.wf(),
            n <= MAX_COORD,
            forall|k: int| 0 <= k < ids@.len() ==> #[trigger] ids@[k] < self.panes@.len(),
        ensures
            r == forall|k: int| 0 <= k < ids@.len() ==> extent(self.panes@[#[trigger] ids@[k] as int].position_and_size, a) - n >= min_extent(self.panes@[ids@[k] as int], a),
    {
        let mut k: usize = 0;
        while k < ids.len()
            invariant
                self.wf(),
                n <= MAX_COORD,
                k <= ids@.len(),
                forall|m: int| 0 <= m < ids@.len() ==> #[trigger] ids@[m] < self.panes@.len(),
                forall|m: int| 0 <= m < k ==> extent(self.panes@[#[trigger] ids@[m] as int].position_and_size, a) - n >= min_extent(self.panes@[ids@[m] as int], a),
            decreases ids@.len() - k,
        {
            let p = self.panes[ids[k]];
            assert(pane_ok(self.panes@[ids@[k as int] as int]));
            let len = p.position_and_size.extent_along(a);
            let min = p.min_along(a);
            if len < n + min {
                return false;
            }
            k += 1;
        }
        true
    }

    /// Resizes the active pane by `n` in direction `toward` along `a`: the edge on that side moves
    /// outward if it can, else the other edge moves inward if it can, else nothing happens.
    pub fn resize(&mut self, a: Axis, toward: Edge, n: usize)
        requires
            old(self).wf(),
            n <= MAX_COORD,
        ensures
            final(self).wf(),
            final(self).same_settings(old(self)),
            final(self).panes@ == match old(self).active_terminal {
                Some(id) => resized(old(self).panes@, index_of(old(self).panes@, id), a, toward, n as int, old(self).viewport, old(self).draw_pane_frames),
                None => old(self).panes@,
            },
            old(self).signals@.len() <= final(self).signals@.len(),
            final(self).signals@.subrange(0, old(self).signals@.len() as int) == old(self).signals@,
    {
        if let Some(id) = self.active_terminal {
            if let Some(i) = self.find(id) {
                let pushed = self.can_increase_pane_and_surroundings(i, a, toward, n)
                    && self.change_pane_and_surroundings(i, a, toward, true, n);
                if !pushed && self.can_reduce_pane_and_surroundings(i, a, opposite_of(toward), n) {
                    self.change_pane_and_surroundings(i, a, opposite_of(toward), false, n);
                }
            }
        }
        assert(self.signals@.subrange(0, old(self).signals@.len() as int) =~= old(self).signals@) by {
            if self.signals@.len() == old(self).signals@.len() {}
        }
    }

    /// Moves the active pane's left edge left, or else its right edge left, by one step.
    pub fn resize_left(&mut self)
        requires
            old(self).wf(),
        ensures
            final(self).wf(),
            final(self).same_settings_but_drawing(old(self)),
            same_but_activity(final(self).panes@, match old(self).active_terminal {
                Some(id) => resized(old(self).panes@, index_of(old(self).panes@, id), Axis::Horizontal, Edge::Start, RESIZE_STEP_COLS as int, old(self).viewport, old(self).draw_pane_frames),
                None => old(self).panes@,
            }),
    {
        self.resize(Axis::Horizontal, Edge::Start, RESIZE_STEP_COLS);
        self.render();
    }

    /// Moves the active pane's right edge right, or else its left edge right, by one step.
    pub fn resize_right(&mut self)
        requires
            old(self).wf(),
        ensures
            final(self).wf(),
            final(self).same_settings_but_drawing(old(self)),
            same_but_activity(final(self).panes@, match old(self).active_terminal {
                Some(id) => resized(old(self).panes@, index_of(old(self).panes@, id), Axis::Horizontal, Edge::End, RESIZE_STEP_COLS as int, old(self).viewport, old(self).draw_pane_frames),
                None => old(self).panes@,
            }),
    {
        self.resize(Axis::Horizontal, Edge::End, RESIZE_STEP_COLS);
        self.render();
    }

    /// Moves the active pane's bottom edge down, or else its top edge down, by one step.
    pub fn resize_down(&mut self)
        requires
            old(self).wf(),
        ensures
            final(self).wf(),
            final(self).same_settings_but_drawing(old(self)),
            same_but_activity(final(self).panes@, match old(self).active_terminal {
                Some(id) => resized(old(self).panes@, index_of(old(self).panes@, id), Axis::Vertical, Edge::End, RESIZE_STEP_ROWS as int, old(self).viewport, old(self).draw_pane_frames),
                None => old(self).panes@,
            }),
    {
        self.resize(Axis::Vertical, Edge::End, RESIZE_STEP_ROWS);
        self.render();
    }

    /// Moves the active pane's top edge up, or else its bottom edge up, by one step.
    pub fn resize_up(&mut self)
        requires
            old(self).wf(),
        ensures
            final(self).wf(),
            final(self).same_settings_but_drawing(old(self)),
            same_but_activity(final(self).panes@, match old(self).active_terminal {
                Some(id) => resized(old(self).panes@, index_of(old(self).panes@, id), Axis::Vertical, Edge::Start, RESIZE_STEP_ROWS as int, old(self).viewport, old(self).draw_pane_frames),
                None => old(self).panes@,
            }),
    {
        self.resize(Axis::Vertical, Edge::Start, RESIZE_STEP_ROWS);
        self.render();
    }

    /// Whether the panes of both chains (`low_ids`, `high_ids`) may grow (`grow`) or shrink by `n`.
    fn chains_allow(&self, i: usize, a: Axis, e: Edge, grow: bool, n: usize, low_ids: &Vec<usize>, high_ids: &Vec<usize>) -> (r: bool)
        requires
            self.wf(),
            i < self.panes@.len(),
            n <= MAX_COORD,
            forall|k: int| 0 <= k < low_ids@.len() ==> #[trigger] low_ids@[k] < self.panes@.len(),
            forall|k: int| 0 <= k < high_ids@.len() ==> #[trigger] high_ids@[k] < self.panes@.len(),
            forall|k: int| 0 <= k < self.panes@.len() ==> (low_ids@.contains(k as usize) <==> in_side(self.panes@, i as int, a, e, Edge::Start, self.viewport, k)),
            forall|k: int| 0 <= k < self.panes@.len() ==> (high_ids@.contains(k as usize) <==> in_side(self.panes@, i as int, a, e, Edge::End, self.viewport, k)),
        ensures
            r == if grow {
                chains_can_grow(self.panes@, i as int, a, e, n as int, self.viewport)
            } else {
                chains_can_shrink(self.panes@, i as int, a, e, n as int, self.viewport)
            },
    {
        let s0 = Ghost(self.panes@);
        let vp = self.viewport;
        let n_panes = self.panes.len();
        if grow {
            let lows_ok = self.all_can_change(&low_ids, a, false, n);
            let highs_ok = self.all_can_change(&high_ids, a, false, n);
            if !(lows_ok && highs_ok) {
                proof {
                    let k = if !lows_ok {
                        choose|k: int| 0 <= k < low_ids@.len() && !can_grow(s0@[low_ids@[k] as int], a, n as int)
                    } else {
                        choose|k: int| 0 <= k < high_ids@.len() && !can_grow(s0@[high_ids@[k] as int], a, n as int)
                    };
                    let j = if !lows_ok { low_ids@[k] } else { high_ids@[k] };
                    if !lows_ok {
                        assert(low_ids@.contains(j));
                    } else {
                        assert(high_ids@.contains(j));
                    }
                    assert(chain_moves(s0@, i as int, a, e, vp, j as int));
                }
                return false;
            }
            proof {
                assert forall|k: int| #[trigger] chain_moves(s0@, i as int, a, e, vp, k) implies can_grow(s0@[k], a, n as int) by {
                    lemma_chain_moves_aligned(s0@, i as int, a, e, vp, k);
                    if in_side(s0@, i as int, a, e, Edge::Start, vp, k) {
                        assert(low_ids@.contains(k as usize));
                        let w = choose|w: int| 0 <= w < low_ids@.len() && low_ids@[w] == k as usize;
                        assert(k < n_panes);
                        assert(low_ids@[w] as int == k);
                    } else {
                        assert(high_ids@.contains(k as usize));
                        let w = choose|w: int| 0 <= w < high_ids@.len() && high_ids@[w] == k as usize;
                        assert(k < n_panes);
                        assert(high_ids@[w] as int == k);
                    }
                }
            }
        }
        if !grow {
            let lows_ok = self.all_keep_min(&low_ids, a, n);
            let highs_ok = self.all_keep_min(&high_ids, a, n);
            if !(lows_ok && highs_ok) {
                proof {
                    let k = if !lows_ok {
                        choose|k: int| 0 <= k < low_ids@.len() && !(extent(s0@[low_ids@[k] as int].position_and_size, a) - n >= min_extent(s0@[low_ids@[k] as int], a))
                    } else {
                        choose|k: int| 0 <= k < high_ids@.len() && !(extent(s0@[high_ids@[k] as int].position_and_size, a) - n >= min_extent(s0@[high_ids@[k] as int], a))
                    };
                    let j = if !lows_ok { low_ids@[k] } else { high_ids@[k] };
                    if !lows_ok {
                        assert(low_ids@.contains(j));
                    } else {
                        assert(high_ids@.contains(j));
                    }
                    assert(chain_moves(s0@, i as int, a, e, vp, j as int));
                }
                return false;
            }
            proof {
                assert forall|k: int| #[trigger] chain_moves(s0@, i as int, a, e, vp, k) implies extent(s0@[k].position_and_size, a) - n >= min_extent(s0@[k], a) by {
                    lemma_chain_moves_aligned(s0@, i as int, a, e, vp, k);
                    if in_side(s0@, i as int, a, e, Edge::Start, vp, k) {
                        assert(low_ids@.contains(k as usize));
                        let w = choose|w: int| 0 <= w < low_ids@.len() && low_ids@[w] == k as usize;
                        assert(k < n_panes);
                        assert(low_ids@[w] as int == k);
                    } else {
                        assert(high_ids@.contains(k as usize));
                        let w = choose|w: int| 0 <= w < high_ids@.len() && high_ids@[w] == k as usize;
                        assert(k < n_panes);
                        assert(high_ids@[w] as int == k);
                    }
                }
            }
        }
        true
    }
}

} // verus!
