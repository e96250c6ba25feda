//! Weighted shortest-path search: A* over the 4-neighborhood with unit edge
//! weight and the Manhattan heuristic, cut off by a movement budget, plus the
//! back-pointer walk that reconstructs the found path.
//!
//! The contract of [`get_movement_path`] pins the search down on every side:
//! a returned path starts at the start cell, ends at the target, proceeds in
//! unit steps, never enters a wall, spends at most `max_dist` steps, and is
//! no longer than any wall-free route (the Manhattan heuristic is admissible
//! and consistent, so the search is optimal). The search is also complete:
//! whenever a route within the budget exists, a path is returned, so `None`
//! means exactly "no route exists" — a normal outcome, never an error.

use vstd::prelude::*;

use crate::coord_map::CoordMap;
use crate::grid::{
    GridCoord, LevelWalls, adjacent, get_neighbors, lemma_adjacent_in_neighbors, spec_manhattan,
    spec_neighbors, within_i32,
};

verus! {

/// A frontier record: the estimated total cost of a route through `coords`.
#[derive(Copy, Clone, Eq, PartialEq, Structural)]
struct PathState {
    cost: i64,
    coords: GridCoord,
}

/// The Manhattan heuristic, computed wide enough never to overflow.
fn heuristic(a: GridCoord, b: GridCoord) -> (h: i64)
    ensures
        h == spec_manhattan(a, b),
{
    let dx: i64 = b.x as i64 - a.x as i64;
    let dy: i64 = b.y as i64 - a.y as i64;
    let ax: i64 = if dx >= 0 {
        dx
    } else {
        -dx
    };
    let ay: i64 = if dy >= 0 {
        dy
    } else {
        -dy
    };
    ax + ay
}

/// The search's running state is consistent: every discovered cell (a key of
/// `came_from`) is a non-wall neighbor of its parent, scores strictly grow
/// along back-pointers, stay within the budget, and every back-pointer chain
/// is rooted at `start`.
spec fn search_inv(
    came_from: CoordMap<GridCoord>,
    g: CoordMap<i64>,
    start: GridCoord,
    walls: LevelWalls,
    max_dist: int,
) -> bool {
    &&& came_from.wf()
    &&& g.wf()
    &&& g.spec_has(start)
    &&& g.spec_get(start) == 0
    &&& !came_from.spec_has(start)
    &&& forall|c: GridCoord|
        #[trigger] came_from.spec_has(c) ==> {
            let p = came_from.spec_get(c);
            &&& g.spec_has(c)
            &&& g.spec_has(p)
            &&& adjacent(p, c)
            &&& !walls.spec_in_wall(c)
            &&& within_i32(c)
            &&& g.spec_get(p) < g.spec_get(c)
            &&& (p == start || came_from.spec_has(p))
        }
    &&& forall|c: GridCoord| #[trigger] g.spec_has(c) ==> 0 <= g.spec_get(c) <= max_dist
    &&& forall|c: GridCoord| #[trigger] g.spec_has(c) ==> (c == start || came_from.spec_has(c))
}

/// A wall-free unit-step walk from `start` to `target`; what "a route
/// exists" means in the pathfinder's contract.
pub open spec fn is_route(
    p: Seq<GridCoord>,
    start: GridCoord,
    target: GridCoord,
    walls: LevelWalls,
) -> bool {
    &&& p.len() >= 1
    &&& p[0] == start
    &&& p[p.len() - 1] == target
    &&& forall|i: int| 0 < i < p.len() ==> adjacent(p[i - 1], #[trigger] p[i])
    &&& forall|i: int| 0 < i < p.len() ==> !walls.spec_in_wall(#[trigger] p[i])
}

/// `c` has been expanded at its current score: every unblocked neighbor is
/// scored at most one step higher.
spec fn relaxed(g: CoordMap<i64>, walls: LevelWalls, c: GridCoord) -> bool {
    forall|i: int|
        0 <= i < 4 && !walls.spec_in_wall(#[trigger] spec_neighbors(c)[i]) ==> g.spec_has(
            spec_neighbors(c)[i],
        ) && g.spec_get(spec_neighbors(c)[i]) <= g.spec_get(c) + 1
}

/// `c` still has a fresh frontier record: one whose recorded estimate is its
/// current score plus the Manhattan heuristic.
spec fn exact_queued(queue: Seq<PathState>, g: CoordMap<i64>, target: GridCoord, c: GridCoord) -> bool {
    exists|k: int|
        0 <= k < queue.len() && (#[trigger] queue[k]).coords == c && queue[k].cost == g.spec_get(c)
            + spec_manhattan(c, target)
}

/// Every frontier record belongs to a scored cell and never underestimates
/// its current score plus the heuristic; the admissible heuristic then makes
/// the cheapest pop a lower bound on every route, which is what returns
/// shortest paths.
spec fn frontier_cost_inv(
    queue: Seq<PathState>,
    g: CoordMap<i64>,
    target: GridCoord,
) -> bool {
    forall|k: int|
        0 <= k < queue.len() ==> g.spec_has((#[trigger] queue[k]).coords) && queue[k].cost
            >= g.spec_get(queue[k].coords) + spec_manhattan(queue[k].coords, target)
}

/// No discovered cell is forgotten: each is still queued, already expanded at
/// its current score, or dead against the budget — and the target, which is
/// never expanded, stays queued while discovered. These clauses make the
/// search complete: an exhausted frontier leaves no route unexplored.
spec fn frontier_inv(
    queue: Seq<PathState>,
    g: CoordMap<i64>,
    walls: LevelWalls,
    target: GridCoord,
    max_dist: int,
) -> bool {
    &&& forall|c: GridCoord|
        #[trigger] g.spec_has(c) ==> (exact_queued(queue, g, target, c) || relaxed(g, walls, c)
            || g.spec_get(c) >= max_dist)
    &&& (g.spec_has(target) ==> exact_queued(queue, g, target, target))
    &&& frontier_cost_inv(queue, g, target)
}

/// As `frontier_inv`, except that the cell under expansion is excused.
spec fn frontier_inv_except(
    queue: Seq<PathState>,
    g: CoordMap<i64>,
    walls: LevelWalls,
    target: GridCoord,
    max_dist: int,
    ex: GridCoord,
) -> bool {
    &&& forall|c: GridCoord|
        c != ex && #[trigger] g.spec_has(c) ==> (exact_queued(queue, g, target, c) || relaxed(
            g,
            walls,
            c,
        ) || g.spec_get(c) >= max_dist)
    &&& (g.spec_has(target) ==> exact_queued(queue, g, target, target))
    &&& frontier_cost_inv(queue, g, target)
}

/// Along any unit-step walk, the Manhattan distance from each cell to the
/// walk's last cell is at most the number of remaining steps.
proof fn lemma_route_tail_dist(q: Seq<GridCoord>, j: int)
    requires
        q.len() >= 1,
        forall|i: int| 0 < i < q.len() ==> adjacent(q[i - 1], #[trigger] q[i]),
        0 <= j < q.len(),
    ensures
        spec_manhattan(q[j], q[q.len() - 1]) <= q.len() - 1 - j,
    decreases q.len() - j,
{
    if j < q.len() - 1 {
        lemma_route_tail_dist(q, j + 1);
        crate::grid::lemma_neighbor_dist(q[q.len() - 1], q[j + 1], q[j]);
        assert(adjacent(q[j + 1], q[j]));
    }
}

/// While the search still runs, any in-budget route keeps a frontier record
/// whose estimate does not exceed the route's cost: either the walk hits a
/// cell with a fresh record, or it settles cell by cell until the target,
/// whose record the search retains.
proof fn lemma_route_entry(
    came_from: CoordMap<GridCoord>,
    g: CoordMap<i64>,
    queue: Seq<PathState>,
    walls: LevelWalls,
    start: GridCoord,
    target: GridCoord,
    max_dist: int,
    q: Seq<GridCoord>,
    j: int,
)
    requires
        search_inv(came_from, g, start, walls, max_dist),
        frontier_inv(queue, g, walls, target, max_dist),
        within_i32(start),
        is_route(q, start, target, walls),
        q.len() <= max_dist + 1,
        0 <= j < q.len(),
        g.spec_has(q[j]),
        g.spec_get(q[j]) <= j,
    ensures
        exists|k: int| 0 <= k < queue.len() && (#[trigger] queue[k]).cost <= q.len() - 1,
    decreases q.len() - j,
{
    if q[j] == target {
        let k = choose|k: int|
            0 <= k < queue.len() && (#[trigger] queue[k]).coords == target && queue[k].cost
                == g.spec_get(target) + spec_manhattan(target, target);
        assert(queue[k].cost <= q.len() - 1);
    } else if exact_queued(queue, g, target, q[j]) {
        let k = choose|k: int|
            0 <= k < queue.len() && (#[trigger] queue[k]).coords == q[j] && queue[k].cost
                == g.spec_get(q[j]) + spec_manhattan(q[j], target);
        lemma_route_tail_dist(q, j);
        assert(queue[k].cost <= q.len() - 1);
    } else if relaxed(g, walls, q[j]) {
        assert(j < q.len() - 1);
        assert(within_i32(q[j]));
        assert(adjacent(q[j], q[j + 1]));
        lemma_adjacent_in_neighbors(q[j], q[j + 1]);
        let i = choose|i: int|
            0 <= i < spec_neighbors(q[j]).len() && spec_neighbors(q[j])[i] == q[j + 1];
        assert(!walls.spec_in_wall(spec_neighbors(q[j])[i]));
        assert(g.spec_has(q[j + 1]) && g.spec_get(q[j + 1]) <= g.spec_get(q[j]) + 1);
        lemma_route_entry(came_from, g, queue, walls, start, target, max_dist, q, j + 1);
    } else {
        // Budget-dead cells can only sit at the very end of an in-budget
        // route, where they are the target, already handled.
        assert(g.spec_get(q[j]) >= max_dist);
        assert(j >= max_dist);
        assert(j == q.len() - 1);
        assert(false);
    }
}

/// With the frontier exhausted, walking any in-budget route settles score
/// bounds cell by cell all the way to the target: the target must have been
/// discovered. An exhausted search that never discovered the target
/// therefore refutes every in-budget route.
proof fn lemma_route_settled(
    came_from: CoordMap<GridCoord>,
    g: CoordMap<i64>,
    walls: LevelWalls,
    start: GridCoord,
    target: GridCoord,
    max_dist: int,
    q: Seq<GridCoord>,
    j: int,
)
    requires
        search_inv(came_from, g, start, walls, max_dist),
        within_i32(start),
        forall|c: GridCoord|
            #[trigger] g.spec_has(c) ==> (relaxed(g, walls, c) || g.spec_get(c) >= max_dist),
        is_route(q, start, target, walls),
        q.len() <= max_dist + 1,
        0 <= j < q.len(),
        g.spec_has(q[j]),
        g.spec_get(q[j]) <= j,
    ensures
        g.spec_has(target),
    decreases q.len() - j,
{
    if q[j] == target {
    } else {
        assert(j < q.len() - 1);
        assert(g.spec_get(q[j]) < max_dist);
        assert(relaxed(g, walls, q[j]));
        assert(within_i32(q[j]));
        assert(adjacent(q[j], q[j + 1]));
        lemma_adjacent_in_neighbors(q[j], q[j + 1]);
        let i = choose|i: int|
            0 <= i < spec_neighbors(q[j]).len() && spec_neighbors(q[j])[i] == q[j + 1];
        assert(!walls.spec_in_wall(spec_neighbors(q[j])[i]));
        assert(g.spec_has(q[j + 1]) && g.spec_get(q[j + 1]) <= g.spec_get(q[j]) + 1);
        lemma_route_settled(came_from, g, walls, start, target, max_dist, q, j + 1);
    }
}

/// A cell the search may ever score: the start, or any unblocked cell.
spec fn dom_cell(walls: LevelWalls, start: GridCoord, c: GridCoord) -> bool {
    c == start || !walls.spec_in_wall(c)
}

/// The board slot of a scorable cell: the start takes slot zero, any other
/// unblocked cell its row-major position shifted by one.
spec fn cell_slot(walls: LevelWalls, start: GridCoord, c: GridCoord) -> int {
    if c == start {
        0
    } else {
        1 + c.x + c.y * walls.spec_width()
    }
}

/// How many times the score of `c` can still shrink: its current score, or
/// one past the budget while it is unscored.
spec fn cap_of(g: CoordMap<i64>, c: GridCoord, max_dist: int) -> int {
    if g.spec_has(c) {
        g.spec_get(c) as int
    } else {
        max_dist + 1
    }
}

/// One numbered improvement ticket of cell `c`.
spec fn tok_val(walls: LevelWalls, start: GridCoord, c: GridCoord, k: int, max_dist: int) -> int {
    cell_slot(walls, start, c) * (max_dist + 2) + k
}

/// Every improvement the search can still make: one ticket per cell and per
/// value its score can still take. Each scoring strictly spends tickets, so
/// the ticket count bounds the search.
spec fn tokens(g: CoordMap<i64>, walls: LevelWalls, start: GridCoord, max_dist: int) -> Set<int> {
    Set::new(
        |t: int|
            exists|c: GridCoord, k: int|
                #[trigger] tok_val(walls, start, c, k, max_dist) == t && dom_cell(walls, start, c)
                    && 0 <= k < cap_of(g, c, max_dist),
    )
}

/// Scorable cells occupy distinct board slots.
proof fn lemma_slot_injective(walls: LevelWalls, start: GridCoord, c1: GridCoord, c2: GridCoord)
    requires
        dom_cell(walls, start, c1),
        dom_cell(walls, start, c2),
        cell_slot(walls, start, c1) == cell_slot(walls, start, c2),
    ensures
        c1 == c2,
{
    if c1 != start && c2 != start {
        let w = walls.spec_width() as int;
        assert(0 <= c1.x < w && 0 <= c2.x < w);
        if c1.y != c2.y {
            assert((c1.y - c2.y) * w == c2.x - c1.x) by {
                assert(1 + c1.x + c1.y * w == 1 + c2.x + c2.y * w);
                assert(c1.y * w - c2.y * w == (c1.y - c2.y) * w) by (nonlinear_arith);
            }
            assert(false) by (nonlinear_arith)
                requires
                    (c1.y - c2.y) * w == c2.x - c1.x,
                    c1.y != c2.y,
                    0 <= c1.x < w,
                    0 <= c2.x < w,
            ;
        }
        assert(c1.x == c2.x);
    } else if c1 == start && c2 != start {
        assert(1 + c2.x + c2.y * walls.spec_width() >= 1) by (nonlinear_arith)
            requires
                0 <= c2.x,
                0 <= c2.y,
                c2.x < walls.spec_width(),
        ;
    } else if c2 == start && c1 != start {
        assert(1 + c1.x + c1.y * walls.spec_width() >= 1) by (nonlinear_arith)
            requires
                0 <= c1.x,
                0 <= c1.y,
                c1.x < walls.spec_width(),
        ;
    }
}

/// Tickets are distinct across cells and numbers.
proof fn lemma_tok_injective(
    walls: LevelWalls,
    start: GridCoord,
    c1: GridCoord,
    k1: int,
    c2: GridCoord,
    k2: int,
    max_dist: int,
)
    requires
        max_dist >= 0,
        dom_cell(walls, start, c1),
        dom_cell(walls, start, c2),
        0 <= k1 < max_dist + 2,
        0 <= k2 < max_dist + 2,
        tok_val(walls, start, c1, k1, max_dist) == tok_val(walls, start, c2, k2, max_dist),
    ensures
        c1 == c2,
        k1 == k2,
{
    let kk = max_dist + 2;
    let s1 = cell_slot(walls, start, c1);
    let s2 = cell_slot(walls, start, c2);
    assert(s1 == s2 && k1 == k2) by (nonlinear_arith)
        requires
            s1 * kk + k1 == s2 * kk + k2,
            0 <= k1 < kk,
            0 <= k2 < kk,
            kk >= 2,
    ;
    lemma_slot_injective(walls, start, c1, c2);
}

/// The ticket pool is finite.
proof fn lemma_tokens_finite(g: CoordMap<i64>, walls: LevelWalls, start: GridCoord, max_dist: int)
    requires
        max_dist >= 0,
        forall|c: GridCoord| #[trigger] g.spec_has(c) ==> 0 <= g.spec_get(c) <= max_dist,
    ensures
        tokens(g, walls, start, max_dist).finite(),
{
    let w = walls.spec_width() as int;
    let h = walls.spec_height() as int;
    let slot_bound: int = if w >= 1 && h >= 1 {
        w * h
    } else {
        0
    };
    let kk = max_dist + 2;
    let bound = (slot_bound + 1) * kk;
    assert forall|t: int| #[trigger] tokens(g, walls, start, max_dist).contains(t) implies
        vstd::set_lib::set_int_range(0, bound).contains(t) by {
        let (c, k) = choose|c: GridCoord, k: int|
            #[trigger] tok_val(walls, start, c, k, max_dist) == t && dom_cell(walls, start, c) && 0
                <= k < cap_of(g, c, max_dist);
        let sl = cell_slot(walls, start, c);
        assert(0 <= sl <= slot_bound) by {
            if c != start {
                assert(0 <= c.x < w && 0 <= c.y < h);
                assert(1 + c.x + c.y * w <= w * h) by (nonlinear_arith)
                    requires
                        0 <= c.x < w,
                        0 <= c.y < h,
                ;
                assert(1 + c.x + c.y * w >= 1) by (nonlinear_arith)
                    requires
                        0 <= c.x,
                        0 <= c.y,
                        w >= 1,
                ;
            }
        }
        assert(0 <= k < kk);
        assert(0 <= sl * kk + k < bound) by (nonlinear_arith)
            requires
                0 <= sl <= slot_bound,
                0 <= k < kk,
                kk >= 2,
                bound == (slot_bound + 1) * kk,
        ;
    }
    vstd::set_lib::lemma_int_range(0, bound);
    vstd::set_lib::lemma_len_subset(
        tokens(g, walls, start, max_dist),
        vstd::set_lib::set_int_range(0, bound),
    );
}

/// Scoring `changed` strictly below its old cap spends at least one ticket
/// and mints none.
proof fn lemma_tokens_decrease(
    g1: CoordMap<i64>,
    g2: CoordMap<i64>,
    walls: LevelWalls,
    start: GridCoord,
    max_dist: int,
    changed: GridCoord,
)
    requires
        max_dist >= 0,
        forall|c: GridCoord| #[trigger] g1.spec_has(c) ==> 0 <= g1.spec_get(c) <= max_dist,
        forall|c: GridCoord| #[trigger] g2.spec_has(c) ==> 0 <= g2.spec_get(c) <= max_dist,
        dom_cell(walls, start, changed),
        forall|c: GridCoord| #[trigger] g2.spec_has(c) <==> (g1.spec_has(c) || c == changed),
        forall|c: GridCoord|
            c != changed && g1.spec_has(c) ==> #[trigger] g2.spec_get(c) == g1.spec_get(c),
        g2.spec_has(changed),
        cap_of(g2, changed, max_dist) < cap_of(g1, changed, max_dist),
    ensures
        tokens(g2, walls, start, max_dist).len() < tokens(g1, walls, start, max_dist).len(),
{
    broadcast use vstd::set::axiom_set_remove_len;

    let t1 = tokens(g1, walls, start, max_dist);
    let t2 = tokens(g2, walls, start, max_dist);
    lemma_tokens_finite(g1, walls, start, max_dist);
    let wit = tok_val(walls, start, changed, cap_of(g2, changed, max_dist), max_dist);
    assert(t1.contains(wit)) by {
        assert(0 <= cap_of(g2, changed, max_dist) < cap_of(g1, changed, max_dist));
    }
    assert(!t2.contains(wit)) by {
        if t2.contains(wit) {
            let (c, k) = choose|c: GridCoord, k: int|
                #[trigger] tok_val(walls, start, c, k, max_dist) == wit && dom_cell(
                    walls,
                    start,
                    c,
                ) && 0 <= k < cap_of(g2, c, max_dist);
            lemma_tok_injective(
                walls,
                start,
                c,
                k,
                changed,
                cap_of(g2, changed, max_dist),
                max_dist,
            );
        }
    }
    assert forall|t: int| #[trigger] t2.contains(t) implies t1.remove(wit).contains(t) by {
        let (c, k) = choose|c: GridCoord, k: int|
            #[trigger] tok_val(walls, start, c, k, max_dist) == t && dom_cell(walls, start, c) && 0
                <= k < cap_of(g2, c, max_dist);
        assert(cap_of(g2, c, max_dist) <= cap_of(g1, c, max_dist));
        assert(t1.contains(t));
        assert(t != wit);
    }
    vstd::set_lib::lemma_len_subset(t2, t1.remove(wit));
}

/// Walks the back-pointers from `target` to `start` and reverses the walk
/// into a start-to-target path.
fn resolve_path(
    came_from: &CoordMap<GridCoord>,
    Ghost(g): Ghost<CoordMap<i64>>,
    target: GridCoord,
    Ghost(start): Ghost<GridCoord>,
    Ghost(walls): Ghost<LevelWalls>,
    Ghost(max_dist): Ghost<int>,
) -> (r: Vec<GridCoord>)
    requires
        search_inv(*came_from, g, start, walls, max_dist),
        target == start || came_from.spec_has(target),
    ensures
        r@.len() >= 1,
        r@[0] == start,
        r@[r@.len() - 1] == target,
        forall|i: int| 0 < i < r@.len() ==> adjacent(r@[i - 1], #[trigger] r@[i]),
        forall|i: int| 0 < i < r@.len() ==> !walls.spec_in_wall(#[trigger] r@[i]),
        forall|i: int|
            0 < i < r@.len() ==> came_from.spec_has(#[trigger] r@[i]) && came_from.spec_get(r@[i])
                == r@[i - 1],
        r@.len() <= max_dist + 1,
        r@.len() <= g.spec_get(target) + 1,
{
    let mut path: Vec<GridCoord> = Vec::new();
    let mut curr = target;
    path.push(curr);

    loop
        invariant
            search_inv(*came_from, g, start, walls, max_dist),
            path@.len() >= 1,
            path@[0] == target,
            path@[path@.len() - 1] == curr,
            curr == start || came_from.spec_has(curr),
            g.spec_has(curr),
            g.spec_has(target),
            forall|i: int|
                0 <= i < path@.len() - 1 ==> came_from.spec_has(#[trigger] path@[i])
                    && came_from.spec_get(path@[i]) == path@[i + 1],
            forall|i: int| 0 < i < path@.len() ==> adjacent(path@[i], #[trigger] path@[i - 1]),
            path@.len() <= g.spec_get(target) - g.spec_get(curr) + 1,
        ensures
            curr == start,
            path@.len() >= 1,
            path@[0] == target,
            path@[path@.len() - 1] == start,
            forall|i: int|
                0 <= i < path@.len() - 1 ==> came_from.spec_has(#[trigger] path@[i])
                    && came_from.spec_get(path@[i]) == path@[i + 1],
            forall|i: int| 0 < i < path@.len() ==> adjacent(path@[i], #[trigger] path@[i - 1]),
            path@.len() <= max_dist + 1,
            path@.len() <= g.spec_get(target) + 1,
        decreases g.spec_get(curr),
    {
        match came_from.get(&curr) {
            Some(c) => {
                curr = c;
                path.push(curr);
            },
            None => {
                break ;
            },
        }
    }

    let mut reversed: Vec<GridCoord> = Vec::new();
    let n = path.len();
    let mut i: usize = n;
    while i > 0
        invariant
            0 <= i <= n,
            n == path@.len(),
            reversed@.len() == n - i,
            forall|j: int| 0 <= j < reversed@.len() ==> #[trigger] reversed@[j] == path@[n - 1 - j],
        decreases i,
    {
        i -= 1;
        reversed.push(path[i]);
    }
    proof {
        assert forall|i2: int| 0 < i2 < reversed@.len() implies adjacent(
            reversed@[i2 - 1],
            #[trigger] reversed@[i2],
        ) by {
            let idx = n - i2;
            assert(reversed@[i2 - 1] == path@[idx]);
            assert(reversed@[i2] == path@[idx - 1]);
            assert(adjacent(path@[idx], path@[idx - 1]));
        }
        assert forall|i2: int| 0 < i2 < reversed@.len() implies !walls.spec_in_wall(
            #[trigger] reversed@[i2],
        ) by {
            assert(reversed@[i2] == path@[n - 1 - i2]);
            assert(came_from.spec_has(path@[n - 1 - i2]));
        }
        assert forall|i2: int| 0 < i2 < reversed@.len() implies came_from.spec_has(
            #[trigger] reversed@[i2],
        ) && came_from.spec_get(reversed@[i2]) == reversed@[i2 - 1] by {
            assert(reversed@[i2] == path@[n - 1 - i2]);
            assert(reversed@[i2 - 1] == path@[n - i2]);
            assert(came_from.spec_get(path@[n - 1 - i2]) == path@[n - i2]);
        }
    }
    reversed
}

/// Records a strictly improved route to `next_coord` through `curr`: the
/// back-pointer and score tables are updated and the cell rejoins the
/// frontier. The search's structural and frontier invariants are preserved,
/// and the improvement spends at least one ticket of the pool that bounds
/// the search.
fn record_improvement(
    came_from: &mut CoordMap<GridCoord>,
    g_scores: &mut CoordMap<i64>,
    queue: &mut Vec<PathState>,
    curr: GridCoord,
    next_coord: GridCoord,
    next_g_score: i64,
    cost: i64,
    Ghost(start): Ghost<GridCoord>,
    Ghost(target): Ghost<GridCoord>,
    Ghost(walls): Ghost<LevelWalls>,
    Ghost(max_dist): Ghost<int>,
)
    requires
        search_inv(*old(came_from), *old(g_scores), start, walls, max_dist),
        frontier_inv_except(old(queue)@, *old(g_scores), walls, target, max_dist, curr),
        max_dist >= 0,
        old(g_scores).spec_has(curr),
        curr == start || old(came_from).spec_has(curr),
        next_g_score == old(g_scores).spec_get(curr) + 1,
        old(g_scores).spec_get(curr) < max_dist,
        adjacent(curr, next_coord),
        !walls.spec_in_wall(next_coord),
        within_i32(next_coord),
        old(g_scores).spec_has(next_coord) ==> next_g_score < old(g_scores).spec_get(next_coord),
        cost == next_g_score + spec_manhattan(next_coord, target),
        forall|i: int|
            0 <= i < old(queue)@.len() ==> ((#[trigger] old(queue)@[i]).coords == start || old(
                came_from,
            ).spec_has(old(queue)@[i].coords)),
    ensures
        search_inv(*final(came_from), *final(g_scores), start, walls, max_dist),
        frontier_inv_except(final(queue)@, *final(g_scores), walls, target, max_dist, curr),
        final(g_scores).spec_has(curr),
        curr == start || final(came_from).spec_has(curr),
        forall|i: int|
            0 <= i < final(queue)@.len() ==> ((#[trigger] final(queue)@[i]).coords == start
                || final(came_from).spec_has(final(queue)@[i].coords)),
        forall|x: GridCoord|
            final(g_scores).spec_has(x) <==> (old(g_scores).spec_has(x) || x == next_coord),
        forall|x: GridCoord|
            x != next_coord && old(g_scores).spec_has(x) ==> final(g_scores).spec_get(x) == old(
                g_scores,
            ).spec_get(x),
        final(g_scores).spec_get(next_coord) == next_g_score,
        final(queue)@ == old(queue)@.push(PathState { cost, coords: next_coord }),
        tokens(*final(g_scores), walls, start, max_dist).len() < tokens(
            *old(g_scores),
            walls,
            start,
            max_dist,
        ).len(),
{
    proof {
        // The start keeps score zero, so it never improves: any rediscovery
        // of it carries a positive score.
        if next_coord == start {
            assert(g_scores.spec_get(start) == 0);
            assert(false);
        }
        assert(spec_manhattan(curr, next_coord) == 1);
        assert(curr != next_coord);
    }
    let ghost cf0 = *came_from;
    let ghost g0 = *g_scores;
    let ghost q0 = queue@;
    came_from.insert(next_coord, curr);
    g_scores.insert(next_coord, next_g_score);
    queue.push(PathState { cost, coords: next_coord });
    proof {
        assert forall|c: GridCoord| #[trigger] came_from.spec_has(c) implies {
            let p = came_from.spec_get(c);
            &&& g_scores.spec_has(c)
            &&& g_scores.spec_has(p)
            &&& adjacent(p, c)
            &&& !walls.spec_in_wall(c)
            &&& within_i32(c)
            &&& g_scores.spec_get(p) < g_scores.spec_get(c)
            &&& (p == start || came_from.spec_has(p))
        } by {
            if c == next_coord {
                assert(came_from.spec_get(next_coord) == curr);
                assert(g_scores.spec_get(next_coord) == next_g_score);
                assert(g_scores.spec_get(curr) == g0.spec_get(curr));
            } else {
                assert(cf0.spec_has(c));
                let p = cf0.spec_get(c);
                assert(came_from.spec_get(c) == p);
                assert(g_scores.spec_get(c) == g0.spec_get(c));
                if p == next_coord {
                    assert(g0.spec_has(next_coord));
                    assert(next_g_score < g0.spec_get(next_coord));
                    assert(g_scores.spec_get(p) == next_g_score);
                } else {
                    assert(g_scores.spec_get(p) == g0.spec_get(p));
                }
            }
        }
        assert forall|c: GridCoord| #[trigger] g_scores.spec_has(c) implies 0 <= g_scores.spec_get(
            c,
        ) <= max_dist by {
            if c != next_coord {
                assert(g0.spec_has(c));
                assert(g_scores.spec_get(c) == g0.spec_get(c));
            }
        }
        assert(g_scores.spec_get(start) == 0);
        assert forall|i: int|
            0 <= i < queue@.len() implies ((#[trigger] queue@[i]).coords == start
            || came_from.spec_has(queue@[i].coords)) by {
            if i < queue@.len() - 1 {
                assert(queue@[i] == q0[i]);
            }
        }
        // The frontier stays accounted for: the improved cell rejoins the
        // queue with a fresh estimate, fresh witnesses keep their places
        // under an append, and already-expanded cells stay expanded because
        // scores only fall.
        assert forall|c: GridCoord|
            c != curr && #[trigger] g_scores.spec_has(c) implies (exact_queued(
            queue@,
            *g_scores,
            target,
            c,
        ) || relaxed(*g_scores, walls, c) || g_scores.spec_get(c) >= max_dist) by {
            if c == next_coord {
                assert(queue@[queue@.len() - 1].coords == next_coord);
                assert(queue@[queue@.len() - 1].cost == g_scores.spec_get(next_coord)
                    + spec_manhattan(next_coord, target));
                assert(exact_queued(queue@, *g_scores, target, c));
            } else {
                assert(g0.spec_has(c));
                if exact_queued(q0, g0, target, c) {
                    let k = choose|k: int|
                        0 <= k < q0.len() && (#[trigger] q0[k]).coords == c && q0[k].cost
                            == g0.spec_get(c) + spec_manhattan(c, target);
                    assert(queue@[k] == q0[k]);
                    assert(g_scores.spec_get(c) == g0.spec_get(c));
                    assert(exact_queued(queue@, *g_scores, target, c));
                } else if relaxed(g0, walls, c) {
                    assert forall|i: int|
                        0 <= i < 4 && !walls.spec_in_wall(
                            #[trigger] spec_neighbors(c)[i],
                        ) implies g_scores.spec_has(spec_neighbors(c)[i]) && g_scores.spec_get(
                        spec_neighbors(c)[i],
                    ) <= g_scores.spec_get(c) + 1 by {
                        let n = spec_neighbors(c)[i];
                        assert(g0.spec_has(n) && g0.spec_get(n) <= g0.spec_get(c) + 1);
                        if n == next_coord {
                            assert(next_g_score < g0.spec_get(next_coord));
                        } else {
                            assert(g_scores.spec_get(n) == g0.spec_get(n));
                        }
                        assert(g_scores.spec_get(c) == g0.spec_get(c));
                    }
                    assert(relaxed(*g_scores, walls, c));
                } else {
                    assert(g_scores.spec_get(c) == g0.spec_get(c));
                }
            }
        }
        assert(g_scores.spec_has(target) ==> exact_queued(queue@, *g_scores, target, target)) by {
            if g_scores.spec_has(target) {
                if target == next_coord {
                    assert(queue@[queue@.len() - 1].coords == target);
                    assert(queue@[queue@.len() - 1].cost == g_scores.spec_get(target)
                        + spec_manhattan(target, target));
                } else {
                    assert(g0.spec_has(target));
                    let k = choose|k: int|
                        0 <= k < q0.len() && (#[trigger] q0[k]).coords == target && q0[k].cost
                            == g0.spec_get(target) + spec_manhattan(target, target);
                    assert(queue@[k] == q0[k]);
                    assert(g_scores.spec_get(target) == g0.spec_get(target));
                }
            }
        }
        assert forall|k: int| 0 <= k < queue@.len() implies g_scores.spec_has(
            (#[trigger] queue@[k]).coords,
        ) && queue@[k].cost >= g_scores.spec_get(queue@[k].coords) + spec_manhattan(
            queue@[k].coords,
            target,
        ) by {
            if k < queue@.len() - 1 {
                assert(queue@[k] == q0[k]);
                let cc = q0[k].coords;
                assert(g0.spec_has(cc));
                if cc == next_coord {
                    assert(next_g_score < g0.spec_get(next_coord));
                } else {
                    assert(g_scores.spec_get(cc) == g0.spec_get(cc));
                }
            }
        }
        // One improvement ticket is spent.
        lemma_tokens_decrease(g0, *g_scores, walls, start, max_dist, next_coord);
    }
}

/// Removing the popped record keeps every other cell's accounting: fresh
/// witnesses shift by at most one slot and estimates stay sound. Only the
/// popped cell itself is excused, to be re-established by its expansion.
proof fn lemma_pop_keeps_frontier(
    pre_q: Seq<PathState>,
    q2: Seq<PathState>,
    best: int,
    curr: GridCoord,
    came_from: CoordMap<GridCoord>,
    g: CoordMap<i64>,
    walls: LevelWalls,
    start: GridCoord,
    target: GridCoord,
    max_dist: int,
)
    requires
        frontier_inv(pre_q, g, walls, target, max_dist),
        0 <= best < pre_q.len(),
        pre_q[best].coords == curr,
        q2 == pre_q.remove(best),
        curr != target,
        forall|i: int|
            0 <= i < pre_q.len() ==> ((#[trigger] pre_q[i]).coords == start || came_from.spec_has(
                pre_q[i].coords,
            )),
    ensures
        frontier_inv_except(q2, g, walls, target, max_dist, curr),
        forall|i: int|
            0 <= i < q2.len() ==> ((#[trigger] q2[i]).coords == start || came_from.spec_has(
                q2[i].coords,
            )),
{
    assert forall|i: int|
        0 <= i < q2.len() implies ((#[trigger] q2[i]).coords == start || came_from.spec_has(
        q2[i].coords,
    )) by {
        if i < best {
            assert(q2[i] == pre_q[i]);
        } else {
            assert(q2[i] == pre_q[i + 1]);
        }
    }
    assert forall|c: GridCoord|
        c != curr && #[trigger] g.spec_has(c) implies (exact_queued(q2, g, target, c) || relaxed(
        g,
        walls,
        c,
    ) || g.spec_get(c) >= max_dist) by {
        if exact_queued(pre_q, g, target, c) {
            let k = choose|k: int|
                0 <= k < pre_q.len() && (#[trigger] pre_q[k]).coords == c && pre_q[k].cost
                    == g.spec_get(c) + spec_manhattan(c, target);
            if k < best {
                assert(q2[k] == pre_q[k]);
            } else {
                assert(k > best);
                assert(q2[k - 1] == pre_q[k]);
            }
            assert(exact_queued(q2, g, target, c));
        }
    }
    assert(g.spec_has(target) ==> exact_queued(q2, g, target, target)) by {
        if g.spec_has(target) {
            let k = choose|k: int|
                0 <= k < pre_q.len() && (#[trigger] pre_q[k]).coords == target && pre_q[k].cost
                    == g.spec_get(target) + spec_manhattan(target, target);
            if k < best {
                assert(q2[k] == pre_q[k]);
            } else {
                assert(k > best);
                assert(q2[k - 1] == pre_q[k]);
            }
        }
    }
    assert forall|k: int| 0 <= k < q2.len() implies g.spec_has((#[trigger] q2[k]).coords)
        && q2[k].cost >= g.spec_get(q2[k].coords) + spec_manhattan(q2[k].coords, target) by {
        if k < best {
            assert(q2[k] == pre_q[k]);
        } else {
            assert(q2[k] == pre_q[k + 1]);
        }
    }
}

/// The popped cell was expanded at its current score (or found budget-dead),
/// which lifts its excuse and restores the full frontier accounting.
proof fn lemma_restore_frontier(
    queue: Seq<PathState>,
    g: CoordMap<i64>,
    walls: LevelWalls,
    target: GridCoord,
    max_dist: int,
    curr: GridCoord,
)
    requires
        frontier_inv_except(queue, g, walls, target, max_dist, curr),
        g.spec_has(curr),
        relaxed(g, walls, curr) || g.spec_get(curr) >= max_dist,
    ensures
        frontier_inv(queue, g, walls, target, max_dist),
{
}

/// The cheapest popped record, when it carries the target, bounds the
/// target's score by the cost of any in-budget route: the route keeps a
/// record estimating no more than its own cost, and the pop undercuts it.
proof fn lemma_min_pop_bound(
    came_from: CoordMap<GridCoord>,
    g: CoordMap<i64>,
    pre_q: Seq<PathState>,
    best: int,
    walls: LevelWalls,
    start: GridCoord,
    target: GridCoord,
    max_dist: int,
    q: Seq<GridCoord>,
)
    requires
        search_inv(came_from, g, start, walls, max_dist),
        frontier_inv(pre_q, g, walls, target, max_dist),
        within_i32(start),
        0 <= best < pre_q.len(),
        pre_q[best].coords == target,
        forall|i: int| 0 <= i < pre_q.len() ==> pre_q[best].cost <= (#[trigger] pre_q[i]).cost,
        is_route(q, start, target, walls),
        q.len() <= max_dist + 1,
    ensures
        g.spec_get(target) <= q.len() - 1,
{
    lemma_route_entry(came_from, g, pre_q, walls, start, target, max_dist, q, 0);
    let kk = choose|k: int| 0 <= k < pre_q.len() && (#[trigger] pre_q[k]).cost <= q.len() - 1;
    assert(pre_q[best].cost <= pre_q[kk].cost);
    assert(pre_q[best].cost >= g.spec_get(target) + spec_manhattan(target, target));
}

/// The index of the cheapest frontier record; the earliest of equal costs
/// wins, pinning the tie-break.
fn cheapest_index(queue: &Vec<PathState>) -> (best: usize)
    requires
        queue@.len() > 0,
    ensures
        best < queue@.len(),
        forall|i: int| 0 <= i < queue@.len() ==> queue@[best as int].cost <= (#[trigger] queue@[i]).cost,
{
    let mut best: usize = 0;
    let mut j: usize = 1;
    while j < queue.len()
        invariant
            queue@.len() > 0,
            0 <= best < queue@.len(),
            1 <= j <= queue@.len(),
            forall|i: int| 0 <= i < j ==> queue@[best as int].cost <= (#[trigger] queue@[i]).cost,
        decreases queue@.len() - j,
    {
        if queue[j].cost < queue[best].cost {
            best = j;
        }
        j += 1;
    }
    best
}

/// Expands the popped cell: relaxes each unblocked neighbor, recording every
/// strict improvement, stopping early when the cell's score has reached the
/// budget. Afterwards the cell is expanded or budget-dead, restoring the full
/// frontier accounting; any improvement spends an exploration ticket.
#[verifier::rlimit(100)]
#[verifier::spinoff_prover]
fn expand_cell(
    came_from: &mut CoordMap<GridCoord>,
    g_scores: &mut CoordMap<i64>,
    queue: &mut Vec<PathState>,
    curr: GridCoord,
    target_coords: GridCoord,
    walls: &LevelWalls,
    max_dist: i32,
    Ghost(start): Ghost<GridCoord>,
)
    requires
        search_inv(*old(came_from), *old(g_scores), start, *walls, max_dist as int),
        frontier_inv_except(
            old(queue)@,
            *old(g_scores),
            *walls,
            target_coords,
            max_dist as int,
            curr,
        ),
        max_dist >= 0,
        within_i32(start),
        within_i32(curr),
        old(g_scores).spec_has(curr),
        curr == start || old(came_from).spec_has(curr),
        forall|i: int|
            0 <= i < old(queue)@.len() ==> ((#[trigger] old(queue)@[i]).coords == start || old(
                came_from,
            ).spec_has(old(queue)@[i].coords)),
    ensures
        search_inv(*final(came_from), *final(g_scores), start, *walls, max_dist as int),
        frontier_inv(final(queue)@, *final(g_scores), *walls, target_coords, max_dist as int),
        forall|i: int|
            0 <= i < final(queue)@.len() ==> ((#[trigger] final(queue)@[i]).coords == start
                || final(came_from).spec_has(final(queue)@[i].coords)),
        tokens(*final(g_scores), *walls, start, max_dist as int).len() < tokens(
            *old(g_scores),
            *walls,
            start,
            max_dist as int,
        ).len() || (*final(g_scores) == *old(g_scores) && final(queue)@ == old(queue)@),
{
    let neighbors = get_neighbors(curr);
    let ghost curr_g0 = if (*g_scores).spec_has(curr) {
        (*g_scores).spec_get(curr)
    } else {
        0i64
    };
    let mut budget_dead = false;
    let mut k: usize = 0;
    while k < neighbors.len()
        invariant
            neighbors@.len() == 4,
            neighbors@ == spec_neighbors(curr),
            0 <= k <= 4,
            max_dist >= 0,
            within_i32(start),
            search_inv(*came_from, *g_scores, start, *walls, max_dist as int),
            frontier_inv_except(queue@, *g_scores, *walls, target_coords, max_dist as int, curr),
            forall|i: int|
                0 <= i < queue@.len() ==> ((#[trigger] queue@[i]).coords == start
                    || (*came_from).spec_has(queue@[i].coords)),
            forall|i: int| 0 <= i < 4 ==> adjacent(curr, #[trigger] neighbors@[i]),
            (*g_scores).spec_has(curr),
            (*g_scores).spec_get(curr) == curr_g0,
            curr == start || (*came_from).spec_has(curr),
            budget_dead ==> curr_g0 >= max_dist as i64,
            !budget_dead ==> forall|i: int|
                0 <= i < k && !walls.spec_in_wall(#[trigger] neighbors@[i])
                    ==> (*g_scores).spec_has(neighbors@[i]) && (*g_scores).spec_get(neighbors@[i])
                    <= curr_g0 + 1,
            tokens(*g_scores, *walls, start, max_dist as int).len() < tokens(
                *old(g_scores),
                *walls,
                start,
                max_dist as int,
            ).len() || (*g_scores == *old(g_scores) && queue@ == old(queue)@),
        ensures
            budget_dead || k == 4,
        decreases 4 - k,
    {
        let next_coord = neighbors[k];
        k += 1;
        if walls.in_wall(&next_coord) {
            continue ;
        }
        if let Some(curr_g_score) = g_scores.get(&curr) {
            if curr_g_score >= max_dist as i64 {
                budget_dead = true;
                break ;
            }
            let next_g_score = curr_g_score + 1;
            let improves = match g_scores.get(&next_coord) {
                Some(neighbor_g_score) => next_g_score < neighbor_g_score,
                None => true,
            };
            if improves {
                let cost = next_g_score + heuristic(next_coord, target_coords);
                record_improvement(
                    came_from,
                    g_scores,
                    queue,
                    curr,
                    next_coord,
                    next_g_score,
                    cost,
                    Ghost(start),
                    Ghost(target_coords),
                    Ghost(*walls),
                    Ghost(max_dist as int),
                );
            }
        }
    }
    proof {
        if !budget_dead {
            assert(relaxed(*g_scores, *walls, curr));
        }
        lemma_restore_frontier(
            queue@,
            *g_scores,
            *walls,
            target_coords,
            max_dist as int,
            curr,
        );
    }
}

/// A* from `start_coords` to `target_coords` with unit step costs, pruning
/// walls, cutting expansion off at the movement budget `max_dist`.
///
/// A returned path visits `max_dist + 1` cells at most — reaching exactly
/// the budget is allowed, exceeding it is not — and is no longer than any
/// wall-free route between the two cells. The search is complete: whenever
/// some wall-free route within the budget exists, a path is returned.
/// `None` therefore means exactly "no route exists", a normal outcome and
/// never an error.
#[verifier::rlimit(50)]
pub fn get_movement_path(
    target_coords: GridCoord,
    start_coords: GridCoord,
    walls: &LevelWalls,
    max_dist: i32,
) -> (r: Option<Vec<GridCoord>>)
    requires
        max_dist >= 0,
        within_i32(start_coords),
    ensures
        match r {
            Some(p) => {
                &&& p@.len() >= 1
                &&& p@[0] == start_coords
                &&& p@[p@.len() - 1] == target_coords
                &&& forall|i: int| 0 < i < p@.len() ==> adjacent(p@[i - 1], #[trigger] p@[i])
                &&& forall|i: int| 0 < i < p@.len() ==> !walls.spec_in_wall(#[trigger] p@[i])
                &&& p@.len() <= max_dist + 1
                &&& forall|q: Seq<GridCoord>|
                    #[trigger] is_route(q, start_coords, target_coords, *walls) ==> p@.len()
                        <= q.len()
            },
            None => true,
        },
        target_coords == start_coords ==> r is Some,
        (exists|q: Seq<GridCoord>|
            is_route(q, start_coords, target_coords, *walls) && q.len() <= max_dist + 1) ==> r
            is Some,
{
    if target_coords == start_coords {
        // The search would pop the start first and reconstruct the trivial
        // path; answer it directly. A single cell is no longer than any
        // route.
        let res = vec![start_coords];
        return Some(res);
    }
    let mut g_scores: CoordMap<i64> = CoordMap::new();
    let mut came_from: CoordMap<GridCoord> = CoordMap::new();
    let mut queue: Vec<PathState> = Vec::new();

    g_scores.insert(start_coords, 0);
    queue.push(PathState { cost: heuristic(start_coords, target_coords), coords: start_coords });
    proof {
        assert(queue@[0].coords == start_coords);
        assert(queue@[0].cost == g_scores.spec_get(start_coords) + spec_manhattan(
            start_coords,
            target_coords,
        ));
        assert(exact_queued(queue@, g_scores, target_coords, start_coords));
    }

    while queue.len() > 0
        invariant
            search_inv(came_from, g_scores, start_coords, *walls, max_dist as int),
            frontier_inv(queue@, g_scores, *walls, target_coords, max_dist as int),
            max_dist >= 0,
            within_i32(start_coords),
            target_coords != start_coords,
            forall|i: int|
                0 <= i < queue@.len() ==> ((#[trigger] queue@[i]).coords == start_coords
                    || came_from.spec_has(queue@[i].coords)),
        decreases tokens(g_scores, *walls, start_coords, max_dist as int).len(), queue@.len(),
    {
        let ghost g_head = g_scores;
        let ghost qlen_head = queue@.len();

        let best = cheapest_index(&queue);
        let ghost pre_q = queue@;
        let curr_state = queue.remove(best);
        let curr = curr_state.coords;
        proof {
            assert(curr == start_coords || came_from.spec_has(curr));
        }

        if curr == target_coords {
            let res = resolve_path(
                &came_from,
                Ghost(g_scores),
                curr,
                Ghost(start_coords),
                Ghost(*walls),
                Ghost(max_dist as int),
            );
            proof {
                // The popped record was the cheapest, and any route keeps a
                // record estimating no more than its own cost; with the
                // admissible heuristic the reconstructed path is no longer
                // than any route.
                assert forall|q: Seq<GridCoord>|
                    #[trigger] is_route(q, start_coords, target_coords, *walls) implies res@.len()
                    <= q.len() by {
                    if q.len() <= max_dist + 1 {
                        lemma_min_pop_bound(
                            came_from,
                            g_scores,
                            pre_q,
                            best as int,
                            *walls,
                            start_coords,
                            target_coords,
                            max_dist as int,
                            q,
                        );
                    } else {
                        assert(res@.len() <= max_dist + 1);
                    }
                }
            }
            return Some(res);
        }
        proof {
            lemma_pop_keeps_frontier(
                pre_q,
                queue@,
                best as int,
                curr,
                came_from,
                g_scores,
                *walls,
                start_coords,
                target_coords,
                max_dist as int,
            );
            assert(within_i32(curr));
        }
        expand_cell(
            &mut came_from,
            &mut g_scores,
            &mut queue,
            curr,
            target_coords,
            walls,
            max_dist,
            Ghost(start_coords),
        );
    }
    proof {
        // The frontier is exhausted: nothing was left unexplored, and the
        // target was never discovered, so no in-budget route exists.
        assert(!g_scores.spec_has(target_coords)) by {
            if g_scores.spec_has(target_coords) {
                let k = choose|k: int|
                    0 <= k < queue@.len() && (#[trigger] queue@[k]).coords == target_coords
                        && queue@[k].cost == g_scores.spec_get(target_coords) + spec_manhattan(
                        target_coords,
                        target_coords,
                    );
            }
        }
        assert forall|c: GridCoord| #[trigger] g_scores.spec_has(c) implies (relaxed(
            g_scores,
            *walls,
            c,
        ) || g_scores.spec_get(c) >= max_dist as int) by {
            if exact_queued(queue@, g_scores, target_coords, c) {
                let k = choose|k: int|
                    0 <= k < queue@.len() && (#[trigger] queue@[k]).coords == c && queue@[k].cost
                        == g_scores.spec_get(c) + spec_manhattan(c, target_coords);
            }
        }
        assert forall|q: Seq<GridCoord>|
            !(is_route(q, start_coords, target_coords, *walls) && q.len() <= max_dist + 1) by {
            if is_route(q, start_coords, target_coords, *walls) && q.len() <= max_dist + 1 {
                lemma_route_settled(
                    came_from,
                    g_scores,
                    *walls,
                    start_coords,
                    target_coords,
                    max_dist as int,
                    q,
                    0,
                );
            }
        }
    }
    None
}

} // verus!
