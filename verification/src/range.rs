//! Range computation: the breadth-limited flood fill that yields the set of
//! cells a unit may move to, and the obstacle-ignorant ring fill that yields
//! the cells its weapon can strike.
//!
//! Movement range is ring-distance based by design — deliberately simpler
//! than the pathfinder — but its expansion still respects walls and
//! enemy-occupied cells as hard blockers. Attack rings ignore obstacles
//! entirely; on that open grid the ring fill provably covers exactly the
//! Manhattan band between the weapon's minimum and maximum reach.

use vstd::prelude::*;

use crate::coord_set::CoordSet;
use crate::grid::{
    GridCoord, LevelWalls, adjacent, get_neighbors, lemma_adjacent_in_neighbors,
    lemma_neighbor_dist, lemma_step_down, lemma_unblocked_within, spec_manhattan, spec_neighbors,
    within_i32,
};
use crate::map::UnitsOnMap;
use crate::units::UnitStats;
use crate::weapon::WeaponRange;

verus! {

broadcast use vstd::seq_lib::lemma_seq_contains_after_push;

/// The inclusive lower reach of a weapon: melee strikes from distance zero.
pub open spec fn range_min(wr: WeaponRange) -> u32 {
    match wr {
        WeaponRange::Melee(_) => 0,
        WeaponRange::Ranged { min, max: _ } => min,
    }
}

/// The inclusive upper reach of a weapon.
pub open spec fn range_max(wr: WeaponRange) -> u32 {
    match wr {
        WeaponRange::Melee(d) => d,
        WeaponRange::Ranged { min: _, max } => max,
    }
}

/// `c` lies in the strike band around `m`: at least one cell away, within
/// `max`, and no closer than `min`.
pub open spec fn ring_band(m: GridCoord, c: GridCoord, min: u32, max: u32) -> bool {
    &&& 1 <= spec_manhattan(m, c)
    &&& spec_manhattan(m, c) <= max
    &&& min <= spec_manhattan(m, c)
}

/// Every cell within `max` steps of `c` stays strictly inside the i32 range.
pub open spec fn ring_safe(c: GridCoord, max: u32) -> bool {
    diamond_safe(c, max as int)
}

/// Movement expansion may step onto `c`: enemy-occupied cells and walls are
/// hard blockers, friendly-occupied cells are not.
pub open spec fn step_ok(units: UnitsOnMap, walls: LevelWalls, c: GridCoord) -> bool {
    !units.spec_is_enemy(c) && !walls.spec_in_wall(c)
}

/// A unit may end its movement on `c`: the cell is unoccupied, or is the
/// origin the unit already stands on.
pub open spec fn can_stand(units: UnitsOnMap, origin: GridCoord, c: GridCoord) -> bool {
    c == origin || !units.spec_contains(c)
}

/// `c` lies on the `d`-th expansion ring around `origin`: the origin itself
/// at zero, and otherwise a steppable listed neighbor of some cell of the
/// previous ring.
pub open spec fn ring_member(
    origin: GridCoord,
    units: UnitsOnMap,
    walls: LevelWalls,
    d: int,
    c: GridCoord,
) -> bool
    decreases d,
{
    if d < 0 {
        false
    } else if d == 0 {
        c == origin
    } else {
        step_ok(units, walls, c) && exists|p: GridCoord|
            ring_member(origin, units, walls, d - 1, p) && #[trigger] spec_neighbors(p).contains(c)
    }
}

/// A listed neighbor of an in-range cell is adjacent to it.
proof fn lemma_neighbor_list_adjacent(p: GridCoord, c: GridCoord)
    requires
        within_i32(p),
        spec_neighbors(p).contains(c),
    ensures
        adjacent(p, c),
{
    let i = choose|i: int| 0 <= i < spec_neighbors(p).len() && spec_neighbors(p)[i] == c;
}

/// Every cell of the `d`-th expansion ring lies within `d` Manhattan steps of
/// the origin.
pub proof fn lemma_ring_dist(
    origin: GridCoord,
    units: UnitsOnMap,
    walls: LevelWalls,
    d: int,
    c: GridCoord,
)
    requires
        within_i32(origin),
        ring_member(origin, units, walls, d, c),
    ensures
        spec_manhattan(origin, c) <= d,
    decreases d,
{
    if d > 0 {
        let p = choose|p: GridCoord|
            ring_member(origin, units, walls, d - 1, p) && #[trigger] spec_neighbors(p).contains(
                c,
            );
        lemma_ring_dist(origin, units, walls, d - 1, p);
        if p == origin {
            lemma_neighbor_list_adjacent(p, c);
        } else {
            assert(step_ok(units, walls, p));
            lemma_unblocked_within(walls, p);
            lemma_neighbor_list_adjacent(p, c);
        }
        lemma_neighbor_dist(origin, p, c);
    }
}

/// The diamond of radius `m` around `origin`: every cell within `m`
/// Manhattan steps.
pub open spec fn diamond(origin: GridCoord, m: int) -> Set<GridCoord> {
    Set::new(|c: GridCoord| spec_manhattan(origin, c) <= m)
}

/// The cells at Manhattan distance exactly `d` from `origin`.
spec fn dist_ring(origin: GridCoord, d: int) -> Set<GridCoord> {
    Set::new(|c: GridCoord| spec_manhattan(origin, c) == d)
}

/// The `k`-th cell of the distance-`d` ring, walked quadrant by quadrant.
spec fn ring_point(origin: GridCoord, d: int, k: int) -> GridCoord {
    if 0 <= k < d {
        GridCoord { x: (origin.x + d - k) as i32, y: (origin.y + k) as i32 }
    } else if d <= k < 2 * d {
        GridCoord { x: (origin.x - (k - d)) as i32, y: (origin.y + 2 * d - k) as i32 }
    } else if 2 * d <= k < 3 * d {
        GridCoord { x: (origin.x - (3 * d - k)) as i32, y: (origin.y - (k - 2 * d)) as i32 }
    } else {
        GridCoord { x: (origin.x + k - 3 * d) as i32, y: (origin.y - (4 * d - k)) as i32 }
    }
}

/// Every coordinate the radius-`m` diamond touches stays strictly inside the
/// i32 range.
pub open spec fn diamond_safe(c: GridCoord, m: int) -> bool {
    &&& (c.x as int) - m > i32::MIN as int
    &&& (c.x as int) + m < i32::MAX as int
    &&& (c.y as int) - m > i32::MIN as int
    &&& (c.y as int) + m < i32::MAX as int
}

/// A distance ring holds exactly `4 * d` cells: its quadrant walk is a
/// bijection with `0..4d`.
proof fn lemma_ring_len(origin: GridCoord, d: int)
    requires
        d >= 1,
        diamond_safe(origin, d),
    ensures
        dist_ring(origin, d).finite(),
        dist_ring(origin, d).len() == 4 * d,
{
    let idx = vstd::set_lib::set_int_range(0, 4 * d);
    let f = |k: int| ring_point(origin, d, k);
    vstd::set_lib::lemma_int_range(0, 4 * d);
    assert forall|k: int| idx.contains(k) implies spec_manhattan(origin, #[trigger] f(k)) == d by {
        let c = ring_point(origin, d, k);
    }
    assert forall|k1: int, k2: int|
        idx.contains(k1) && idx.contains(k2) && #[trigger] f(k1) == #[trigger] f(k2) implies k1
        == k2 by {
        let c1 = ring_point(origin, d, k1);
        let c2 = ring_point(origin, d, k2);
    }
    assert(vstd::relations::injective_on(f, idx));
    assert(idx.map(f) =~= dist_ring(origin, d)) by {
        assert forall|c: GridCoord| dist_ring(origin, d).contains(c) implies idx.map(f).contains(
            c,
        ) by {
            let dx = c.x as int - origin.x as int;
            let dy = c.y as int - origin.y as int;
            let k: int = if dx > 0 && dy >= 0 {
                dy
            } else if dx <= 0 && dy > 0 {
                d - dx
            } else if dx < 0 && dy <= 0 {
                2 * d - dy
            } else {
                3 * d + dx
            };
            assert(idx.contains(k) && f(k) == c);
        }
    }
    vstd::set_lib::lemma_map_size(idx, dist_ring(origin, d), f);
}

/// Two finite disjoint sets unite to the sum of their sizes.
proof fn lemma_len_disjoint_union<A>(s1: Set<A>, s2: Set<A>)
    requires
        s1.finite(),
        s2.finite(),
        s1.disjoint(s2),
    ensures
        s1.union(s2).finite(),
        s1.union(s2).len() == s1.len() + s2.len(),
    decreases s1.len(),
{
    broadcast use vstd::set::group_set_axioms;

    if s1.len() == 0 {
        assert(s1 =~= Set::empty());
        assert(s1.union(s2) =~= s2);
    } else {
        let a = s1.choose();
        assert(s1.contains(a));
        assert(!s2.contains(a));
        assert(s1.union(s2).remove(a) =~= s1.remove(a).union(s2));
        lemma_len_disjoint_union(s1.remove(a), s2);
        assert(s1.union(s2) =~= s1.remove(a).union(s2).insert(a));
    }
}

/// The diamond law behind the movement range's size: a radius-`m` diamond
/// holds exactly `2*m*m + 2*m + 1` cells, the closed form of one center cell
/// plus `4*d` cells on each ring.
pub proof fn lemma_diamond_count(origin: GridCoord, m: int)
    requires
        0 <= m,
        diamond_safe(origin, m),
    ensures
        diamond(origin, m).finite(),
        diamond(origin, m).len() == 2 * m * m + 2 * m + 1,
    decreases m,
{
    if m == 0 {
        assert(diamond(origin, 0) =~= Set::empty().insert(origin));
    } else {
        lemma_diamond_count(origin, m - 1);
        lemma_ring_len(origin, m);
        assert(diamond(origin, m - 1).disjoint(dist_ring(origin, m)));
        lemma_len_disjoint_union(diamond(origin, m - 1), dist_ring(origin, m));
        assert(diamond(origin, m) =~= diamond(origin, m - 1).union(dist_ring(origin, m)));
        assert(2 * (m - 1) * (m - 1) + 2 * (m - 1) + 1 + 4 * m == 2 * m * m + 2 * m + 1)
            by (nonlinear_arith);
    }
}

/// The full open-board law of movement ranges: when no unit or wall touches
/// the diamond of radius `mov` around the origin, a movement-range result
/// with the exact reachability contract holds every diamond cell and nothing
/// else, so its size is the closed form `2*mov*mov + 2*mov + 1`.
pub proof fn lemma_open_board_range_count(
    origin: GridCoord,
    units: UnitsOnMap,
    walls: LevelWalls,
    mov: u32,
    r: CoordSet,
)
    requires
        r.wf(),
        within_i32(origin),
        diamond_safe(origin, mov as int),
        forall|c: GridCoord|
            #[trigger] r.spec_contains(c) <==> (can_stand(units, origin, c) && exists|d: int|
                0 <= d <= mov && #[trigger] ring_member(origin, units, walls, d, c)),
        forall|x: GridCoord|
            #[trigger] spec_manhattan(origin, x) <= mov ==> (!units.spec_contains(x)
                && !walls.spec_in_wall(x)),
    ensures
        r.items_seq().len() == 2 * (mov as int) * (mov as int) + 2 * (mov as int) + 1,
{
    assert forall|x: GridCoord|
        #[trigger] spec_manhattan(origin, x) <= mov implies (x == origin || step_ok(
        units,
        walls,
        x,
    )) by {
        if units.spec_is_enemy(x) {
            assert(units.spec_contains(x));
        }
    }
    assert(r.items_seq().to_set() =~= diamond(origin, mov as int)) by {
        assert forall|c: GridCoord| r.items_seq().to_set().contains(c) implies diamond(
            origin,
            mov as int,
        ).contains(c) by {
            assert(r.spec_contains(c));
            let d = choose|d: int|
                0 <= d <= mov && #[trigger] ring_member(origin, units, walls, d, c);
            lemma_ring_dist(origin, units, walls, d, c);
        }
        assert forall|c: GridCoord| diamond(origin, mov as int).contains(c) implies r.items_seq().to_set().contains(
            c,
        ) by {
            assert(spec_manhattan(origin, c) <= mov);
            lemma_open_board_reaches(origin, units, walls, mov, c);
            assert(r.spec_contains(c));
        }
    }
    assert(r.items_seq().no_duplicates()) by {
        assert forall|i: int, j: int|
            0 <= i < r.items_seq().len() && 0 <= j < r.items_seq().len() && i != j implies
            r.items_seq()[i] != r.items_seq()[j] by {
            if i < j {
            } else {
                assert(j < i);
            }
        }
    }
    r.items_seq().unique_seq_to_set();
    lemma_diamond_count(origin, mov as int);
}

/// On a board that is open throughout the diamond of radius `d`, the cell at
/// distance exactly `d` lies on the `d`-th expansion ring.
proof fn lemma_open_board_ring(
    origin: GridCoord,
    units: UnitsOnMap,
    walls: LevelWalls,
    d: int,
    c: GridCoord,
)
    requires
        within_i32(origin),
        0 <= d,
        spec_manhattan(origin, c) == d,
        forall|x: GridCoord|
            #[trigger] spec_manhattan(origin, x) <= d ==> (x == origin || step_ok(units, walls, x)),
    ensures
        ring_member(origin, units, walls, d, c),
    decreases d,
{
    if d > 0 {
        let p = lemma_step_down(origin, c);
        lemma_open_board_ring(origin, units, walls, d - 1, p);
        if p == origin {
            lemma_adjacent_in_neighbors(p, c);
        } else {
            assert(spec_manhattan(origin, p) <= d);
            assert(step_ok(units, walls, p));
            lemma_unblocked_within(walls, p);
            lemma_adjacent_in_neighbors(p, c);
        }
        assert(spec_manhattan(origin, c) <= d);
        assert(step_ok(units, walls, c));
    }
}

/// The open-board law behind movement ranges: when nothing blocks the
/// diamond of radius `mov` around the origin, expansion reaches every cell
/// within `mov` Manhattan steps, so the movement range holds the full
/// diamond except for occupied cells.
pub proof fn lemma_open_board_reaches(
    origin: GridCoord,
    units: UnitsOnMap,
    walls: LevelWalls,
    mov: u32,
    c: GridCoord,
)
    requires
        within_i32(origin),
        spec_manhattan(origin, c) <= mov,
        forall|x: GridCoord|
            #[trigger] spec_manhattan(origin, x) <= mov ==> (x == origin || step_ok(
                units,
                walls,
                x,
            )),
    ensures
        exists|d: int| 0 <= d <= mov && #[trigger] ring_member(origin, units, walls, d, c),
{
    let d = spec_manhattan(origin, c);
    assert forall|x: GridCoord| #[trigger] spec_manhattan(origin, x) <= d implies (x == origin
        || step_ok(units, walls, x)) by {
        assert(spec_manhattan(origin, x) <= mov);
    }
    lemma_open_board_ring(origin, units, walls, d, c);
}

/// Breadth-first expansion up to `stats.mov` rings around `origin`.
///
/// A visited cell joins the result when it is unoccupied or is the origin
/// itself. Expansion never crosses walls or enemy-occupied cells; cells
/// occupied by friendly units are passed through but are not destinations.
/// The result is exact: a cell belongs to it precisely when some expansion
/// ring within the movement budget reaches it and the unit may stand there.
/// Every returned cell lies within `stats.mov` Manhattan steps of the origin.
pub fn calculate_range(
    origin: &GridCoord,
    stats: &UnitStats,
    units_on_map: &UnitsOnMap,
    walls: &LevelWalls,
) -> (r: CoordSet)
    requires
        within_i32(*origin),
        stats.mov < u32::MAX,
    ensures
        r.wf(),
        r.spec_contains(*origin),
        forall|c: GridCoord|
            #[trigger] r.spec_contains(c) <==> (can_stand(*units_on_map, *origin, c) && exists|
                d: int,
            |
                0 <= d <= stats.mov && #[trigger] ring_member(
                    *origin,
                    *units_on_map,
                    *walls,
                    d,
                    c,
                )),
        forall|c: GridCoord| #[trigger] r.spec_contains(c) ==> spec_manhattan(*origin, c)
            <= stats.mov,
        forall|c: GridCoord|
            #[trigger] r.spec_contains(c) && c != *origin ==> !units_on_map.spec_contains(c),
        forall|c: GridCoord|
            #[trigger] r.spec_contains(c) && c != *origin ==> !walls.spec_in_wall(c),
{
    let max_dist = stats.mov;
    let mut curr_dist: u32 = 0;
    let mut queue: Vec<GridCoord> = Vec::new();
    let mut range_of_movement = CoordSet::new();

    queue.push(*origin);
    proof {
        assert(queue@[0] == *origin);
        assert forall|x: GridCoord| #[trigger] queue@.contains(x) implies ring_member(
            *origin,
            *units_on_map,
            *walls,
            0,
            x,
        ) by {
            let i = choose|i: int| 0 <= i < queue@.len() && queue@[i] == x;
        }
    }
    while curr_dist <= max_dist
        invariant
            curr_dist <= max_dist + 1,
            max_dist < u32::MAX,
            within_i32(*origin),
            range_of_movement.wf(),
            forall|x: GridCoord| #[trigger] queue@.contains(x) ==> ring_member(
                *origin,
                *units_on_map,
                *walls,
                curr_dist as int,
                x,
            ),
            forall|x: GridCoord, d: int|
                d == curr_dist && #[trigger] ring_member(*origin, *units_on_map, *walls, d, x)
                    ==> queue@.contains(x),
            forall|c: GridCoord|
                #[trigger] range_of_movement.spec_contains(c) ==> (can_stand(
                    *units_on_map,
                    *origin,
                    c,
                ) && exists|d: int|
                    0 <= d < curr_dist && #[trigger] ring_member(
                        *origin,
                        *units_on_map,
                        *walls,
                        d,
                        c,
                    )),
            forall|c: GridCoord, d: int|
                0 <= d < curr_dist && #[trigger] ring_member(*origin, *units_on_map, *walls, d, c)
                    && can_stand(*units_on_map, *origin, c)
                    ==> range_of_movement.spec_contains(c),
        decreases max_dist + 1 - curr_dist,
    {
        let mut next_queue: Vec<GridCoord> = Vec::new();
        proof {
            // Every next-ring cell has a parent somewhere in the frontier.
            assert forall|c: GridCoord, d: int|
                d == curr_dist + 1 && #[trigger] ring_member(*origin, *units_on_map, *walls, d, c)
                    implies exists|j: int|
                0 <= j < queue@.len() && #[trigger] spec_neighbors(queue@[j]).contains(c) by {
                let p = choose|p: GridCoord|
                    ring_member(*origin, *units_on_map, *walls, d - 1, p)
                        && #[trigger] spec_neighbors(p).contains(c);
                assert(ring_member(*origin, *units_on_map, *walls, curr_dist as int, p));
                assert(queue@.contains(p));
                let j = choose|j: int| 0 <= j < queue@.len() && queue@[j] == p;
                assert(spec_neighbors(queue@[j]).contains(c));
            }
        }

        while queue.len() > 0
            invariant
                curr_dist <= max_dist,
                max_dist < u32::MAX,
                within_i32(*origin),
                range_of_movement.wf(),
                forall|x: GridCoord| #[trigger] queue@.contains(x) ==> ring_member(
                    *origin,
                    *units_on_map,
                    *walls,
                    curr_dist as int,
                    x,
                ),
                forall|x: GridCoord| #[trigger] next_queue@.contains(x) ==> ring_member(
                    *origin,
                    *units_on_map,
                    *walls,
                    curr_dist + 1,
                    x,
                ),
                forall|c: GridCoord, d: int|
                    d == curr_dist + 1 && #[trigger] ring_member(
                        *origin,
                        *units_on_map,
                        *walls,
                        d,
                        c,
                    ) ==> (next_queue@.contains(c) || exists|j: int|
                        0 <= j < queue@.len() && #[trigger] spec_neighbors(queue@[j]).contains(c)),
                forall|c: GridCoord, d: int|
                    d == curr_dist && #[trigger] ring_member(*origin, *units_on_map, *walls, d, c)
                        && can_stand(*units_on_map, *origin, c) ==> (
                    range_of_movement.spec_contains(c) || queue@.contains(c)),
                forall|c: GridCoord|
                    #[trigger] range_of_movement.spec_contains(c) ==> (can_stand(
                        *units_on_map,
                        *origin,
                        c,
                    ) && exists|d: int|
                        0 <= d <= curr_dist && #[trigger] ring_member(
                            *origin,
                            *units_on_map,
                            *walls,
                            d,
                            c,
                        )),
                forall|c: GridCoord, d: int|
                    0 <= d < curr_dist && #[trigger] ring_member(
                        *origin,
                        *units_on_map,
                        *walls,
                        d,
                        c,
                    ) && can_stand(*units_on_map, *origin, c) ==> range_of_movement.spec_contains(
                        c,
                    ),
            decreases queue@.len(),
        {
            let ghost pre_q = queue@;
            let center = queue.pop().unwrap();
            proof {
                assert(pre_q.contains(pre_q[pre_q.len() - 1]));
                assert(ring_member(*origin, *units_on_map, *walls, curr_dist as int, center));
                assert forall|x: GridCoord| #[trigger] queue@.contains(x) implies pre_q.contains(
                    x,
                ) by {
                    let i = choose|i: int| 0 <= i < queue@.len() && queue@[i] == x;
                    assert(pre_q[i] == x);
                }
            }

            if !units_on_map.contains(&center) || center.x == origin.x && center.y == origin.y {
                range_of_movement.insert(center);
            }
            proof {
                // Cells of ring `curr_dist` that may be stood on are either
                // already collected or still queued.
                assert forall|c: GridCoord, d: int|
                    d == curr_dist && #[trigger] ring_member(*origin, *units_on_map, *walls, d, c)
                        && can_stand(*units_on_map, *origin, c) implies (
                range_of_movement.spec_contains(c) || queue@.contains(c)) by {
                    if c != center && pre_q.contains(c) {
                        let i = choose|i: int| 0 <= i < pre_q.len() && pre_q[i] == c;
                        if i < pre_q.len() - 1 {
                            assert(queue@[i] == c);
                        }
                    }
                }
                if center != *origin {
                    lemma_unblocked_within(*walls, center);
                }
            }
            let neighbors = get_neighbors(center);
            let ghost nq0 = next_queue@;

            let mut m: usize = 0;
            while m < 4
                invariant
                    0 <= m <= 4,
                    neighbors@.len() == 4,
                    neighbors@ == spec_neighbors(center),
                    curr_dist <= max_dist,
                    within_i32(*origin),
                    ring_member(*origin, *units_on_map, *walls, curr_dist as int, center),
                    forall|x: GridCoord| #[trigger] next_queue@.contains(x) ==> ring_member(
                        *origin,
                        *units_on_map,
                        *walls,
                        curr_dist + 1,
                        x,
                    ),
                    next_queue@.len() >= nq0.len(),
                    forall|i: int| 0 <= i < nq0.len() ==> #[trigger] next_queue@[i] == nq0[i],
                    forall|i: int|
                        0 <= i < m && step_ok(*units_on_map, *walls, #[trigger] neighbors@[i])
                            ==> next_queue@.contains(neighbors@[i]),
                decreases 4 - m,
            {
                let nb = neighbors[m];
                if !(units_on_map.is_enemy(&nb) || walls.in_wall(&nb)) {
                    let ghost nq_pre = next_queue@;
                    next_queue.push(nb);
                    proof {
                        assert(spec_neighbors(center).contains(spec_neighbors(center)[m as int]));
                        assert(ring_member(
                            *origin,
                            *units_on_map,
                            *walls,
                            curr_dist + 1,
                            nb,
                        ));
                        assert forall|i: int| 0 <= i < nq0.len() implies #[trigger] next_queue@[i]
                            == nq0[i] by {
                            assert(next_queue@[i] == nq_pre[i]);
                        }
                    }
                }
                m += 1;
            }
            proof {
                // Every next-ring cell is already pushed or still has a
                // queued parent.
                assert forall|c: GridCoord, d: int|
                    d == curr_dist + 1 && #[trigger] ring_member(
                        *origin,
                        *units_on_map,
                        *walls,
                        d,
                        c,
                    ) implies (next_queue@.contains(c) || exists|j: int|
                    0 <= j < queue@.len() && #[trigger] spec_neighbors(queue@[j]).contains(c)) by {
                    if nq0.contains(c) {
                        let k = choose|k: int| 0 <= k < nq0.len() && nq0[k] == c;
                        assert(next_queue@[k] == c);
                    } else if exists|j: int|
                        0 <= j < pre_q.len() && #[trigger] spec_neighbors(pre_q[j]).contains(c) {
                        let j = choose|j: int|
                            0 <= j < pre_q.len() && #[trigger] spec_neighbors(pre_q[j]).contains(
                                c,
                            );
                        if j < pre_q.len() - 1 {
                            assert(queue@[j] == pre_q[j]);
                            assert(spec_neighbors(queue@[j]).contains(c));
                        } else {
                            let i = choose|i: int|
                                0 <= i < spec_neighbors(center).len() && spec_neighbors(
                                    center,
                                )[i] == c;
                            assert(step_ok(*units_on_map, *walls, neighbors@[i]));
                            assert(next_queue@.contains(neighbors@[i]));
                        }
                    }
                }
            }
        }

        proof {
            // With the ring fully drained, its next ring is exactly the new
            // frontier, and every standable cell of it has been collected.
            assert forall|x: GridCoord, d: int|
                d == curr_dist + 1 && #[trigger] ring_member(*origin, *units_on_map, *walls, d, x)
                    implies next_queue@.contains(x) by {}
        }
        queue = next_queue;
        curr_dist += 1;
    }

    proof {
        assert(ring_member(*origin, *units_on_map, *walls, 0, *origin));
        assert(range_of_movement.spec_contains(*origin));
        assert forall|c: GridCoord| #[trigger] range_of_movement.spec_contains(c) implies
            spec_manhattan(*origin, c) <= stats.mov by {
            let d = choose|d: int|
                0 <= d < curr_dist && #[trigger] ring_member(*origin, *units_on_map, *walls, d, c);
            lemma_ring_dist(*origin, *units_on_map, *walls, d, c);
        }
        assert forall|c: GridCoord|
            #[trigger] range_of_movement.spec_contains(c) && c != *origin implies !walls.spec_in_wall(
            c,
        ) by {
            let d = choose|d: int|
                0 <= d < curr_dist && #[trigger] ring_member(*origin, *units_on_map, *walls, d, c);
            assert(d != 0);
            assert(step_ok(*units_on_map, *walls, c));
        }
    }
    range_of_movement
}

/// Adds `nb` to the visited set; a cell seen for the first time also joins
/// the next ring's frontier and, when `record` is set, the attack set.
fn visit_candidate(
    visited: &mut CoordSet,
    next_queue: &mut Vec<GridCoord>,
    attack_range: &mut CoordSet,
    nb: GridCoord,
    record: bool,
)
    requires
        old(visited).wf(),
        old(attack_range).wf(),
    ensures
        final(visited).wf(),
        final(attack_range).wf(),
        forall|x: GridCoord|
            final(visited).spec_contains(x) <==> (old(visited).spec_contains(x) || x == nb),
        old(visited).spec_contains(nb) ==> {
            &&& final(next_queue)@ == old(next_queue)@
            &&& forall|x: GridCoord|
                final(attack_range).spec_contains(x) == old(attack_range).spec_contains(x)
        },
        !old(visited).spec_contains(nb) ==> {
            &&& final(next_queue)@ == old(next_queue)@.push(nb)
            &&& (record ==> forall|x: GridCoord|
                final(attack_range).spec_contains(x) <==> (old(attack_range).spec_contains(x) || x
                    == nb))
            &&& (!record ==> forall|x: GridCoord|
                final(attack_range).spec_contains(x) == old(attack_range).spec_contains(x))
        },
{
    if !visited.contains(&nb) {
        visited.insert(nb);
        next_queue.push(nb);
        if record {
            attack_range.insert(nb);
        }
    }
}

/// The obstacle-ignorant ring fill around one cell.
///
/// The result is exactly the Manhattan band around `origin`: a cell belongs
/// to it precisely when its distance from the origin is at least one, at
/// least `min_dist`, and at most `max_dist`. The origin itself is never
/// included, even at a minimum of zero.
pub fn calculate_attack_range_from_coord(origin: GridCoord, min_dist: u32, max_dist: u32) -> (r:
    CoordSet)
    requires
        ring_safe(origin, max_dist),
        max_dist < u32::MAX,
    ensures
        r.wf(),
        forall|c: GridCoord|
            #[trigger] r.spec_contains(c) <==> ring_band(origin, c, min_dist, max_dist),
{
    let mut curr_dist: u32 = 1;
    let mut queue: Vec<GridCoord> = Vec::new();
    let mut visited = CoordSet::new();
    let mut attack_range = CoordSet::new();

    queue.push(origin);
    visited.insert(origin);
    proof {
        assert(queue@[0] == origin);
    }

    while curr_dist <= max_dist
        invariant
            1 <= curr_dist <= max_dist + 1,
            max_dist < u32::MAX,
            ring_safe(origin, max_dist),
            visited.wf(),
            attack_range.wf(),
            forall|x: GridCoord|
                #[trigger] visited.spec_contains(x) <==> spec_manhattan(origin, x) <= curr_dist
                    - 1,
            forall|x: GridCoord|
                #[trigger] queue@.contains(x) <==> spec_manhattan(origin, x) == curr_dist - 1,
            forall|x: GridCoord|
                #[trigger] attack_range.spec_contains(x) <==> (1 <= spec_manhattan(origin, x)
                    <= curr_dist - 1 && min_dist <= spec_manhattan(origin, x)),
        decreases max_dist + 1 - curr_dist,
    {
        let mut next_queue: Vec<GridCoord> = Vec::new();
        let record = curr_dist >= min_dist;

        let mut qi: usize = 0;
        while qi < queue.len()
            invariant
                1 <= curr_dist <= max_dist,
                max_dist < u32::MAX,
                ring_safe(origin, max_dist),
                record == (curr_dist >= min_dist),
                0 <= qi <= queue@.len(),
                visited.wf(),
                attack_range.wf(),
                forall|x: GridCoord|
                    #[trigger] queue@.contains(x) <==> spec_manhattan(origin, x) == curr_dist - 1,
                forall|x: GridCoord|
                    #[trigger] visited.spec_contains(x) <==> (spec_manhattan(origin, x) <= curr_dist
                        - 1 || next_queue@.contains(x)),
                forall|i: int|
                    0 <= i < next_queue@.len() ==> spec_manhattan(
                        origin,
                        #[trigger] next_queue@[i],
                    ) == curr_dist,
                forall|x: GridCoord|
                    #[trigger] attack_range.spec_contains(x) <==> ((1 <= spec_manhattan(origin, x)
                        <= curr_dist - 1 && min_dist <= spec_manhattan(origin, x)) || (record
                        && next_queue@.contains(x))),
                forall|j: int, c: GridCoord|
                    0 <= j < qi && #[trigger] adjacent(queue@[j], c) && spec_manhattan(origin, c)
                        == curr_dist ==> next_queue@.contains(c),
            decreases queue@.len() - qi,
        {
            let center = queue[qi];
            proof {
                assert(queue@.contains(queue@[qi as int]));
                assert(spec_manhattan(origin, center) == curr_dist - 1);
                assert(within_i32(center));
            }
            let neighbors = get_neighbors(center);
            let ghost nq0 = next_queue@;

            let mut m: usize = 0;
            while m < 4
                invariant
                    0 <= m <= 4,
                    neighbors@.len() == 4,
                    1 <= curr_dist <= max_dist,
                    ring_safe(origin, max_dist),
                    record == (curr_dist >= min_dist),
                    spec_manhattan(origin, center) == curr_dist - 1,
                    forall|i: int| 0 <= i < 4 ==> adjacent(center, #[trigger] neighbors@[i]),
                    visited.wf(),
                    attack_range.wf(),
                    forall|x: GridCoord|
                        #[trigger] visited.spec_contains(x) <==> (spec_manhattan(origin, x)
                            <= curr_dist - 1 || next_queue@.contains(x)),
                    forall|i: int|
                        0 <= i < next_queue@.len() ==> spec_manhattan(
                            origin,
                            #[trigger] next_queue@[i],
                        ) == curr_dist,
                    forall|x: GridCoord|
                        #[trigger] attack_range.spec_contains(x) <==> ((1 <= spec_manhattan(
                            origin,
                            x,
                        ) <= curr_dist - 1 && min_dist <= spec_manhattan(origin, x)) || (record
                            && next_queue@.contains(x))),
                    next_queue@.len() >= nq0.len(),
                    forall|i: int| 0 <= i < nq0.len() ==> #[trigger] next_queue@[i] == nq0[i],
                    forall|i: int| 0 <= i < m ==> visited.spec_contains(#[trigger] neighbors@[i]),
                decreases 4 - m,
            {
                let nb = neighbors[m];
                proof {
                    lemma_neighbor_dist(origin, center, nb);
                }
                let ghost vis_pre = visited;
                let ghost nq_pre = next_queue@;
                visit_candidate(&mut visited, &mut next_queue, &mut attack_range, nb, record);
                proof {
                    if vis_pre.spec_contains(nb) {
                        assert(next_queue@ == nq_pre);
                    } else {
                        assert(next_queue@ == nq_pre.push(nb));
                    }
                }
                m += 1;
            }
            qi += 1;
            proof {
                assert forall|j: int, c: GridCoord|
                    0 <= j < qi && #[trigger] adjacent(queue@[j], c) && spec_manhattan(origin, c)
                        == curr_dist implies next_queue@.contains(c) by {
                    if j == qi - 1 {
                        assert(queue@[j] == center);
                        lemma_adjacent_in_neighbors(center, c);
                        let i2 = choose|i2: int|
                            0 <= i2 < crate::grid::spec_neighbors(center).len()
                                && crate::grid::spec_neighbors(center)[i2] == c;
                        assert(neighbors@[i2] == c);
                        assert(visited.spec_contains(c));
                    } else {
                        assert(nq0.contains(c));
                        let k = choose|k: int| 0 <= k < nq0.len() && nq0[k] == c;
                        assert(next_queue@[k] == c);
                    }
                }
            }
        }

        proof {
            assert forall|c: GridCoord| spec_manhattan(origin, c) == curr_dist implies next_queue@.contains(
                c,
            ) by {
                let p = lemma_step_down(origin, c);
                assert(queue@.contains(p));
                let j = choose|j: int| 0 <= j < queue@.len() && queue@[j] == p;
                assert(adjacent(queue@[j], c));
            }
            assert forall|x: GridCoord| #[trigger] next_queue@.contains(x) implies spec_manhattan(
                origin,
                x,
            ) == curr_dist by {
                let i = choose|i: int| 0 <= i < next_queue@.len() && next_queue@[i] == x;
            }
        }

        queue = next_queue;
        curr_dist += 1;
    }

    attack_range
}

/// The strike set of a weapon over a whole movement range: every cell in some
/// movement cell's ring band that is not itself a movement destination.
pub fn calculate_attack_range(weapon_range: WeaponRange, movement_range: &CoordSet) -> (r: CoordSet)
    requires
        movement_range.wf(),
        range_max(weapon_range) < u32::MAX,
        forall|m: GridCoord| #[trigger] movement_range.spec_contains(m) ==> ring_safe(
            m,
            range_max(weapon_range),
        ),
    ensures
        r.wf(),
        forall|c: GridCoord|
            #[trigger] r.spec_contains(c) <==> (!movement_range.spec_contains(c) && exists|
                m: GridCoord,
            |
                #[trigger] movement_range.spec_contains(m) && ring_band(
                    m,
                    c,
                    range_min(weapon_range),
                    range_max(weapon_range),
                )),
{
    let (min_dist, max_dist) = match weapon_range {
        WeaponRange::Melee(d) => (0, d),
        WeaponRange::Ranged { min, max } => (min, max),
    };

    let mut range_of_attack = CoordSet::new();
    let items = movement_range.as_vec();
    let mut i: usize = 0;
    while i < items.len()
        invariant
            0 <= i <= items@.len(),
            items@ == movement_range.items_seq(),
            movement_range.wf(),
            min_dist == range_min(weapon_range),
            max_dist == range_max(weapon_range),
            max_dist < u32::MAX,
            forall|m: GridCoord| #[trigger] movement_range.spec_contains(m) ==> ring_safe(
                m,
                max_dist,
            ),
            range_of_attack.wf(),
            forall|c: GridCoord|
                #[trigger] range_of_attack.spec_contains(c) <==> (!movement_range.spec_contains(c)
                    && exists|j: int|
                    0 <= j < i && ring_band(#[trigger] items@[j], c, min_dist, max_dist)),
        decreases items@.len() - i,
    {
        let coord = items[i];
        proof {
            assert(movement_range.spec_contains(items@[i as int]));
        }
        let ring = calculate_attack_range_from_coord(coord, min_dist, max_dist);
        let ring_items = ring.as_vec();
        let mut k: usize = 0;
        while k < ring_items.len()
            invariant
                0 <= k <= ring_items@.len(),
                ring_items@ == ring.items_seq(),
                items@ == movement_range.items_seq(),
                movement_range.wf(),
                0 <= i < items@.len(),
                coord == items@[i as int],
                min_dist == range_min(weapon_range),
                max_dist == range_max(weapon_range),
                range_of_attack.wf(),
                forall|c: GridCoord|
                    #[trigger] ring.spec_contains(c) <==> ring_band(coord, c, min_dist, max_dist),
                forall|c: GridCoord|
                    #[trigger] range_of_attack.spec_contains(c) <==> (!movement_range.spec_contains(
                        c,
                    ) && ((exists|j: int|
                        0 <= j < i && ring_band(#[trigger] items@[j], c, min_dist, max_dist)) || (
                    ring_band(coord, c, min_dist, max_dist) && exists|n: int|
                        0 <= n < k && items_at(ring_items@, n) == c))),
            decreases ring_items@.len() - k,
        {
            let item = ring_items[k];
            proof {
                assert(ring.spec_contains(ring_items@[k as int]));
            }
            if !movement_range.contains(&item) {
                range_of_attack.insert(item);
            }
            k += 1;
            proof {
                assert(items_at(ring_items@, k - 1) == item);
            }
        }
        i += 1;
        proof {
            assert forall|c: GridCoord| #[trigger] range_of_attack.spec_contains(c) implies (
            !movement_range.spec_contains(c) && exists|j: int|
                0 <= j < i && ring_band(#[trigger] items@[j], c, min_dist, max_dist)) by {
                if ring_band(coord, c, min_dist, max_dist) {
                    assert(ring_band(items@[i - 1], c, min_dist, max_dist));
                }
            }
            assert forall|c: GridCoord|
                (!movement_range.spec_contains(c) && exists|j: int|
                    0 <= j < i && ring_band(#[trigger] items@[j], c, min_dist, max_dist)) implies range_of_attack.spec_contains(
                c,
            ) by {
                let j = choose|j: int|
                    0 <= j < i && ring_band(#[trigger] items@[j], c, min_dist, max_dist);
                if j == i - 1 {
                    assert(ring.spec_contains(c));
                    let n = choose|n: int| 0 <= n < ring_items@.len() && ring_items@[n] == c;
                    assert(items_at(ring_items@, n) == c);
                }
            }
        }
    }
    proof {
        assert forall|c: GridCoord| #[trigger] range_of_attack.spec_contains(c) implies (
        !movement_range.spec_contains(c) && exists|m: GridCoord|
            #[trigger] movement_range.spec_contains(m) && ring_band(
                m,
                c,
                range_min(weapon_range),
                range_max(weapon_range),
            )) by {
            let j = choose|j: int|
                0 <= j < items@.len() && ring_band(#[trigger] items@[j], c, min_dist, max_dist);
            assert(movement_range.spec_contains(items@[j]));
        }
        assert forall|c: GridCoord|
            (!movement_range.spec_contains(c) && exists|m: GridCoord|
                #[trigger] movement_range.spec_contains(m) && ring_band(
                    m,
                    c,
                    range_min(weapon_range),
                    range_max(weapon_range),
                )) implies range_of_attack.spec_contains(c) by {
            let m = choose|m: GridCoord|
                #[trigger] movement_range.spec_contains(m) && ring_band(
                    m,
                    c,
                    range_min(weapon_range),
                    range_max(weapon_range),
                );
            let j = choose|j: int| 0 <= j < items@.len() && items@[j] == m;
            assert(ring_band(items@[j], c, min_dist, max_dist));
        }
    }
    range_of_attack
}

/// The `n`-th item of a cell sequence.
pub open spec fn items_at(s: Seq<GridCoord>, n: int) -> GridCoord {
    s[n]
}

} // verus!
