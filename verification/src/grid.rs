//! Grid math: cell coordinates, Manhattan distance, the fixed 4-neighborhood,
//! and the wall map that marks cells as blocked.

use vstd::prelude::*;

verus! {

/// An integer (x, y) pair identifying a cell of the battle grid.
#[derive(Clone, Copy, PartialEq, Eq, Structural, Hash, Debug)]
pub struct GridCoord {
    pub x: i32,
    pub y: i32,
}

impl GridCoord {
    pub fn new(x: i32, y: i32) -> (c: GridCoord)
        ensures
            c == (GridCoord { x, y }),
    {
        GridCoord { x, y }
    }
}

/// Absolute difference of two mathematical integers.
pub open spec fn abs_diff(a: int, b: int) -> int {
    if a >= b {
        a - b
    } else {
        b - a
    }
}

/// Manhattan distance between two cells, as a mathematical integer.
pub open spec fn spec_manhattan(a: GridCoord, b: GridCoord) -> int {
    abs_diff(a.x as int, b.x as int) + abs_diff(a.y as int, b.y as int)
}

/// Two cells are adjacent when they are one axis step apart.
pub open spec fn adjacent(a: GridCoord, b: GridCoord) -> bool {
    spec_manhattan(a, b) == 1
}

/// Manhattan distance `|ax - bx| + |ay - by|`.
pub fn manhattan_dist(start: GridCoord, end: GridCoord) -> (d: u32)
    requires
        spec_manhattan(start, end) <= u32::MAX,
    ensures
        d == spec_manhattan(start, end),
{
    let dx: i64 = end.x as i64 - start.x as i64;
    let dy: i64 = end.y as i64 - start.y as i64;
    let ax: i64 = if dx >= 0 { dx } else { -dx };
    let ay: i64 = if dy >= 0 { dy } else { -dy };
    (ax + ay) as u32
}

/// The 4 axis-adjacent cells of `center`, in the fixed order
/// down, up, left, right. The order is part of the contract: it decides
/// which equal-cost path the pathfinder discovers first.
pub open spec fn spec_neighbors(center: GridCoord) -> Seq<GridCoord> {
    seq![
        GridCoord { x: center.x, y: (center.y - 1) as i32 },
        GridCoord { x: center.x, y: (center.y + 1) as i32 },
        GridCoord { x: (center.x - 1) as i32, y: center.y },
        GridCoord { x: (center.x + 1) as i32, y: center.y },
    ]
}

pub fn get_neighbors(center: GridCoord) -> (ns: Vec<GridCoord>)
    requires
        i32::MIN < center.x < i32::MAX,
        i32::MIN < center.y < i32::MAX,
    ensures
        ns@ == spec_neighbors(center),
        forall|i: int| 0 <= i < ns@.len() ==> adjacent(center, #[trigger] ns@[i]),
{
    let ns = vec![
        GridCoord { x: center.x, y: center.y - 1 },
        GridCoord { x: center.x, y: center.y + 1 },
        GridCoord { x: center.x - 1, y: center.y },
        GridCoord { x: center.x + 1, y: center.y },
    ];
    proof {
        assert(ns@ =~= spec_neighbors(center));
    }
    ns
}

/// Both fields of the pair stay strictly inside the i32 range, so the four
/// neighbors exist without wrapping.
pub open spec fn within_i32(c: GridCoord) -> bool {
    i32::MIN < c.x < i32::MAX && i32::MIN < c.y < i32::MAX
}

/// The level's blocked cells and bounds. A coordinate is "in a wall" when it
/// lies outside `[0, width) x [0, height)` or is listed as blocked.
#[derive(Debug)]
pub struct LevelWalls {
    wall_locations: Vec<GridCoord>,
    level_width: i32,
    level_height: i32,
}

impl LevelWalls {
    /// The level's width in cells.
    pub closed spec fn spec_width(&self) -> i32 {
        self.level_width
    }

    /// The level's height in cells.
    pub closed spec fn spec_height(&self) -> i32 {
        self.level_height
    }

    /// The listed blocked cells.
    pub closed spec fn walls_seq(&self) -> Seq<GridCoord> {
        self.wall_locations@
    }

    /// `c` is out of the level's bounds or listed as blocked.
    pub open spec fn spec_in_wall(&self, c: GridCoord) -> bool {
        c.x < 0 || c.y < 0 || c.x >= self.spec_width() || c.y >= self.spec_height()
            || self.walls_seq().contains(c)
    }

    pub fn new(height: i32, width: i32, walls: Option<Vec<GridCoord>>) -> (r: LevelWalls)
        ensures
            r.spec_height() == height,
            r.spec_width() == width,
            r.walls_seq() == (match walls {
                Some(v) => v@,
                None => Seq::<GridCoord>::empty(),
            }),
    {
        let wall_locations = match walls {
            Some(v) => v,
            None => Vec::new(),
        };
        LevelWalls { level_height: height, level_width: width, wall_locations }
    }

    /// Marks one more cell as blocked.
    pub fn insert(&mut self, grid_coords: GridCoord)
        ensures
            final(self).spec_width() == old(self).spec_width(),
            final(self).spec_height() == old(self).spec_height(),
            forall|c: GridCoord|
                final(self).spec_in_wall(c) <==> (old(self).spec_in_wall(c) || c == grid_coords),
    {
        self.wall_locations.push(grid_coords);
        proof {
            assert forall|c: GridCoord|
                self.spec_in_wall(c) <==> (old(self).spec_in_wall(c) || c == grid_coords) by {
                if old(self).walls_seq().contains(c) {
                    let i = choose|i: int|
                        0 <= i < old(self).walls_seq().len() && old(self).walls_seq()[i] == c;
                    assert(self.walls_seq()[i] == c);
                }
                if c == grid_coords {
                    assert(self.walls_seq()[self.walls_seq().len() - 1] == c);
                }
                if self.walls_seq().contains(c) {
                    let i = choose|i: int|
                        0 <= i < self.walls_seq().len() && self.walls_seq()[i] == c;
                    if i < self.walls_seq().len() - 1 {
                        assert(old(self).walls_seq()[i] == c);
                    }
                }
            }
        }
    }

    /// Returns true when a coordinate is outside of the map area, or is a
    /// wall.
    pub fn in_wall(&self, grid_coords: &GridCoord) -> (r: bool)
        ensures
            r == self.spec_in_wall(*grid_coords),
    {
        if grid_coords.x < 0 || grid_coords.y < 0 || grid_coords.x >= self.level_width
            || grid_coords.y >= self.level_height {
            return true;
        }
        let mut i: usize = 0;
        while i < self.wall_locations.len()
            invariant
                0 <= i <= self.walls_seq().len(),
                forall|j: int| 0 <= j < i ==> self.walls_seq()[j] != *grid_coords,
            decreases self.walls_seq().len() - i,
        {
            if self.wall_locations[i] == *grid_coords {
                return true;
            }
            i += 1;
        }
        false
    }
}

/// A cell inside the level's bounds never sits at the edge of the i32 range,
/// so its four neighbors exist without wrapping.
pub proof fn lemma_unblocked_within(walls: LevelWalls, c: GridCoord)
    requires
        !walls.spec_in_wall(c),
    ensures
        within_i32(c),
{
}

/// One axis step changes the Manhattan distance to any fixed cell by exactly
/// one.
pub proof fn lemma_neighbor_dist(o: GridCoord, c: GridCoord, n: GridCoord)
    requires
        adjacent(c, n),
    ensures
        spec_manhattan(o, n) == spec_manhattan(o, c) + 1 || spec_manhattan(o, n) == spec_manhattan(
            o,
            c,
        ) - 1,
{
}

/// A cell adjacent to `center` is one of its four listed neighbors.
pub proof fn lemma_adjacent_in_neighbors(center: GridCoord, c: GridCoord)
    requires
        adjacent(center, c),
        within_i32(center),
    ensures
        spec_neighbors(center).contains(c),
{
    let ns = spec_neighbors(center);
    if c.x == center.x && c.y == center.y - 1 {
        assert(ns[0] == c);
    } else if c.x == center.x && c.y == center.y + 1 {
        assert(ns[1] == c);
    } else if c.y == center.y && c.x == center.x - 1 {
        assert(ns[2] == c);
    } else {
        assert(ns[3] == c);
    }
}

/// Every cell at positive distance from `o` has a neighbor one step closer
/// to `o`; the step is taken along the x axis first.
pub proof fn lemma_step_down(o: GridCoord, c: GridCoord) -> (p: GridCoord)
    requires
        spec_manhattan(o, c) >= 1,
    ensures
        adjacent(p, c),
        adjacent(c, p),
        spec_manhattan(o, p) == spec_manhattan(o, c) - 1,
{
    if c.x > o.x {
        GridCoord { x: (c.x - 1) as i32, y: c.y }
    } else if c.x < o.x {
        GridCoord { x: (c.x + 1) as i32, y: c.y }
    } else if c.y > o.y {
        GridCoord { x: c.x, y: (c.y - 1) as i32 }
    } else {
        GridCoord { x: c.x, y: (c.y + 1) as i32 }
    }
}

} // verus!
