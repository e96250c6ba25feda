use tactics_core::grid::{GridCoord, LevelWalls, get_neighbors, manhattan_dist};
use tactics_core::map::{UnitId, UnitType, UnitsOnMap};
use tactics_core::path::get_movement_path;
use tactics_core::units::Teams;

#[test]
fn manhattan_distance_is_the_coordinate_sum() {
    assert_eq!(manhattan_dist(GridCoord::new(0, 0), GridCoord::new(3, 4)), 7);
    assert_eq!(manhattan_dist(GridCoord::new(3, 4), GridCoord::new(0, 0)), 7);
    assert_eq!(manhattan_dist(GridCoord::new(-2, 5), GridCoord::new(2, 1)), 8);
    assert_eq!(manhattan_dist(GridCoord::new(1, 1), GridCoord::new(1, 1)), 0);
}

#[test]
fn neighbors_come_in_fixed_order() {
    let ns = get_neighbors(GridCoord::new(2, 2));
    assert_eq!(
        ns,
        vec![
            GridCoord::new(2, 1),
            GridCoord::new(2, 3),
            GridCoord::new(1, 2),
            GridCoord::new(3, 2),
        ]
    );
}

#[test]
fn walls_cover_out_of_bounds_and_listed_cells() {
    let mut walls = LevelWalls::new(5, 7, None);
    assert!(walls.in_wall(&GridCoord::new(-1, 0)));
    assert!(walls.in_wall(&GridCoord::new(0, -1)));
    assert!(walls.in_wall(&GridCoord::new(7, 0)));
    assert!(walls.in_wall(&GridCoord::new(0, 5)));
    assert!(!walls.in_wall(&GridCoord::new(3, 3)));
    walls.insert(GridCoord::new(3, 3));
    assert!(walls.in_wall(&GridCoord::new(3, 3)));
}

#[test]
fn occupancy_map_partitions_factions() {
    let mut map = UnitsOnMap::new();
    let a = GridCoord::new(1, 1);
    let b = GridCoord::new(2, 2);
    map.add(&a, UnitId(10), UnitType::Player);
    map.add(&b, UnitId(20), UnitType::Enemy);

    assert!(map.contains(&a));
    assert!(map.is_player(&a));
    assert!(!map.is_enemy(&a));
    assert!(map.is_enemy(&b));
    assert_eq!(map.get(&a), Some(UnitId(10)));
    assert_eq!(map.get(&b), Some(UnitId(20)));
    assert_eq!(map.get(&GridCoord::new(0, 0)), None);

    map.remove(&a);
    assert!(!map.contains(&a));
    assert_eq!(map.get(&a), None);

    map.clear();
    assert!(!map.contains(&b));
}

#[test]
fn occupancy_add_replaces_in_place() {
    let mut map = UnitsOnMap::new();
    let a = GridCoord::new(1, 1);
    map.add(&a, UnitId(10), UnitType::Player);
    map.add(&a, UnitId(11), UnitType::Player);
    assert_eq!(map.get(&a), Some(UnitId(11)));
}

#[test]
fn teams_count_distinct_units() {
    let mut teams = Teams::new();
    assert_eq!(teams.count(), 0);
    teams.add(UnitId(1));
    teams.add(UnitId(2));
    teams.add(UnitId(1));
    assert_eq!(teams.count(), 2);
    assert!(teams.contains(&UnitId(1)));
    assert!(!teams.contains(&UnitId(3)));
    teams.clear();
    assert_eq!(teams.count(), 0);
}

#[test]
fn path_runs_straight_on_an_open_board() {
    let walls = LevelWalls::new(7, 7, None);
    let path = get_movement_path(GridCoord::new(4, 1), GridCoord::new(1, 1), &walls, 5);
    let path = path.expect("the target lies within the budget");
    assert_eq!(path.first(), Some(&GridCoord::new(1, 1)));
    assert_eq!(path.last(), Some(&GridCoord::new(4, 1)));
    assert_eq!(path.len(), 4);
    for pair in path.windows(2) {
        assert_eq!(manhattan_dist(pair[0], pair[1]), 1);
    }
}

#[test]
fn path_respects_the_movement_budget() {
    let walls = LevelWalls::new(7, 7, None);
    assert!(get_movement_path(GridCoord::new(6, 1), GridCoord::new(1, 1), &walls, 4).is_none());
    assert!(get_movement_path(GridCoord::new(6, 1), GridCoord::new(1, 1), &walls, 5).is_some());
}

#[test]
fn path_to_the_start_is_the_single_cell() {
    let walls = LevelWalls::new(7, 7, None);
    let path = get_movement_path(GridCoord::new(1, 1), GridCoord::new(1, 1), &walls, 0);
    assert_eq!(path, Some(vec![GridCoord::new(1, 1)]));
}

#[test]
fn walls_block_path_discovery() {
    // A wall bar across the corridor: the only route around costs too much.
    let mut walls = LevelWalls::new(3, 5, None);
    walls.insert(GridCoord::new(2, 0));
    walls.insert(GridCoord::new(2, 1));
    walls.insert(GridCoord::new(2, 2));
    assert!(get_movement_path(GridCoord::new(4, 1), GridCoord::new(0, 1), &walls, 6).is_none());

    // Opening one gap restores a route and it threads the gap.
    let mut open_walls = LevelWalls::new(3, 5, None);
    open_walls.insert(GridCoord::new(2, 0));
    open_walls.insert(GridCoord::new(2, 1));
    let path = get_movement_path(GridCoord::new(4, 1), GridCoord::new(0, 1), &open_walls, 6);
    let path = path.expect("the gap at the top lets a route through");
    assert!(path.contains(&GridCoord::new(2, 2)));
}

#[test]
fn path_takes_the_shortest_detour() {
    // A wall bar forces a detour through the single gap; the found path is
    // exactly as long as the shortest detour.
    let mut walls = LevelWalls::new(3, 5, None);
    walls.insert(GridCoord::new(2, 0));
    walls.insert(GridCoord::new(2, 1));
    let path = get_movement_path(GridCoord::new(4, 1), GridCoord::new(0, 1), &walls, 8);
    let path = path.expect("the gap keeps the target reachable");
    // Straight line would be 5 cells; the detour through (2, 2) costs 2 more.
    assert_eq!(path.len(), 7);
}
