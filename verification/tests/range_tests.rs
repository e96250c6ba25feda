use tactics_core::coord_set::CoordSet;
use tactics_core::grid::{GridCoord, LevelWalls};
use tactics_core::map::UnitsOnMap;
use tactics_core::range::{calculate_attack_range, calculate_attack_range_from_coord, calculate_range};
use tactics_core::units::UnitStats;
use tactics_core::weapon::WeaponRange;

fn set_equals(actual: &CoordSet, expected: &[(i32, i32)]) -> bool {
    if actual.len() != expected.len() {
        return false;
    }
    expected
        .iter()
        .all(|&(x, y)| actual.contains(&GridCoord::new(x, y)))
}

#[test]
fn test_caculate_range_one() {
    let walls = LevelWalls::new(7, 7, None);
    let units_on_map = UnitsOnMap::new();
    let unit_stats = UnitStats { mov: 1, ..Default::default() };

    let range = calculate_range(&GridCoord::new(4, 4), &unit_stats, &units_on_map, &walls);

    assert!(set_equals(&range, &[(4, 4), (3, 4), (4, 3), (5, 4), (4, 5)]));
}

#[test]
fn test_caculate_range_two() {
    let walls = LevelWalls::new(7, 7, None);
    let units_on_map = UnitsOnMap::new();
    let unit_stats = UnitStats { mov: 2, ..Default::default() };

    let range = calculate_range(&GridCoord::new(4, 4), &unit_stats, &units_on_map, &walls);

    assert!(set_equals(
        &range,
        &[
            (4, 4),
            (3, 4),
            (2, 4),
            (3, 5),
            (4, 3),
            (4, 2),
            (3, 3),
            (5, 4),
            (6, 4),
            (5, 3),
            (4, 5),
            (4, 6),
            (5, 5),
        ]
    ));
}

#[test]
fn test_caculate_range_one_with_walls() {
    let mut walls = LevelWalls::new(7, 7, None);
    let units_on_map = UnitsOnMap::new();
    let unit_stats = UnitStats { mov: 1, ..Default::default() };
    walls.insert(GridCoord { x: 3, y: 4 });
    walls.insert(GridCoord { x: 4, y: 5 });

    let range = calculate_range(&GridCoord::new(4, 4), &unit_stats, &units_on_map, &walls);

    assert!(set_equals(&range, &[(4, 4), (4, 3), (5, 4)]));
}

#[test]
fn test_caculate_attack_range_one() {
    let range = calculate_attack_range_from_coord(GridCoord { x: 2, y: 2 }, 0, 1);

    assert!(set_equals(&range, &[(1, 2), (2, 1), (3, 2), (2, 3)]));
}

#[test]
fn test_caculate_attack_range_two_min_one() {
    let range = calculate_attack_range_from_coord(GridCoord::new(2, 2), 2, 2);

    assert!(set_equals(
        &range,
        &[(0, 2), (2, 0), (4, 2), (2, 4), (3, 3), (1, 1), (1, 3), (3, 1)]
    ));
}

#[test]
fn test_caculate_attack_range_two() {
    let range = calculate_attack_range_from_coord(GridCoord::new(2, 2), 0, 2);

    assert!(set_equals(
        &range,
        &[
            (1, 2),
            (2, 1),
            (3, 2),
            (2, 3),
            (0, 2),
            (2, 0),
            (4, 2),
            (2, 4),
            (3, 3),
            (1, 1),
            (1, 3),
            (3, 1),
        ]
    ));
}

#[test]
fn test_caculate_attack_range_two_min_two() {
    let range = calculate_attack_range_from_coord(GridCoord::new(2, 2), 2, 2);

    assert!(set_equals(
        &range,
        &[(0, 2), (2, 0), (4, 2), (2, 4), (3, 3), (1, 1), (1, 3), (3, 1)]
    ));
}

#[test]
fn open_board_range_is_a_full_diamond() {
    let walls = LevelWalls::new(11, 11, None);
    let units_on_map = UnitsOnMap::new();
    let unit_stats = UnitStats { mov: 3, ..Default::default() };
    let origin = GridCoord::new(5, 5);

    let range = calculate_range(&origin, &unit_stats, &units_on_map, &walls);

    // 2 * mov^2 + 2 * mov + 1 cells for mov = 3.
    assert_eq!(range.len(), 25);
    for item in range.as_vec() {
        let dist = (item.x - origin.x).abs() + (item.y - origin.y).abs();
        assert!(dist <= 3);
    }
}

#[test]
fn enemies_block_movement_expansion() {
    let walls = LevelWalls::new(7, 7, None);
    let mut units_on_map = UnitsOnMap::new();
    units_on_map.add(
        &GridCoord::new(4, 3),
        tactics_core::map::UnitId(7),
        tactics_core::map::UnitType::Enemy,
    );
    let unit_stats = UnitStats { mov: 1, ..Default::default() };

    let range = calculate_range(&GridCoord::new(4, 4), &unit_stats, &units_on_map, &walls);

    assert!(set_equals(&range, &[(4, 4), (3, 4), (5, 4), (4, 5)]));
}

#[test]
fn friendly_units_are_passable_but_not_destinations() {
    let walls = LevelWalls::new(7, 7, None);
    let mut units_on_map = UnitsOnMap::new();
    units_on_map.add(
        &GridCoord::new(4, 3),
        tactics_core::map::UnitId(9),
        tactics_core::map::UnitType::Player,
    );
    let unit_stats = UnitStats { mov: 2, ..Default::default() };

    let range = calculate_range(&GridCoord::new(4, 4), &unit_stats, &units_on_map, &walls);

    // The occupied cell is not a destination, but cells beyond it are.
    assert!(!range.contains(&GridCoord::new(4, 3)));
    assert!(range.contains(&GridCoord::new(4, 2)));
    assert!(range.contains(&GridCoord::new(3, 3)));
}

#[test]
fn attack_range_wraps_movement_range_with_melee_ring() {
    let walls = LevelWalls::new(9, 9, None);
    let units_on_map = UnitsOnMap::new();
    let unit_stats = UnitStats { mov: 1, ..Default::default() };
    let origin = GridCoord::new(4, 4);

    let movement = calculate_range(&origin, &unit_stats, &units_on_map, &walls);
    let attack = calculate_attack_range(WeaponRange::Melee(1), &movement);

    // The strike cells around a radius-1 diamond are exactly the ring at
    // Manhattan distance 2.
    assert!(set_equals(
        &attack,
        &[(2, 4), (6, 4), (4, 2), (4, 6), (3, 3), (3, 5), (5, 3), (5, 5)]
    ));
}

#[test]
fn ranged_weapon_attack_band_skips_close_cells() {
    let range = calculate_attack_range_from_coord(GridCoord::new(5, 5), 2, 3);

    // Cells at distance 1 are too close, distances 2 and 3 strike.
    assert!(!range.contains(&GridCoord::new(5, 6)));
    assert!(range.contains(&GridCoord::new(5, 7)));
    assert!(range.contains(&GridCoord::new(5, 8)));
    assert!(!range.contains(&GridCoord::new(5, 9)));
    assert_eq!(range.len(), 8 + 12);
}
