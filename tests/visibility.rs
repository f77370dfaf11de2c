use roguelike::fov::FovMap;

fn open_map(width: i32, height: i32) -> FovMap {
    FovMap::new(width, height)
}

fn sight_of(m: &FovMap, width: i32, height: i32) -> Vec<bool> {
    let mut v = Vec::new();
    for x in 0..width {
        for y in 0..height {
            v.push(m.is_in_sight(x, y));
        }
    }
    v
}

#[test]
fn new_map_is_clear() {
    let m = open_map(4, 3);
    assert_eq!(m.get_width(), 4);
    assert_eq!(m.get_height(), 3);
    for x in 0..4 {
        for y in 0..3 {
            assert!(!m.is_obstacle(x, y));
            assert!(!m.is_in_sight(x, y));
        }
    }
}

#[test]
fn set_marks_only_one_cell() {
    let mut m = open_map(3, 3);
    m.set(2, 1, true);
    assert!(m.is_obstacle(2, 1));
    assert!(!m.is_obstacle(1, 2));
    m.set(2, 1, false);
    assert!(!m.is_obstacle(2, 1));
}

#[test]
fn radius_zero_sees_only_observer() {
    let mut m = open_map(5, 5);
    m.compute_fov(2, 2, 0);
    for x in 0..5 {
        for y in 0..5 {
            assert_eq!(m.is_in_sight(x, y), (x, y) == (2, 2));
        }
    }
}

#[test]
fn open_three_by_three_all_visible() {
    let mut m = open_map(3, 3);
    m.compute_fov(1, 1, 5);
    for x in 0..3 {
        for y in 0..3 {
            assert!(m.is_in_sight(x, y), "({}, {})", x, y);
        }
    }
}

#[test]
fn wall_north_hides_cell_beyond() {
    // observer on the bottom row, a wall right above it
    let mut m = open_map(3, 3);
    m.set(1, 1, true);
    m.compute_fov(1, 2, 2);
    assert!(!m.is_in_sight(1, 0));
    assert!(m.is_in_sight(0, 2));
    assert!(m.is_in_sight(2, 2));
    assert!(m.is_in_sight(1, 1));
}

#[test]
fn obstacle_occludes_target_on_same_ray() {
    let mut m = open_map(5, 5);
    m.set(2, 1, true);
    m.compute_fov(2, 2, 5);
    assert!(m.is_in_sight(2, 1));
    assert!(!m.is_in_sight(2, 0));
    assert!(m.is_in_sight(0, 2));
    assert!(m.is_in_sight(4, 2));
    assert!(m.is_in_sight(2, 4));
}

#[test]
fn without_obstacle_target_is_visible() {
    let mut m = open_map(5, 5);
    m.compute_fov(2, 2, 5);
    assert!(m.is_in_sight(2, 0));
}

#[test]
fn cells_at_radius_are_excluded() {
    let mut m = open_map(7, 1);
    m.compute_fov(0, 0, 3);
    assert!(m.is_in_sight(0, 0));
    assert!(m.is_in_sight(1, 0));
    assert!(m.is_in_sight(2, 0));
    assert!(!m.is_in_sight(3, 0));
    assert!(!m.is_in_sight(6, 0));
}

#[test]
fn recompute_gives_same_sight() {
    let mut m = open_map(9, 7);
    m.set(3, 3, true);
    m.set(5, 2, true);
    m.set(4, 5, true);
    m.compute_fov(4, 3, 6);
    let first = sight_of(&m, 9, 7);
    m.compute_fov(4, 3, 6);
    let second = sight_of(&m, 9, 7);
    assert_eq!(first, second);
}

#[test]
fn recompute_clears_old_sight() {
    let mut m = open_map(9, 1);
    m.compute_fov(0, 0, 3);
    assert!(m.is_in_sight(1, 0));
    m.compute_fov(8, 0, 3);
    assert!(!m.is_in_sight(1, 0));
    assert!(m.is_in_sight(7, 0));
}

#[test]
fn observer_on_corner_stays_in_bounds() {
    let mut m = open_map(4, 4);
    m.compute_fov(0, 0, 10);
    assert!(m.is_in_sight(3, 3));
    m.compute_fov(3, 3, 10);
    assert!(m.is_in_sight(0, 0));
}

#[test]
fn obstacle_itself_is_visible_but_not_beyond_in_corridor() {
    let mut m = open_map(6, 1);
    m.set(2, 0, true);
    m.compute_fov(0, 0, 8);
    assert!(m.is_in_sight(1, 0));
    assert!(m.is_in_sight(2, 0));
    assert!(!m.is_in_sight(3, 0));
}
