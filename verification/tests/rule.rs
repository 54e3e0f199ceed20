use mazegen::geometry::{Direction, Point};
use mazegen::rule::is_digable;
use mazegen::wall_map::WallMap;

fn map_with_passages(height: usize, width: usize, passages: &[(usize, usize)]) -> WallMap {
    let mut map = WallMap::new(height, width).ok().unwrap();
    for &(i, j) in passages {
        assert!(map.dig(&Point::new(i, j)));
    }
    map
}

#[test]
fn digable_next_to_a_single_passage() {
    let map = map_with_passages(5, 5, &[(1, 1)]);
    let p = Point::new(1, 1);
    assert!(!is_digable(&p, &Direction::Up, &map));
    assert!(is_digable(&p, &Direction::Down, &map));
    assert!(!is_digable(&p, &Direction::Left, &map));
    assert!(is_digable(&p, &Direction::Right, &map));
}

#[test]
fn not_digable_into_a_passage() {
    let map = map_with_passages(5, 5, &[(1, 1), (1, 2)]);
    assert!(!is_digable(&Point::new(1, 1), &Direction::Right, &map));
    assert!(!is_digable(&Point::new(1, 2), &Direction::Left, &map));
    assert!(is_digable(&Point::new(1, 2), &Direction::Right, &map));
}

#[test]
fn not_digable_with_two_passages_around() {
    let map = map_with_passages(5, 5, &[(1, 1), (1, 2), (1, 3), (2, 3), (3, 3), (3, 2)]);
    // (2, 2) has passages above, below and to its right
    assert!(!is_digable(&Point::new(3, 2), &Direction::Up, &map));
    // (3, 1) has one passage around it, (2, 1) has none but (1, 1) and none else
    assert!(is_digable(&Point::new(3, 2), &Direction::Left, &map));
    assert!(is_digable(&Point::new(1, 1), &Direction::Down, &map));
    let map = map_with_passages(5, 5, &[(1, 1), (1, 2), (1, 3), (2, 3), (3, 3), (3, 2), (3, 1)]);
    // now (2, 1) lies between (1, 1) and (3, 1)
    assert!(!is_digable(&Point::new(1, 1), &Direction::Down, &map));
    assert!(!is_digable(&Point::new(3, 1), &Direction::Up, &map));
}

#[test]
fn not_digable_with_four_walls_around() {
    let map = map_with_passages(7, 7, &[(1, 1)]);
    // (3, 3) and its neighbours are all walls
    assert!(!is_digable(&Point::new(3, 2), &Direction::Right, &map));
    assert!(!is_digable(&Point::new(2, 3), &Direction::Down, &map));
}

#[test]
fn digable_from_a_wall_cell_beside_a_passage() {
    let map = map_with_passages(5, 5, &[(1, 1)]);
    // the walk may stand on the wall (1, 3): (1, 2) has the passage (1, 1) to its left
    assert!(is_digable(&Point::new(1, 3), &Direction::Left, &map));
    assert!(is_digable(&Point::new(2, 2), &Direction::Up, &map));
    assert!(is_digable(&Point::new(2, 2), &Direction::Left, &map));
    assert!(!is_digable(&Point::new(2, 2), &Direction::Right, &map));
}

#[test]
fn never_digable_on_or_beyond_the_boundary() {
    let map = map_with_passages(3, 4, &[(1, 1), (1, 2)]);
    assert!(!is_digable(&Point::new(1, 1), &Direction::Up, &map));
    assert!(!is_digable(&Point::new(1, 1), &Direction::Down, &map));
    assert!(!is_digable(&Point::new(1, 1), &Direction::Left, &map));
    assert!(!is_digable(&Point::new(1, 2), &Direction::Right, &map));
    assert!(!is_digable(&Point::new(0, 0), &Direction::Up, &map));
    assert!(!is_digable(&Point::new(0, 0), &Direction::Left, &map));
    assert!(!is_digable(&Point::new(2, 3), &Direction::Down, &map));
    assert!(!is_digable(&Point::new(2, 3), &Direction::Right, &map));
    assert!(!is_digable(&Point::new(usize::MAX, usize::MAX), &Direction::Down, &map));
    assert!(!is_digable(&Point::new(usize::MAX, 1), &Direction::Up, &map));
    assert!(!is_digable(&Point::new(40, 40), &Direction::Left, &map));
}

#[test]
fn strip_lets_the_walk_go_on_to_the_right_only() {
    let map = map_with_passages(3, 6, &[(1, 1), (1, 2)]);
    assert!(is_digable(&Point::new(1, 2), &Direction::Right, &map));
    assert!(!is_digable(&Point::new(1, 2), &Direction::Left, &map));
    assert!(!is_digable(&Point::new(1, 2), &Direction::Up, &map));
    assert!(!is_digable(&Point::new(1, 2), &Direction::Down, &map));
}
