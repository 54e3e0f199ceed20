use mazegen::geometry::Point;
use mazegen::wall_map::{check_size, SizeError, WallMap};

#[test]
fn check_size_accepts_three_and_more() {
    assert_eq!(check_size(3, 3), Ok(()));
    assert_eq!(check_size(3, 100), Ok(()));
    assert_eq!(check_size(100, 3), Ok(()));
}

#[test]
fn check_size_looks_at_the_width_first() {
    assert_eq!(check_size(5, 2), Err(SizeError::WidthTooSmall));
    assert_eq!(check_size(2, 5), Err(SizeError::HeightTooSmall));
    assert_eq!(check_size(2, 2), Err(SizeError::WidthTooSmall));
    assert_eq!(check_size(0, 0), Err(SizeError::WidthTooSmall));
    assert_eq!(check_size(0, 3), Err(SizeError::HeightTooSmall));
}

#[test]
fn new_map_is_solid() {
    let map = WallMap::new(4, 6).ok().unwrap();
    assert_eq!(map.height(), 4);
    assert_eq!(map.width(), 6);
    for i in 0..4 {
        for j in 0..6 {
            assert!(map.is_wall(&Point::new(i, j)));
        }
    }
}

#[test]
fn new_map_refuses_small_sizes() {
    assert_eq!(WallMap::new(2, 3).err(), Some(SizeError::HeightTooSmall));
    assert_eq!(WallMap::new(3, 2).err(), Some(SizeError::WidthTooSmall));
    assert_eq!(WallMap::new(1, 1).err(), Some(SizeError::WidthTooSmall));
    assert!(WallMap::new(3, 3).is_ok());
}

#[test]
fn dig_opens_one_interior_cell() {
    let mut map = WallMap::new(4, 5).ok().unwrap();
    assert!(map.dig(&Point::new(2, 3)));
    for i in 0..4 {
        for j in 0..5 {
            assert_eq!(map.is_wall(&Point::new(i, j)), !(i == 2 && j == 3));
        }
    }
    assert!(map.dig(&Point::new(2, 3)));
    assert!(!map.is_wall(&Point::new(2, 3)));
}

#[test]
fn dig_leaves_the_boundary_walled() {
    let mut map = WallMap::new(4, 5).ok().unwrap();
    for p in [
        Point::new(0, 0),
        Point::new(0, 2),
        Point::new(3, 2),
        Point::new(2, 0),
        Point::new(2, 4),
        Point::new(3, 4),
    ] {
        assert!(!map.dig(&p));
        assert!(map.is_wall(&p));
    }
    for i in 0..4 {
        for j in 0..5 {
            assert!(map.is_wall(&Point::new(i, j)));
        }
    }
}
