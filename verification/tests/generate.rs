use mazegen::generate::generate;
use mazegen::geometry::Point;
use mazegen::render::{render_map, render_map_csv};
use mazegen::wall_map::{SizeError, WallMap};
use rand::rngs::StdRng;
use rand::SeedableRng;

fn made(height: usize, width: usize, seed: u64) -> WallMap {
    let mut rng = StdRng::seed_from_u64(seed);
    generate(height, width, &mut rng).ok().unwrap()
}

fn is_passage(map: &WallMap, i: usize, j: usize) -> bool {
    !map.is_wall(&Point::new(i, j))
}

fn count_passages(map: &WallMap) -> usize {
    let mut n = 0;
    for i in 0..map.height() {
        for j in 0..map.width() {
            if is_passage(map, i, j) {
                n += 1;
            }
        }
    }
    n
}

fn count_links(map: &WallMap) -> usize {
    let mut n = 0;
    for i in 0..map.height() - 1 {
        for j in 0..map.width() - 1 {
            if is_passage(map, i, j) {
                if is_passage(map, i + 1, j) {
                    n += 1;
                }
                if is_passage(map, i, j + 1) {
                    n += 1;
                }
            }
        }
    }
    n
}

fn count_reached(map: &WallMap) -> usize {
    let (h, w) = (map.height(), map.width());
    let mut seen = vec![vec![false; w]; h];
    let mut stack = vec![(1usize, 1usize)];
    seen[1][1] = true;
    let mut n = 0;
    while let Some((i, j)) = stack.pop() {
        n += 1;
        for (a, b) in [(i - 1, j), (i + 1, j), (i, j - 1), (i, j + 1)] {
            if is_passage(map, a, b) && !seen[a][b] {
                seen[a][b] = true;
                stack.push((a, b));
            }
        }
    }
    n
}

const SIZES: [(usize, usize); 8] =
    [(3, 3), (3, 4), (4, 3), (4, 4), (5, 5), (7, 12), (16, 9), (25, 40)];

#[test]
fn generate_refuses_small_sizes() {
    let mut rng = StdRng::seed_from_u64(1);
    assert_eq!(generate(2, 5, &mut rng).err(), Some(SizeError::HeightTooSmall));
    assert_eq!(generate(5, 2, &mut rng).err(), Some(SizeError::WidthTooSmall));
    assert_eq!(generate(2, 2, &mut rng).err(), Some(SizeError::WidthTooSmall));
    assert_eq!(generate(0, 9, &mut rng).err(), Some(SizeError::HeightTooSmall));
}

#[test]
fn generate_keeps_the_size() {
    for (height, width) in SIZES {
        let map = made(height, width, 3);
        assert_eq!(map.height(), height);
        assert_eq!(map.width(), width);
    }
}

#[test]
fn every_passage_is_reached_from_the_entrance() {
    for (height, width) in SIZES {
        for seed in 0..6 {
            let map = made(height, width, seed);
            assert!(is_passage(&map, 1, 1));
            assert_eq!(count_reached(&map), count_passages(&map));
        }
    }
}

#[test]
fn passages_form_a_tree() {
    for (height, width) in SIZES {
        for seed in 0..6 {
            let map = made(height, width, seed);
            assert_eq!(count_passages(&map), count_links(&map) + 1);
        }
    }
}

#[test]
fn no_block_of_four_is_open() {
    for (height, width) in SIZES {
        for seed in 0..6 {
            let map = made(height, width, seed);
            for i in 0..height - 1 {
                for j in 0..width - 1 {
                    let open = is_passage(&map, i, j) && is_passage(&map, i + 1, j)
                        && is_passage(&map, i, j + 1) && is_passage(&map, i + 1, j + 1);
                    assert!(!open);
                }
            }
        }
    }
}

#[test]
fn boundary_stays_walled() {
    for (height, width) in SIZES {
        for seed in 0..6 {
            let map = made(height, width, seed);
            for i in 0..height {
                assert!(map.is_wall(&Point::new(i, 0)));
                assert!(map.is_wall(&Point::new(i, width - 1)));
            }
            for j in 0..width {
                assert!(map.is_wall(&Point::new(0, j)));
                assert!(map.is_wall(&Point::new(height - 1, j)));
            }
        }
    }
}

#[test]
fn same_seed_gives_the_same_maze() {
    for (height, width) in SIZES {
        let first = made(height, width, 42);
        let second = made(height, width, 42);
        assert_eq!(render_map_csv(&first), render_map_csv(&second));
    }
}

#[test]
fn seeds_give_different_mazes() {
    let mut seen = Vec::new();
    for seed in 0..20 {
        let text = render_map_csv(&made(9, 9, seed));
        if !seen.contains(&text) {
            seen.push(text);
        }
    }
    assert!(seen.len() > 1);
}

#[test]
fn three_by_three_has_one_passage() {
    let map = made(3, 3, 7);
    for i in 0..3 {
        for j in 0..3 {
            assert_eq!(map.is_wall(&Point::new(i, j)), !(i == 1 && j == 1));
        }
    }
    assert_eq!(
        render_map(&map),
        "\u{25A0} \u{25A0} \u{25A0}\n\u{25A0}   \u{25A0}\n\u{25A0} \u{25A0} \u{25A0}\n"
    );
    assert_eq!(render_map_csv(&map), "1,1,1\n1,0,1\n1,1,1\n");
}

#[test]
fn three_by_hundred_is_a_straight_corridor() {
    for seed in 0..4 {
        let map = made(3, 100, seed);
        for j in 0..100 {
            assert!(map.is_wall(&Point::new(0, j)));
            assert!(map.is_wall(&Point::new(2, j)));
            assert_eq!(map.is_wall(&Point::new(1, j)), j == 0 || j == 99);
        }
        assert_eq!(count_passages(&map), 98);
    }
}

#[test]
fn hundred_by_three_is_a_straight_corridor() {
    let map = made(100, 3, 9);
    for i in 0..100 {
        assert!(map.is_wall(&Point::new(i, 0)));
        assert!(map.is_wall(&Point::new(i, 2)));
        assert_eq!(map.is_wall(&Point::new(i, 1)), i == 0 || i == 99);
    }
}

#[test]
fn four_by_four_opens_three_cells() {
    // around the 2x2 interior the walk can dig two cells more, never the fourth
    for seed in 0..10 {
        let map = made(4, 4, seed);
        assert_eq!(count_passages(&map), 3);
        assert!(map.is_wall(&Point::new(2, 2)) || map.is_wall(&Point::new(1, 2))
            || map.is_wall(&Point::new(2, 1)));
    }
}
