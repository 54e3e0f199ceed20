use mazegen::frontier::Frontier;
use mazegen::geometry::Point;
use rand::rngs::StdRng;
use rand::SeedableRng;

fn listed(f: &Frontier) -> Vec<(usize, usize)> {
    let mut cells = Vec::new();
    for k in 0..f.len() {
        let p = f.pick(k);
        cells.push((p.x, p.y));
    }
    cells
}

#[test]
fn new_frontier_holds_every_interior_cell_row_by_row() {
    let f = Frontier::new(4, 5);
    assert_eq!(f.len(), 6);
    assert!(!f.is_empty());
    assert_eq!(listed(&f), vec![(1, 1), (1, 2), (1, 3), (2, 1), (2, 2), (2, 3)]);
    for i in 0..4 {
        for j in 0..5 {
            let inside = 1 <= i && i <= 2 && 1 <= j && j <= 3;
            assert_eq!(f.contains(&Point::new(i, j)), inside);
        }
    }
    assert!(!f.contains(&Point::new(9, 9)));
}

#[test]
fn new_frontier_of_the_smallest_map_holds_one_cell() {
    let f = Frontier::new(3, 3);
    assert_eq!(listed(&f), vec![(1, 1)]);
}

#[test]
fn new_frontier_of_a_map_without_interior_is_empty() {
    for (h, w) in [(0, 0), (2, 7), (7, 2), (1, 1), (0, 5)] {
        let f = Frontier::new(h, w);
        assert!(f.is_empty());
        assert_eq!(f.len(), 0);
        assert!(!f.contains(&Point::new(1, 1)));
    }
}

#[test]
fn remove_moves_the_last_cell_into_the_gap() {
    let mut f = Frontier::new(4, 5);
    f.remove(&Point::new(1, 2));
    assert_eq!(listed(&f), vec![(1, 1), (2, 3), (1, 3), (2, 1), (2, 2)]);
    assert!(!f.contains(&Point::new(1, 2)));
    f.remove(&Point::new(2, 3));
    assert_eq!(listed(&f), vec![(1, 1), (2, 2), (1, 3), (2, 1)]);
    f.remove(&Point::new(2, 2));
    assert_eq!(listed(&f), vec![(1, 1), (2, 1), (1, 3)]);
    assert!(f.contains(&Point::new(2, 1)));
    assert!(f.contains(&Point::new(1, 3)));
    assert!(!f.contains(&Point::new(2, 2)));
}

#[test]
fn remove_of_the_last_cell_shortens_only() {
    let mut f = Frontier::new(4, 5);
    f.remove(&Point::new(2, 3));
    assert_eq!(listed(&f), vec![(1, 1), (1, 2), (1, 3), (2, 1), (2, 2)]);
}

#[test]
fn remove_of_an_absent_cell_changes_nothing() {
    let mut f = Frontier::new(4, 5);
    f.remove(&Point::new(1, 2));
    let before = listed(&f);
    f.remove(&Point::new(1, 2));
    assert_eq!(listed(&f), before);
    f.remove(&Point::new(0, 0));
    assert_eq!(listed(&f), before);
    f.remove(&Point::new(3, 4));
    assert_eq!(listed(&f), before);
    f.remove(&Point::new(50, 1));
    assert_eq!(listed(&f), before);
    f.remove(&Point::new(1, 50));
    assert_eq!(listed(&f), before);
}

#[test]
fn remove_until_empty() {
    let mut f = Frontier::new(3, 4);
    assert_eq!(f.len(), 2);
    f.remove(&Point::new(1, 1));
    assert_eq!(listed(&f), vec![(1, 2)]);
    f.remove(&Point::new(1, 2));
    assert!(f.is_empty());
    f.remove(&Point::new(1, 2));
    assert!(f.is_empty());
}

#[test]
fn pick_random_returns_a_cell_of_the_frontier() {
    let mut rng = StdRng::seed_from_u64(11);
    let mut f = Frontier::new(5, 6);
    f.remove(&Point::new(2, 2));
    f.remove(&Point::new(1, 1));
    for _ in 0..200 {
        let p = f.pick_random(&mut rng);
        assert!(f.contains(&p));
    }
}

#[test]
fn pick_random_reaches_every_cell() {
    let mut rng = StdRng::seed_from_u64(5);
    let f = Frontier::new(4, 5);
    let mut seen = vec![false; 6];
    for _ in 0..500 {
        let p = f.pick_random(&mut rng);
        seen[(p.x - 1) * 3 + (p.y - 1)] = true;
    }
    assert_eq!(seen, vec![true; 6]);
}

#[test]
fn pick_random_of_a_single_cell() {
    let mut rng = StdRng::seed_from_u64(0);
    let f = Frontier::new(3, 3);
    assert_eq!(f.pick_random(&mut rng), Point::new(1, 1));
}
