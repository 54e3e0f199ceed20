//! The rule that decides which wall may be dug, and why digging by the rule
//! keeps a perfect maze perfect.

use vstd::prelude::*;
use crate::geometry::{adjacent, Cell, Direction, Point};
use crate::plan::{entrance, Plan};
use crate::wall_map::WallMap;

verus! {

impl Plan {
    /// The cell `c` may be dug: it is not on the boundary, it is a wall, and
    /// exactly three of its four neighbours are walls.
    pub open spec fn diggable(self, c: Cell) -> bool {
        &&& self.interior(c)
        &&& self.wall(c)
        &&& self.walls_around(c) == 3
    }

    /// The one neighbour of a diggable cell that is a passage.
    pub open spec fn door(self, c: Cell) -> Cell {
        if self.passage(Direction::Up.from(c)) {
            Direction::Up.from(c)
        } else if self.passage(Direction::Down.from(c)) {
            Direction::Down.from(c)
        } else if self.passage(Direction::Left.from(c)) {
            Direction::Left.from(c)
        } else {
            Direction::Right.from(c)
        }
    }

    /// The pair that a newly dug cell `c` forms with its door, written as
    /// [`Plan::link`] orders a pair.
    pub open spec fn new_link(self, c: Cell) -> (Cell, Cell) {
        let n = self.door(c);
        if n == Direction::Up.from(c) || n == Direction::Left.from(c) {
            (n, c)
        } else {
            (c, n)
        }
    }
}

/// Whether the walk may dig from `p` in direction `d`: whether the neighbour
/// of `p` in that direction is a cell of `m` that the rule lets dig. A
/// neighbour outside the map, or on its boundary, is never dug.
pub fn is_digable(p: &Point, d: &Direction, m: &WallMap) -> (b: bool)
    requires
        m.wf(),
    ensures
        b == m@.diggable(d.from(p@)),
{
    let h = m.height();
    let w = m.width();
    match p.neighbour(*d) {
        None => false,
        Some(q) => {
            if !((0 < q.x && q.x < h - 1) && (0 < q.y && q.y < w - 1)) {
                return false;
            }
            if !m.is_wall(&q) {
                return false;
            }
            let mut wall_count: usize = 0;
            if m.is_wall(&Point::new(q.x - 1, q.y)) {
                wall_count += 1;
            }
            if m.is_wall(&Point::new(q.x + 1, q.y)) {
                wall_count += 1;
            }
            if m.is_wall(&Point::new(q.x, q.y - 1)) {
                wall_count += 1;
            }
            if m.is_wall(&Point::new(q.x, q.y + 1)) {
                wall_count += 1;
            }
            wall_count == 3
        },
    }
}

/// Digging a cell changes that cell and no other.
pub proof fn lemma_dug_cells(p: Plan, q: Cell)
    requires
        p.shaped(),
        p.inside(q),
    ensures
        p.dug(q).shaped(),
        p.dug(q).height() == p.height(),
        p.dug(q).width() == p.width(),
        forall|c: Cell| #[trigger] p.dug(q).passage(c) <==> p.passage(c) || c == q,
        forall|c: Cell| #[trigger] p.dug(q).wall(c) <==> p.wall(c) && c != q,
{
    let d = p.dug(q);
    assert(d.walls.len() == p.walls.len());
    assert forall|i: int| 0 <= i < d.height() implies (#[trigger] d.walls[i]).len() == p.width() by {
        assert(p.walls[i].len() == p.width());
    }
    assert(d.walls[0].len() == p.width());
}

/// A diggable cell has exactly one neighbour that is a passage: its door.
pub proof fn lemma_door(p: Plan, q: Cell)
    requires
        p.shaped(),
        p.diggable(q),
    ensures
        p.passage(p.door(q)),
        adjacent(q, p.door(q)),
        adjacent(p.door(q), q),
        forall|c: Cell| adjacent(q, c) && #[trigger] p.passage(c) ==> c == p.door(q),
{
    assert(p.inside(Direction::Up.from(q)));
    assert(p.inside(Direction::Down.from(q)));
    assert(p.inside(Direction::Left.from(q)));
    assert(p.inside(Direction::Right.from(q)));
}

/// Digging by the rule keeps the boundary walled.
proof fn lemma_dig_keeps_fence(p: Plan, q: Cell)
    requires
        p.shaped(),
        p.fenced(),
        p.diggable(q),
    ensures
        p.dug(q).fenced(),
{
    lemma_dug_cells(p, q);
    let d = p.dug(q);
    assert forall|c: Cell| #[trigger] d.inside(c) && !d.interior(c) implies d.wall(c) by {
        assert(p.inside(c));
    }
}

/// A walk through the passages is still one after a cell has been dug.
proof fn lemma_walk_survives(p: Plan, q: Cell, path: Seq<Cell>)
    requires
        p.shaped(),
        p.inside(q),
        p.walk(path),
    ensures
        p.dug(q).walk(path),
{
    lemma_dug_cells(p, q);
}

/// A walk that passes no cell twice cannot pass a newly dug cell: it can
/// only start or end there.
proof fn lemma_dug_cell_at_an_end(p: Plan, q: Cell, path: Seq<Cell>, k: int)
    requires
        p.shaped(),
        p.diggable(q),
        p.dug(q).walk(path),
        path.no_duplicates(),
        0 <= k < path.len(),
        path[k] == q,
    ensures
        k == 0 || k == path.len() - 1,
{
    lemma_dug_cells(p, q);
    lemma_door(p, q);
    if 0 < k < path.len() - 1 {
        assert(adjacent(path[k - 1], path[k]));
        assert(adjacent(path[k], path[k + 1]));
        assert(p.dug(q).passage(path[k - 1]));
        assert(p.dug(q).passage(path[k + 1]));
        assert(path[k - 1] == p.door(q));
        assert(path[k + 1] == p.door(q));
    }
}

/// A route between two cells other than the newly dug one was a route
/// before that cell was dug.
proof fn lemma_route_apart(p: Plan, q: Cell, path: Seq<Cell>, a: Cell, b: Cell)
    requires
        p.shaped(),
        p.diggable(q),
        p.dug(q).route(path, a, b),
        a != q,
        b != q,
    ensures
        p.route(path, a, b),
{
    lemma_dug_cells(p, q);
    assert forall|k: int| 0 <= k < path.len() implies p.passage(#[trigger] path[k]) by {
        if path[k] == q {
            lemma_dug_cell_at_an_end(p, q, path, k);
        }
        assert(p.dug(q).passage(path[k]));
    }
}

/// A route from the newly dug cell to another cell was, after its first
/// step, a route from the door before the cell was dug.
proof fn lemma_route_from_dug(p: Plan, q: Cell, path: Seq<Cell>, b: Cell)
    requires
        p.shaped(),
        p.diggable(q),
        p.dug(q).route(path, q, b),
        b != q,
    ensures
        path.len() >= 2,
        p.route(path.skip(1), p.door(q), b),
        path == seq![q] + path.skip(1),
{
    lemma_dug_cells(p, q);
    lemma_door(p, q);
    let rest = path.skip(1);
    assert forall|k: int| 0 <= k < rest.len() implies p.passage(#[trigger] rest[k]) by {
        assert(rest[k] == path[k + 1]);
        assert(p.dug(q).passage(path[k + 1]));
    }
    assert forall|k: int| 0 <= k < rest.len() - 1 implies adjacent(#[trigger] rest[k], rest[k + 1]) by {
        assert(rest[k] == path[k + 1]);
        assert(adjacent(path[k + 1], path[k + 2]));
    }
    assert(adjacent(path[0], path[1]));
    assert(p.passage(rest[0]));
}

/// A route from another cell to the newly dug cell was, up to its last
/// step, a route to the door before the cell was dug.
proof fn lemma_route_to_dug(p: Plan, q: Cell, path: Seq<Cell>, a: Cell)
    requires
        p.shaped(),
        p.diggable(q),
        p.dug(q).route(path, a, q),
        a != q,
    ensures
        path.len() >= 2,
        p.route(path.drop_last(), a, p.door(q)),
        path == path.drop_last().push(q),
{
    lemma_dug_cells(p, q);
    lemma_door(p, q);
    let rest = path.drop_last();
    assert forall|k: int| 0 <= k < rest.len() implies p.passage(#[trigger] rest[k]) by {
        assert(rest[k] == path[k]);
        assert(p.dug(q).passage(path[k]));
    }
    assert forall|k: int| 0 <= k < rest.len() - 1 implies adjacent(#[trigger] rest[k], rest[k + 1]) by {
        assert(adjacent(path[k], path[k + 1]));
    }
    let before = path.len() - 2;
    assert(adjacent(path[before], path[before + 1]));
    assert(p.passage(rest[before]));
}

/// Digging by the rule leaves a route between any two passages.
proof fn lemma_dig_keeps_joined(p: Plan, q: Cell, a: Cell, b: Cell)
    requires
        p.shaped(),
        p.one_way(),
        p.diggable(q),
        p.dug(q).passage(a),
        p.dug(q).passage(b),
    ensures
        p.dug(q).joined(a, b),
{
    lemma_dug_cells(p, q);
    lemma_door(p, q);
    let d = p.dug(q);
    let n = p.door(q);
    if a == q && b == q {
        assert(d.route(seq![q], a, b));
    } else if a == q {
        assert(p.joined(n, b));
        let rest = choose|path: Seq<Cell>| #[trigger] p.route(path, n, b);
        lemma_walk_survives(p, q, rest);
        let path = seq![q] + rest;
        assert forall|k: int| 0 <= k < path.len() implies d.passage(#[trigger] path[k]) by {
            if k > 0 {
                assert(d.passage(rest[k - 1]));
            }
        }
        assert forall|k: int| 0 <= k < path.len() - 1 implies adjacent(#[trigger] path[k], path[k + 1]) by {
            if k > 0 {
                assert(adjacent(rest[k - 1], rest[k - 1 + 1]));
            }
        }
        assert forall|i: int, j: int| 0 <= i < path.len() && 0 <= j < path.len() && i != j implies path[i]
            != path[j] by {
            if i > 0 {
                assert(p.passage(rest[i - 1]));
            }
            if j > 0 {
                assert(p.passage(rest[j - 1]));
            }
        }
        assert(d.route(path, a, b));
    } else if b == q {
        assert(p.joined(a, n));
        let rest = choose|path: Seq<Cell>| #[trigger] p.route(path, a, n);
        lemma_walk_survives(p, q, rest);
        let path = rest.push(q);
        assert forall|k: int| 0 <= k < path.len() implies d.passage(#[trigger] path[k]) by {
            if k < rest.len() {
                assert(d.passage(rest[k]));
            }
        }
        assert forall|k: int| 0 <= k < path.len() - 1 implies adjacent(#[trigger] path[k], path[k + 1]) by {
            if k < rest.len() - 1 {
                assert(adjacent(rest[k], rest[k + 1]));
            }
        }
        assert forall|i: int, j: int| 0 <= i < path.len() && 0 <= j < path.len() && i != j implies path[i]
            != path[j] by {
            if i < rest.len() {
                assert(p.passage(rest[i]));
            }
            if j < rest.len() {
                assert(p.passage(rest[j]));
            }
        }
        assert(d.route(path, a, b));
    } else {
        assert(p.joined(a, b));
        let path = choose|path: Seq<Cell>| #[trigger] p.route(path, a, b);
        lemma_walk_survives(p, q, path);
        assert(d.route(path, a, b));
    }
}

/// Digging by the rule opens no second route between any two passages.
proof fn lemma_dig_keeps_routes_apart(p: Plan, q: Cell, r: Seq<Cell>, s: Seq<Cell>, a: Cell, b: Cell)
    requires
        p.shaped(),
        p.one_way(),
        p.diggable(q),
        p.dug(q).route(r, a, b),
        p.dug(q).route(s, a, b),
    ensures
        r == s,
{
    if a == q && b == q {
        if r.len() > 1 {
            assert(r[0] == r[r.len() - 1]);
        }
        if s.len() > 1 {
            assert(s[0] == s[s.len() - 1]);
        }
        assert(r =~= seq![q]);
        assert(s =~= seq![q]);
    } else if a == q {
        lemma_route_from_dug(p, q, r, b);
        lemma_route_from_dug(p, q, s, b);
        assert(r.skip(1) == s.skip(1));
    } else if b == q {
        lemma_route_to_dug(p, q, r, a);
        lemma_route_to_dug(p, q, s, a);
        assert(r.drop_last() == s.drop_last());
    } else {
        lemma_route_apart(p, q, r, a, b);
        lemma_route_apart(p, q, s, a, b);
    }
}

/// Digging by the rule keeps exactly one route between any two passages,
/// and so keeps every passage within reach of the entrance.
proof fn lemma_dig_keeps_one_way(p: Plan, q: Cell)
    requires
        p.shaped(),
        p.passage(entrance()),
        p.one_way(),
        p.diggable(q),
    ensures
        p.dug(q).one_way(),
        p.dug(q).connected(),
{
    lemma_dug_cells(p, q);
    let d = p.dug(q);
    assert forall|a: Cell, b: Cell| d.passage(a) && d.passage(b) implies #[trigger] d.joined(a, b) by {
        lemma_dig_keeps_joined(p, q, a, b);
    }
    assert forall|r: Seq<Cell>, s: Seq<Cell>, a: Cell, b: Cell|
        #![trigger d.route(r, a, b), d.route(s, a, b)]
        d.route(r, a, b) && d.route(s, a, b) implies r == s by {
        lemma_dig_keeps_routes_apart(p, q, r, s, a, b);
    }
}

/// Digging by the rule adds one passage and one pair of adjacent passages.
pub proof fn lemma_dig_adds_one(p: Plan, q: Cell)
    requires
        p.shaped(),
        p.diggable(q),
    ensures
        !p.passages().contains(q),
        p.dug(q).passages() == p.passages().insert(q),
        !p.links().contains(p.new_link(q)),
        p.dug(q).links() == p.links().insert(p.new_link(q)),
{
    lemma_dug_cells(p, q);
    lemma_door(p, q);
    let d = p.dug(q);
    assert(d.passages() =~= p.passages().insert(q));
    let fresh = p.new_link(q);
    assert forall|l: (Cell, Cell)| d.links().contains(l) <==> p.links().insert(fresh).contains(
        l,
    ) by {
        if d.link(l.0, l.1) && !p.link(l.0, l.1) {
            assert(adjacent(l.0, l.1) && adjacent(l.1, l.0));
            if l.0 == q {
                assert(p.passage(l.1));
            } else {
                assert(l.1 == q);
                assert(p.passage(l.0));
            }
            assert(l == fresh);
        }
        if l == fresh {
            assert(d.link(l.0, l.1));
        }
    }
    assert(d.links() =~= p.links().insert(fresh));
}

/// Digging by the rule keeps the count of a tree.
proof fn lemma_dig_keeps_tree_count(p: Plan, q: Cell)
    requires
        p.shaped(),
        p.tree_count(),
        p.diggable(q),
    ensures
        p.dug(q).tree_count(),
{
    lemma_dig_adds_one(p, q);
}

/// Digging by the rule opens no room.
proof fn lemma_dig_keeps_roomless(p: Plan, q: Cell)
    requires
        p.shaped(),
        p.roomless(),
        p.diggable(q),
    ensures
        p.dug(q).roomless(),
{
    lemma_dug_cells(p, q);
    lemma_door(p, q);
    let d = p.dug(q);
    assert forall|i: int, j: int| !#[trigger] d.room(i, j) by {
        if d.room(i, j) {
            assert(!p.room(i, j));
            if q == (i, j) {
                assert(adjacent(q, (i + 1, j)) && adjacent(q, (i, j + 1)));
            } else if q == (i + 1, j) {
                assert(adjacent(q, (i, j)) && adjacent(q, (i + 1, j + 1)));
            } else if q == (i, j + 1) {
                assert(adjacent(q, (i, j)) && adjacent(q, (i + 1, j + 1)));
            } else {
                assert(q == (i + 1, j + 1));
                assert(adjacent(q, (i + 1, j)) && adjacent(q, (i, j + 1)));
            }
        }
    }
}

/// A perfect maze is still one after a cell has been dug by the rule.
pub proof fn lemma_dig_keeps_perfect(p: Plan, q: Cell)
    requires
        p.perfect(),
        p.diggable(q),
    ensures
        p.dug(q).perfect(),
{
    lemma_dug_cells(p, q);
    lemma_dig_keeps_fence(p, q);
    lemma_dig_keeps_one_way(p, q);
    lemma_dig_keeps_tree_count(p, q);
    lemma_dig_keeps_roomless(p, q);
}

} // verus!
