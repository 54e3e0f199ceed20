//! The mathematical model of a wall map, and what makes it a perfect maze.

use vstd::prelude::*;
use crate::geometry::{adjacent, Cell, Direction};

verus! {

/// The cell at which every walk starts, and from which every passage can be
/// reached.
pub open spec fn entrance() -> Cell {
    (1, 1)
}

/// A wall map as a mathematical value: a table of rows, each a sequence of
/// booleans, `true` for a wall and `false` for a passage.
pub struct Plan {
    pub walls: Seq<Seq<bool>>,
}

impl Plan {
    /// The map of `height` rows and `width` columns in which every cell is a wall.
    pub open spec fn solid(height: nat, width: nat) -> Plan {
        Plan { walls: Seq::new(height, |i: int| Seq::new(width, |j: int| true)) }
    }

    pub open spec fn height(self) -> int {
        self.walls.len() as int
    }

    pub open spec fn width(self) -> int {
        if self.walls.len() > 0 {
            self.walls[0].len() as int
        } else {
            0
        }
    }

    /// The map is a rectangle of at least 3 rows and 3 columns.
    pub open spec fn shaped(self) -> bool {
        &&& self.height() >= 3
        &&& self.width() >= 3
        &&& forall|i: int| 0 <= i < self.height() ==> (#[trigger] self.walls[i]).len() == self.width()
    }

    /// `c` is a cell of the map.
    pub open spec fn inside(self, c: Cell) -> bool {
        0 <= c.0 < self.height() && 0 <= c.1 < self.width()
    }

    /// `c` is a cell of the map that is not on its boundary.
    pub open spec fn interior(self, c: Cell) -> bool {
        1 <= c.0 <= self.height() - 2 && 1 <= c.1 <= self.width() - 2
    }

    /// `c` is a cell of the map and a wall.
    pub open spec fn wall(self, c: Cell) -> bool {
        self.inside(c) && self.walls[c.0][c.1]
    }

    /// `c` is a cell of the map and a passage.
    pub open spec fn passage(self, c: Cell) -> bool {
        self.inside(c) && !self.walls[c.0][c.1]
    }

    /// The map after the cell `c` has been made a passage.
    pub open spec fn dug(self, c: Cell) -> Plan {
        Plan { walls: self.walls.update(c.0, self.walls[c.0].update(c.1, false)) }
    }

    /// How many of the four neighbours of `c` are walls.
    pub open spec fn walls_around(self, c: Cell) -> int {
        (if self.wall(Direction::Up.from(c)) { 1int } else { 0 })
            + (if self.wall(Direction::Down.from(c)) { 1int } else { 0 })
            + (if self.wall(Direction::Left.from(c)) { 1int } else { 0 })
            + (if self.wall(Direction::Right.from(c)) { 1int } else { 0 })
    }

    /// Every cell on the boundary of the map is a wall.
    pub open spec fn fenced(self) -> bool {
        forall|c: Cell| #[trigger] self.inside(c) && !self.interior(c) ==> self.wall(c)
    }

    /// `path` is a walk through the passages: it is not empty, each of its
    /// cells is a passage, and each cell is adjacent to the next.
    pub open spec fn walk(self, path: Seq<Cell>) -> bool {
        &&& path.len() > 0
        &&& forall|k: int| 0 <= k < path.len() ==> self.passage(#[trigger] path[k])
        &&& forall|k: int| 0 <= k < path.len() - 1 ==> adjacent(#[trigger] path[k], path[k + 1])
    }

    /// `path` is a route from `a` to `b`: a walk through the passages that
    /// starts at `a`, ends at `b` and passes no cell twice.
    pub open spec fn route(self, path: Seq<Cell>, a: Cell, b: Cell) -> bool {
        &&& self.walk(path)
        &&& path.no_duplicates()
        &&& path.first() == a
        &&& path.last() == b
    }

    /// Some route leads from `a` to `b`.
    pub open spec fn joined(self, a: Cell, b: Cell) -> bool {
        exists|path: Seq<Cell>| #[trigger] self.route(path, a, b)
    }

    /// Every passage can be reached from the entrance.
    pub open spec fn connected(self) -> bool {
        forall|c: Cell| #[trigger] self.passage(c) ==> self.joined(entrance(), c)
    }

    /// Between any two passages there is exactly one route.
    pub open spec fn one_way(self) -> bool {
        &&& forall|a: Cell, b: Cell| self.passage(a) && self.passage(b) ==> #[trigger] self.joined(a, b)
        &&& forall|r: Seq<Cell>, s: Seq<Cell>, a: Cell, b: Cell|
            #![trigger self.route(r, a, b), self.route(s, a, b)]
            self.route(r, a, b) && self.route(s, a, b) ==> r == s
    }

    /// The passages of the map.
    pub open spec fn passages(self) -> Set<Cell> {
        Set::new(|c: Cell| self.passage(c))
    }

    /// `a` and `b` are passages, and `b` lies directly below `a` or directly
    /// to its right.
    pub open spec fn link(self, a: Cell, b: Cell) -> bool {
        &&& self.passage(a)
        &&& self.passage(b)
        &&& (b == Direction::Down.from(a) || b == Direction::Right.from(a))
    }

    /// The pairs of adjacent passages, each pair once: the edges of the graph
    /// whose vertices are the passages.
    pub open spec fn links(self) -> Set<(Cell, Cell)> {
        Set::new(|l: (Cell, Cell)| self.link(l.0, l.1))
    }

    /// There is exactly one passage more than there are pairs of adjacent
    /// passages, as in every tree there is one vertex more than edges.
    pub open spec fn tree_count(self) -> bool {
        &&& self.passages().finite()
        &&& self.links().finite()
        &&& self.passages().len() == self.links().len() + 1
    }

    /// The four cells of the 2x2 block whose top left corner is `(i, j)` are
    /// all passages.
    pub open spec fn room(self, i: int, j: int) -> bool {
        &&& self.passage((i, j))
        &&& self.passage((i + 1, j))
        &&& self.passage((i, j + 1))
        &&& self.passage((i + 1, j + 1))
    }

    /// No 2x2 block consists of passages only.
    pub open spec fn roomless(self) -> bool {
        forall|i: int, j: int| !#[trigger] self.room(i, j)
    }

    /// The map is a perfect maze with its entrance at (1, 1): a fenced
    /// rectangle in which the entrance is a passage, exactly one route leads
    /// from any passage to any other, and no room is open.
    pub open spec fn perfect(self) -> bool {
        &&& self.shaped()
        &&& self.fenced()
        &&& self.passage(entrance())
        &&& self.connected()
        &&& self.one_way()
        &&& self.tree_count()
        &&& self.roomless()
    }
}

} // verus!
