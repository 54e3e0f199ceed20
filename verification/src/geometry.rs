//! Positions on the map and the four directions of the walk.

use vstd::prelude::*;

verus! {

/// A position in the plane of the map, as the pair (row, column).
///
/// Unlike a [`Point`], a cell may lie outside every map: the neighbour above
/// row 0 is the cell with row -1.
pub type Cell = (int, int);

/// One of the four orthogonal directions, in the order in which the walk
/// tries them.
#[derive(Debug, Clone, Copy, PartialEq, Eq, Structural)]
pub enum Direction {
    Up,
    Down,
    Left,
    Right,
}

impl Direction {
    /// The cell next to `c` in this direction.
    pub open spec fn from(self, c: Cell) -> Cell {
        match self {
            Direction::Up => (c.0 - 1, c.1),
            Direction::Down => (c.0 + 1, c.1),
            Direction::Left => (c.0, c.1 - 1),
            Direction::Right => (c.0, c.1 + 1),
        }
    }
}

/// Two cells are adjacent when one is the neighbour of the other in one of
/// the four directions.
pub open spec fn adjacent(a: Cell, b: Cell) -> bool {
    ||| b == Direction::Up.from(a)
    ||| b == Direction::Down.from(a)
    ||| b == Direction::Left.from(a)
    ||| b == Direction::Right.from(a)
}

/// A position on the map: `x` is the row and `y` the column, both counted
/// from 0 at the top left corner.
#[derive(Debug, Clone, Copy, PartialEq, Eq, Hash, Structural)]
pub struct Point {
    pub x: usize,
    pub y: usize,
}

impl View for Point {
    type V = Cell;

    open spec fn view(&self) -> Cell {
        (self.x as int, self.y as int)
    }
}

impl Point {
    pub fn new(x: usize, y: usize) -> (p: Point)
        ensures
            p == (Point { x, y }),
    {
        Point { x, y }
    }

    /// The neighbour of this point in direction `d`, or `None` where that
    /// neighbour has a negative coordinate or one beyond `usize::MAX`.
    pub fn neighbour(&self, d: Direction) -> (q: Option<Point>)
        ensures
            match q {
                Some(q) => q@ == d.from(self@),
                None => d.from(self@).0 < 0 || d.from(self@).1 < 0
                    || d.from(self@).0 > usize::MAX || d.from(self@).1 > usize::MAX,
            },
    {
        match d {
            Direction::Up => if self.x > 0 {
                Some(Point { x: self.x - 1, y: self.y })
            } else {
                None
            },
            Direction::Down => if self.x < usize::MAX {
                Some(Point { x: self.x + 1, y: self.y })
            } else {
                None
            },
            Direction::Left => if self.y > 0 {
                Some(Point { x: self.x, y: self.y - 1 })
            } else {
                None
            },
            Direction::Right => if self.y < usize::MAX {
                Some(Point { x: self.x, y: self.y + 1 })
            } else {
                None
            },
        }
    }
}

} // verus!
