//! The wall map: which cells of a rectangle are walls and which are passages.

use vstd::prelude::*;
use crate::geometry::Point;
use crate::plan::Plan;

verus! {

/// Why a map of the given size cannot be made.
#[derive(Debug, Clone, Copy, PartialEq, Eq, Structural)]
pub enum SizeError {
    /// The width is less than 3.
    WidthTooSmall,
    /// The width is at least 3 and the height is less than 3.
    HeightTooSmall,
}

/// What [`check_size`] returns for a height and a width.
pub open spec fn size_verdict(height: usize, width: usize) -> Result<(), SizeError> {
    if width < 3 {
        Err(SizeError::WidthTooSmall)
    } else if height < 3 {
        Err(SizeError::HeightTooSmall)
    } else {
        Ok(())
    }
}

/// Accepts a height and a width that leave at least one cell inside the
/// boundary: both must be 3 or more. The width is looked at first.
pub fn check_size(height: usize, width: usize) -> (verdict: Result<(), SizeError>)
    ensures
        verdict == size_verdict(height, width),
{
    if width < 3 {
        Err(SizeError::WidthTooSmall)
    } else if height < 3 {
        Err(SizeError::HeightTooSmall)
    } else {
        Ok(())
    }
}

/// A rectangle of cells, each a wall or a passage, whose boundary cells are
/// walls for good.
#[derive(Debug, Clone)]
pub struct WallMap {
    cells: Vec<Vec<bool>>,
}

impl View for WallMap {
    type V = Plan;

    closed spec fn view(&self) -> Plan {
        Plan { walls: Seq::new(self.cells@.len(), |i: int| self.cells@[i]@) }
    }
}

impl WallMap {
    /// The map is a rectangle of at least 3 by 3 cells with a walled boundary.
    pub open spec fn wf(&self) -> bool {
        self@.shaped() && self@.fenced()
    }

    /// A map of `height` rows and `width` columns, all walls; refused with
    /// the verdict of [`check_size`] where a dimension is below 3.
    pub fn new(height: usize, width: usize) -> (made: Result<WallMap, SizeError>)
        ensures
            match made {
                Ok(m) => size_verdict(height, width).is_ok() && m.wf() && m@ == Plan::solid(
                    height as nat,
                    width as nat,
                ),
                Err(e) => size_verdict(height, width) == Err::<(), SizeError>(e),
            },
    {
        match check_size(height, width) {
            Err(e) => Err(e),
            Ok(()) => {
                let m = WallMap { cells: vec![vec![true; width]; height] };
                assert(m@.walls =~~= Plan::solid(height as nat, width as nat).walls);
                Ok(m)
            },
        }
    }

    /// The number of rows.
    pub fn height(&self) -> (h: usize)
        ensures
            h == self@.height(),
    {
        self.cells.len()
    }

    /// The number of columns.
    pub fn width(&self) -> (w: usize)
        ensures
            w == self@.width(),
    {
        if self.cells.len() > 0 {
            self.cells[0].len()
        } else {
            0
        }
    }

    /// Whether the cell at `p` is a wall.
    pub fn is_wall(&self, p: &Point) -> (b: bool)
        requires
            self.wf(),
            self@.inside(p@),
        ensures
            b == self@.wall(p@),
    {
        assert(self.cells@[p.x as int]@ == self@.walls[p.x as int]);
        self.cells[p.x][p.y]
    }

    /// Makes the cell at `p` a passage, unless it lies on the boundary: a
    /// boundary cell stays a wall and the map is left as it was. Returns
    /// whether the cell is a passage now.
    pub fn dig(&mut self, p: &Point) -> (done: bool)
        requires
            old(self).wf(),
            old(self)@.inside(p@),
        ensures
            done == old(self)@.interior(p@),
            final(self)@ == (if done {
                old(self)@.dug(p@)
            } else {
                old(self)@
            }),
            final(self).wf(),
    {
        let height = self.cells.len();
        let width = self.cells[0].len();
        if 0 < p.x && p.x < height - 1 && 0 < p.y && p.y < width - 1 {
            assert(self.cells@[p.x as int]@ == self@.walls[p.x as int]);
            self.cells[p.x][p.y] = false;
            proof {
                assert(self@.walls =~~= old(self)@.dug(p@).walls);
                crate::rule::lemma_dug_cells(old(self)@, p@);
                assert forall|c: (int, int)| #[trigger]
                    self@.inside(c) && !self@.interior(c) implies self@.wall(c) by {
                    assert(old(self)@.inside(c));
                }
            }
            true
        } else {
            false
        }
    }
}

} // verus!
