//! The carving engine: the walk on a real map, one step for each number
//! that it is given.

use vstd::prelude::*;
use crate::frontier::{lemma_without, Frontier};
use crate::geometry::{Direction, Point};
use crate::rule::is_digable;
use crate::session::Session;
use crate::wall_map::{size_verdict, SizeError, WallMap};

verus! {

/// A walk in progress: the map dug so far, the frontier, and the cell at
/// which the walk stands.
#[derive(Debug, Clone)]
pub struct Carver {
    map: WallMap,
    frontier: Frontier,
    current: Point,
}

impl View for Carver {
    type V = Session;

    closed spec fn view(&self) -> Session {
        Session { plan: self.map@, frontier: self.frontier@, current: self.current }
    }
}

impl Carver {
    /// The map and the frontier are in order, and the frontier was made for
    /// a map of this size.
    pub closed spec fn fitted(&self) -> bool {
        &&& self.map.wf()
        &&& self.frontier.wf()
        &&& self.frontier.height() == self.map@.height()
        &&& self.frontier.width() == self.map@.width()
    }

    /// The walk is in a state that [`Session::wf`] accepts.
    pub open spec fn wf(&self) -> bool {
        self.fitted() && self@.wf()
    }

    /// A walk at its start on a map of `height` rows and `width` columns;
    /// refused with the verdict of [`crate::wall_map::check_size`] where a
    /// dimension is below 3.
    pub fn new(height: usize, width: usize) -> (made: Result<Carver, SizeError>)
        ensures
            match made {
                Ok(c) => size_verdict(height, width).is_ok() && c.wf() && c@ == Session::start(
                    height,
                    width,
                ),
                Err(e) => size_verdict(height, width) == Err::<(), SizeError>(e),
            },
    {
        match WallMap::new(height, width) {
            Err(e) => Err(e),
            Ok(map) => {
                let mut map = map;
                let current = Point::new(1, 1);
                map.dig(&current);
                let frontier = Frontier::new(height, width);
                let c = Carver { map, frontier, current };
                proof {
                    Session::lemma_start(height, width);
                }
                Ok(c)
            },
        }
    }

    /// The map as dug so far.
    pub fn map(&self) -> (m: &WallMap)
        ensures
            m@ == self@.plan,
            self.wf() ==> m.wf(),
    {
        &self.map
    }

    /// The frontier as it stands.
    pub fn frontier(&self) -> (f: &Frontier)
        ensures
            f@ == self@.frontier,
            self.wf() ==> f.wf(),
    {
        &self.frontier
    }

    /// The cell at which the walk stands.
    pub fn current(&self) -> (p: Point)
        ensures
            p == self@.current,
    {
        self.current
    }

    /// Ends the walk and hands out the map.
    pub fn into_map(self) -> (m: WallMap)
        ensures
            m@ == self@.plan,
            self.wf() ==> m.wf(),
    {
        self.map
    }

    /// The directions in which the walk can dig from where it stands, in the
    /// order up, down, left, right.
    pub fn options(&self) -> (dirs: Vec<Direction>)
        requires
            self.wf(),
        ensures
            dirs@ == self@.options(),
    {
        let mut dirs: Vec<Direction> = Vec::new();
        if is_digable(&self.current, &Direction::Up, &self.map) {
            dirs.push(Direction::Up);
        }
        if is_digable(&self.current, &Direction::Down, &self.map) {
            dirs.push(Direction::Down);
        }
        if is_digable(&self.current, &Direction::Left, &self.map) {
            dirs.push(Direction::Left);
        }
        if is_digable(&self.current, &Direction::Right, &self.map) {
            dirs.push(Direction::Right);
        }
        assert(dirs@ =~= self@.options());
        dirs
    }

    /// Among how many alternatives the next step chooses; 0 when the walk is
    /// over.
    pub fn choices(&self) -> (n: usize)
        requires
            self.wf(),
        ensures
            n == self@.choices(),
    {
        let dirs = self.options();
        if dirs.len() > 0 {
            dirs.len()
        } else {
            proof {
                lemma_without(self@.frontier, self@.current);
            }
            if self.frontier.contains(&self.current) {
                self.frontier.len() - 1
            } else {
                self.frontier.len()
            }
        }
    }

    /// Takes the step with alternative number `draw`, and tells whether the
    /// step dug a cell. A step that digs moves the walk to the cell dug; a
    /// step that cannot dig gives up the cell at which the walk stands and
    /// jumps to a cell of the frontier.
    pub fn step(&mut self, draw: usize) -> (dug: bool)
        requires
            old(self).wf(),
            draw < old(self)@.choices(),
        ensures
            final(self).wf(),
            final(self)@ == old(self)@.step(draw as nat),
            dug == (old(self)@.options().len() > 0),
    {
        proof {
            self@.lemma_step(draw as nat);
            self@.lemma_options();
        }
        let dirs = self.options();
        if dirs.len() > 0 {
            let d = dirs[draw];
            if let Some(target) = self.current.neighbour(d) {
                self.map.dig(&target);
                self.current = target;
            }
            true
        } else {
            self.frontier.remove(&self.current);
            self.current = self.frontier.pick(draw);
            false
        }
    }
}

} // verus!
