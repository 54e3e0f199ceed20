//! The walk as a state machine over mathematical values: what a step does
//! for each number drawn, and what holds in every state that it reaches.

use vstd::prelude::*;
use vstd::seq_lib::seq_to_set_is_finite;
use vstd::set_lib::lemma_len_subset;
use crate::frontier::{interior_cells, is_interior, lemma_interior_cells, lemma_without, without};
use crate::geometry::{Cell, Direction, Point};
use crate::plan::{entrance, Plan};
use crate::rule::{lemma_dig_adds_one, lemma_dig_keeps_perfect, lemma_dug_cells};

verus! {

/// A state of the walk: the map dug so far, the frontier, and the cell at
/// which the walk stands.
pub struct Session {
    pub plan: Plan,
    pub frontier: Seq<Point>,
    pub current: Point,
}

/// The point with the coordinates of the cell `c`.
pub open spec fn point_at(c: Cell) -> Point {
    Point { x: c.0 as usize, y: c.1 as usize }
}

impl Session {
    /// The state in which every walk on a map of `height` rows and `width`
    /// columns starts: solid rock but for the entrance, every interior cell
    /// in the frontier, the walk at the entrance.
    pub open spec fn start(height: usize, width: usize) -> Session {
        Session {
            plan: Plan::solid(height as nat, width as nat).dug(entrance()),
            frontier: interior_cells(height, width),
            current: Point { x: 1, y: 1 },
        }
    }

    /// The direction `d` alone if the walk can dig that way, else nothing.
    pub open spec fn option(self, d: Direction) -> Seq<Direction> {
        if self.plan.diggable(d.from(self.current@)) {
            seq![d]
        } else {
            Seq::empty()
        }
    }

    /// The directions in which the walk can dig from where it stands, in the
    /// order up, down, left, right.
    pub open spec fn options(self) -> Seq<Direction> {
        self.option(Direction::Up) + self.option(Direction::Down) + self.option(Direction::Left)
            + self.option(Direction::Right)
    }

    /// The frontier once the cell at which the walk stands is given up.
    pub open spec fn rest(self) -> Seq<Point> {
        without(self.frontier, self.current)
    }

    /// Among how many alternatives the next step chooses: the directions in
    /// which the walk can dig or, if there is none, the cells of the frontier
    /// other than the one at which it stands. With no alternative the walk is
    /// over.
    pub open spec fn choices(self) -> nat {
        if self.options().len() > 0 {
            self.options().len()
        } else {
            self.rest().len()
        }
    }

    /// The state after the step that takes alternative number `draw`. Where
    /// the walk can dig, it digs in the direction with that number and moves
    /// to the cell dug. Where it cannot, the cell at which it stands leaves
    /// the frontier, and the walk jumps to the cell with that number of what
    /// is left.
    pub open spec fn step(self, draw: nat) -> Session {
        if self.options().len() > 0 {
            let target = self.options()[draw as int].from(self.current@);
            Session { plan: self.plan.dug(target), frontier: self.frontier, current: point_at(target) }
        } else {
            Session { plan: self.plan, frontier: self.rest(), current: self.rest()[draw as int] }
        }
    }

    /// Each of `draws`, taken in turn from this state on, is the number of an
    /// alternative of the step that it is drawn for.
    pub open spec fn admits(self, draws: Seq<nat>) -> bool
        decreases draws.len(),
    {
        draws.len() > 0 ==> {
            &&& self.admits(draws.drop_last())
            &&& draws.last() < self.run(draws.drop_last()).choices()
        }
    }

    /// The state after one step for each of `draws`, taken in turn.
    pub open spec fn run(self, draws: Seq<nat>) -> Session
        decreases draws.len(),
    {
        if draws.len() == 0 {
            self
        } else {
            self.run(draws.drop_last()).step(draws.last())
        }
    }

    /// How many of the steps of a run dig a cell.
    pub open spec fn digs(self, draws: Seq<nat>) -> nat
        decreases draws.len(),
    {
        if draws.len() == 0 {
            0
        } else {
            self.digs(draws.drop_last()) + (if self.run(draws.drop_last()).options().len() > 0 {
                1nat
            } else {
                0nat
            })
        }
    }

    /// What every state of a walk has: a perfect maze dug so far, a frontier
    /// of distinct interior cells, and the walk at an interior cell.
    pub open spec fn wf(self) -> bool {
        &&& self.plan.perfect()
        &&& self.plan.height() <= usize::MAX
        &&& self.plan.width() <= usize::MAX
        &&& self.frontier.no_duplicates()
        &&& forall|k: int|
            0 <= k < self.frontier.len() ==> is_interior(
                #[trigger] self.frontier[k],
                self.plan.height(),
                self.plan.width(),
            )
        &&& self.plan.interior(self.current@)
    }

    /// How many interior cells the map has.
    pub open spec fn interior_count(self) -> int {
        (self.plan.height() - 2) * (self.plan.width() - 2)
    }

    /// A number that every step lowers and that is never negative: twice the
    /// interior cells not dug yet, plus the cells of the frontier, plus one
    /// where the walk stands at a cell that has left the frontier.
    pub open spec fn budget(self) -> int {
        2 * (self.interior_count() - self.plan.passages().len()) + self.frontier.len() + (
        if self.frontier.contains(self.current) {
            0int
        } else {
            1int
        })
    }
}

/// Where the entrance is the only passage, a walk that passes no cell twice
/// is the entrance alone.
proof fn lemma_lone_walk(p: Plan, path: Seq<Cell>)
    requires
        forall|c: Cell| #[trigger] p.passage(c) ==> c == entrance(),
        p.walk(path),
        path.no_duplicates(),
    ensures
        path == seq![entrance()],
{
    assert(p.passage(path[0]));
    if path.len() > 1 {
        assert(p.passage(path[1]));
    }
}

/// A map that is solid rock but for the entrance is a perfect maze with one
/// passage.
pub proof fn lemma_first_dig(height: usize, width: usize)
    requires
        height >= 3,
        width >= 3,
    ensures
        Plan::solid(height as nat, width as nat).dug(entrance()).perfect(),
        Plan::solid(height as nat, width as nat).dug(entrance()).height() == height,
        Plan::solid(height as nat, width as nat).dug(entrance()).width() == width,
        Plan::solid(height as nat, width as nat).dug(entrance()).passages() == set![entrance()],
{
    let rock = Plan::solid(height as nat, width as nat);
    let p = rock.dug(entrance());
    assert(rock.shaped());
    lemma_dug_cells(rock, entrance());
    assert(p.passage(entrance()));
    assert forall|c: Cell| #[trigger] p.inside(c) && !p.interior(c) implies p.wall(c) by {
        assert(rock.wall(c));
    }
    assert forall|c: Cell| #[trigger] p.passage(c) implies c == entrance() by {
        assert(!rock.passage(c));
    }
    assert(p.route(seq![entrance()], entrance(), entrance()));
    assert forall|r: Seq<Cell>, s: Seq<Cell>, a: Cell, b: Cell|
        #![trigger p.route(r, a, b), p.route(s, a, b)]
        p.route(r, a, b) && p.route(s, a, b) implies r == s by {
        lemma_lone_walk(p, r);
        lemma_lone_walk(p, s);
    }
    assert(p.passages() =~= set![entrance()]);
    assert(p.links() =~= Set::<(Cell, Cell)>::empty()) by {
        assert forall|l: (Cell, Cell)| !p.link(l.0, l.1) by {
            if p.link(l.0, l.1) {
                assert(!rock.passage(l.0) && !rock.passage(l.1));
            }
        }
    }
    assert forall|i: int, j: int| !#[trigger] p.room(i, j) by {
        if p.room(i, j) {
            assert(!rock.passage((i, j)) && !rock.passage((i + 1, j)));
        }
    }
}

/// The passages of a fenced map are among its interior cells, so there are
/// no more of them.
pub proof fn lemma_passages_bounded(plan: Plan)
    requires
        plan.shaped(),
        plan.fenced(),
        plan.height() <= usize::MAX,
        plan.width() <= usize::MAX,
    ensures
        plan.passages().finite(),
        plan.passages().len() <= (plan.height() - 2) * (plan.width() - 2),
{
    let height = plan.height() as usize;
    let width = plan.width() as usize;
    lemma_interior_cells(height, width);
    let points = interior_cells(height, width);
    let cells = points.map_values(|p: Point| p@);
    assert forall|c: Cell| plan.passages().contains(c) implies cells.to_set().contains(c) by {
        assert(plan.inside(c));
        let p = point_at(c);
        assert(points.contains(p));
        let k = points.index_of(p);
        assert(cells[k] == c);
    }
    seq_to_set_is_finite(cells);
    cells.lemma_cardinality_of_set();
    lemma_len_subset(plan.passages(), cells.to_set());
}

impl Session {
    /// Every walk starts in a state that has what [`Session::wf`] asks for,
    /// with a budget of three times the interior cells, less two.
    pub proof fn lemma_start(height: usize, width: usize)
        requires
            height >= 3,
            width >= 3,
        ensures
            Session::start(height, width).wf(),
            Session::start(height, width).plan.height() == height,
            Session::start(height, width).plan.width() == width,
            Session::start(height, width).budget() == 3 * ((height - 2) * (width - 2)) - 2,
    {
        let s = Session::start(height, width);
        lemma_first_dig(height, width);
        lemma_interior_cells(height, width);
        assert(s.frontier.contains(s.current));
        assert forall|k: int| 0 <= k < s.frontier.len() implies is_interior(
            #[trigger] s.frontier[k],
            s.plan.height(),
            s.plan.width(),
        ) by {
            assert(s.frontier.contains(s.frontier[k]));
        }
    }

    /// Each of the options is a direction in which the rule lets the walk dig.
    pub proof fn lemma_options(self)
        ensures
            self.options().len() <= 4,
            forall|k: int|
                0 <= k < self.options().len() ==> self.plan.diggable(
                    (#[trigger] self.options()[k]).from(self.current@),
                ),
            forall|d: Direction|
                self.plan.diggable(d.from(self.current@)) ==> #[trigger] self.options().contains(d),
    {
        let up = self.option(Direction::Up);
        let down = self.option(Direction::Down);
        let left = self.option(Direction::Left);
        let right = self.option(Direction::Right);
        let all = self.options();
        assert forall|k: int| 0 <= k < all.len() implies self.plan.diggable(
            (#[trigger] all[k]).from(self.current@),
        ) by {
            if k < up.len() {
                assert(all[k] == up[k]);
            } else if k < up.len() + down.len() {
                assert(all[k] == down[k - up.len()]);
            } else if k < up.len() + down.len() + left.len() {
                assert(all[k] == left[k - up.len() - down.len()]);
            } else {
                assert(all[k] == right[k - up.len() - down.len() - left.len()]);
            }
        }
        assert forall|d: Direction| self.plan.diggable(d.from(self.current@)) implies #[trigger] all.contains(
            d,
        ) by {
            match d {
                Direction::Up => {
                    assert(all[0] == d);
                },
                Direction::Down => {
                    assert(all[up.len() as int] == d);
                },
                Direction::Left => {
                    assert(all[(up.len() + down.len()) as int] == d);
                },
                Direction::Right => {
                    assert(all[(up.len() + down.len() + left.len()) as int] == d);
                },
            }
        }
    }

    /// A step leads from a state that has what [`Session::wf`] asks for to
    /// another such state, keeps the size of the map, and lowers the budget,
    /// which is never negative. It closes no passage and brings no cell into
    /// the frontier.
    pub proof fn lemma_step(self, draw: nat)
        requires
            self.wf(),
            draw < self.choices(),
        ensures
            self.step(draw).wf(),
            self.step(draw).plan.height() == self.plan.height(),
            self.step(draw).plan.width() == self.plan.width(),
            0 <= self.step(draw).budget() < self.budget(),
            forall|c: Cell| self.plan.passage(c) ==> #[trigger] self.step(draw).plan.passage(c),
            forall|p: Point| #[trigger]
                self.step(draw).frontier.contains(p) ==> self.frontier.contains(p),
    {
        let next = self.step(draw);
        lemma_passages_bounded(self.plan);
        if self.options().len() > 0 {
            self.lemma_options();
            let target = self.options()[draw as int].from(self.current@);
            lemma_dug_cells(self.plan, target);
            lemma_dig_keeps_perfect(self.plan, target);
            lemma_dig_adds_one(self.plan, target);
            lemma_passages_bounded(next.plan);
        } else {
            lemma_without(self.frontier, self.current);
            let rest = self.rest();
            assert(rest.contains(rest[draw as int]));
            assert forall|k: int| 0 <= k < rest.len() implies is_interior(
                #[trigger] rest[k],
                next.plan.height(),
                next.plan.width(),
            ) by {
                assert(rest.contains(rest[k]));
                let at = self.frontier.index_of(rest[k]);
                assert(is_interior(self.frontier[at], self.plan.height(), self.plan.width()));
            }
        }
    }

    /// A step that digs adds one passage and one pair of adjacent passages;
    /// a step that jumps leaves the map as it is.
    pub proof fn lemma_step_count(self, draw: nat)
        requires
            self.wf(),
            draw < self.choices(),
        ensures
            self.options().len() > 0 ==> self.step(draw).plan.passages().len()
                == self.plan.passages().len() + 1 && self.step(draw).plan.links().len()
                == self.plan.links().len() + 1,
            self.options().len() == 0 ==> self.step(draw).plan == self.plan,
    {
        if self.options().len() > 0 {
            self.lemma_options();
            lemma_dig_adds_one(self.plan, self.options()[draw as int].from(self.current@));
        }
    }

    /// A run adds one passage for each of its steps that dig.
    pub proof fn lemma_run_count(self, draws: Seq<nat>)
        requires
            self.wf(),
            self.admits(draws),
        ensures
            self.run(draws).plan.passages().len() == self.plan.passages().len() + self.digs(draws),
            self.run(draws).plan.links().len() == self.plan.links().len() + self.digs(draws),
        decreases draws.len(),
    {
        if draws.len() > 0 {
            self.lemma_run(draws.drop_last());
            self.lemma_run_count(draws.drop_last());
            self.run(draws.drop_last()).lemma_step_count(draws.last());
        }
    }

    /// A run of steps leads from a state that has what [`Session::wf`] asks
    /// for to another such state, keeps the size of the map, and lowers the
    /// budget by one at least for each step. No passage is closed again, and
    /// no cell comes back into the frontier.
    pub proof fn lemma_run(self, draws: Seq<nat>)
        requires
            self.wf(),
            self.admits(draws),
        ensures
            self.run(draws).wf(),
            self.run(draws).plan.height() == self.plan.height(),
            self.run(draws).plan.width() == self.plan.width(),
            0 <= self.run(draws).budget() <= self.budget() - draws.len(),
            forall|c: Cell| self.plan.passage(c) ==> #[trigger] self.run(draws).plan.passage(c),
            forall|p: Point| #[trigger]
                self.run(draws).frontier.contains(p) ==> self.frontier.contains(p),
        decreases draws.len(),
    {
        lemma_passages_bounded(self.plan);
        if draws.len() > 0 {
            self.lemma_run(draws.drop_last());
            self.run(draws.drop_last()).lemma_step(draws.last());
        }
    }
}

} // verus!
