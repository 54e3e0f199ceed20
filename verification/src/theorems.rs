//! What holds of every maze, whatever numbers are drawn.
//!
//! Each theorem speaks of the map that a walk has reached after any run of
//! steps from its start, finished or not; the mazes that
//! [`crate::generate::generate`] returns are among them.

use vstd::prelude::*;
use crate::generate::outcome;
use crate::geometry::{Cell, Point};
use crate::plan::Plan;
use crate::session::Session;

verus! {

/// The entrance at (1, 1) is a passage, and every passage can be reached
/// from it by a walk through passages.
pub proof fn theorem_connected(height: usize, width: usize, draws: Seq<nat>)
    requires
        height >= 3,
        width >= 3,
        Session::start(height, width).admits(draws),
    ensures
        Session::start(height, width).run(draws).plan.passage((1, 1)),
        Session::start(height, width).run(draws).plan.connected(),
{
    Session::lemma_start(height, width);
    Session::start(height, width).lemma_run(draws);
}

/// The passages form a tree. Exactly one route leads from any passage to any
/// other; and there is one passage more than steps that dug, each of which
/// made one pair of adjacent passages, so that the graph of the passages has
/// one vertex more than edges.
pub proof fn theorem_tree(height: usize, width: usize, draws: Seq<nat>)
    requires
        height >= 3,
        width >= 3,
        Session::start(height, width).admits(draws),
    ensures
        Session::start(height, width).run(draws).plan.one_way(),
        Session::start(height, width).run(draws).plan.passages().finite(),
        Session::start(height, width).run(draws).plan.links().finite(),
        Session::start(height, width).run(draws).plan.passages().len() == Session::start(
            height,
            width,
        ).digs(draws) + 1,
        Session::start(height, width).run(draws).plan.links().len() == Session::start(
            height,
            width,
        ).digs(draws),
{
    let start = Session::start(height, width);
    Session::lemma_start(height, width);
    crate::session::lemma_first_dig(height, width);
    start.lemma_run(draws);
    start.lemma_run_count(draws);
}

/// No 2x2 block of cells consists of passages only.
pub proof fn theorem_roomless(height: usize, width: usize, draws: Seq<nat>)
    requires
        height >= 3,
        width >= 3,
        Session::start(height, width).admits(draws),
    ensures
        Session::start(height, width).run(draws).plan.roomless(),
{
    Session::lemma_start(height, width);
    Session::start(height, width).lemma_run(draws);
}

/// The map keeps its size, and every cell of its first and last row and of
/// its first and last column is a wall.
pub proof fn theorem_fenced(height: usize, width: usize, draws: Seq<nat>)
    requires
        height >= 3,
        width >= 3,
        Session::start(height, width).admits(draws),
    ensures
        Session::start(height, width).run(draws).plan.shaped(),
        Session::start(height, width).run(draws).plan.height() == height,
        Session::start(height, width).run(draws).plan.width() == width,
        Session::start(height, width).run(draws).plan.fenced(),
{
    Session::lemma_start(height, width);
    Session::start(height, width).lemma_run(draws);
}

/// A longer walk undoes nothing: what was a passage after the first steps
/// is a passage after further steps, and the frontier after further steps
/// holds no cell that it did not hold before them.
pub proof fn theorem_monotone(height: usize, width: usize, draws: Seq<nat>, further: Seq<nat>)
    requires
        height >= 3,
        width >= 3,
        Session::start(height, width).admits(draws),
        Session::start(height, width).run(draws).admits(further),
    ensures
        forall|c: Cell|
            Session::start(height, width).run(draws).plan.passage(c) ==> #[trigger] Session::start(
                height,
                width,
            ).run(draws).run(further).plan.passage(c),
        forall|p: Point| #[trigger]
            Session::start(height, width).run(draws).run(further).frontier.contains(p)
                ==> Session::start(height, width).run(draws).frontier.contains(p),
{
    Session::lemma_start(height, width);
    Session::start(height, width).lemma_run(draws);
    Session::start(height, width).run(draws).lemma_run(further);
}

/// The map that a walk leaves is decided by the size of the map and the
/// numbers drawn: two walks for which both are the same leave the same map.
pub proof fn theorem_determined(height: usize, width: usize, draws: Seq<nat>, a: Plan, b: Plan)
    requires
        outcome(height, width, draws, a),
        outcome(height, width, draws, b),
    ensures
        a == b,
{
}

/// No walk takes more steps than three times the number of interior cells,
/// less two.
pub proof fn theorem_step_bound(height: usize, width: usize, draws: Seq<nat>)
    requires
        height >= 3,
        width >= 3,
        Session::start(height, width).admits(draws),
    ensures
        draws.len() <= 3 * ((height - 2) * (width - 2)) - 2,
{
    Session::lemma_start(height, width);
    Session::start(height, width).lemma_run(draws);
}

} // verus!
