//! A whole walk, from solid rock to the finished maze.

use vstd::prelude::*;
use rand::rngs::StdRng;
use crate::carver::Carver;
use crate::plan::Plan;
use crate::random::draw_below;
use crate::session::Session;
use crate::wall_map::{size_verdict, SizeError, WallMap};

verus! {

/// `plan` is the map that a walk on `height` rows and `width` columns leaves
/// when `draws` are the numbers drawn for its steps, one after the other,
/// and the walk is over after the last of them.
pub open spec fn outcome(height: usize, width: usize, draws: Seq<nat>, plan: Plan) -> bool {
    &&& Session::start(height, width).admits(draws)
    &&& Session::start(height, width).run(draws).choices() == 0
    &&& Session::start(height, width).run(draws).plan == plan
}

/// Digs a maze into a map of `height` rows and `width` columns, with the
/// numbers for its steps drawn from `rng`; refused with the verdict of
/// [`crate::wall_map::check_size`] where a dimension is below 3.
///
/// Which maze comes out is up to `rng`. Whatever it draws, the maze is the
/// outcome of a walk for the numbers drawn, and it is perfect.
pub fn generate(height: usize, width: usize, rng: &mut StdRng) -> (made: Result<WallMap, SizeError>)
    ensures
        match made {
            Ok(m) => {
                &&& size_verdict(height, width).is_ok()
                &&& m.wf()
                &&& m@.height() == height
                &&& m@.width() == width
                &&& m@.perfect()
                &&& exists|draws: Seq<nat>| outcome(height, width, draws, m@)
            },
            Err(e) => size_verdict(height, width) == Err::<(), SizeError>(e),
        },
{
    let mut carver = match Carver::new(height, width) {
        Ok(c) => c,
        Err(e) => {
            return Err(e);
        },
    };
    let ghost start = Session::start(height, width);
    let ghost mut draws: Seq<nat> = Seq::empty();
    proof {
        Session::lemma_start(height, width);
    }
    loop
        invariant
            carver.wf(),
            start == Session::start(height, width),
            start.wf(),
            start.admits(draws),
            carver@ == start.run(draws),
        ensures
            carver@.choices() == 0,
        decreases carver@.budget(),
    {
        let n = carver.choices();
        if n == 0 {
            break ;
        }
        let k = draw_below(rng, n);
        proof {
            carver@.lemma_step(k as nat);
            assert(draws.push(k as nat).drop_last() == draws);
            draws = draws.push(k as nat);
        }
        carver.step(k);
    }
    proof {
        start.lemma_run(draws);
        assert(outcome(height, width, draws, carver@.plan));
    }
    Ok(carver.into_map())
}

} // verus!
