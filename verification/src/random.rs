//! The source of random numbers.

use vstd::prelude::*;
use rand::rngs::StdRng;
use rand::Rng;

verus! {

/// The standard generator of the `rand` crate, `rand::rngs::StdRng`. What is
/// inside it is of no concern here: it is handed on to
/// [`draw_below`] as it came.
#[verifier::external_type_specification]
#[verifier::external_body]
pub struct ExStdRng(StdRng);

/// A number below `n`, drawn from `rng` by `rand::Rng::gen_range` with the
/// range `0..n`.
///
/// Not proved, but taken from the source of `rand`: the number returned lies
/// in the range given, and an empty range makes the call panic, so `n` must
/// not be 0. That each number of the range is as likely as any other is what
/// `rand` documents; no contract here can say so.
#[verifier::external_body]
pub(crate) fn draw_below(rng: &mut StdRng, n: usize) -> (k: usize)
    requires
        n > 0,
    ensures
        k < n,
{
    rng.gen_range(0..n)
}

} // verus!
