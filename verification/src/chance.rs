//! Probabilities as fractions of integers, and the draws that decide them.
use crate::direction::VertexState;
use rand::rngs::ThreadRng;
use rand::Rng;
use vstd::prelude::*;

verus! {

/// The thread-local generator of the `rand` crate. Nothing is known of its
/// state; it is only handed on to the draws.
#[verifier::external_type_specification]
#[verifier::external_body]
pub struct ExThreadRng(rand::rngs::ThreadRng);

/// The probability `numerator / denominator`.
#[derive(PartialEq, Eq, Structural, Clone, Copy, Debug)]
pub struct Probability {
    /// How many of the equally likely outcomes count.
    pub numerator: u64,
    /// How many equally likely outcomes there are.
    pub denominator: u64,
}

impl Probability {
    /// Whether the fraction lies between 0 and 1.
    pub open spec fn valid(self) -> bool {
        0 < self.denominator && self.numerator <= self.denominator
    }

    /// Whether the event never happens.
    pub open spec fn never(self) -> bool {
        self.numerator == 0
    }

    /// Whether the event always happens.
    pub open spec fn certain(self) -> bool {
        self.numerator == self.denominator
    }

    /// Whether the fraction lies between 0 and 1.
    pub fn is_valid(&self) -> (r: bool)
        ensures
            r == self.valid(),
    {
        0 < self.denominator && self.numerator <= self.denominator
    }

    /// Decides the event from a number drawn uniformly from
    /// `0, ..., denominator - 1`: it happens when the number is below the
    /// numerator, which is the case for `numerator` of the `denominator` draws.
    pub fn admits(&self, draw: u64) -> (r: bool)
        ensures
            r == (draw < self.numerator),
    {
        draw < self.numerator
    }
}

/// Hands out the generator of the current thread, by `rand::thread_rng`.
/// Nothing is claimed of the generator. The call fails only where the
/// operating system cannot seed the generator.
#[verifier::external_body]
pub(crate) fn local_generator() -> ThreadRng {
    rand::thread_rng()
}

/// Draws a number from `0, ..., bound - 1`, by `Rng::gen_range` on the range
/// `0..bound`. The one claim is that the number lies in that range; which
/// number comes is left open. The range must not be empty.
#[verifier::external_body]
pub(crate) fn draw_below(rng: &mut ThreadRng, bound: u64) -> (r: u64)
    requires
        bound > 0,
    ensures
        r < bound,
{
    rng.gen_range(0..bound)
}

/// Decides an event of the given probability by one draw.
pub(crate) fn happens(rng: &mut ThreadRng, probability: Probability) -> (r: bool)
    requires
        probability.valid(),
    ensures
        probability.never() ==> !r,
        probability.certain() ==> r,
{
    let draw = draw_below(rng, probability.denominator);
    probability.admits(draw)
}

/// Draws one of the four directions.
pub(crate) fn generate_random_direction(rng: &mut ThreadRng) -> (r: VertexState)
    ensures
        r.occupied(),
{
    VertexState::from_index(draw_below(rng, 4))
}

/// Draws one of the three directions other than `current`.
pub(crate) fn generate_other_direction(rng: &mut ThreadRng, current: VertexState) -> (r:
    VertexState)
    ensures
        r.occupied(),
        r != current,
{
    current.turned(draw_below(rng, 3))
}

} // verus!
