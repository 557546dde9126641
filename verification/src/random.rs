//! Injectable sources of random numbers.
//!
//! Ship placement and the opponent strategy draw coordinates through the
//! [`RandomSource`] trait, so that a game runs on the system generator in
//! production and on a scripted, fully deterministic source in tests.

use rand::Rng;
use vstd::prelude::*;

verus! {

/// A source of numbers drawn from `[0, bound)`.
///
/// Nothing is promised about the distribution of the drawn values; every
/// consumer must behave correctly whatever value comes back.
pub trait RandomSource {
    /// Draw a value below the given positive bound.
    fn draw_below(&mut self, bound: usize) -> (n: usize)
        requires
            bound > 0,
        ensures
            n < bound,
    ;
}

/// Relies on rand::thread_rng and rand::Rng::gen_range over the non-empty
/// range `0..bound`: the sampled value lies within that range.
#[verifier::external_body]
fn system_draw_below(bound: usize) -> (n: usize)
    requires
        bound > 0,
    ensures
        n < bound,
{
    rand::thread_rng().gen_range(0..bound)
}

/// The process-wide system generator.
pub struct SystemRandom;

impl RandomSource for SystemRandom {
    fn draw_below(&mut self, bound: usize) -> (n: usize) {
        system_draw_below(bound)
    }
}

/// A deterministic source that replays a fixed script: each draw takes the
/// next scripted value modulo the requested bound, and once the script is
/// exhausted every further draw yields zero.
pub struct ScriptedRandom {
    script: Vec<usize>,
    next: usize,
}

impl ScriptedRandom {
    /// A source that replays the given script.
    pub fn new(script: Vec<usize>) -> (source: ScriptedRandom) {
        ScriptedRandom { script, next: 0 }
    }
}

impl RandomSource for ScriptedRandom {
    fn draw_below(&mut self, bound: usize) -> (n: usize) {
        let raw: usize = if self.next < self.script.len() {
            let v = self.script[self.next];
            self.next = self.next + 1;
            v
        } else {
            0
        };
        raw % bound
    }
}

} // verus!
