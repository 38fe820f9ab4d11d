//! Reproducible random numbers: a stream is named by a seed and a lane, and
//! each draw is a function of the stream's name, the draw's position in the
//! stream and the range asked for.

use crate::scalar::{lemma_of_view, lemma_view_range, Scalar};
use rand::rngs::StdRng;
use rand::{Rng, SeedableRng};
use vstd::prelude::*;

verus! {

/// What the generator keyed by `seed`, `lane` and `index` yields first when
/// asked for a number of millionths from `low` up to, but not including,
/// `high`.
pub uninterp spec fn uniform_sample(seed: u64, lane: i64, index: u64, low: int, high: int) -> int;

/// Calls `rand::Rng::gen_range` on a fresh `rand::rngs::StdRng` made by
/// `SeedableRng::from_seed` from a key that holds `seed`, `lane` and `index`
/// in little-endian order, followed by zeros. What the generator yields
/// depends on its key alone, so the result is a function of the three
/// numbers and the range. `gen_range` returns a value of the half-open
/// range and panics on an empty one, which the precondition leaves out.
#[verifier::external_body]
fn sample_uniform(seed: u64, lane: i64, index: u64, low: i64, high: i64) -> (r: i64)
    requires
        low < high,
    ensures
        r == uniform_sample(seed, lane, index, low as int, high as int),
        low <= r < high,
{
    let mut key = [0u8; 32];
    key[0..8].copy_from_slice(&seed.to_le_bytes());
    key[8..16].copy_from_slice(&lane.to_le_bytes());
    key[16..24].copy_from_slice(&index.to_le_bytes());
    StdRng::from_seed(key).gen_range(low..high)
}

/// A position in a stream of random numbers.
#[derive(Clone, Copy, Debug, PartialEq, Eq, Structural)]
pub struct RandomStream {
    pub seed: u64,
    pub lane: i64,
    pub index: u64,
}

impl RandomStream {
    /// The start of the stream named by `seed` and `lane`.
    pub fn new(seed: u64, lane: i64) -> (r: RandomStream)
        ensures
            r == (RandomStream { seed, lane, index: 0 }),
    {
        RandomStream { seed, lane, index: 0 }
    }

    /// The position after this one; the position after the last is the
    /// first.
    pub open spec fn spec_next(self) -> RandomStream {
        RandomStream {
            seed: self.seed,
            lane: self.lane,
            index: if self.index == u64::MAX { 0 } else { (self.index + 1) as u64 },
        }
    }

    /// The number at this position for the range from `low` to `high`.
    pub open spec fn spec_draw(self, low: Scalar, high: Scalar) -> Scalar {
        Scalar::of(uniform_sample(self.seed, self.lane, self.index, low@, high@))
    }

    /// Takes the number at this position for the range from `low` up to,
    /// but not including, `high`, and moves on to the next position.
    pub fn draw(&mut self, low: Scalar, high: Scalar) -> (r: Scalar)
        requires
            low@ < high@,
        ensures
            r == old(self).spec_draw(low, high),
            low@ <= r@ < high@,
            *final(self) == old(self).spec_next(),
    {
        let value = sample_uniform(self.seed, self.lane, self.index, low.raw(), high.raw());
        self.index = self.index.wrapping_add(1);
        proof {
            use_type_invariant(&low);
            lemma_view_range(low);
            lemma_of_view(value as int);
        }
        Scalar::from_raw(value)
    }
}

} // verus!
