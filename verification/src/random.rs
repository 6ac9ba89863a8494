//! The pseudo-random choices of a virtual user.
use rand::seq::SliceRandom;
use rand::{RngExt, SeedableRng};
use vstd::prelude::*;

verus! {

/// `rand::rngs::SmallRng`, carried through as it is.
#[verifier::external_type_specification]
#[verifier::external_body]
pub struct ExSmallRng(rand::rngs::SmallRng);

/// A source of pseudo-random choices.
pub struct Rng {
    inner: rand::rngs::SmallRng,
    seed: u64,
}

/// `rand::SeedableRng::seed_from_u64`; nothing is claimed of the generator's
/// state.
#[verifier::external_body]
fn seed_from(seed: u64) -> rand::rngs::SmallRng {
    rand::rngs::SmallRng::seed_from_u64(seed)
}

/// `rand::RngExt::random_range` on `0..len`: any index below `len`.
#[verifier::external_body]
fn range_below(rng: &mut rand::rngs::SmallRng, len: usize) -> (i: usize)
    requires
        len > 0,
    ensures
        i < len,
{
    rng.random_range(0..len)
}

/// `rand::seq::SliceRandom::shuffle`: the same items in any order.
#[verifier::external_body]
fn shuffle_items(items: &mut Vec<usize>, rng: &mut rand::rngs::SmallRng)
    ensures
        final(items)@.to_multiset() == old(items)@.to_multiset(),
{
    items.shuffle(rng)
}

impl Rng {
    /// The seed that the generator started from.
    pub closed spec fn start(&self) -> u64 {
        self.seed
    }

    /// A generator that starts from the given seed. What it draws from there differs
    /// between machines.
    pub fn seed_from_u64(seed: u64) -> (r: Rng)
        ensures
            r.start() == seed,
    {
        Rng { inner: seed_from(seed), seed }
    }

    /// The seed that the generator started from.
    pub fn seed(&self) -> (seed: u64)
        ensures
            seed == self.start(),
    {
        self.seed
    }

    /// Any index below `len`.
    pub fn below(&mut self, len: usize) -> (i: usize)
        requires
            len > 0,
        ensures
            i < len,
            final(self).start() == old(self).start(),
    {
        range_below(&mut self.inner, len)
    }

    /// Puts the items in any order.
    pub fn shuffle(&mut self, items: &mut Vec<usize>)
        ensures
            final(items)@.to_multiset() == old(items)@.to_multiset(),
            final(self).start() == old(self).start(),
    {
        shuffle_items(items, &mut self.inner)
    }
}

} // verus!
