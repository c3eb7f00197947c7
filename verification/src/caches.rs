//! Stateful membership oracles that plug into the network as routing state.
//!
//! A cache answers whether a content key is a member (possibly with side
//! effects such as counting) and records an admission. The concrete policies
//! live in the submodules: exact LRU, the two aging Bloom filters, and the
//! adaptive latency-driven LRU partition.

pub mod abf_cache;
pub mod abf_fpga_cache;
pub mod bloom_ext;
pub mod lru_cache;
pub mod p2_filter;

use vstd::prelude::*;

verus! {

/// Membership oracle over content keys. `contains` may have side effects
/// (counting, recency bookkeeping); `update` records an admission.
/// Nothing is promised at the trait level: every implementation carries its
/// own exact contracts on its inherent methods.
pub trait Cache {
    fn contains(&mut self, entry: &u64) -> bool;

    fn update(&mut self, entry: u64);
}

/// Admits exactly the keys below a fixed popularity threshold; with a
/// Zipf-ranked catalogue this is an ideal frequency-based filter.
#[derive(Clone, Copy, PartialEq, Eq, Structural, Debug)]
pub struct PerfectLfu {
    threshold: u64,
}

impl PerfectLfu {
    pub closed spec fn threshold_spec(&self) -> u64 {
        self.threshold
    }

    pub fn new(klfu: u64) -> (r: PerfectLfu)
        ensures
            r.threshold_spec() == klfu,
    {
        PerfectLfu { threshold: klfu }
    }

    pub fn is_member(&self, entry: &u64) -> (r: bool)
        ensures
            r == (*entry <= self.threshold_spec()),
    {
        *entry <= self.threshold
    }
}

impl Cache for PerfectLfu {
    /// Stateless: answers the threshold rule and changes nothing.
    fn contains(&mut self, entry: &u64) -> (r: bool)
        ensures
            r == (*entry <= old(self).threshold_spec()),
            *final(self) == *old(self),
    {
        self.is_member(entry)
    }

    /// Recording is a no-op: the ideal frequency filter keeps no state.
    fn update(&mut self, _entry: u64)
        ensures
            *final(self) == *old(self),
    {
    }
}

/// Relies on rand's `Rng::gen_range` over `0..bound`: the draw is uniform in
/// that half-open range, so in particular it is strictly below `bound`.
#[verifier::external_body]
pub(crate) fn sample_below(bound: u64) -> (r: u64)
    requires
        bound >= 1,
    ensures
        r < bound,
{
    rand::Rng::gen_range(&mut rand::thread_rng(), 0..bound)
}

/// Admits each request independently with a fixed probability, given as the
/// exact rational `accept_num / accept_den`.
#[derive(Clone, Copy, PartialEq, Eq, Structural, Debug)]
pub struct RandomAccept {
    accept_num: u64,
    accept_den: u64,
}

impl RandomAccept {
    pub closed spec fn num_spec(&self) -> u64 {
        self.accept_num
    }

    pub closed spec fn den_spec(&self) -> u64 {
        self.accept_den
    }

    /// Accepts exactly the probabilities between zero and one; everything
    /// else is rejected, as is a zero denominator.
    pub fn from_value(num: u64, den: u64) -> (r: Result<RandomAccept, ()>)
        ensures
            r is Ok <==> (den >= 1 && num <= den),
            r matches Ok(a) ==> a.num_spec() == num && a.den_spec() == den,
    {
        if den >= 1 && num <= den {
            Ok(RandomAccept { accept_num: num, accept_den: den })
        } else {
            Err(())
        }
    }

    /// One Bernoulli draw; nothing can be promised of its outcome beyond the
    /// extreme probabilities.
    pub fn draw(&self) -> (r: bool)
        requires
            self.den_spec() >= 1,
        ensures
            self.num_spec() == 0 ==> r == false,
            self.num_spec() >= self.den_spec() ==> r == true,
    {
        sample_below(self.accept_den) < self.accept_num
    }
}

impl Cache for RandomAccept {
    /// One Bernoulli draw; the filter itself never changes.
    fn contains(&mut self, _entry: &u64) -> (r: bool)
        ensures
            *final(self) == *old(self),
    {
        if self.accept_den >= 1 {
            self.draw()
        } else {
            false
        }
    }

    /// Recording is a no-op: the Bernoulli filter keeps no state.
    fn update(&mut self, _entry: u64)
        ensures
            *final(self) == *old(self),
    {
    }
}

} // verus!
