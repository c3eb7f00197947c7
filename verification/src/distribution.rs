//! The sampleable numeric sources used by generators and service-time models.
//!
//! A sample is a number of ticks. Nothing is promised about the value of a
//! draw, so every client of a distribution is verified for every outcome;
//! stateful variants additionally mutate their internal phase per draw and
//! are meant for single-threaded serial callers. Randomized implementations
//! (exponential and Zipf tails) live outside the verified library and plug in
//! through this trait.

use vstd::prelude::*;

verus! {

/// A mutable source of tick-valued samples. Implementations may keep state
/// (a modulated process advances its phase on every draw); the trait promises
/// nothing about the returned value, so callers must be correct for any draw.
pub trait MutDistribution {
    fn mut_sample(&mut self) -> u64;
}

/// Distribution that always returns the same declared value.
#[derive(Clone, Copy, PartialEq, Eq, Structural, Debug)]
pub struct ConstantDistribution {
    value: u64,
}

impl ConstantDistribution {
    pub closed spec fn value_spec(&self) -> u64 {
        self.value
    }

    pub fn new(value: u64) -> (r: ConstantDistribution)
        ensures
            r.value_spec() == value,
    {
        ConstantDistribution { value }
    }
}

impl MutDistribution for ConstantDistribution {
    /// Pure with respect to the declared value: every draw returns it and
    /// nothing changes, independent of any randomness source.
    fn mut_sample(&mut self) -> (r: u64)
        ensures
            r == old(self).value_spec(),
            *final(self) == *old(self),
    {
        self.value
    }
}

/// Two-state modulated arrival process: inter-arrival draws alternate between
/// two regimes, themselves left after sojourn times drawn from the regime's
/// transition distribution. A single requested draw accounts for every regime
/// switch that falls strictly inside it, accumulating time until the target
/// is reached net of the switches; the number of switches honoured within one
/// draw is bounded so that every draw terminates whatever the inner sources
/// return. Sums saturate at the top of the tick range.
pub struct Mmpp2<D> {
    lambda0: D,
    lambda1: D,
    transition0: D,
    transition1: D,
    in_state_one: bool,
    time_to_next_transition: u64,
}

impl<D: MutDistribution> Mmpp2<D> {
    pub closed spec fn in_state_one_spec(&self) -> bool {
        self.in_state_one
    }

    pub fn new(lambda1: D, mu1: D, lambda2: D, mu2: D) -> (r: Mmpp2<D>)
        ensures
            r.in_state_one_spec(),
    {
        Mmpp2 {
            lambda0: lambda1,
            lambda1: lambda2,
            transition0: mu1,
            transition1: mu2,
            in_state_one: true,
            time_to_next_transition: 0,
        }
    }

    fn draw_rate(&mut self) -> u64 {
        if self.in_state_one {
            self.lambda1.mut_sample()
        } else {
            self.lambda0.mut_sample()
        }
    }

    fn draw_sojourn(&mut self) -> u64 {
        if self.in_state_one {
            self.transition1.mut_sample()
        } else {
            self.transition0.mut_sample()
        }
    }
}

impl<D: MutDistribution> MutDistribution for Mmpp2<D> {
    fn mut_sample(&mut self) -> u64 {
        let mut ret: u64 = self.draw_rate();

        // A draw that would land beyond the pending regime switch restarts
        // from the switch instant in the other regime.
        let mut guard: u64 = 0;
        while ret > self.time_to_next_transition && guard < 64
            invariant
                guard <= 64,
            decreases 64 - guard,
        {
            self.in_state_one = !self.in_state_one;
            let tail = self.draw_rate();
            ret = saturating_add_u64(self.time_to_next_transition, tail);
            let sojourn = self.draw_sojourn();
            self.time_to_next_transition = saturating_add_u64(
                self.time_to_next_transition,
                sojourn,
            );
            guard = guard + 1;
        }

        if self.time_to_next_transition >= ret {
            self.time_to_next_transition = self.time_to_next_transition - ret;
        } else {
            self.time_to_next_transition = 0;
        }
        ret
    }
}

/// Saturating sum used where a pathological draw would exceed the tick range.
pub open spec fn saturating_add_spec(a: u64, b: u64) -> u64 {
    if a + b <= u64::MAX {
        (a + b) as u64
    } else {
        u64::MAX
    }
}

pub fn saturating_add_u64(a: u64, b: u64) -> (r: u64)
    ensures
        r == saturating_add_spec(a, b),
{
    if a <= u64::MAX - b {
        a + b
    } else {
        u64::MAX
    }
}

} // verus!
