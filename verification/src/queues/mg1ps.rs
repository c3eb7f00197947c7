//! Processor-sharing station: one service capacity divided equally,
//! instantaneously, among all resident requests.
//!
//! Residents are kept in a priority store keyed by the total virtual work at
//! which each completes, not by wall-clock time. Advancing time credits
//! `elapsed * capacity / residents` of virtual work to everyone at once (the
//! carry keeps the division exact across steps), and the absolute exit time
//! of the next completion is re-derived on demand from the fair-share
//! invariant, instead of rewriting every key at every step.

use vstd::prelude::*;

verus! {

use crate::distribution::MutDistribution;
use crate::request::Request;
use crate::timeheap::{TimeHeap, min_index};

/// Work credited per resident by an advance of `dt` ticks at capacity `c`
/// over `n` residents, with carry `rem` from earlier advances.
pub open spec fn ps_credit(dt: int, c: int, rem: int, n: int) -> int
    recommends
        n >= 1,
{
    (dt * c + rem) / n
}

/// Carry left after the same advance.
pub open spec fn ps_carry(dt: int, c: int, rem: int, n: int) -> int
    recommends
        n >= 1,
{
    (dt * c + rem) % n
}

/// Work conservation: one advance credits exactly `dt * c` of service,
/// split evenly over the `n` residents with the carry taking the slack —
/// never more, never less.
pub proof fn lemma_ps_work_conservation(dt: int, c: int, rem: int, n: int)
    requires
        n >= 1,
        dt >= 0,
        c >= 0,
        rem >= 0,
    ensures
        n * ps_credit(dt, c, rem, n) + ps_carry(dt, c, rem, n) == dt * c + rem,
        0 <= ps_carry(dt, c, rem, n) < n,
        ps_credit(dt, c, rem, n) >= 0,
{
    let total = dt * c + rem;
    assert(dt * c + rem >= 0) by (nonlinear_arith)
        requires
            dt >= 0,
            c >= 0,
            rem >= 0,
    ;
    assert(n * (total / n) + total % n == total && 0 <= total % n < n && total / n
        >= 0) by (nonlinear_arith)
        requires
            n >= 1,
            total >= 0,
    ;
}

/// Absolute exit time of a resident whose key is `key`: the wall-clock time
/// at which fair sharing will have driven the applied work up to the key,
/// saturating at the top of the tick range.
pub open spec fn ps_exit_time(time: u64, applied: u64, key: u64, n: int, c: u64) -> u64
    recommends
        c >= 1,
        n >= 1,
{
    let owed: int = if key >= applied {
        key - applied
    } else {
        0
    };
    let t = time + owed * n / (c as int);
    if t <= u64::MAX {
        t as u64
    } else {
        u64::MAX
    }
}

pub struct Mg1Ps<D> {
    time: u64,
    work_rate: u64,
    applied_work: u64,
    rem: u64,
    processes: TimeHeap<Request>,
    distribution: D,
}

impl<D: MutDistribution> Mg1Ps<D> {
    pub closed spec fn time_spec(&self) -> u64 {
        self.time
    }

    pub closed spec fn rate_spec(&self) -> u64 {
        self.work_rate
    }

    pub closed spec fn applied_spec(&self) -> u64 {
        self.applied_work
    }

    pub closed spec fn rem_spec(&self) -> u64 {
        self.rem
    }

    /// Residents with their completion keys (total virtual work at exit).
    pub closed spec fn residents(&self) -> Seq<(u64, Request)> {
        self.processes@
    }

    pub open spec fn wf(&self) -> bool {
        self.rate_spec() >= 1
    }

    pub fn new(work_rate: u64, distribution: D) -> (r: Mg1Ps<D>)
        requires
            work_rate >= 1,
        ensures
            r.wf(),
            r.time_spec() == 0,
            r.rate_spec() == work_rate,
            r.applied_spec() == 0,
            r.rem_spec() == 0,
            r.residents() == Seq::<(u64, Request)>::empty(),
    {
        Mg1Ps {
            time: 0,
            work_rate,
            applied_work: 0,
            rem: 0,
            processes: TimeHeap::new(),
            distribution,
        }
    }

    /// The station clock after an advance to `t` (stale timestamps are
    /// ignored).
    pub open spec fn time_after(self, t: u64) -> u64 {
        if t > self.time_spec() {
            t
        } else {
            self.time_spec()
        }
    }

    /// The applied work after an advance to `t`, saturating at the top of
    /// the tick range.
    pub open spec fn applied_after(self, t: u64) -> u64 {
        if t <= self.time_spec() || self.residents().len() == 0 {
            self.applied_spec()
        } else {
            let credit = ps_credit(
                t - self.time_spec(),
                self.rate_spec() as int,
                self.rem_spec() as int,
                self.residents().len() as int,
            );
            if self.applied_spec() + credit <= u64::MAX {
                (self.applied_spec() + credit) as u64
            } else {
                u64::MAX
            }
        }
    }

    /// The work-credit carry after an advance to `t`.
    pub open spec fn rem_after(self, t: u64) -> u64 {
        if t <= self.time_spec() || self.residents().len() == 0 {
            self.rem_spec()
        } else {
            ps_carry(
                t - self.time_spec(),
                self.rate_spec() as int,
                self.rem_spec() as int,
                self.residents().len() as int,
            ) as u64
        }
    }

    /// Advances the station clock, accumulating applied work while any
    /// requests are resident: every resident is credited the same share of
    /// `(t - time) * rate` virtual work, the carry keeping the split exact
    /// (see `lemma_ps_work_conservation`); the applied work saturates at the
    /// top of the tick range; a stale timestamp changes nothing.
    pub fn advance_time(&mut self, t: u64)
        requires
            old(self).wf(),
        ensures
            final(self).wf(),
            final(self).rate_spec() == old(self).rate_spec(),
            final(self).residents() == old(self).residents(),
            final(self).time_spec() == old(self).time_after(t),
            final(self).applied_spec() == old(self).applied_after(t),
            final(self).rem_spec() == old(self).rem_after(t),
    {
        if t <= self.time {
            return;
        }
        let n = self.processes.len();
        if n == 0 {
            self.time = t;
            return;
        }
        let dt = t - self.time;
        proof {
            lemma_mul_fits_u128(dt as u128, self.work_rate as u128);
            lemma_ps_work_conservation(
                dt as int,
                self.work_rate as int,
                self.rem as int,
                n as int,
            );
        }
        let raw: u128 = (dt as u128) * (self.work_rate as u128) + (self.rem as u128);
        let credit: u128 = raw / (n as u128);
        let carry: u128 = raw % (n as u128);
        if credit <= (u64::MAX - self.applied_work) as u128 {
            self.applied_work = self.applied_work + credit as u64;
        } else {
            self.applied_work = u64::MAX;
        }
        self.rem = carry as u64;
        self.time = t;
    }

    /// Draws the required work for one arriving request and files it under
    /// its completion key. The drawn work is not constrained, so the
    /// contract only fixes the key's relation to the applied work.
    pub fn arrival(&mut self, req: Request)
        requires
            old(self).wf(),
        ensures
            final(self).wf(),
            final(self).time_spec() == old(self).time_spec(),
            final(self).rate_spec() == old(self).rate_spec(),
            final(self).applied_spec() == old(self).applied_spec(),
            final(self).rem_spec() == old(self).rem_spec(),
            exists|w: u64|
                final(self).residents() == old(self).residents().push(
                    (#[trigger] sat_add64(old(self).applied_spec(), w), req),
                ),
    {
        let w = self.distribution.mut_sample();
        let key = if w <= u64::MAX - self.applied_work {
            self.applied_work + w
        } else {
            u64::MAX
        };
        self.processes.push(key, req);
        proof {
            assert(key == sat_add64(old(self).applied_spec(), w));
        }
    }

    /// Exit time of the next completion, with a borrow of its request;
    /// `None` when the station is empty.
    pub fn read_next_exit(&self) -> (r: Option<(u64, &Request)>)
        requires
            self.wf(),
        ensures
            r is None <==> self.residents().len() == 0,
            r matches Some(p) ==> {
                &&& p.0 == ps_exit_time(
                    self.time_spec(),
                    self.applied_spec(),
                    self.residents()[min_index(self.residents())].0,
                    self.residents().len() as int,
                    self.rate_spec(),
                )
                &&& *p.1 == self.residents()[min_index(self.residents())].1
            },
    {
        let n = self.processes.len();
        match self.processes.peek() {
            None => None,
            Some((key, req)) => Some((self.exit_time_of(key, n), req)),
        }
    }

    /// Removes and returns the next completion; the count used for the
    /// fair-share formula includes the request that is leaving.
    pub fn pop_next_exit(&mut self) -> (r: Option<(u64, Request)>)
        requires
            old(self).wf(),
        ensures
            final(self).wf(),
            final(self).time_spec() == old(self).time_spec(),
            final(self).rate_spec() == old(self).rate_spec(),
            final(self).applied_spec() == old(self).applied_spec(),
            final(self).rem_spec() == old(self).rem_spec(),
            r is None <==> old(self).residents().len() == 0,
            r is None ==> final(self).residents() == old(self).residents(),
            r matches Some(p) ==> {
                &&& p.0 == ps_exit_time(
                    old(self).time_spec(),
                    old(self).applied_spec(),
                    old(self).residents()[min_index(old(self).residents())].0,
                    old(self).residents().len() as int,
                    old(self).rate_spec(),
                )
                &&& p.1 == old(self).residents()[min_index(old(self).residents())].1
                &&& final(self).residents() == old(self).residents().remove(
                    min_index(old(self).residents()),
                )
                &&& final(self).residents().len() == old(self).residents().len() - 1
            },
    {
        let n = self.processes.len();
        match self.processes.pop() {
            None => None,
            Some((key, req)) => Some((self.exit_time_of(key, n), req)),
        }
    }

    pub fn read_load(&self) -> (r: usize)
        ensures
            r == self.residents().len(),
    {
        self.processes.len()
    }

    /// Wall-clock exit time for a completion key, given the resident count
    /// to share the capacity with.
    fn exit_time_of(&self, key: u64, n: usize) -> (r: u64)
        requires
            self.wf(),
            n >= 1,
        ensures
            r == ps_exit_time(self.time_spec(), self.applied_spec(), key, n as int, self.rate_spec()),
    {
        let owed: u64 = if key >= self.applied_work {
            key - self.applied_work
        } else {
            0
        };
        proof {
            lemma_mul_fits_u128(owed as u128, n as u128);
        }
        let prod: u128 = (owed as u128) * (n as u128);
        proof {
            lemma_div_le_u128(prod, self.work_rate as u128);
        }
        let scaled: u128 = prod / (self.work_rate as u128);
        let t: u128 = (self.time as u128) + scaled;
        if t <= u64::MAX as u128 {
            t as u64
        } else {
            u64::MAX
        }
    }
}

/// A product of two values in the 64-bit range fits the 128-bit range with
/// room to add one more 64-bit value.
pub proof fn lemma_mul_fits_u128(a: u128, b: u128)
    requires
        a <= 0xFFFF_FFFF_FFFF_FFFFu128,
        b <= 0xFFFF_FFFF_FFFF_FFFFu128,
    ensures
        a * b <= 0xFFFF_FFFF_FFFF_FFFFu128 * 0xFFFF_FFFF_FFFF_FFFFu128,
        a * b + 0xFFFF_FFFF_FFFF_FFFFu128 <= u128::MAX,
{
    assert(a * b <= 0xFFFF_FFFF_FFFF_FFFFu128 * 0xFFFF_FFFF_FFFF_FFFFu128)
        by (nonlinear_arith)
        requires
            0 <= a <= 0xFFFF_FFFF_FFFF_FFFFu128,
            0 <= b <= 0xFFFF_FFFF_FFFF_FFFFu128,
    ;
}

/// Unsigned division never grows its dividend.
pub proof fn lemma_div_le_u128(a: u128, d: u128)
    requires
        d >= 1,
    ensures
        a / d <= a,
{
    assert(a / d <= a) by (nonlinear_arith)
        requires
            d >= 1,
            a >= 0,
    ;
}

/// Saturating addition on tick values.
pub open spec fn sat_add64(a: u64, b: u64) -> u64 {
    if a + b <= u64::MAX {
        (a + b) as u64
    } else {
        u64::MAX
    }
}

} // verus!
