//! Demand sources. A generator always keeps its next scheduled arrival as a
//! pre-drawn (time, request) pair, refreshed immediately after being popped,
//! and never accepts arrivals.

use vstd::prelude::*;

verus! {

use crate::distribution::MutDistribution;
use crate::distribution::saturating_add_spec;
use crate::request::Request;

/// Unbounded arrival source: inter-arrival times from one distribution,
/// content keys from another, identifiers assigned sequentially from a base.
pub struct Generator<D> {
    iat_distribution: D,
    pop_distribution: D,
    time: u64,
    next_req: Request,
    next_arrival: u64,
    next_id: u64,
}

impl<D: MutDistribution> Generator<D> {
    pub closed spec fn time_spec(&self) -> u64 {
        self.time
    }

    pub closed spec fn next_arrival_spec(&self) -> u64 {
        self.next_arrival
    }

    pub closed spec fn next_req_spec(&self) -> Request {
        self.next_req
    }

    pub closed spec fn next_id_spec(&self) -> u64 {
        self.next_id
    }

    /// A generator whose first request carries the identifier `id_base`;
    /// later requests count up from there.
    pub fn new(iat_distribution: D, pop_distribution: D, id_base: u64) -> (r: Generator<
        D,
    >)
        ensures
            r.time_spec() == 0,
            r.next_req_spec().id_spec() == id_base,
            r.next_req_spec().log_view().len() == 0,
            r.next_id_spec() == saturating_add_spec(id_base, 1),
    {
        let mut ret = Generator {
            iat_distribution,
            pop_distribution,
            time: 0,
            next_req: Request::new(id_base, 0),
            next_arrival: 0,
            next_id: id_base,
        };
        let content = ret.pop_distribution.mut_sample();
        ret.next_req = Request::new(id_base, content);
        ret.next_id = if id_base < u64::MAX {
            id_base + 1
        } else {
            u64::MAX
        };
        let iat = ret.iat_distribution.mut_sample();
        ret.next_arrival = if iat <= u64::MAX {
            iat
        } else {
            u64::MAX
        };
        ret
    }

    pub fn advance_time(&mut self, t: u64)
        ensures
            final(self).time_spec() == if t > old(self).time_spec() {
                t
            } else {
                old(self).time_spec()
            },
            final(self).next_arrival_spec() == old(self).next_arrival_spec(),
            final(self).next_req_spec() == old(self).next_req_spec(),
            final(self).next_id_spec() == old(self).next_id_spec(),
    {
        if t > self.time {
            self.time = t;
        }
    }

    /// The pending arrival; a generator always has one.
    pub fn read_next_exit(&self) -> (r: Option<(u64, &Request)>)
        ensures
            r matches Some(p) && p.0 == self.next_arrival_spec() && *p.1 == self
                .next_req_spec(),
    {
        Some((self.next_arrival, &self.next_req))
    }

    /// Surrenders the pending arrival and draws the next one: a fresh
    /// identifier, a fresh content key, and an inter-arrival gap after
    /// whichever is later of the station clock and the surrendered arrival,
    /// so returned times never regress.
    pub fn pop_next_exit(&mut self) -> (r: Option<(u64, Request)>)
        ensures
            final(self).time_spec() == old(self).time_spec(),
            r matches Some(p) && p.0 == old(self).next_arrival_spec() && p.1 == old(
                self,
            ).next_req_spec(),
            final(self).next_req_spec().id_spec() == old(self).next_id_spec(),
            final(self).next_req_spec().log_view().len() == 0,
            final(self).next_id_spec() == saturating_add_spec(old(self).next_id_spec(), 1),
            final(self).next_arrival_spec() >= old(self).time_spec(),
            final(self).next_arrival_spec() >= old(self).next_arrival_spec(),
    {
        let content = self.pop_distribution.mut_sample();
        let mut req = Request::new(self.next_id, content);
        self.next_id = if self.next_id < u64::MAX {
            self.next_id + 1
        } else {
            u64::MAX
        };
        core::mem::swap(&mut req, &mut self.next_req);
        let arrival = self.next_arrival;
        let iat = self.iat_distribution.mut_sample();
        let base = if self.time > arrival {
            self.time
        } else {
            arrival
        };
        self.next_arrival = if iat <= u64::MAX - base {
            base + iat
        } else {
            u64::MAX
        };
        Some((arrival, req))
    }

    pub fn read_load(&self) -> (r: usize)
        ensures
            r == 1,
    {
        1
    }
}

} // verus!
