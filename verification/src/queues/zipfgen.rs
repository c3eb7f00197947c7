//! Bounded catalogue-driven source: like a plain generator, but the total
//! number of arrivals is capped, modelling a finite experiment horizon. The
//! catalogue popularity (for instance a Zipf law over item ranks) lives in
//! the content-key distribution that the caller supplies.

use vstd::prelude::*;

verus! {

use crate::distribution::MutDistribution;
use crate::distribution::saturating_add_spec;
use crate::queues::generator::Generator;
use crate::request::Request;

pub struct ZipfGenerator<D> {
    inner: Generator<D>,
    total_nb_arrivals: u64,
    cur_nb_arrivals: u64,
}

impl<D: MutDistribution> ZipfGenerator<D> {
    pub closed spec fn time_spec(&self) -> u64 {
        self.inner.time_spec()
    }

    pub closed spec fn next_arrival_spec(&self) -> u64 {
        self.inner.next_arrival_spec()
    }

    pub closed spec fn next_req_spec(&self) -> Request {
        self.inner.next_req_spec()
    }

    pub closed spec fn total_spec(&self) -> u64 {
        self.total_nb_arrivals
    }

    pub closed spec fn emitted_spec(&self) -> u64 {
        self.cur_nb_arrivals
    }

    /// A source that will emit at most `total_nb_arrivals` requests, drawing
    /// content keys from `pop_distribution` and inter-arrival gaps from
    /// `iat_distribution`, with identifiers counted up from `id_base`.
    pub fn new(
        iat_distribution: D,
        pop_distribution: D,
        total_nb_arrivals: u64,
        id_base: u64,
    ) -> (r: ZipfGenerator<D>)
        ensures
            r.total_spec() == total_nb_arrivals,
            r.emitted_spec() == 0,
            r.time_spec() == 0,
    {
        ZipfGenerator {
            inner: Generator::new(iat_distribution, pop_distribution, id_base),
            total_nb_arrivals,
            cur_nb_arrivals: 0,
        }
    }

    pub fn advance_time(&mut self, t: u64)
        ensures
            final(self).time_spec() == if t > old(self).time_spec() {
                t
            } else {
                old(self).time_spec()
            },
            final(self).next_arrival_spec() == old(self).next_arrival_spec(),
            final(self).next_req_spec() == old(self).next_req_spec(),
            final(self).total_spec() == old(self).total_spec(),
            final(self).emitted_spec() == old(self).emitted_spec(),
    {
        self.inner.advance_time(t);
    }

    /// The pending arrival, while the horizon has not been reached.
    pub fn read_next_exit(&self) -> (r: Option<(u64, &Request)>)
        ensures
            r is None <==> self.emitted_spec() >= self.total_spec(),
            r matches Some(p) ==> p.0 == self.next_arrival_spec() && *p.1 == self
                .next_req_spec(),
    {
        if self.cur_nb_arrivals < self.total_nb_arrivals {
            self.inner.read_next_exit()
        } else {
            None
        }
    }

    /// Surrenders the pending arrival (while any remain) and draws the next.
    pub fn pop_next_exit(&mut self) -> (r: Option<(u64, Request)>)
        ensures
            final(self).time_spec() == old(self).time_spec(),
            final(self).total_spec() == old(self).total_spec(),
            r is None <==> old(self).emitted_spec() >= old(self).total_spec(),
            r is None ==> final(self).emitted_spec() == old(self).emitted_spec(),
            r matches Some(p) ==> {
                &&& p.0 == old(self).next_arrival_spec()
                &&& p.1 == old(self).next_req_spec()
                &&& final(self).emitted_spec() == old(self).emitted_spec() + 1
                &&& final(self).next_req_spec().log_view().len() == 0
                &&& final(self).next_arrival_spec() >= old(self).next_arrival_spec()
            },
    {
        if self.cur_nb_arrivals < self.total_nb_arrivals {
            self.cur_nb_arrivals = self.cur_nb_arrivals + 1;
            self.inner.pop_next_exit()
        } else {
            None
        }
    }

    pub fn read_load(&self) -> (r: usize)
        ensures
            r == 1,
    {
        1
    }
}

} // verus!
