//! Infinite-server delay station: every request gets an independent exit
//! time fixed at arrival, with no contention between residents. This models
//! pure propagation or processing delay with unlimited parallelism.

use vstd::prelude::*;

verus! {

use crate::distribution::MutDistribution;
use crate::queues::mg1ps::{lemma_div_le_u128, sat_add64};
use crate::request::Request;
use crate::timeheap::{TimeHeap, min_index};

pub struct MgInf<D> {
    time: u64,
    work_rate: u64,
    processes: TimeHeap<Request>,
    distribution: D,
}

impl<D: MutDistribution> MgInf<D> {
    pub closed spec fn time_spec(&self) -> u64 {
        self.time
    }

    pub closed spec fn rate_spec(&self) -> u64 {
        self.work_rate
    }

    /// Residents with their absolute exit times.
    pub closed spec fn residents(&self) -> Seq<(u64, Request)> {
        self.processes@
    }

    pub open spec fn wf(&self) -> bool {
        self.rate_spec() >= 1
    }

    pub fn new(work_rate: u64, distribution: D) -> (r: MgInf<D>)
        requires
            work_rate >= 1,
        ensures
            r.wf(),
            r.time_spec() == 0,
            r.rate_spec() == work_rate,
            r.residents() == Seq::<(u64, Request)>::empty(),
    {
        MgInf { time: 0, work_rate, processes: TimeHeap::new(), distribution }
    }

    /// Keys are already absolute, so advancing time only moves the clock;
    /// a stale timestamp changes nothing.
    pub fn advance_time(&mut self, t: u64)
        ensures
            final(self).rate_spec() == old(self).rate_spec(),
            final(self).residents() == old(self).residents(),
            final(self).time_spec() == if t > old(self).time_spec() {
                t
            } else {
                old(self).time_spec()
            },
    {
        if t > self.time {
            self.time = t;
        }
    }

    /// Draws the delay for one arriving request and files it at its
    /// absolute exit time `now + delay / rate`.
    pub fn arrival(&mut self, req: Request)
        requires
            old(self).wf(),
        ensures
            final(self).wf(),
            final(self).time_spec() == old(self).time_spec(),
            final(self).rate_spec() == old(self).rate_spec(),
            exists|w: u64|
                final(self).residents() == old(self).residents().push(
                    (
                        #[trigger] sat_add64(
                            old(self).time_spec(),
                            ((w as int) / (old(self).rate_spec() as int)) as u64,
                        ),
                        req,
                    ),
                ),
    {
        let w = self.distribution.mut_sample();
        proof {
            lemma_div_le_u128(w as u128, self.work_rate as u128);
        }
        let delay: u64 = ((w as u128) / (self.work_rate as u128)) as u64;
        let key = if delay <= u64::MAX - self.time {
            self.time + delay
        } else {
            u64::MAX
        };
        self.processes.push(key, req);
        proof {
            assert(delay == ((w as int) / (self.work_rate as int)) as u64);
            assert(key == sat_add64(
                old(self).time_spec(),
                ((w as int) / (old(self).rate_spec() as int)) as u64,
            ));
        }
    }

    pub fn read_next_exit(&self) -> (r: Option<(u64, &Request)>)
        ensures
            r is None <==> self.residents().len() == 0,
            r matches Some(p) ==> {
                &&& p.0 == self.residents()[min_index(self.residents())].0
                &&& *p.1 == self.residents()[min_index(self.residents())].1
                &&& forall|j: int|
                    0 <= j < self.residents().len()
                        ==> p.0 <= #[trigger] self.residents()[j].0
            },
    {
        self.processes.peek()
    }

    pub fn pop_next_exit(&mut self) -> (r: Option<(u64, Request)>)
        ensures
            final(self).time_spec() == old(self).time_spec(),
            final(self).rate_spec() == old(self).rate_spec(),
            r is None <==> old(self).residents().len() == 0,
            r is None ==> final(self).residents() == old(self).residents(),
            r matches Some(p) ==> {
                &&& p == (
                    old(self).residents()[min_index(old(self).residents())].0,
                    old(self).residents()[min_index(old(self).residents())].1,
                )
                &&& final(self).residents() == old(self).residents().remove(
                    min_index(old(self).residents()),
                )
                &&& final(self).residents().len() == old(self).residents().len() - 1
            },
    {
        self.processes.pop()
    }

    pub fn read_load(&self) -> (r: usize)
        ensures
            r == self.residents().len(),
    {
        self.processes.len()
    }
}

} // verus!
