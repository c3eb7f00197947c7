//! The simulable stations of the queueing network.
//!
//! A station can accept an arriving request, advance its clock to the global
//! simulated time, report or surrender its next scheduled exit, and report
//! its load. The concrete disciplines live in the submodules; the network
//! holds them behind one closed set of variants, so every dispatch is a
//! total function of the station state. Demand sources (generators and
//! replay sources) never accept arrivals: routing one there is the fatal
//! configuration error the engine's contract rules out.

pub mod autoscaling_qnetwork;
pub mod centralized_autoscaling_qnetwork;
pub mod file_logger;
pub mod generator;
pub mod mg1ps;
pub mod mginf;
pub mod passthrough;
pub mod queueing_network;
pub mod trace_generator;
pub mod zipfgen;

use vstd::prelude::*;

verus! {

use crate::distribution::MutDistribution;
use crate::queues::file_logger::FileLogger;
use crate::queues::generator::Generator;
use crate::queues::mg1ps::{Mg1Ps, ps_exit_time};
use crate::queues::mginf::MgInf;
use crate::queues::passthrough::PassthroughQueue;
use crate::queues::trace_generator::TraceGenerator;
use crate::queues::zipfgen::ZipfGenerator;
use crate::request::Request;
use crate::timeheap::min_index;

pub enum Station<D> {
    Mg1Ps(Mg1Ps<D>),
    MgInf(MgInf<D>),
    Generator(Generator<D>),
    ZipfGen(ZipfGenerator<D>),
    TraceGen(TraceGenerator),
    Logger(FileLogger),
    Passthrough(PassthroughQueue),
}

impl<D: MutDistribution> Station<D> {
    /// Demand sources only emit; an arrival at one is a routing bug.
    pub open spec fn is_source_only(&self) -> bool {
        match self {
            Station::Generator(_) => true,
            Station::ZipfGen(_) => true,
            Station::TraceGen(_) => true,
            _ => false,
        }
    }

    /// Two states of the same station: the discipline never changes.
    pub open spec fn same_kind(&self, other: &Station<D>) -> bool {
        match (self, other) {
            (Station::Mg1Ps(_), Station::Mg1Ps(_)) => true,
            (Station::MgInf(_), Station::MgInf(_)) => true,
            (Station::Generator(_), Station::Generator(_)) => true,
            (Station::ZipfGen(_), Station::ZipfGen(_)) => true,
            (Station::TraceGen(_), Station::TraceGen(_)) => true,
            (Station::Logger(_), Station::Logger(_)) => true,
            (Station::Passthrough(_), Station::Passthrough(_)) => true,
            _ => false,
        }
    }

    pub open spec fn wf(&self) -> bool {
        match self {
            Station::Mg1Ps(q) => q.wf(),
            Station::MgInf(q) => q.wf(),
            Station::TraceGen(t) => t.wf(),
            _ => true,
        }
    }

    /// The time of the next scheduled exit, if any, as the station itself
    /// would report it.
    pub open spec fn next_exit_time_spec(&self) -> Option<u64> {
        match self {
            Station::Mg1Ps(q) => if q.residents().len() == 0 {
                None
            } else {
                Some(
                    ps_exit_time(
                        q.time_spec(),
                        q.applied_spec(),
                        q.residents()[min_index(q.residents())].0,
                        q.residents().len() as int,
                        q.rate_spec(),
                    ),
                )
            },
            Station::MgInf(q) => if q.residents().len() == 0 {
                None
            } else {
                Some(q.residents()[min_index(q.residents())].0)
            },
            Station::Generator(g) => Some(g.next_arrival_spec()),
            Station::ZipfGen(z) => if z.emitted_spec() >= z.total_spec() {
                None
            } else {
                Some(z.next_arrival_spec())
            },
            Station::TraceGen(t) => if t.next_request_spec() is None {
                None
            } else {
                Some(t.next_exit_spec())
            },
            Station::Logger(_) => None,
            Station::Passthrough(p) => if p.waiting().len() == 0 {
                None
            } else {
                Some(p.time_spec())
            },
        }
    }

    /// The same report after the clock is advanced to `t`: only the two
    /// disciplines whose exits depend on the clock change their report, and
    /// neither gains nor loses an exit.
    pub open spec fn next_exit_time_after(&self, t: u64) -> Option<u64> {
        match self {
            Station::Mg1Ps(q) => if q.residents().len() == 0 {
                None
            } else {
                Some(
                    ps_exit_time(
                        q.time_after(t),
                        q.applied_after(t),
                        q.residents()[min_index(q.residents())].0,
                        q.residents().len() as int,
                        q.rate_spec(),
                    ),
                )
            },
            Station::Passthrough(p) => if p.waiting().len() == 0 {
                None
            } else {
                Some(
                    if t > p.time_spec() {
                        t
                    } else {
                        p.time_spec()
                    },
                )
            },
            _ => self.next_exit_time_spec(),
        }
    }

    /// The request the next pop would surrender, if any: the pre-drawn
    /// arrival of a source, the earliest completion of a serving station.
    pub open spec fn pending_request_spec(&self) -> Option<Request> {
        match self {
            Station::Mg1Ps(q) => if q.residents().len() == 0 {
                None
            } else {
                Some(q.residents()[min_index(q.residents())].1)
            },
            Station::MgInf(q) => if q.residents().len() == 0 {
                None
            } else {
                Some(q.residents()[min_index(q.residents())].1)
            },
            Station::Generator(g) => Some(g.next_req_spec()),
            Station::ZipfGen(z) => if z.emitted_spec() >= z.total_spec() {
                None
            } else {
                Some(z.next_req_spec())
            },
            Station::TraceGen(t) => t.next_request_spec(),
            Station::Logger(_) => None,
            Station::Passthrough(p) => if p.waiting().len() == 0 {
                None
            } else {
                Some(p.waiting().first())
            },
        }
    }

    /// Current load for introspection and routing decisions.
    pub open spec fn load_spec(&self) -> int {
        match self {
            Station::Mg1Ps(q) => q.residents().len() as int,
            Station::MgInf(q) => q.residents().len() as int,
            Station::Generator(_) => 1,
            Station::ZipfGen(_) => 1,
            Station::TraceGen(_) => 1,
            Station::Logger(l) => l.buffered().len() as int,
            Station::Passthrough(p) => p.waiting().len() as int,
        }
    }

    /// Advances the station's notion of the current simulated time.
    pub fn update_time(&mut self, t: u64)
        requires
            old(self).wf(),
        ensures
            final(self).wf(),
            final(self).same_kind(old(self)),
            final(self).is_source_only() == old(self).is_source_only(),
            final(self).load_spec() == old(self).load_spec(),
            final(self).next_exit_time_spec() == old(self).next_exit_time_after(t),
            final(self).next_exit_time_after(t) == old(self).next_exit_time_after(t),
            final(self).pending_request_spec() == old(self).pending_request_spec(),
            final(self).logger_buffered() == old(self).logger_buffered(),
    {
        match self {
            Station::Mg1Ps(q) => q.advance_time(t),
            Station::MgInf(q) => q.advance_time(t),
            Station::Generator(g) => g.advance_time(t),
            Station::ZipfGen(z) => z.advance_time(t),
            Station::TraceGen(tr) => tr.advance_time(t),
            Station::Logger(_) => (),
            Station::Passthrough(p) => p.advance_time(t),
        }
    }

    /// Hands an arriving request to the station. Demand sources never accept
    /// arrivals; the network's well-formedness rules such routes out, so
    /// this is only callable on serving stations.
    pub fn arrival(&mut self, req: Request)
        requires
            old(self).wf(),
            !old(self).is_source_only(),
        ensures
            final(self).wf(),
            final(self).same_kind(old(self)),
            final(self).is_source_only() == old(self).is_source_only(),
            final(self).load_spec() == old(self).load_spec() + 1,
            (*old(self)) is Logger ==> final(self).logger_buffered() == old(
                self,
            ).logger_buffered().push(req),
    {
        match self {
            Station::Mg1Ps(q) => q.arrival(req),
            Station::MgInf(q) => q.arrival(req),
            Station::Logger(l) => l.arrival(req),
            Station::Passthrough(p) => p.arrival(req),
            _ => {
                proof {
                    assert(false);
                }
            },
        }
    }

    /// The next scheduled exit with a borrow of its request, if any.
    pub fn read_next_exit(&self) -> (r: Option<(u64, &Request)>)
        requires
            self.wf(),
        ensures
            r is None <==> self.next_exit_time_spec() is None,
            r matches Some(p) ==> Some(p.0) == self.next_exit_time_spec(),
    {
        match self {
            Station::Mg1Ps(q) => q.read_next_exit(),
            Station::MgInf(q) => q.read_next_exit(),
            Station::Generator(g) => g.read_next_exit(),
            Station::ZipfGen(z) => z.read_next_exit(),
            Station::TraceGen(t) => t.read_next_exit(),
            Station::Logger(_) => None,
            Station::Passthrough(p) => p.read_next_exit(),
        }
    }

    /// Consumes and returns the next scheduled exit, if any.
    pub fn pop_next_exit(&mut self) -> (r: Option<(u64, Request)>)
        requires
            old(self).wf(),
        ensures
            final(self).wf(),
            final(self).same_kind(old(self)),
            final(self).is_source_only() == old(self).is_source_only(),
            r is None <==> old(self).next_exit_time_spec() is None,
            r matches Some(p) ==> Some(p.0) == old(self).next_exit_time_spec(),
            r matches Some(p) ==> Some(p.1) == old(self).pending_request_spec(),
            final(self).load_spec() == old(self).load_after_pop(),
            final(self).logger_buffered() == old(self).logger_buffered(),
    {
        match self {
            Station::Mg1Ps(q) => q.pop_next_exit(),
            Station::MgInf(q) => q.pop_next_exit(),
            Station::Generator(g) => g.pop_next_exit(),
            Station::ZipfGen(z) => z.pop_next_exit(),
            Station::TraceGen(t) => t.pop_next_exit(),
            Station::Logger(_) => None,
            Station::Passthrough(p) => p.pop_next_exit(),
        }
    }

    /// The load right after a pop: serving stations lose one resident,
    /// sources keep reporting a unit load.
    pub open spec fn load_after_pop(&self) -> int {
        match self {
            Station::Mg1Ps(q) => if q.residents().len() == 0 {
                0
            } else {
                q.residents().len() - 1
            },
            Station::MgInf(q) => if q.residents().len() == 0 {
                0
            } else {
                q.residents().len() - 1
            },
            Station::Passthrough(p) => if p.waiting().len() == 0 {
                0
            } else {
                p.waiting().len() - 1
            },
            _ => self.load_spec(),
        }
    }

    pub fn read_load(&self) -> (r: usize)
        ensures
            r == self.load_spec(),
    {
        match self {
            Station::Mg1Ps(q) => q.read_load(),
            Station::MgInf(q) => q.read_load(),
            Station::Generator(g) => g.read_load(),
            Station::ZipfGen(z) => z.read_load(),
            Station::TraceGen(t) => t.read_load(),
            Station::Logger(l) => l.read_load(),
            Station::Passthrough(p) => p.read_load(),
        }
    }

    /// The buffered completions of a logger station.
    pub open spec fn logger_buffered(&self) -> Seq<Request> {
        match self {
            Station::Logger(l) => l.buffered(),
            _ => Seq::empty(),
        }
    }

    /// Drains the buffered completions of a logger station; other stations
    /// hold nothing to drain.
    pub fn drain_logged(&mut self) -> (r: Vec<Request>)
        requires
            old(self).wf(),
        ensures
            final(self).wf(),
            final(self).same_kind(old(self)),
            final(self).is_source_only() == old(self).is_source_only(),
            final(self).next_exit_time_spec() == old(self).next_exit_time_spec(),
            r@ == old(self).logger_buffered(),
            final(self).logger_buffered() == Seq::<Request>::empty(),
            (*old(self)) is Logger ==> final(self).load_spec() == 0,
            !((*old(self)) is Logger) ==> *final(self) == *old(self),
    {
        match self {
            Station::Logger(l) => l.drain(),
            _ => Vec::new(),
        }
    }
}

} // verus!
