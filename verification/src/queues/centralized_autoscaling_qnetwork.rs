//! Centralized load-balancing network composition: one traffic source
//! dispatched over a pool of servers by a central policy (uniformly random,
//! join-the-shorter-of-two, or join-idle-queue), with the pool size driven
//! either by a pre-recorded schedule or by an external controller.
//!
//! The schedule reader is a replay source whose content keys are absolute
//! server-count targets; it routes every record to an index beyond the
//! station range on purpose, and this wrapper intercepts the resulting
//! `DestinationOutOfBound` — the deliberate signalling channel — to grow or
//! shrink the pool to the signalled target. Any other out-of-bound
//! destination is passed through as the configuration error it is.
//!
//! The alternative controller driven by a served-latency moving average
//! compares floating-point thresholds and lives with the caller, which
//! funnels its decisions through `set_server_target`.

use vstd::prelude::*;

verus! {

use crate::distribution::MutDistribution;
use crate::queues::Station;
use crate::queues::mg1ps::Mg1Ps;
use crate::queues::mginf::MgInf;
use crate::queues::queueing_network::{QNet, RoutePolicy, Transition, TransitionError, transition_post, clamp_usize};
use crate::queues::trace_generator::TraceGenerator;
use crate::request::Request;

/// The central dispatch discipline.
pub enum CentralizedLBPolicy {
    RND,
    JSQ2,
    JIQ,
}

/// How the pool size is driven: by replaying pre-recorded
/// (time, target-count) records, or not at all (an external controller may
/// still call `set_server_target`).
pub enum CentralizedScalingPolicy {
    Schedule(Vec<(u64, u64)>),
    NoAutoscaling,
}

pub struct CentralizedLoadBalancingQNet<D: MutDistribution> {
    qn: QNet<D>,
    n_servers: usize,
    ptraffic_source: usize,
    pfile_logger: usize,
    pservers: Vec<usize>,
    pnetwork_arcs: Vec<usize>,
    lb_policy: CentralizedLBPolicy,
    scaling_queue: usize,
    link_distribution: D,
    server_distribution: D,
}

impl<D: MutDistribution + Clone> CentralizedLoadBalancingQNet<D> {
    pub closed spec fn n_servers_spec(&self) -> usize {
        self.n_servers
    }

    pub closed spec fn scaling_queue_spec(&self) -> usize {
        self.scaling_queue
    }

    /// Number of stations the underlying network holds; stable indices mean
    /// it never shrinks.
    pub closed spec fn station_count(&self) -> int {
        self.qn.stations_view().len() as int
    }

    pub open spec fn wf(&self) -> bool {
        &&& self.net_wf()
        &&& self.inner_wf()
    }

    pub closed spec fn net_wf(&self) -> bool {
        self.qn.wf()
    }

    pub closed spec fn inner_wf(&self) -> bool {
        &&& self.pservers@.len() == self.pnetwork_arcs@.len()
        &&& self.n_servers <= self.pservers@.len()
        &&& (self.ptraffic_source as int) < self.qn.stations_view().len()
        &&& (self.pfile_logger as int) < self.qn.stations_view().len()
        &&& !self.qn.stations_view()[self.pfile_logger as int].is_source_only()
        &&& forall|i: int|
            0 <= i < self.pservers@.len() ==> (#[trigger] self.pservers@[i] as int)
                < self.qn.stations_view().len()
                && !self.qn.stations_view()[self.pservers@[i] as int].is_source_only()
                && self.qn.stations_view()[self.pservers@[i] as int] is Mg1Ps
        &&& forall|i: int|
            0 <= i < self.pnetwork_arcs@.len() ==> (#[trigger] self.pnetwork_arcs@[i] as int)
                < self.qn.stations_view().len()
                && !self.qn.stations_view()[self.pnetwork_arcs@[i] as int].is_source_only()
                && self.qn.stations_view()[self.pnetwork_arcs@[i] as int] is MgInf
    }

    /// Builds the composition: source, logger, then the optional schedule
    /// reader wired to the out-of-bound signalling channel, then the pool.
    pub fn new(
        traffic_source: Station<D>,
        file_logger: Station<D>,
        n_servers: usize,
        link_distribution: D,
        server_distribution: D,
        lb_policy: CentralizedLBPolicy,
        autoscaling_policy: CentralizedScalingPolicy,
    ) -> (r: CentralizedLoadBalancingQNet<D>)
        requires
            traffic_source.wf(),
            file_logger.wf(),
            !file_logger.is_source_only(),
        ensures
            r.wf(),
            r.n_servers_spec() == n_servers,
    {
        let mut qn: QNet<D> = QNet::new();
        let ptraffic_source = qn.add_queue(traffic_source);
        let pfile_logger = qn.add_queue(file_logger);

        let scaling_queue = match autoscaling_policy {
            CentralizedScalingPolicy::Schedule(records) => {
                let idx = qn.add_queue(
                    Station::TraceGen(TraceGenerator::new(records, 0)),
                );
                // The deliberate sentinel: everything the schedule emits is
                // routed out of range and intercepted as a scaling command.
                qn.add_transition(idx, RoutePolicy::To(usize::MAX));
                idx
            },
            CentralizedScalingPolicy::NoAutoscaling => usize::MAX,
        };

        let mut ret = CentralizedLoadBalancingQNet {
            qn,
            n_servers: 0,
            ptraffic_source,
            pfile_logger,
            pservers: Vec::new(),
            pnetwork_arcs: Vec::new(),
            lb_policy,
            scaling_queue,
            link_distribution,
            server_distribution,
        };
        let mut i: usize = 0;
        while i < n_servers
            invariant
                0 <= i <= n_servers,
                ret.wf(),
                ret.n_servers_spec() == i,
            decreases n_servers - i,
        {
            ret.add_server();
            i = i + 1;
        }
        ret
    }

    pub fn n_servers(&self) -> (r: usize)
        ensures
            r == self.n_servers_spec(),
    {
        self.n_servers
    }

    /// One engine transition, intercepting the schedule reader's signalled
    /// scaling commands: an out-of-bound destination whose origin is the
    /// scaling queue re-sizes the pool to the signalled target and counts
    /// as a successful transition; any other out-of-bound destination is a
    /// real configuration error and is passed through.
    pub fn make_transition(&mut self) -> (r: Result<Transition, TransitionError>)
        requires
            old(self).wf(),
        ensures
            final(self).wf(),
            final(self).scaling_queue_spec() == old(self).scaling_queue_spec(),
            // Any error, and any success with an in-range destination, is one
            // engine step of the inner network, passed through exactly. A
            // success with an out-of-range destination is an intercepted
            // scaling command: it came from the schedule reader, and the
            // pool was re-sized to the signalled target, the content key of
            // the reader's pending record.
            match r {
                Ok(tr) => if (tr.destination as int) < old(self).net().stations_view().len() {
                    transition_post(old(self).net(), final(self).net(), Ok(tr))
                        && final(self).n_servers_spec() == old(self).n_servers_spec()
                } else {
                    tr.origin == old(self).scaling_queue_spec() && match old(
                        self,
                    ).net().stations_view()[tr.origin as int].pending_request_spec() {
                        Some(p0) => final(self).n_servers_spec() == clamp_usize(
                            p0.content_spec(),
                        ),
                        None => false,
                    }
                },
                Err(e) => transition_post(old(self).net(), final(self).net(), Err(e))
                    && final(self).n_servers_spec() == old(self).n_servers_spec(),
            },
    {
        let res = self.qn.make_transition();
        match res {
            Err(TransitionError::DestinationOutOfBound(t)) => {
                if t.origin == self.scaling_queue {
                    let goal64 = t.request.get_content();
                    let goal: usize = if goal64 > (usize::MAX as u64) {
                        usize::MAX
                    } else {
                        goal64 as usize
                    };
                    self.set_server_target(goal);
                    Ok(
                        Transition {
                            time: t.time,
                            origin: t.origin,
                            destination: t.destination,
                        },
                    )
                } else {
                    Err(TransitionError::DestinationOutOfBound(t))
                }
            },
            other => other,
        }
    }

    /// Grows or shrinks the pool, one server at a time, until it matches
    /// the target count.
    pub fn set_server_target(&mut self, goal: usize)
        requires
            old(self).wf(),
        ensures
            final(self).wf(),
            final(self).n_servers_spec() == goal,
            final(self).scaling_queue_spec() == old(self).scaling_queue_spec(),
    {
        while self.n_servers > goal
            invariant
                self.wf(),
                self.scaling_queue == old(self).scaling_queue_spec(),
            decreases self.n_servers,
        {
            self.remove_server();
        }
        while self.n_servers < goal
            invariant
                self.wf(),
                self.n_servers <= goal,
                self.scaling_queue == old(self).scaling_queue_spec(),
            decreases goal - self.n_servers,
        {
            self.add_server();
        }
    }

    /// The index of the terminal logger station.
    pub closed spec fn logger_index_spec(&self) -> usize {
        self.pfile_logger
    }

    /// The inner engine network.
    pub closed spec fn net(&self) -> QNet<D> {
        self.qn
    }

    /// Drains the logger station's buffered completions: exactly its
    /// buffer, which is left empty; no other station is touched.
    pub fn drain_logged(&mut self) -> (r: Vec<Request>)
        requires
            old(self).wf(),
        ensures
            final(self).wf(),
            final(self).n_servers_spec() == old(self).n_servers_spec(),
            final(self).logger_index_spec() == old(self).logger_index_spec(),
            r@ == old(self).net().stations_view()[old(self).logger_index_spec() as int]
                .logger_buffered(),
            final(self).net().stations_view()[old(self).logger_index_spec() as int]
                .logger_buffered() == Seq::<Request>::empty(),
            forall|i: int|
                0 <= i < old(self).net().stations_view().len() && i != old(
                    self,
                ).logger_index_spec() as int
                    ==> #[trigger] final(self).net().stations_view()[i]
                    == old(self).net().stations_view()[i],
    {
        self.qn.drain_logged(self.pfile_logger)
    }

    /// Re-wires the routing for the current pool size: the source
    /// dispatches over all live arcs by the configured policy, each arc
    /// feeds its server, each server feeds the logger.
    fn update_network(&mut self)
        requires
            old(self).wf(),
        ensures
            final(self).wf(),
            final(self).n_servers_spec() == old(self).n_servers_spec(),
            final(self).pool_len() == old(self).pool_len(),
            final(self).station_count() == old(self).station_count(),
            final(self).scaling_queue_spec() == old(self).scaling_queue_spec(),
    {
        let n = self.n_servers;
        if n >= 1 {
            let mut dests: Vec<usize> = Vec::new();
            let mut servers: Vec<usize> = Vec::new();
            let mut i: usize = 0;
            while i < n
                invariant
                    0 <= i <= n,
                    n <= self.pservers@.len(),
                    self.wf(),
                    dests@.len() == i,
                    servers@.len() == i,
                    forall|j: int| 0 <= j < i ==> #[trigger] dests@[j] == self.pnetwork_arcs@[j],
                    forall|j: int| 0 <= j < i ==> #[trigger] servers@[j] == self.pservers@[j],
                decreases n - i,
            {
                dests.push(self.pnetwork_arcs[i]);
                servers.push(self.pservers[i]);
                i = i + 1;
            }
            let policy = match self.lb_policy {
                CentralizedLBPolicy::RND => RoutePolicy::Random { dests },
                CentralizedLBPolicy::JSQ2 => RoutePolicy::JoinShorterOfTwo { servers, dests },
                CentralizedLBPolicy::JIQ => RoutePolicy::JoinIdleQueue { servers, dests },
            };
            self.qn.add_transition(self.ptraffic_source, policy);

            let last_arc = self.pnetwork_arcs[n - 1];
            let last_server = self.pservers[n - 1];
            self.qn.add_transition(last_arc, RoutePolicy::To(last_server));
            self.qn.add_transition(last_server, RoutePolicy::To(self.pfile_logger));
        } else {
            // With no servers, sink the traffic source into the logger.
            self.qn.add_transition(self.ptraffic_source, RoutePolicy::To(self.pfile_logger));
        }
    }

    pub closed spec fn pool_len(&self) -> int {
        self.pservers@.len() as int
    }

    /// Grows the pool by one server (and its arc), reusing a drained slot
    /// when one exists, and re-wires the routing.
    pub fn add_server(&mut self)
        requires
            old(self).wf(),
        ensures
            final(self).wf(),
            final(self).n_servers_spec() == old(self).n_servers_spec() + 1,
            final(self).scaling_queue_spec() == old(self).scaling_queue_spec(),
    {
        if self.n_servers < self.pservers.len() {
            let slot = self.n_servers;
            let arc_idx = self.pnetwork_arcs[slot];
            let server_idx = self.pservers[slot];
            self.qn.change_queue(
                arc_idx,
                Station::MgInf(MgInf::new(1, self.link_distribution.clone())),
            );
            self.qn.change_queue(
                server_idx,
                Station::Mg1Ps(Mg1Ps::new(1, self.server_distribution.clone())),
            );
            self.n_servers = self.n_servers + 1;
        } else {
            let arc_idx = self.qn.add_queue(
                Station::MgInf(MgInf::new(1, self.link_distribution.clone())),
            );
            self.pnetwork_arcs.push(arc_idx);
            let server_idx = self.qn.add_queue(
                Station::Mg1Ps(Mg1Ps::new(1, self.server_distribution.clone())),
            );
            self.pservers.push(server_idx);
            let new_n = self.pservers.len();
            proof {
                assert forall|i: int| 0 <= i < self.pservers@.len() implies (
                #[trigger] self.pservers@[i] as int) < self.qn.stations_view().len()
                    && !self.qn.stations_view()[self.pservers@[i] as int].is_source_only() by {
                    if i < old(self).pservers@.len() {
                        assert(self.pservers@[i] == old(self).pservers@[i]);
                    }
                }
                assert forall|i: int| 0 <= i < self.pnetwork_arcs@.len() implies (
                #[trigger] self.pnetwork_arcs@[i] as int) < self.qn.stations_view().len()
                    && !self.qn.stations_view()[self.pnetwork_arcs@[i] as int].is_source_only()
                    by {
                    if i < old(self).pnetwork_arcs@.len() {
                        assert(self.pnetwork_arcs@[i] == old(self).pnetwork_arcs@[i]);
                    }
                }
            }
            self.n_servers = new_n;
        }
        self.update_network();
    }

    /// Shrinks the pool by one: the last server keeps draining, it is only
    /// detached from future routing — no station is removed and no
    /// in-flight request is evicted.
    pub fn remove_server(&mut self)
        requires
            old(self).wf(),
        ensures
            final(self).wf(),
            final(self).station_count() == old(self).station_count(),
            final(self).scaling_queue_spec() == old(self).scaling_queue_spec(),
            old(self).n_servers_spec() > 0 ==> final(self).n_servers_spec() == old(
                self,
            ).n_servers_spec() - 1,
            old(self).n_servers_spec() == 0 ==> final(self).n_servers_spec() == 0,
    {
        if self.n_servers > 0 {
            self.n_servers = self.n_servers - 1;
            self.update_network();
        }
    }
}

} // verus!
