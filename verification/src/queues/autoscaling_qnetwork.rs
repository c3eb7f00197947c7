//! Autoscaling network composition: a chain of serving stations behind one
//! traffic source, with dynamic growth and shrinkage of the server pool.
//!
//! Each server sits behind its own network arc (a delay station); requests
//! cascade down the chain, each arc preferring its own server when that
//! server is idle and spilling to the next arc otherwise. Removing a server
//! never evicts in-flight requests: the station is only detached from
//! future routing and drains naturally, its index staying valid forever.
//!
//! The scaling decision itself (an exponentially weighted idle-probability
//! estimate compared against thresholds derived from an Erlang-loss model)
//! is floating-point numerics and lives with the caller; this type exposes
//! the tracked station's observable load around each transition, and the
//! verified `add_server` / `remove_server` reconfiguration.

use vstd::prelude::*;

verus! {

use crate::distribution::MutDistribution;
use crate::queues::Station;
use crate::queues::mg1ps::Mg1Ps;
use crate::queues::mginf::MgInf;
use crate::queues::queueing_network::{QNet, RoutePolicy, Transition, TransitionError, transition_post};

pub struct AutoscalingQNet<D: MutDistribution> {
    qn: QNet<D>,
    n_servers: usize,
    ptraffic_source: usize,
    pfile_logger: usize,
    pservers: Vec<usize>,
    pnetwork_arcs: Vec<usize>,
    pserver_with_tracker: usize,
    link_distribution: D,
    server_distribution: D,
}

impl<D: MutDistribution + Clone> AutoscalingQNet<D> {
    pub closed spec fn n_servers_spec(&self) -> usize {
        self.n_servers
    }

    pub closed spec fn net(&self) -> QNet<D> {
        self.qn
    }

    pub closed spec fn tracker_spec(&self) -> usize {
        self.pserver_with_tracker
    }

    /// Number of stations the underlying network holds; stable indices mean
    /// it never shrinks.
    pub closed spec fn station_count(&self) -> int {
        self.qn.stations_view().len() as int
    }

    pub open spec fn wf(&self) -> bool {
        &&& self.net().wf()
        &&& self.inner_wf()
    }

    /// Index bookkeeping: server and arc tables have equal length, every
    /// recorded index denotes a serving station, and the logger accepts.
    pub closed spec fn inner_wf(&self) -> bool {
        &&& self.pservers@.len() == self.pnetwork_arcs@.len()
        &&& self.n_servers <= self.pservers@.len()
        &&& (self.ptraffic_source as int) < self.qn.stations_view().len()
        &&& (self.pfile_logger as int) < self.qn.stations_view().len()
        &&& !self.qn.stations_view()[self.pfile_logger as int].is_source_only()
        &&& (self.pserver_with_tracker as int) < self.qn.stations_view().len()
        &&& forall|i: int|
            0 <= i < self.pservers@.len() ==> (#[trigger] self.pservers@[i] as int)
                < self.qn.stations_view().len()
                && !self.qn.stations_view()[self.pservers@[i] as int].is_source_only()
                && self.qn.stations_view()[self.pservers@[i] as int] is Mg1Ps
        &&& forall|i: int|
            0 <= i < self.pnetwork_arcs@.len() ==> (#[trigger] self.pnetwork_arcs@[i] as int)
                < self.qn.stations_view().len()
                && !self.qn.stations_view()[self.pnetwork_arcs@[i] as int].is_source_only()
                && self.qn.stations_view()[self.pnetwork_arcs@[i] as int] is MgInf
    }

    /// Builds the composition: the traffic source and the logger first (so
    /// their indices are fixed), then `n_servers` servers with their arcs.
    pub fn new(
        traffic_source: Station<D>,
        file_logger: Station<D>,
        n_servers: usize,
        link_distribution: D,
        server_distribution: D,
    ) -> (r: AutoscalingQNet<D>)
        requires
            traffic_source.wf(),
            file_logger.wf(),
            !file_logger.is_source_only(),
        ensures
            r.wf(),
            r.n_servers_spec() == n_servers,
    {
        let mut qn: QNet<D> = QNet::new();
        let ptraffic_source = qn.add_queue(traffic_source);
        let pfile_logger = qn.add_queue(file_logger);
        let mut ret = AutoscalingQNet {
            qn,
            n_servers: 0,
            ptraffic_source,
            pfile_logger,
            pservers: Vec::new(),
            pnetwork_arcs: Vec::new(),
            pserver_with_tracker: pfile_logger,
            link_distribution,
            server_distribution,
        };
        let mut i: usize = 0;
        while i < n_servers
            invariant
                0 <= i <= n_servers,
                ret.wf(),
                ret.n_servers_spec() == i,
            decreases n_servers - i,
        {
            ret.add_server();
            i = i + 1;
        }
        ret
    }

    pub fn n_servers(&self) -> (r: usize)
        ensures
            r == self.n_servers_spec(),
    {
        self.n_servers
    }

    /// One engine transition of the inner network, exactly: the result and
    /// the network relate by the engine's full step relation. The topology
    /// tables are untouched, so the composition stays well formed.
    pub fn make_transition(&mut self) -> (r: Result<Transition, TransitionError>)
        requires
            old(self).wf(),
        ensures
            final(self).wf(),
            final(self).n_servers_spec() == old(self).n_servers_spec(),
            final(self).tracker_spec() == old(self).tracker_spec(),
            transition_post(old(self).net(), final(self).net(), r),
    {
        self.qn.make_transition()
    }

    /// The load observation the scaling controller feeds on: when the
    /// transition touched the tracked station, the station's load just
    /// before the event (departures count the leaver back in, arrivals
    /// count the newcomer out).
    pub fn tracked_event(&self, tr: &Transition) -> (r: Option<(u64, usize)>)
        requires
            self.wf(),
        ensures
            r is Some <==> (tr.origin == self.tracker_spec() || tr.destination
                == self.tracker_spec()),
            r matches Some(p) ==> ({
                let load = self.net().stations_view()[self.tracker_spec() as int]
                    .load_spec();
                &&& p.0 == tr.time
                &&& tr.origin == self.tracker_spec() ==> p.1 == (if load < usize::MAX {
                    load + 1
                } else {
                    load as int
                })
                &&& tr.origin != self.tracker_spec() ==> p.1 == (if load > 0 {
                    load - 1
                } else {
                    0int
                })
            }),
    {
        let tracker = self.pserver_with_tracker;
        let load_now = self.qn.get_queue(tracker).read_load();
        if tr.origin == tracker {
            let load_before = if load_now < usize::MAX {
                load_now + 1
            } else {
                load_now
            };
            Some((tr.time, load_before))
        } else if tr.destination == tracker {
            let load_before = if load_now > 0 {
                load_now - 1
            } else {
                0
            };
            Some((tr.time, load_before))
        } else {
            None
        }
    }

    /// The index of the terminal logger station.
    pub closed spec fn logger_index_spec(&self) -> usize {
        self.pfile_logger
    }

    /// Drains the logger station's buffered completions: exactly its
    /// buffer, which is left empty; no other station is touched.
    pub fn drain_logged(&mut self) -> (r: Vec<crate::request::Request>)
        requires
            old(self).wf(),
        ensures
            final(self).wf(),
            final(self).n_servers_spec() == old(self).n_servers_spec(),
            final(self).logger_index_spec() == old(self).logger_index_spec(),
            r@ == old(self).net().stations_view()[old(self).logger_index_spec() as int]
                .logger_buffered(),
            final(self).net().stations_view()[old(self).logger_index_spec() as int]
                .logger_buffered() == Seq::<crate::request::Request>::empty(),
            forall|i: int|
                0 <= i < old(self).net().stations_view().len() && i != old(
                    self,
                ).logger_index_spec() as int
                    ==> #[trigger] final(self).net().stations_view()[i]
                    == old(self).net().stations_view()[i],
    {
        self.qn.drain_logged(self.pfile_logger)
    }

    /// Re-wires the whole routing for the current pool size: the source
    /// feeds the first arc (or the logger when the pool is empty), each arc
    /// prefers its own server when idle and spills down the chain, the last
    /// server feeds the logger.
    fn update_network(&mut self)
        requires
            old(self).wf(),
            old(self).n_servers_spec() >= 1 ==> old(self).n_servers_spec() <= old(
                self,
            ).pservers_len(),
        ensures
            final(self).wf(),
            final(self).n_servers_spec() == old(self).n_servers_spec(),
            final(self).tracker_spec() == old(self).tracker_spec(),
            final(self).pservers_len() == old(self).pservers_len(),
            final(self).station_count() == old(self).station_count(),
            final(self).net().stations_view() == old(self).net().stations_view(),
    {
        let n = self.n_servers;
        if n >= 2 {
            let source = self.pnetwork_arcs[n - 2];
            let potential_dest = self.pservers[n - 2];
            let fallback_dest = self.pnetwork_arcs[n - 1];
            self.qn.add_transition(
                source,
                RoutePolicy::IfIdle {
                    watch: potential_dest,
                    then_to: potential_dest,
                    else_to: fallback_dest,
                },
            );
        } else if n == 1 {
            let dest = self.pnetwork_arcs[0];
            self.qn.add_transition(self.ptraffic_source, RoutePolicy::To(dest));
        } else {
            // With no servers, sink the traffic source into the logger.
            let dest = self.pfile_logger;
            self.qn.add_transition(self.ptraffic_source, RoutePolicy::To(dest));
        }

        if n > 0 {
            let last_arc = self.pnetwork_arcs[n - 1];
            let last_server = self.pservers[n - 1];
            self.qn.add_transition(last_arc, RoutePolicy::To(last_server));
            self.qn.add_transition(last_server, RoutePolicy::To(self.pfile_logger));
        }
    }

    pub closed spec fn pservers_len(&self) -> int {
        self.pservers@.len() as int
    }

    /// Grows the pool by one server (and its arc), reusing a drained slot
    /// when one exists, and re-wires the routing. Station indices are
    /// stable: the count grows by the appended pair or not at all, and
    /// every pre-existing station keeps its discipline.
    pub fn add_server(&mut self)
        requires
            old(self).wf(),
        ensures
            final(self).wf(),
            final(self).n_servers_spec() == old(self).n_servers_spec() + 1,
            final(self).station_count() == old(self).station_count()
                || final(self).station_count() == old(self).station_count() + 2,
            forall|i: int|
                0 <= i < old(self).station_count()
                    ==> (#[trigger] final(self).net().stations_view()[i]).same_kind(
                    &old(self).net().stations_view()[i],
                ),
    {
        if self.n_servers < self.pservers.len() {
            // Reuse the drained slot.
            let slot = self.n_servers;
            let arc_idx = self.pnetwork_arcs[slot];
            let server_idx = self.pservers[slot];
            self.qn.change_queue(
                arc_idx,
                Station::MgInf(MgInf::new(1, self.link_distribution.clone())),
            );
            self.qn.change_queue(
                server_idx,
                Station::Mg1Ps(Mg1Ps::new(1, self.server_distribution.clone())),
            );
            self.n_servers = self.n_servers + 1;
        } else {
            let arc_idx = self.qn.add_queue(
                Station::MgInf(MgInf::new(1, self.link_distribution.clone())),
            );
            self.pnetwork_arcs.push(arc_idx);
            let server_idx = self.qn.add_queue(
                Station::Mg1Ps(Mg1Ps::new(1, self.server_distribution.clone())),
            );
            self.pservers.push(server_idx);
            let new_n = self.pservers.len();
            proof {
                assert forall|i: int| 0 <= i < self.pservers@.len() implies (
                #[trigger] self.pservers@[i] as int) < self.qn.stations_view().len()
                    && !self.qn.stations_view()[self.pservers@[i] as int].is_source_only() by {
                    if i < old(self).pservers@.len() {
                        assert(self.pservers@[i] == old(self).pservers@[i]);
                    }
                }
                assert forall|i: int| 0 <= i < self.pnetwork_arcs@.len() implies (
                #[trigger] self.pnetwork_arcs@[i] as int) < self.qn.stations_view().len()
                    && !self.qn.stations_view()[self.pnetwork_arcs@[i] as int].is_source_only()
                    by {
                    if i < old(self).pnetwork_arcs@.len() {
                        assert(self.pnetwork_arcs@[i] == old(self).pnetwork_arcs@[i]);
                    }
                }
            }
            self.n_servers = new_n;
        }
        self.pserver_with_tracker = self.pservers[self.n_servers - 1];
        self.update_network();
    }

    /// Shrinks the pool by one: the last server keeps draining, it is only
    /// detached from future routing — every station's state is untouched
    /// and no in-flight request is evicted.
    pub fn remove_server(&mut self)
        requires
            old(self).wf(),
        ensures
            final(self).wf(),
            final(self).station_count() == old(self).station_count(),
            final(self).net().stations_view() == old(self).net().stations_view(),
            old(self).n_servers_spec() > 0 ==> final(self).n_servers_spec() == old(
                self,
            ).n_servers_spec() - 1,
            old(self).n_servers_spec() == 0 ==> final(self).n_servers_spec() == 0,
    {
        if self.n_servers > 0 {
            self.n_servers = self.n_servers - 1;
            if self.n_servers > 0 {
                self.pserver_with_tracker = self.pservers[self.n_servers - 1];
            }
            self.update_network();
        }
    }
}

} // verus!
