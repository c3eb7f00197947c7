//! The queueing network engine: owns the stations, their routing policies
//! and the shared caches, and advances simulated time event by event.
//!
//! One transition is atomic: select the station with the globally minimum
//! pending exit (ties broken by scan order, later station wins), advance
//! every station to that instant, pop the winning request, evaluate the
//! origin's routing policy, log the hop and hand the request to its
//! destination. A destination outside the station range is reported, request
//! included, as `DestinationOutOfBound`: control stations use that channel
//! deliberately to signal scaling commands, so the caller disambiguates by
//! inspecting the origin.

use vstd::prelude::*;

verus! {

use crate::caches::RandomAccept;
use crate::caches::PerfectLfu;
use crate::caches::abf_cache::AgingBloomFilter;
use crate::caches::abf_fpga_cache::AgingBloomFilterFPGA;
use crate::caches::lru_cache::LruCache;
use crate::caches::p2_filter::P2LruFilter;
use crate::caches::sample_below;
use crate::distribution::MutDistribution;
use crate::queues::Station;
use crate::request::Request;

/// One completed transition: the instant, the station left and the station
/// reached.
#[derive(Clone, Copy, PartialEq, Eq, Structural, Debug)]
pub struct Transition {
    pub time: u64,
    pub origin: usize,
    pub destination: usize,
}

/// A transition whose destination fell outside the station range, with the
/// popped request so that a controller can read the signalled command.
#[derive(Debug)]
pub struct OutOfBoundTransition {
    pub time: u64,
    pub origin: usize,
    pub destination: usize,
    pub request: Request,
}

/// Why a transition could not complete. `NoExitFound` is the normal end of a
/// finite simulation; `NoTransitionFound` is a configuration error (a
/// non-terminal station without routing); `DestinationOutOfBound` doubles as
/// the deliberate signalling channel described on the engine.
#[derive(Debug)]
pub enum TransitionError {
    NoExitFound,
    NoTransitionFound(usize),
    DestinationOutOfBound(OutOfBoundTransition),
}

/// A shared cache registered with the network and addressed by index from
/// the routing policies.
pub enum CacheBox {
    Lru(LruCache),
    Abf(AgingBloomFilter),
    AbfFpga(AgingBloomFilterFPGA),
    Lfu(PerfectLfu),
    Blind(RandomAccept),
    P2(P2LruFilter),
}

impl CacheBox {
    pub open spec fn wf(&self) -> bool {
        match self {
            CacheBox::Lru(c) => c.wf(),
            CacheBox::Abf(c) => c.wf(),
            CacheBox::AbfFpga(c) => c.wf(),
            CacheBox::Lfu(_) => true,
            CacheBox::Blind(c) => c.den_spec() >= 1,
            CacheBox::P2(c) => c.wf(),
        }
    }

    /// A key this cache is positively holding: recency membership for the
    /// exact caches, recorded-and-not-rotated for the probabilistic ones,
    /// the threshold rule for the ideal frequency filter. The Bernoulli
    /// filter holds nothing.
    pub open spec fn tracks(&self, key: u64) -> bool {
        match self {
            CacheBox::Lru(c) => c@.contains(key),
            CacheBox::Abf(c) => c.tracks(key),
            CacheBox::AbfFpga(c) => c.tracks(key),
            CacheBox::Lfu(c) => key <= c.threshold_spec(),
            CacheBox::Blind(_) => false,
            CacheBox::P2(c) => c.accept_view().contains(key),
        }
    }

    /// The exact recency list of an LRU-backed entry (empty otherwise).
    pub open spec fn lru_view(&self) -> Seq<u64> {
        match self {
            CacheBox::Lru(c) => c@,
            _ => Seq::empty(),
        }
    }

    pub open spec fn lru_cap(&self) -> nat {
        match self {
            CacheBox::Lru(c) => c.cap_spec(),
            _ => 0,
        }
    }

    /// Tests membership, then records the key unconditionally (admission
    /// filters in front of a tier use this shape).
    pub fn check_and_set(&mut self, key: u64, now: u64) -> (r: bool)
        requires
            old(self).wf(),
        ensures
            final(self).wf(),
            cache_same_kind(final(self), old(self)),
            old(self).tracks(key) && !((*old(self)) is Blind) ==> r,
            (*old(self)) is Lru ==> {
                &&& (*final(self)) is Lru
                &&& r == old(self).lru_view().contains(key)
                &&& final(self).lru_view() == crate::caches::lru_cache::lru_step(
                    old(self).lru_view(),
                    key,
                    old(self).lru_cap(),
                )
                &&& final(self).lru_cap() == old(self).lru_cap()
            },
            (*old(self)) is AbfFpga ==> final(self).tracks(key),
            (*old(self)) is Abf ==> (r || final(self).tracks(key)),
            (*old(self)) is P2 ==> r == old(self).tracks(key),
    {
        match self {
            CacheBox::Lru(c) => {
                let r = c.contains_key(&key);
                c.update(key);
                r
            },
            CacheBox::Abf(c) => c.check_and_set(key),
            CacheBox::AbfFpga(c) => c.check_and_set(key),
            CacheBox::Lfu(c) => c.is_member(&key),
            CacheBox::Blind(c) => c.draw(),
            CacheBox::P2(c) => c.check_and_set(key, now),
        }
    }

    /// Tests membership and refreshes recency only on a hit (content caches
    /// inside a tier use this shape).
    pub fn check_update_if_hit(&mut self, key: u64, now: u64) -> (r: bool)
        requires
            old(self).wf(),
        ensures
            final(self).wf(),
            cache_same_kind(final(self), old(self)),
            old(self).tracks(key) && !((*old(self)) is Blind) ==> r,
            (*old(self)) is Lru ==> {
                &&& (*final(self)) is Lru
                &&& r == old(self).lru_view().contains(key)
                &&& final(self).lru_view() == if old(self).lru_view().contains(key) {
                    crate::caches::lru_cache::lru_step(
                        old(self).lru_view(),
                        key,
                        old(self).lru_cap(),
                    )
                } else {
                    old(self).lru_view()
                }
                &&& final(self).lru_cap() == old(self).lru_cap()
            },
    {
        match self {
            CacheBox::Lru(c) => {
                if c.contains_key(&key) {
                    c.update(key);
                    true
                } else {
                    false
                }
            },
            CacheBox::Abf(c) => c.contains_key(&key),
            CacheBox::AbfFpga(c) => c.contains_key(&key),
            CacheBox::Lfu(c) => c.is_member(&key),
            CacheBox::Blind(c) => c.draw(),
            CacheBox::P2(c) => c.probe(key, now),
        }
    }

    /// Records an admission.
    pub fn record(&mut self, key: u64, now: u64)
        requires
            old(self).wf(),
        ensures
            final(self).wf(),
            cache_same_kind(final(self), old(self)),
            (*old(self)) is Lru ==> {
                &&& (*final(self)) is Lru
                &&& final(self).lru_view() == crate::caches::lru_cache::lru_step(
                    old(self).lru_view(),
                    key,
                    old(self).lru_cap(),
                )
                &&& final(self).lru_cap() == old(self).lru_cap()
            },
            (*old(self)) is AbfFpga ==> final(self).tracks(key),
            (*old(self)) is Abf ==> (*final(self) == *old(self) || final(self).tracks(key)),
    {
        match self {
            CacheBox::Lru(c) => c.update(key),
            CacheBox::Abf(c) => c.record(key),
            CacheBox::AbfFpga(c) => c.record(key),
            CacheBox::Lfu(_) => (),
            CacheBox::Blind(_) => (),
            CacheBox::P2(c) => c.update(key, now),
        }
    }
}

/// Per-origin routing: a pure decision from (request content, read-only
/// network state, shared caches) to a destination index. The variants cover
/// the topologies the experiments use; the out-of-range sentinel of a
/// control station is a plain `To` with an index beyond the station range.
pub enum RoutePolicy {
    /// Always to the same station.
    To(usize),
    /// To `then_to` when the watched station is idle, else to `else_to`.
    IfIdle { watch: usize, then_to: usize, else_to: usize },
    /// To one of the listed stations, uniformly at random.
    Random { dests: Vec<usize> },
    /// Sample two distinct servers and join the shorter one.
    JoinShorterOfTwo { servers: Vec<usize>, dests: Vec<usize> },
    /// Join the first idle server, or a random one when none is idle.
    JoinIdleQueue { servers: Vec<usize>, dests: Vec<usize> },
    /// Test-and-record in a cache; route by the answer.
    CacheCheckAndSet { cache: usize, hit: usize, miss: usize },
    /// Test a cache, refreshing recency only on a hit; route by the answer.
    CacheCheckUpdateIfHit { cache: usize, hit: usize, miss: usize },
    /// Record the content in the listed caches, then route on.
    UpdateCachesThen { caches: Vec<usize>, to: usize },
}

/// An in-range destination must be able to accept arrivals.
pub open spec fn dest_ok<D: MutDistribution>(d: usize, stations: Seq<Station<D>>) -> bool {
    d < stations.len() ==> !stations[d as int].is_source_only()
}

/// What a policy needs from the network to be evaluable: watched and load-
/// compared stations in range, cache indices in range, and every in-range
/// destination able to accept arrivals.
pub open spec fn policy_wf<D: MutDistribution>(
    p: &RoutePolicy,
    stations: Seq<Station<D>>,
    n_caches: int,
) -> bool {
    match p {
        RoutePolicy::To(d) => dest_ok(*d, stations),
        RoutePolicy::IfIdle { watch, then_to, else_to } => {
            &&& (*watch as int) < stations.len()
            &&& dest_ok(*then_to, stations)
            &&& dest_ok(*else_to, stations)
        },
        RoutePolicy::Random { dests } => {
            &&& dests@.len() >= 1
            &&& forall|j: int| 0 <= j < dests@.len() ==> dest_ok(#[trigger] dests@[j], stations)
        },
        RoutePolicy::JoinShorterOfTwo { servers, dests } => {
            &&& servers@.len() == dests@.len()
            &&& servers@.len() >= 1
            &&& forall|j: int| 0 <= j < servers@.len() ==> (#[trigger] servers@[j] as int) < stations.len()
            &&& forall|j: int| 0 <= j < dests@.len() ==> dest_ok(#[trigger] dests@[j], stations)
        },
        RoutePolicy::JoinIdleQueue { servers, dests } => {
            &&& servers@.len() == dests@.len()
            &&& servers@.len() >= 1
            &&& forall|j: int| 0 <= j < servers@.len() ==> (#[trigger] servers@[j] as int) < stations.len()
            &&& forall|j: int| 0 <= j < dests@.len() ==> dest_ok(#[trigger] dests@[j], stations)
        },
        RoutePolicy::CacheCheckAndSet { cache, hit, miss } => {
            &&& (*cache as int) < n_caches
            &&& dest_ok(*hit, stations)
            &&& dest_ok(*miss, stations)
        },
        RoutePolicy::CacheCheckUpdateIfHit { cache, hit, miss } => {
            &&& (*cache as int) < n_caches
            &&& dest_ok(*hit, stations)
            &&& dest_ok(*miss, stations)
        },
        RoutePolicy::UpdateCachesThen { caches, to } => {
            &&& forall|j: int| 0 <= j < caches@.len() ==> (#[trigger] caches@[j] as int) < n_caches
            &&& dest_ok(*to, stations)
        },
    }
}

/// The destinations a policy can ever produce.
pub open spec fn policy_allows(p: &RoutePolicy, d: usize) -> bool {
    match p {
        RoutePolicy::To(x) => d == x,
        RoutePolicy::IfIdle { then_to, else_to, .. } => d == then_to || d == else_to,
        RoutePolicy::Random { dests } => dests@.contains(d),
        RoutePolicy::JoinShorterOfTwo { dests, .. } => dests@.contains(d),
        RoutePolicy::JoinIdleQueue { dests, .. } => dests@.contains(d),
        RoutePolicy::CacheCheckAndSet { hit, miss, .. } => d == hit || d == miss,
        RoutePolicy::CacheCheckUpdateIfHit { hit, miss, .. } => d == hit || d == miss,
        RoutePolicy::UpdateCachesThen { to, .. } => d == to,
    }
}

/// Policies that neither draw randomness nor consult a cache: their
/// destination is a function of the station loads alone.
pub open spec fn policy_is_deterministic(p: &RoutePolicy) -> bool {
    match p {
        RoutePolicy::To(_) => true,
        RoutePolicy::IfIdle { .. } => true,
        _ => false,
    }
}

/// The destination of a deterministic policy, given the station loads.
pub open spec fn route_spec(p: &RoutePolicy, loads: Seq<int>) -> usize {
    match p {
        RoutePolicy::To(d) => *d,
        RoutePolicy::IfIdle { watch, then_to, else_to } => if loads[*watch as int] == 0 {
            *then_to
        } else {
            *else_to
        },
        _ => 0,
    }
}

/// The loads the routing policy observes: every station advanced to the
/// transition instant (which leaves loads alone) and the origin's departing
/// request already popped.
pub open spec fn loads_after_pop<D: MutDistribution>(
    stations: Seq<Station<D>>,
    origin: int,
) -> Seq<int> {
    Seq::new(
        stations.len(),
        |i: int|
            if i == origin {
                stations[i].load_after_pop()
            } else {
                stations[i].load_spec()
            },
    )
}

/// The selection of the engine's next event over the first `i` stations:
/// the pending exit with the minimum timestamp, a later station winning
/// ties, exactly as the scan visits them in index order.
pub open spec fn scan_spec<D: MutDistribution>(
    s: Seq<Station<D>>,
    i: int,
) -> Option<(int, u64)>
    decreases i,
{
    if i <= 0 {
        None
    } else {
        let prev = scan_spec(s, i - 1);
        match s[i - 1].next_exit_time_spec() {
            None => prev,
            Some(t) => match prev {
                None => Some((i - 1, t)),
                Some(pt) => if t <= pt.1 {
                    Some((i - 1, t))
                } else {
                    prev
                },
            },
        }
    }
}

/// What the selection promises: a real station, reporting exactly that
/// exit time, and no station anywhere reports an earlier one.
pub proof fn lemma_scan_spec<D: MutDistribution>(s: Seq<Station<D>>, i: int)
    requires
        0 <= i <= s.len(),
    ensures
        scan_spec(s, i) is None ==> forall|j: int|
            0 <= j < i ==> (#[trigger] s[j].next_exit_time_spec()) is None,
        scan_spec(s, i) matches Some(p) ==> {
            &&& 0 <= p.0 < i
            &&& s[p.0].next_exit_time_spec() == Some(p.1)
            &&& forall|j: int|
                0 <= j < i ==> match #[trigger] s[j].next_exit_time_spec() {
                    Some(t) => p.1 <= t,
                    None => true,
                }
        },
    decreases i,
{
    if i > 0 {
        lemma_scan_spec(s, i - 1);
    }
}

/// The network: an ordered collection of stations, their attached routing
/// policies, the registered shared caches, and the engine clock. Station
/// indices are stable for the life of the network, even across topology
/// changes: a removed server is only detached from routing and drains
/// naturally.
pub struct QNet<D: MutDistribution> {
    pub number_of_queues: usize,
    stations: Vec<Station<D>>,
    routing: Vec<Option<RoutePolicy>>,
    caches: Vec<CacheBox>,
    time: u64,
}

impl<D: MutDistribution> QNet<D> {
    pub closed spec fn stations_view(&self) -> Seq<Station<D>> {
        self.stations@
    }

    pub closed spec fn routing_view(&self) -> Seq<Option<RoutePolicy>> {
        self.routing@
    }

    pub closed spec fn caches_view(&self) -> Seq<CacheBox> {
        self.caches@
    }

    pub closed spec fn time_spec(&self) -> u64 {
        self.time
    }

    pub closed spec fn nq_spec(&self) -> usize {
        self.number_of_queues
    }

    pub open spec fn wf(&self) -> bool {
        &&& self.nq_spec() == self.stations_view().len()
        &&& self.routing_view().len() == self.stations_view().len()
        &&& forall|i: int|
            0 <= i < self.stations_view().len() ==> (#[trigger] self.stations_view()[i]).wf()
        &&& forall|i: int|
            0 <= i < self.caches_view().len() ==> (#[trigger] self.caches_view()[i]).wf()
        &&& forall|i: int|
            0 <= i < self.routing_view().len()
                ==> match #[trigger] self.routing_view()[i] {
                    Some(p) => policy_wf(&p, self.stations_view(), self.caches_view().len() as int),
                    None => true,
                }
    }

    pub fn new() -> (r: QNet<D>)
        ensures
            r.wf(),
            r.stations_view().len() == 0,
            r.caches_view().len() == 0,
            r.time_spec() == 0,
    {
        QNet {
            number_of_queues: 0,
            stations: Vec::new(),
            routing: Vec::new(),
            caches: Vec::new(),
            time: 0,
        }
    }

    /// Registers a station; its index is stable from here on. No routing is
    /// attached yet, so it is terminal until `add_transition`.
    pub fn add_queue(&mut self, q: Station<D>) -> (idx: usize)
        requires
            old(self).wf(),
            q.wf(),
            !q.is_source_only() || forall|i: int|
                0 <= i < old(self).routing_view().len() ==> (#[trigger] old(
                    self,
                ).routing_view()[i]) is None,
        ensures
            final(self).wf(),
            idx == old(self).stations_view().len(),
            final(self).stations_view() == old(self).stations_view().push(q),
            final(self).routing_view() == old(self).routing_view().push(
                Option::<RoutePolicy>::None,
            ),
            final(self).caches_view() == old(self).caches_view(),
            final(self).time_spec() == old(self).time_spec(),
    {
        let idx = self.stations.len();
        let ghost src = q.is_source_only();
        self.stations.push(q);
        self.routing.push(None);
        self.number_of_queues = self.stations.len();
        proof {
            if !src {
                lemma_policies_stable(
                    old(self).routing_view(),
                    old(self).stations_view(),
                    self.stations@,
                    self.caches@.len() as int,
                );
            }
            assert forall|i: int| 0 <= i < self.stations@.len() implies (
            #[trigger] self.stations_view()[i]).wf() by {
                if i < old(self).stations_view().len() {
                    assert(self.stations_view()[i] == old(self).stations_view()[i]);
                }
            }
            assert forall|i: int| 0 <= i < self.caches@.len() implies (
            #[trigger] self.caches_view()[i]).wf() by {
                assert(self.caches_view()[i] == old(self).caches_view()[i]);
            }
            assert forall|i: int| 0 <= i < self.routing@.len() implies match (
            #[trigger] self.routing_view()[i]) {
                Some(p) => policy_wf(&p, self.stations_view(), self.caches_view().len() as int),
                None => true,
            } by {
                if i < old(self).routing_view().len() {
                    assert(self.routing_view()[i] == old(self).routing_view()[i]);
                    if src {
                        assert(old(self).routing_view()[i] is None);
                    }
                }
            }
        }
        idx
    }

    /// Registers a shared cache for the routing policies to address.
    pub fn add_cache(&mut self, c: CacheBox) -> (idx: usize)
        requires
            old(self).wf(),
            c.wf(),
        ensures
            final(self).wf(),
            idx == old(self).caches_view().len(),
            final(self).caches_view() == old(self).caches_view().push(c),
            final(self).stations_view() == old(self).stations_view(),
            final(self).routing_view() == old(self).routing_view(),
            final(self).time_spec() == old(self).time_spec(),
    {
        let idx = self.caches.len();
        self.caches.push(c);
        proof {
            assert forall|i: int| 0 <= i < self.routing@.len() implies match #[trigger] self
                .routing@[i] {
                Some(p) => policy_wf(&p, self.stations@, self.caches@.len() as int),
                None => true,
            } by {
                match self.routing@[i] {
                    Some(p) => {
                        assert(policy_wf(&p, self.stations@, old(self).caches_view().len() as int));
                        lemma_policy_wf_more_caches(
                            &p,
                            self.stations@,
                            old(self).caches_view().len() as int,
                            self.caches@.len() as int,
                        );
                    },
                    None => (),
                }
            }
        }
        idx
    }

    /// Attaches (or replaces) the routing policy of a station.
    pub fn add_transition(&mut self, queue: usize, policy: RoutePolicy)
        requires
            old(self).wf(),
            queue < old(self).stations_view().len(),
            policy_wf(&policy, old(self).stations_view(), old(self).caches_view().len() as int),
        ensures
            final(self).wf(),
            final(self).stations_view() == old(self).stations_view(),
            final(self).caches_view() == old(self).caches_view(),
            final(self).time_spec() == old(self).time_spec(),
            final(self).routing_view() == old(self).routing_view().update(
                queue as int,
                Some(policy),
            ),
    {
        self.routing[queue] = Some(policy);
    }

    /// Replaces a station in place, keeping its index. The replacement must
    /// accept arrivals, so every policy aimed at this index stays valid.
    pub fn change_queue(&mut self, queue: usize, q: Station<D>) -> (idx: usize)
        requires
            old(self).wf(),
            queue < old(self).stations_view().len(),
            q.wf(),
            !q.is_source_only(),
        ensures
            final(self).wf(),
            idx == queue,
            final(self).stations_view() == old(self).stations_view().update(queue as int, q),
            final(self).routing_view() == old(self).routing_view(),
            final(self).caches_view() == old(self).caches_view(),
            final(self).time_spec() == old(self).time_spec(),
    {
        self.stations[queue] = q;
        proof {
            lemma_policies_stable(
                self.routing@,
                old(self).stations_view(),
                self.stations@,
                self.caches@.len() as int,
            );
            assert forall|i: int| 0 <= i < self.stations@.len() implies (
            #[trigger] self.stations_view()[i]).wf() by {
                if i != queue as int {
                    assert(self.stations_view()[i] == old(self).stations_view()[i]);
                }
            }
            assert forall|i: int| 0 <= i < self.caches@.len() implies (
            #[trigger] self.caches_view()[i]).wf() by {
                assert(self.caches_view()[i] == old(self).caches_view()[i]);
            }
        }
        queue
    }

    pub fn get_queue(&self, queue: usize) -> (r: &Station<D>)
        requires
            queue < self.stations_view().len(),
        ensures
            *r == self.stations_view()[queue as int],
    {
        &self.stations[queue]
    }

    pub fn get_time(&self) -> (r: u64)
        ensures
            r == self.time_spec(),
    {
        self.time
    }

    /// Drains the buffered completions of the logger station at `queue`:
    /// the returned vector is exactly that station's buffer, which is left
    /// empty; every other station is untouched.
    pub fn drain_logged(&mut self, queue: usize) -> (r: Vec<Request>)
        requires
            old(self).wf(),
            queue < old(self).stations_view().len(),
        ensures
            final(self).wf(),
            final(self).stations_view().len() == old(self).stations_view().len(),
            final(self).routing_view() == old(self).routing_view(),
            final(self).caches_view() == old(self).caches_view(),
            final(self).time_spec() == old(self).time_spec(),
            r@ == old(self).stations_view()[queue as int].logger_buffered(),
            final(self).stations_view()[queue as int].logger_buffered()
                == Seq::<Request>::empty(),
            forall|i: int|
                0 <= i < old(self).stations_view().len() && i != queue as int
                    ==> #[trigger] final(self).stations_view()[i] == old(
                    self,
                ).stations_view()[i],
            final(self).stations_view()[queue as int].same_kind(
                &old(self).stations_view()[queue as int],
            ),
            forall|i: int|
                0 <= i < old(self).stations_view().len()
                    ==> (#[trigger] final(self).stations_view()[i]).is_source_only()
                    == old(self).stations_view()[i].is_source_only(),
    {
        let mut st = self.stations.remove(queue);
        let out = st.drain_logged();
        self.stations.insert(queue, st);
        proof {
            assert(self.stations@ =~= old(self).stations_view().update(
                queue as int,
                self.stations@[queue as int],
            ));
            lemma_policies_stable(
                self.routing@,
                old(self).stations_view(),
                self.stations@,
                self.caches@.len() as int,
            );
            assert forall|i: int| 0 <= i < self.stations@.len() implies (
            #[trigger] self.stations_view()[i]).wf() by {
                if i != queue as int {
                    assert(self.stations_view()[i] == old(self).stations_view()[i]);
                }
            }
            assert forall|i: int| 0 <= i < self.caches@.len() implies (
            #[trigger] self.caches_view()[i]).wf() by {
                assert(self.caches_view()[i] == old(self).caches_view()[i]);
            }
        }
        out
    }

    /// Exec check that a policy is well formed for this network, for callers
    /// that build policies dynamically.
    pub fn policy_ok(&self, p: &RoutePolicy) -> (r: bool)
        ensures
            r ==> policy_wf(p, self.stations_view(), self.caches_view().len() as int),
    {
        match p {
            RoutePolicy::To(d) => self.dest_ok_exec(*d),
            RoutePolicy::IfIdle { watch, then_to, else_to } => {
                *watch < self.stations.len() && self.dest_ok_exec(*then_to)
                    && self.dest_ok_exec(*else_to)
            },
            RoutePolicy::Random { dests } => {
                dests.len() >= 1 && self.dests_ok_exec(dests)
            },
            RoutePolicy::JoinShorterOfTwo { servers, dests } => {
                servers.len() == dests.len() && servers.len() >= 1
                    && self.servers_ok_exec(servers) && self.dests_ok_exec(dests)
            },
            RoutePolicy::JoinIdleQueue { servers, dests } => {
                servers.len() == dests.len() && servers.len() >= 1
                    && self.servers_ok_exec(servers) && self.dests_ok_exec(dests)
            },
            RoutePolicy::CacheCheckAndSet { cache, hit, miss } => {
                *cache < self.caches.len() && self.dest_ok_exec(*hit) && self.dest_ok_exec(*miss)
            },
            RoutePolicy::CacheCheckUpdateIfHit { cache, hit, miss } => {
                *cache < self.caches.len() && self.dest_ok_exec(*hit) && self.dest_ok_exec(*miss)
            },
            RoutePolicy::UpdateCachesThen { caches, to } => {
                self.cache_list_ok_exec(caches) && self.dest_ok_exec(*to)
            },
        }
    }

    fn dest_ok_exec(&self, d: usize) -> (r: bool)
        ensures
            r == dest_ok(d, self.stations_view()),
    {
        if d < self.stations.len() {
            let src = match &self.stations[d] {
                Station::Generator(_) => true,
                Station::ZipfGen(_) => true,
                Station::TraceGen(_) => true,
                _ => false,
            };
            !src
        } else {
            true
        }
    }

    fn dests_ok_exec(&self, dests: &Vec<usize>) -> (r: bool)
        ensures
            r == forall|j: int|
                0 <= j < dests@.len() ==> dest_ok(#[trigger] dests@[j], self.stations_view()),
    {
        let mut j: usize = 0;
        while j < dests.len()
            invariant
                0 <= j <= dests@.len(),
                forall|k: int|
                    0 <= k < j ==> dest_ok(#[trigger] dests@[k], self.stations_view()),
            decreases dests@.len() - j,
        {
            if !self.dest_ok_exec(dests[j]) {
                return false;
            }
            j = j + 1;
        }
        true
    }

    fn servers_ok_exec(&self, servers: &Vec<usize>) -> (r: bool)
        ensures
            r == forall|j: int|
                0 <= j < servers@.len() ==> (#[trigger] servers@[j] as int) < self.stations_view().len(),
    {
        let mut j: usize = 0;
        while j < servers.len()
            invariant
                0 <= j <= servers@.len(),
                forall|k: int|
                    0 <= k < j ==> (#[trigger] servers@[k] as int) < self.stations_view().len(),
            decreases servers@.len() - j,
        {
            if servers[j] >= self.stations.len() {
                return false;
            }
            j = j + 1;
        }
        true
    }

    fn cache_list_ok_exec(&self, list: &Vec<usize>) -> (r: bool)
        ensures
            r == forall|j: int|
                0 <= j < list@.len() ==> (#[trigger] list@[j] as int) < self.caches_view().len(),
    {
        let mut j: usize = 0;
        while j < list.len()
            invariant
                0 <= j <= list@.len(),
                forall|k: int|
                    0 <= k < j ==> (#[trigger] list@[k] as int) < self.caches_view().len(),
            decreases list@.len() - j,
        {
            if list[j] >= self.caches.len() {
                return false;
            }
            j = j + 1;
        }
        true
    }

    /// One atomic transition of the network. On success the returned record
    /// is a function of the pre-state: the origin is the scan selection, the
    /// time is the origin's exit time re-derived at the selected instant,
    /// and for a deterministic policy the destination is fixed by the
    /// observed loads — this is what makes repeated runs from equal states
    /// produce identical transition sequences.
    #[verifier::rlimit(80)]
    pub fn make_transition(&mut self) -> (r: Result<Transition, TransitionError>)
        requires
            old(self).wf(),
        ensures
            final(self).wf(),
            transition_post(*old(self), *final(self), r),
    {
        let n = self.stations.len();

        // Scan every station's pending exit for the global minimum.
        let mut best: Option<(usize, u64)> = None;
        let mut i: usize = 0;
        while i < n
            invariant
                0 <= i <= n,
                n == self.stations@.len(),
                self.wf(),
                match best {
                    None => scan_spec(self.stations@, i as int) is None,
                    Some(b) => scan_spec(self.stations@, i as int) == Some((b.0 as int, b.1))
                        && b.0 < i,
                },
            decreases n - i,
        {
            let st = &self.stations[i];
            match st.read_next_exit() {
                Some((t, _)) => {
                    match best {
                        None => {
                            best = Some((i, t));
                        },
                        Some((_, bt)) => {
                            if t <= bt {
                                best = Some((i, t));
                            }
                        },
                    }
                },
                None => (),
            }
            i = i + 1;
        }

        let (orig, tmin) = match best {
            None => {
                return Err(TransitionError::NoExitFound);
            },
            Some(b) => b,
        };
        proof {
            lemma_scan_spec(self.stations@, n as int);
        }

        // Advance every station's notion of time to the selected instant, so
        // processor-sharing stations account the elapsed work correctly.
        let ghost stations0 = self.stations@;
        let mut j: usize = 0;
        while j < n
            invariant
                0 <= j <= n,
                n == self.stations@.len(),
                stations0.len() == n,
                self.routing@ == old(self).routing_view(),
                self.caches@ == old(self).caches_view(),
                self.number_of_queues == old(self).number_of_queues,
                self.time == old(self).time_spec(),
                old(self).wf(),
                self.wf(),
                forall|k: int| 0 <= k < n ==> (#[trigger] self.stations@[k]).same_kind(
                    &stations0[k],
                ),
                forall|k: int|
                    0 <= k < n ==> (#[trigger] self.stations@[k]).is_source_only()
                        == stations0[k].is_source_only(),
                forall|k: int|
                    0 <= k < n ==> (#[trigger] self.stations@[k]).load_spec()
                        == stations0[k].load_spec(),
                forall|k: int|
                    0 <= k < n ==> (#[trigger] self.stations@[k]).load_after_pop()
                        == stations0[k].load_after_pop(),
                forall|k: int|
                    j <= k < n ==> #[trigger] self.stations@[k] == stations0[k],
                forall|k: int|
                    0 <= k < j ==> (#[trigger] self.stations@[k]).next_exit_time_spec()
                        == stations0[k].next_exit_time_after(tmin),
                forall|k: int|
                    0 <= k < n ==> (#[trigger] self.stations@[k]).pending_request_spec()
                        == stations0[k].pending_request_spec(),
                forall|k: int|
                    0 <= k < n ==> (#[trigger] self.stations@[k]).logger_buffered()
                        == stations0[k].logger_buffered(),
            decreases n - j,
        {
            let ghost prev = self.stations@;
            let mut st = self.stations.remove(j);
            st.update_time(tmin);
            self.stations.insert(j, st);
            proof {
                assert(self.stations@ =~= prev.update(j as int, self.stations@[j as int]));
            }
            j = j + 1;
        }

        // Pop the winning request from its origin.
        let ghost prevp = self.stations@;
        let mut orig_station = self.stations.remove(orig);
        let popped = orig_station.pop_next_exit();
        self.stations.insert(orig, orig_station);
        proof {
            assert(self.stations@ =~= prevp.update(orig as int, self.stations@[orig as int]));
        }
        let (tpop, mut req) = match popped {
            Some(p) => p,
            None => {
                proof {
                    assert(false);
                }
                return Err(TransitionError::NoExitFound);
            },
        };
        // Simulated time is monotonically non-decreasing: the re-derived
        // exit instant is clamped to the engine clock, so integer rounding
        // can never move time backwards.
        let t = if tpop >= self.time {
            tpop
        } else {
            self.time
        };
        self.time = t;

        // Evaluate the origin's routing policy, if any.
        let has_policy = match &self.routing[orig] {
            Some(_) => true,
            None => false,
        };
        if !has_policy {
            proof {
                bridge_post_pop(
                    *old(self),
                    self.stations@,
                    stations0,
                    prevp,
                    orig as int,
                    orig as int,
                    tmin,
                );
                lemma_policies_stable(
                    self.routing@,
                    old(self).stations_view(),
                    self.stations@,
                    self.caches@.len() as int,
                );
            }
            return Err(TransitionError::NoTransitionFound(orig));
        }

        let content = req.get_content();
        let dest = self.route_eval(orig, content, t);

        // Log the hop, then hand the request over or report the overflow.
        req.add_log_entry(t, orig, dest);
        if dest < self.stations.len() {
            let ghost preva = self.stations@;
            let ghost req_logged = req;
            let mut dest_station = self.stations.remove(dest);
            dest_station.arrival(req);
            self.stations.insert(dest, dest_station);
            proof {
                assert(self.stations@ =~= preva.update(dest as int, self.stations@[dest as int]));
                lemma_policies_stable(
                    self.routing@,
                    preva,
                    self.stations@,
                    self.caches@.len() as int,
                );
                bridge_post_pop(
                    *old(self),
                    self.stations@,
                    stations0,
                    prevp,
                    orig as int,
                    dest as int,
                    tmin,
                );
                assert forall|k: int|
                    0 <= k < n && k != orig as int && k != dest as int implies (
                #[trigger] self.stations@[k]).load_spec() == old(
                    self,
                ).stations_view()[k].load_spec() by {
                    assert(self.stations@[k] == preva[k]);
                    assert(preva[k] == prevp[k]);
                }
                if dest != orig {
                    assert(self.stations@[orig as int] == preva[orig as int]);
                }
                if old(self).stations_view()[dest as int] is Logger {
                    assert(preva[dest as int].logger_buffered() == stations0[dest as int]
                        .logger_buffered());
                    assert(self.stations@[dest as int].logger_buffered() == preva[dest
                        as int].logger_buffered().push(req_logged));
                    assert(self.stations@[dest as int].logger_buffered().drop_last()
                        =~= stations0[dest as int].logger_buffered());
                }
            }
            Ok(Transition { time: t, origin: orig, destination: dest })
        } else {
            proof {
                bridge_post_pop(
                    *old(self),
                    self.stations@,
                    stations0,
                    prevp,
                    orig as int,
                    orig as int,
                    tmin,
                );
                lemma_policies_stable(
                    self.routing@,
                    old(self).stations_view(),
                    self.stations@,
                    self.caches@.len() as int,
                );
            }
            Err(
                TransitionError::DestinationOutOfBound(
                    OutOfBoundTransition { time: t, origin: orig, destination: dest, request: req },
                ),
            )
        }
    }

    /// Evaluates the routing policy of `orig` (which must have one): reads
    /// loads, draws any randomness, consults and updates the shared caches.
    fn route_eval(&mut self, orig: usize, content: u64, now: u64) -> (dest: usize)
        requires
            old(self).wf(),
            orig < old(self).stations_view().len(),
            old(self).routing_view()[orig as int] is Some,
        ensures
            final(self).wf(),
            final(self).stations_view() == old(self).stations_view(),
            final(self).routing_view() == old(self).routing_view(),
            final(self).caches_view().len() == old(self).caches_view().len(),
            final(self).time_spec() == old(self).time_spec(),
            final(self).number_of_queues == old(self).number_of_queues,
            forall|i: int|
                0 <= i < old(self).caches_view().len() ==> cache_same_kind(
                    &(#[trigger] final(self).caches_view()[i]),
                    &old(self).caches_view()[i],
                ),
            old(self).routing_view()[orig as int] matches Some(p) ==> {
                &&& policy_allows(&p, dest)
                &&& policy_is_deterministic(&p) ==> dest == route_spec(
                    &p,
                    loads_of(old(self).stations_view()),
                )
                &&& forall|i: int|
                    0 <= i < old(self).caches_view().len() && !policy_touches(&p, i)
                        ==> #[trigger] final(self).caches_view()[i] == old(
                        self,
                    ).caches_view()[i]
            },
    {
        let policy = &self.routing[orig];
        match policy {
            Some(RoutePolicy::To(d)) => *d,
            Some(RoutePolicy::IfIdle { watch, then_to, else_to }) => {
                if self.stations[*watch].read_load() == 0 {
                    *then_to
                } else {
                    *else_to
                }
            },
            Some(RoutePolicy::Random { dests }) => {
                let k = sample_below(dests.len() as u64);
                dests[k as usize]
            },
            Some(RoutePolicy::JoinShorterOfTwo { servers, dests }) => {
                let m = servers.len();
                let c1 = sample_below(m as u64) as usize;
                let c2 = if m > 1 {
                    let raw = sample_below((m - 1) as u64) as usize;
                    if raw >= c1 {
                        raw + 1
                    } else {
                        raw
                    }
                } else {
                    c1
                };
                let load1 = self.stations[servers[c1]].read_load();
                let load2 = self.stations[servers[c2]].read_load();
                if load1 < load2 {
                    dests[c1]
                } else {
                    dests[c2]
                }
            },
            Some(RoutePolicy::JoinIdleQueue { servers, dests }) => {
                let m = servers.len();
                let mut k: usize = 0;
                let mut found: usize = m;
                while k < m
                    invariant
                        0 <= k <= m,
                        m == servers@.len(),
                        m == dests@.len(),
                        self.wf(),
                        found == m || found < k,
                        forall|x: int|
                            0 <= x < servers@.len() ==> (#[trigger] servers@[x] as int)
                                < self.stations@.len(),
                    decreases m - k,
                {
                    if found == m && self.stations[servers[k]].read_load() == 0 {
                        found = k;
                    }
                    k = k + 1;
                }
                if found < m {
                    dests[found]
                } else {
                    let r = sample_below(m as u64) as usize;
                    dests[r]
                }
            },
            Some(RoutePolicy::CacheCheckAndSet { cache, hit, miss }) => {
                let c = *cache;
                let h = *hit;
                let ms = *miss;
                proof {
                    assert((self.caches_view()[c as int]).wf());
                }
                let ghost prevc = self.caches@;
                let mut cb = self.caches.remove(c);
                let was_in = cb.check_and_set(content, now);
                self.caches.insert(c, cb);
                proof {
                    assert(self.caches@ =~= prevc.update(c as int, self.caches@[c as int]));
                    assert forall|x: int| 0 <= x < self.caches@.len() implies (
                    #[trigger] self.caches_view()[x]).wf() && cache_same_kind(
                        &self.caches_view()[x],
                        &old(self).caches_view()[x],
                    ) by {
                        if x != c as int {
                            assert(self.caches_view()[x] == prevc[x]);
                        }
                    }
                }
                if was_in {
                    h
                } else {
                    ms
                }
            },
            Some(RoutePolicy::CacheCheckUpdateIfHit { cache, hit, miss }) => {
                let c = *cache;
                let h = *hit;
                let ms = *miss;
                proof {
                    assert((self.caches_view()[c as int]).wf());
                }
                let ghost prevc = self.caches@;
                let mut cb = self.caches.remove(c);
                let was_in = cb.check_update_if_hit(content, now);
                self.caches.insert(c, cb);
                proof {
                    assert(self.caches@ =~= prevc.update(c as int, self.caches@[c as int]));
                    assert forall|x: int| 0 <= x < self.caches@.len() implies (
                    #[trigger] self.caches_view()[x]).wf() && cache_same_kind(
                        &self.caches_view()[x],
                        &old(self).caches_view()[x],
                    ) by {
                        if x != c as int {
                            assert(self.caches_view()[x] == prevc[x]);
                        }
                    }
                }
                if was_in {
                    h
                } else {
                    ms
                }
            },
            Some(RoutePolicy::UpdateCachesThen { caches, to }) => {
                let dest = *to;
                let m = caches.len();
                let mut k: usize = 0;
                while k < m
                    invariant
                        0 <= k <= m,
                        m == caches@.len(),
                        self.wf(),
                        self.caches@.len() == old(self).caches_view().len(),
                        self.stations@ == old(self).stations_view(),
                        self.routing@ == old(self).routing_view(),
                        self.time == old(self).time_spec(),
                        self.number_of_queues == old(self).number_of_queues,
                        forall|x: int|
                            0 <= x < caches@.len() ==> (#[trigger] caches@[x] as int)
                                < self.caches@.len(),
                        forall|i: int|
                            0 <= i < self.caches@.len() && (forall|j: int|
                                0 <= j < caches@.len() ==> (#[trigger] caches@[j]) as int
                                    != i) ==> #[trigger] self.caches@[i] == old(
                                self,
                            ).caches_view()[i],
                        forall|i: int|
                            0 <= i < self.caches@.len() ==> cache_same_kind(
                                &(#[trigger] self.caches@[i]),
                                &old(self).caches_view()[i],
                            ),
                    decreases m - k,
                {
                    let ci = caches[k];
                    proof {
                        assert((self.caches_view()[ci as int]).wf());
                    }
                    let ghost prevc = self.caches@;
                    let mut cb = self.caches.remove(ci);
                    cb.record(content, now);
                    self.caches.insert(ci, cb);
                    proof {
                        assert(self.caches@ =~= prevc.update(ci as int, self.caches@[ci as int]));
                        assert forall|x: int| 0 <= x < self.caches@.len() implies (
                        #[trigger] self.caches_view()[x]).wf() by {
                            if x != ci as int {
                                assert(self.caches_view()[x] == prevc[x]);
                            }
                        }
                        assert(caches@[k as int] == ci);
                    }
                    k = k + 1;
                }
                dest
            },
            None => {
                proof {
                    assert(false);
                }
                0
            },
        }
    }
}


/// Later of two instants.
pub open spec fn max_time(a: u64, b: u64) -> u64 {
    if a >= b {
        a
    } else {
        b
    }
}

/// Clamp of a signalled 64-bit target into the index range.
pub open spec fn clamp_usize(c: u64) -> usize {
    if c > usize::MAX as u64 {
        usize::MAX
    } else {
        c as usize
    }
}

/// Two states of the same registered cache: the policy never changes.
pub open spec fn cache_same_kind(a: &CacheBox, b: &CacheBox) -> bool {
    match (a, b) {
        (CacheBox::Lru(_), CacheBox::Lru(_)) => true,
        (CacheBox::Abf(_), CacheBox::Abf(_)) => true,
        (CacheBox::AbfFpga(_), CacheBox::AbfFpga(_)) => true,
        (CacheBox::Lfu(_), CacheBox::Lfu(_)) => true,
        (CacheBox::Blind(_), CacheBox::Blind(_)) => true,
        (CacheBox::P2(_), CacheBox::P2(_)) => true,
        _ => false,
    }
}

/// Whether evaluating the policy may consult or modify the cache at `i`.
pub open spec fn policy_touches(p: &RoutePolicy, i: int) -> bool {
    match p {
        RoutePolicy::CacheCheckAndSet { cache, .. } => i == *cache as int,
        RoutePolicy::CacheCheckUpdateIfHit { cache, .. } => i == *cache as int,
        RoutePolicy::UpdateCachesThen { caches, .. } => exists|j: int|
            0 <= j < caches@.len() && (#[trigger] caches@[j]) as int == i,
        _ => false,
    }
}

/// The complete relation of one engine step: what `make_transition` did to
/// the network and what its result means. `pre` and `post` are the network
/// before and after the call, `r` its result.
pub open spec fn transition_post<D: MutDistribution>(
    pre: QNet<D>,
    post: QNet<D>,
    r: Result<Transition, TransitionError>,
) -> bool {
    let n = pre.stations_view().len() as int;
    let sel = scan_spec(pre.stations_view(), n);
    &&& post.wf()
    &&& post.stations_view().len() == n
    &&& post.caches_view().len() == pre.caches_view().len()
    &&& post.routing_view() == pre.routing_view()
    &&& post.time_spec() >= pre.time_spec()
    &&& forall|i: int|
        0 <= i < n ==> (#[trigger] post.stations_view()[i]).same_kind(
            &pre.stations_view()[i],
        )
    &&& forall|i: int|
        0 <= i < n ==> (#[trigger] post.stations_view()[i]).is_source_only()
            == pre.stations_view()[i].is_source_only()
    // Clean termination: no station anywhere has a pending exit, and the
    // network is untouched.
    &&& (r matches Err(TransitionError::NoExitFound) <==> sel is None)
    &&& r matches Err(TransitionError::NoExitFound) ==> post == pre
    // Configuration error: the selected origin had no routing. The failure
    // is partial, exactly as performed: every clock advanced to the selected
    // instant, the engine clock set, the popped request dropped.
    &&& r matches Err(TransitionError::NoTransitionFound(o)) ==> match sel {
        Some(s) => {
            &&& o as int == s.0
            &&& pre.routing_view()[s.0] is None
            &&& post.caches_view() == pre.caches_view()
            &&& (match pre.stations_view()[s.0].next_exit_time_after(s.1) {
                Some(te) => post.time_spec() == max_time(pre.time_spec(), te),
                None => false,
            })
            &&& post.stations_view()[s.0].load_spec() == pre.stations_view()[s.0]
                .load_after_pop()
            &&& forall|k: int|
                0 <= k < n && k != s.0 ==> (#[trigger] post.stations_view()[k])
                    .load_spec() == pre.stations_view()[k].load_spec()
            &&& forall|k: int|
                0 <= k < n && k != s.0 ==> (#[trigger] post.stations_view()[k])
                    .next_exit_time_spec() == pre.stations_view()[k]
                    .next_exit_time_after(s.1)
        },
        None => false,
    }
    // One complete transition: pop from the scan selection, route, log the
    // hop, hand the request to the destination.
    &&& r matches Ok(tr) ==> match sel {
        Some(s) => {
            &&& tr.origin as int == s.0
            &&& (match pre.stations_view()[s.0].next_exit_time_after(s.1) {
                Some(te) => tr.time == max_time(pre.time_spec(), te),
                None => false,
            })
            &&& post.time_spec() == tr.time
            &&& (tr.destination as int) < n
            &&& pre.routing_view()[s.0] matches Some(p) && policy_allows(
                &p,
                tr.destination,
            ) && (policy_is_deterministic(&p) ==> tr.destination == route_spec(
                &p,
                loads_after_pop(pre.stations_view(), s.0),
            )) && (forall|i: int|
                0 <= i < pre.caches_view().len() && !policy_touches(&p, i)
                    ==> #[trigger] post.caches_view()[i] == pre.caches_view()[i])
            // Ownership transfer, counted: the origin lost its popped
            // request, the destination gained exactly one.
            &&& tr.destination as int != s.0 ==> post.stations_view()[s.0].load_spec()
                == pre.stations_view()[s.0].load_after_pop()
                && post.stations_view()[tr.destination as int].load_spec()
                == pre.stations_view()[tr.destination as int].load_spec() + 1
            &&& tr.destination as int == s.0 ==> post.stations_view()[s.0].load_spec()
                == pre.stations_view()[s.0].load_after_pop() + 1
            &&& forall|k: int|
                0 <= k < n && k != s.0 && k != tr.destination as int ==> (
                #[trigger] post.stations_view()[k]).load_spec() == pre.stations_view()[k]
                    .load_spec()
            // The delivered request is the origin's pending one with this
            // hop appended; at a terminal logger that is observable exactly.
            &&& pre.stations_view()[s.0].pending_request_spec() matches Some(p0) && (
            (pre.stations_view()[tr.destination as int]) is Logger ==> {
                let buf0 = pre.stations_view()[tr.destination as int].logger_buffered();
                let buf1 = post.stations_view()[tr.destination as int].logger_buffered();
                &&& buf1.len() == buf0.len() + 1
                &&& buf1.drop_last() == buf0
                &&& Request::is_hop_of(
                    buf1.last(),
                    p0,
                    tr.time,
                    tr.origin,
                    tr.destination,
                )
            })
        },
        None => false,
    }
    // The signalling channel: an out-of-range destination, request included.
    &&& r matches Err(TransitionError::DestinationOutOfBound(ob)) ==> match sel {
        Some(s) => {
            &&& ob.origin as int == s.0
            &&& (match pre.stations_view()[s.0].next_exit_time_after(s.1) {
                Some(te) => ob.time == max_time(pre.time_spec(), te),
                None => false,
            })
            &&& post.time_spec() == ob.time
            &&& ob.destination as int >= n
            &&& pre.routing_view()[s.0] matches Some(p) && policy_allows(
                &p,
                ob.destination,
            ) && (policy_is_deterministic(&p) ==> ob.destination == route_spec(
                &p,
                loads_after_pop(pre.stations_view(), s.0),
            )) && (forall|i: int|
                0 <= i < pre.caches_view().len() && !policy_touches(&p, i)
                    ==> #[trigger] post.caches_view()[i] == pre.caches_view()[i])
            &&& pre.stations_view()[s.0].pending_request_spec() matches Some(p0)
                && Request::is_hop_of(ob.request, p0, ob.time, ob.origin, ob.destination)
            &&& post.stations_view()[s.0].load_spec() == pre.stations_view()[s.0]
                .load_after_pop()
            &&& forall|k: int|
                0 <= k < n && k != s.0 ==> (#[trigger] post.stations_view()[k])
                    .load_spec() == pre.stations_view()[k].load_spec()
        },
        None => false,
    }
    // Which outcome occurs is decided by the scan and the routing table.
    &&& match sel {
        Some(s) => match r {
            Ok(_) => pre.routing_view()[s.0] is Some,
            Err(TransitionError::NoTransitionFound(_)) => pre.routing_view()[s.0]
                is None,
            Err(TransitionError::DestinationOutOfBound(_)) => pre.routing_view()[s.0]
                is Some,
            Err(TransitionError::NoExitFound) => false,
        },
        None => r matches Err(TransitionError::NoExitFound),
    }
}

/// Bridge from the advance-then-pop(-then-push) intermediate states to the
/// pre-state: every station keeps its kind and source-ness; stations other
/// than the touched pair keep their load and report their advanced exit.
proof fn bridge_post_pop<D: MutDistribution>(
    pre: QNet<D>,
    postseq: Seq<Station<D>>,
    stations0: Seq<Station<D>>,
    prevp: Seq<Station<D>>,
    orig: int,
    dest: int,
    tmin: u64,
)
    requires
        stations0 == pre.stations_view(),
        postseq.len() == stations0.len(),
        prevp.len() == stations0.len(),
        0 <= orig < stations0.len(),
        forall|k: int|
            0 <= k < stations0.len() ==> (#[trigger] prevp[k]).same_kind(&stations0[k]),
        forall|k: int|
            0 <= k < stations0.len() ==> (#[trigger] prevp[k]).is_source_only()
                == stations0[k].is_source_only(),
        forall|k: int|
            0 <= k < stations0.len() ==> (#[trigger] prevp[k]).load_spec()
                == stations0[k].load_spec(),
        forall|k: int|
            0 <= k < stations0.len() ==> (#[trigger] prevp[k]).next_exit_time_spec()
                == stations0[k].next_exit_time_after(tmin),
        forall|k: int|
            0 <= k < stations0.len() && k != orig && k != dest ==> #[trigger] postseq[k]
                == prevp[k],
        forall|k: int|
            0 <= k < stations0.len() ==> (#[trigger] postseq[k]).same_kind(&prevp[k]),
        forall|k: int|
            0 <= k < stations0.len() ==> (#[trigger] postseq[k]).is_source_only()
                == prevp[k].is_source_only(),
    ensures
        forall|k: int|
            0 <= k < stations0.len() ==> (#[trigger] postseq[k]).same_kind(
                &pre.stations_view()[k],
            ),
        forall|k: int|
            0 <= k < stations0.len() ==> (#[trigger] postseq[k]).is_source_only()
                == pre.stations_view()[k].is_source_only(),
        forall|k: int|
            0 <= k < stations0.len() && k != orig && k != dest ==> (
            #[trigger] postseq[k]).load_spec() == pre.stations_view()[k].load_spec(),
        forall|k: int|
            0 <= k < stations0.len() && k != orig && k != dest ==> (
            #[trigger] postseq[k]).next_exit_time_spec() == pre.stations_view()[k]
                .next_exit_time_after(tmin),
{
    assert forall|k: int| 0 <= k < stations0.len() implies (#[trigger] postseq[k])
        .same_kind(&pre.stations_view()[k]) && (postseq[k]).is_source_only()
        == pre.stations_view()[k].is_source_only() by {
        lemma_same_kind_trans(&postseq[k], &prevp[k], &stations0[k]);
    }
    assert forall|k: int| 0 <= k < stations0.len() && k != orig && k != dest implies (
    #[trigger] postseq[k]).load_spec() == pre.stations_view()[k].load_spec() && (
    postseq[k]).next_exit_time_spec() == pre.stations_view()[k].next_exit_time_after(
        tmin,
    ) by {
        assert(postseq[k] == prevp[k]);
    }
}

/// Station-kind agreement is transitive.
proof fn lemma_same_kind_trans<D: MutDistribution>(
    a: &Station<D>,
    b: &Station<D>,
    c: &Station<D>,
)
    requires
        a.same_kind(b),
        b.same_kind(c),
    ensures
        a.same_kind(c),
{
}

/// The loads of every station, in index order.
pub open spec fn loads_of<D: MutDistribution>(stations: Seq<Station<D>>) -> Seq<int> {
    Seq::new(stations.len(), |i: int| stations[i].load_spec())
}

/// A policy's well-formedness depends only on the station count and which
/// stations are demand sources, so it survives any change that preserves
/// both and any appended station that accepts arrivals.
pub proof fn lemma_policies_stable<D: MutDistribution>(
    routing: Seq<Option<RoutePolicy>>,
    s1: Seq<Station<D>>,
    s2: Seq<Station<D>>,
    n_caches: int,
)
    requires
        s2.len() >= s1.len(),
        forall|i: int|
            0 <= i < s1.len() ==> !(#[trigger] s1[i]).is_source_only() ==> !s2[i].is_source_only(),
        forall|i: int| s1.len() <= i < s2.len() ==> !(#[trigger] s2[i]).is_source_only(),
        forall|i: int|
            0 <= i < routing.len() ==> match #[trigger] routing[i] {
                Some(p) => policy_wf(&p, s1, n_caches),
                None => true,
            },
    ensures
        forall|i: int|
            0 <= i < routing.len() ==> match #[trigger] routing[i] {
                Some(p) => policy_wf(&p, s2, n_caches),
                None => true,
            },
{
    assert forall|i: int| 0 <= i < routing.len() implies match #[trigger] routing[i] {
        Some(p) => policy_wf(&p, s2, n_caches),
        None => true,
    } by {
        match routing[i] {
            Some(p) => {
                lemma_policy_wf_stable(&p, s1, s2, n_caches);
            },
            None => (),
        }
    }
}

/// The same fact for a single policy.
pub proof fn lemma_policy_wf_stable<D: MutDistribution>(
    p: &RoutePolicy,
    s1: Seq<Station<D>>,
    s2: Seq<Station<D>>,
    n_caches: int,
)
    requires
        s2.len() >= s1.len(),
        forall|i: int|
            0 <= i < s1.len() ==> !(#[trigger] s1[i]).is_source_only() ==> !s2[i].is_source_only(),
        forall|i: int| s1.len() <= i < s2.len() ==> !(#[trigger] s2[i]).is_source_only(),
        policy_wf(p, s1, n_caches),
    ensures
        policy_wf(p, s2, n_caches),
{
    match p {
        RoutePolicy::To(d) => {
            check_dest::<D>(*d, s1, s2);
        },
        RoutePolicy::IfIdle { watch, then_to, else_to } => {
            check_dest::<D>(*then_to, s1, s2);
            check_dest::<D>(*else_to, s1, s2);
        },
        RoutePolicy::Random { dests } => {
            assert forall|j: int| 0 <= j < dests@.len() implies dest_ok(
                #[trigger] dests@[j],
                s2,
            ) by {
                check_dest::<D>(dests@[j], s1, s2);
            }
        },
        RoutePolicy::JoinShorterOfTwo { servers, dests } => {
            assert forall|j: int| 0 <= j < dests@.len() implies dest_ok(
                #[trigger] dests@[j],
                s2,
            ) by {
                check_dest::<D>(dests@[j], s1, s2);
            }
        },
        RoutePolicy::JoinIdleQueue { servers, dests } => {
            assert forall|j: int| 0 <= j < dests@.len() implies dest_ok(
                #[trigger] dests@[j],
                s2,
            ) by {
                check_dest::<D>(dests@[j], s1, s2);
            }
        },
        RoutePolicy::CacheCheckAndSet { cache, hit, miss } => {
            check_dest::<D>(*hit, s1, s2);
            check_dest::<D>(*miss, s1, s2);
        },
        RoutePolicy::CacheCheckUpdateIfHit { cache, hit, miss } => {
            check_dest::<D>(*hit, s1, s2);
            check_dest::<D>(*miss, s1, s2);
        },
        RoutePolicy::UpdateCachesThen { caches, to } => {
            check_dest::<D>(*to, s1, s2);
        },
    }
}

/// A destination acceptable against `s1` stays acceptable against `s2`.
proof fn check_dest<D: MutDistribution>(d: usize, s1: Seq<Station<D>>, s2: Seq<Station<D>>)
    requires
        s2.len() >= s1.len(),
        forall|i: int|
            0 <= i < s1.len() ==> !(#[trigger] s1[i]).is_source_only() ==> !s2[i].is_source_only(),
        forall|i: int| s1.len() <= i < s2.len() ==> !(#[trigger] s2[i]).is_source_only(),
        dest_ok(d, s1),
    ensures
        dest_ok(d, s2),
{
}

/// Growing the cache registry never invalidates a policy.
pub proof fn lemma_policy_wf_more_caches<D: MutDistribution>(
    p: &RoutePolicy,
    stations: Seq<Station<D>>,
    n1: int,
    n2: int,
)
    requires
        policy_wf(p, stations, n1),
        n2 >= n1,
    ensures
        policy_wf(p, stations, n2),
{
}

} // verus!
