//! Adaptive latency-driven LRU partition.
//!
//! Two LRU-ordered partitions share one fixed total capacity: `accept`
//! admits traffic, `refuse` holds the overflow. A pending table remembers
//! when each key was last asked for; when the key completes, the elapsed
//! latency feeds a streaming quantile estimator, and once that has
//! converged, the boundary between the partitions is re-drawn: the accept
//! side grows in proportion to how far the tracked tail latency sits below
//! the target (scaled by the remaining headroom), and shrinks in proportion
//! to how far it has overshot. Entries migrate across the boundary at the
//! tails, preserving recency order within each partition. This is a
//! proportional-only feedback law on a periodically reconverged quantile
//! signal — an acknowledged simplification, not a PID controller.
//!
//! At every point after construction, the two partition capacities sum to
//! the fixed limit and no key sits in both partitions; both facts are part
//! of the well-formedness every method preserves.

use vstd::prelude::*;

verus! {

use crate::caches::lru_cache::{LruCache, lemma_lru_step_membership, lemma_remove_first_no_dup};
use crate::p2::{P2, CONV_MIN, DEN_MAX};

/// Pending-arrival table: a small association list from key to the
/// simulated time it was last asked for.
struct PendingTable {
    entries: Vec<(u64, u64)>,
}

impl PendingTable {
    spec fn view(&self) -> Seq<(u64, u64)> {
        self.entries@
    }

    spec fn keys_distinct(&self) -> bool {
        forall|i: int, j: int|
            0 <= i < j < self@.len() ==> (#[trigger] self@[i]).0 != (#[trigger] self@[j]).0
    }

    fn new() -> (r: PendingTable)
        ensures
            r@ == Seq::<(u64, u64)>::empty(),
            r.keys_distinct(),
    {
        PendingTable { entries: Vec::new() }
    }

    fn position_of(&self, k: u64) -> (r: Option<usize>)
        ensures
            r is None ==> forall|j: int| 0 <= j < self@.len() ==> (#[trigger] self@[j]).0 != k,
            r matches Some(i) ==> 0 <= i < self@.len() && self@[i as int].0 == k
                && forall|j: int| 0 <= j < i ==> (#[trigger] self@[j]).0 != k,
    {
        let mut i: usize = 0;
        while i < self.entries.len()
            invariant
                0 <= i <= self@.len(),
                forall|j: int| 0 <= j < i ==> (#[trigger] self@[j]).0 != k,
            decreases self@.len() - i,
        {
            if self.entries[i].0 == k {
                return Some(i);
            }
            i = i + 1;
        }
        None
    }

    /// Records (or refreshes) the arrival time of a key.
    fn put(&mut self, k: u64, t: u64)
        requires
            old(self).keys_distinct(),
        ensures
            final(self).keys_distinct(),
    {
        let ghost s0 = self@;
        match self.position_of(k) {
            Some(i) => {
                self.entries[i] = (k, t);
                proof {
                    assert forall|a: int, b: int|
                        0 <= a < b < self@.len() implies (#[trigger] self@[a]).0 != (
                    #[trigger] self@[b]).0 by {
                        if a != i && b != i {
                            assert(self@[a] == s0[a] && self@[b] == s0[b]);
                        } else if a == i {
                            assert(s0[b].0 != s0[i as int].0);
                        } else {
                            assert(s0[a].0 != s0[i as int].0);
                        }
                    }
                }
            },
            None => {
                self.entries.push((k, t));
                proof {
                    assert forall|a: int, b: int|
                        0 <= a < b < self@.len() implies (#[trigger] self@[a]).0 != (
                    #[trigger] self@[b]).0 by {
                        if b == self@.len() - 1 {
                            assert(self@[a] == s0[a]);
                        } else {
                            assert(self@[a] == s0[a] && self@[b] == s0[b]);
                        }
                    }
                }
            },
        }
    }

    /// Removes and returns the recorded arrival time of a key, if any.
    fn take(&mut self, k: u64) -> (r: Option<u64>)
        requires
            old(self).keys_distinct(),
        ensures
            final(self).keys_distinct(),
    {
        let ghost s0 = self@;
        match self.position_of(k) {
            Some(i) => {
                let e = self.entries.remove(i);
                proof {
                    assert forall|a: int, b: int|
                        0 <= a < b < self@.len() implies (#[trigger] self@[a]).0 != (
                    #[trigger] self@[b]).0 by {
                        let a0: int = if a < i { a } else { a + 1 };
                        let b0: int = if b < i { b } else { b + 1 };
                        assert(self@[a] == s0[a0] && self@[b] == s0[b0]);
                    }
                }
                Some(e.1)
            },
            None => None,
        }
    }
}

pub struct P2LruFilter {
    accept: LruCache,
    refuse: LruCache,
    pending: PendingTable,
    estimator: P2,
    target_latency: u64,
    filter_limit: usize,
}

impl P2LruFilter {
    /// Keys the filter currently admits, most recently used first.
    pub closed spec fn accept_view(&self) -> Seq<u64> {
        self.accept@
    }

    /// Keys the filter currently refuses, most recently used first.
    pub closed spec fn refuse_view(&self) -> Seq<u64> {
        self.refuse@
    }

    pub closed spec fn accept_cap(&self) -> nat {
        self.accept.cap_spec()
    }

    pub closed spec fn refuse_cap(&self) -> nat {
        self.refuse.cap_spec()
    }

    pub closed spec fn limit_spec(&self) -> nat {
        self.filter_limit as nat
    }

    pub closed spec fn target_spec(&self) -> u64 {
        self.target_latency
    }

    pub closed spec fn pending_distinct(&self) -> bool {
        self.pending.keys_distinct()
    }

    pub closed spec fn estimator_wf(&self) -> bool {
        self.estimator.wf()
    }

    /// Both partition lists are well-formed LRU lists.
    pub closed spec fn sides_wf(&self) -> bool {
        self.accept.wf() && self.refuse.wf()
    }

    /// Samples the estimator has absorbed.
    pub closed spec fn estimator_count(&self) -> u64 {
        self.estimator.count_spec()
    }

    spec fn estimator_view(&self) -> P2 {
        self.estimator
    }

    /// The estimator's current quantile reading (its middle marker height).
    pub closed spec fn quantile_spec(&self) -> u64 {
        self.estimator.heights_view()[2]
    }

    /// The partition invariant: the two capacities always sum to the fixed
    /// limit, each side is a well-formed LRU list, and no key appears in
    /// both sides at once.
    pub open spec fn wf(&self) -> bool {
        &&& self.sides_wf()
        &&& self.accept_cap() + self.refuse_cap() == self.limit_spec()
        &&& disjoint_seqs(self.accept_view(), self.refuse_view())
        &&& self.pending_distinct()
        &&& self.estimator_wf()
        &&& self.target_spec() >= 1
    }

    /// A fresh partition: the accept side starts with the whole limit, the
    /// refuse side empty. The tracked quantile is `p_num / p_den` and the
    /// latency target is in ticks.
    pub fn new(filter_limit: usize, target_latency: u64, p_num: u64, p_den: u64) -> (r:
        P2LruFilter)
        requires
            target_latency >= 1,
            1 <= p_den <= DEN_MAX,
            p_num <= p_den,
        ensures
            r.wf(),
            r.limit_spec() == filter_limit,
            r.accept_cap() == filter_limit,
            r.refuse_cap() == 0,
            r.accept_view() == Seq::<u64>::empty(),
            r.refuse_view() == Seq::<u64>::empty(),
            r.target_spec() == target_latency,
    {
        P2LruFilter {
            accept: LruCache::new(filter_limit),
            refuse: LruCache::new(0),
            pending: PendingTable::new(),
            estimator: P2::new(p_num, p_den),
            target_latency,
            filter_limit,
        }
    }

    /// Membership probe: records the asking time under the key and tests
    /// the accept side only, leaving both partitions untouched.
    pub fn probe(&mut self, key: u64, now: u64) -> (r: bool)
        requires
            old(self).wf(),
        ensures
            final(self).wf(),
            r == old(self).accept_view().contains(key),
            final(self).accept_view() == old(self).accept_view(),
            final(self).refuse_view() == old(self).refuse_view(),
            final(self).accept_cap() == old(self).accept_cap(),
            final(self).refuse_cap() == old(self).refuse_cap(),
            final(self).limit_spec() == old(self).limit_spec(),
    {
        self.pending.put(key, now);
        self.accept.contains_key(&key)
    }

    /// Admission: the key moves to the head of the accept side (its
    /// overflow spilling to the head of the refuse side), the key's pending
    /// latency feeds the estimator, and once the estimator has converged
    /// the partition boundary is re-drawn around the tracked quantile.
    pub fn update(&mut self, key: u64, now: u64)
        requires
            old(self).wf(),
        ensures
            final(self).wf(),
            final(self).limit_spec() == old(self).limit_spec(),
            final(self).target_spec() == old(self).target_spec(),
            old(self).accept_cap() >= 1 && final(self).accept_cap() >= 1
                ==> final(self).accept_view().len() >= 1
                && final(self).accept_view()[0] == key,
            // The feedback law: once the estimator has converged, the new
            // accept capacity follows the proportional re-sizing rule over
            // its quantile reading; before convergence the boundary stays.
            final(self).estimator_count() > CONV_MIN ==> final(self).accept_cap() as int
                == desired_cap_spec(
                old(self).accept_cap() as int,
                old(self).limit_spec() as int,
                old(self).target_spec(),
                final(self).quantile_spec(),
            ),
            final(self).estimator_count() <= CONV_MIN ==> final(self).accept_cap()
                == old(self).accept_cap(),
    {
        // The key must end up in accept alone: drop any refused copy first.
        let ghost refuse0 = self.refuse@;
        self.refuse.remove_key(key);
        proof {
            lemma_remove_first_no_dup(refuse0, key);
        }

        // Spill the accept tail into the refuse head if a fresh insert
        // would overflow.
        if !self.accept.contains_key(&key) && self.accept.len() == self.accept.capacity() {
            match self.accept.pop_lru() {
                Some(evicted) => {
                    proof {
                        assert(old(self).accept_view().contains(evicted));
                    }
                    let ghost r1 = self.refuse@;
                    self.refuse.update(evicted);
                    proof {
                        lemma_lru_step_membership(r1, evicted, self.refuse.cap_spec());
                    }
                },
                None => (),
            }
        }
        let ghost a1 = self.accept@;
        self.accept.update(key);
        proof {
            lemma_lru_step_membership(a1, key, self.accept.cap_spec());
        }

        // Feed the completed key's latency to the estimator.
        match self.pending.take(key) {
            Some(t0) => {
                let lat = if now >= t0 {
                    now - t0
                } else {
                    0
                };
                self.estimator.new_sample(lat);
            },
            None => (),
        }

        // Once converged, re-draw the boundary around the quantile.
        match self.estimator.get_quantile() {
            Some(q) => {
                let new_cap = self.desired_accept_cap(q);
                self.set_boundary(new_cap);
            },
            None => (),
        }
    }

    pub fn accept_len(&self) -> (r: usize)
        ensures
            r == self.accept_view().len(),
    {
        self.accept.len()
    }

    pub fn refuse_len(&self) -> (r: usize)
        ensures
            r == self.refuse_view().len(),
    {
        self.refuse.len()
    }

    pub fn accept_capacity(&self) -> (r: usize)
        ensures
            r == self.accept_cap(),
    {
        self.accept.capacity()
    }

    pub fn refuse_capacity(&self) -> (r: usize)
        ensures
            r == self.refuse_cap(),
    {
        self.refuse.capacity()
    }

    pub fn limit(&self) -> (r: usize)
        ensures
            r == self.limit_spec(),
    {
        self.filter_limit
    }

    /// The admitted keys, most recently used first.
    pub fn accept_keys(&self) -> (r: Vec<u64>)
        ensures
            r@ == self.accept_view(),
    {
        self.accept.keys()
    }

    /// The refused keys, most recently used first.
    pub fn refuse_keys(&self) -> (r: Vec<u64>)
        ensures
            r@ == self.refuse_view(),
    {
        self.refuse.keys()
    }

    /// Probe-then-admit, reporting the state before the admission.
    pub fn check_and_set(&mut self, key: u64, now: u64) -> (r: bool)
        requires
            old(self).wf(),
        ensures
            final(self).wf(),
            final(self).limit_spec() == old(self).limit_spec(),
            r == old(self).accept_view().contains(key),
    {
        let r = self.probe(key, now);
        self.update(key, now);
        r
    }

    /// The proportional law: below target, grow the accept side by the
    /// remaining headroom scaled by the relative gap; at or above target,
    /// shrink it by its own size scaled by the relative overshoot.
    fn desired_accept_cap(&self, q: u64) -> (r: usize)
        requires
            self.wf(),
        ensures
            r <= self.limit_spec(),
            r as int == desired_cap_spec(
                self.accept_cap() as int,
                self.limit_spec() as int,
                self.target_spec(),
                q,
            ),
    {
        let cap = self.accept.capacity();
        let limit = self.filter_limit;
        proof {
            assert(cap <= limit);
        }
        if q < self.target_latency {
            let headroom = limit - cap;
            let gap = self.target_latency - q;
            proof {
                crate::queues::mg1ps::lemma_mul_fits_u128(headroom as u128, gap as u128);
                lemma_mul_div_le(headroom as u128, gap as u128, self.target_latency as u128);
            }
            let grow: u128 = (headroom as u128) * (gap as u128) / (self.target_latency as u128);
            cap + (grow as usize)
        } else {
            if q < 1 {
                cap
            } else {
                let over = q - self.target_latency;
                proof {
                    crate::queues::mg1ps::lemma_mul_fits_u128(cap as u128, over as u128);
                    lemma_mul_div_le(cap as u128, over as u128, q as u128);
                }
                let shrink: u128 = (cap as u128) * (over as u128) / (q as u128);
                cap - (shrink as usize)
            }
        }
    }

    /// Physically realizes a new boundary: surplus accept entries spill
    /// from the accept tail to the refuse head, freed room pulls entries
    /// back from the refuse head to the accept tail, and the capacities are
    /// re-split so they still sum to the limit.
    fn set_boundary(&mut self, new_cap: usize)
        requires
            old(self).wf(),
            new_cap <= old(self).limit_spec(),
        ensures
            final(self).wf(),
            final(self).limit_spec() == old(self).limit_spec(),
            final(self).target_spec() == old(self).target_spec(),
            final(self).accept_cap() == new_cap,
            final(self).estimator_count() == old(self).estimator_count(),
            final(self).quantile_spec() == old(self).quantile_spec(),
            final(self).accept_view().len() >= min_len_filter(
                new_cap as int,
                old(self).accept_view().len() as int,
            ),
            forall|j: int|
                0 <= j < final(self).accept_view().len() && j < old(self).accept_view().len()
                    ==> #[trigger] final(self).accept_view()[j] == old(self).accept_view()[j],
    {
        let ghost a0 = self.accept@;
        // Spill surplus from the accept tail into the refuse head.
        while self.accept.len() > new_cap
            invariant
                self.accept.wf(),
                self.refuse.wf(),
                disjoint_seqs(self.accept@, self.refuse@),
                self.refuse.cap_spec() == old(self).refuse_cap(),
                self.accept.cap_spec() == old(self).accept_cap(),
                self.pending.keys_distinct(),
                self.estimator.wf(),
                self.estimator == old(self).estimator_view(),
                self.target_latency == old(self).target_spec(),
                self.filter_limit == old(self).limit_spec(),
                self.accept@.len() <= a0.len(),
                self.accept@.len() >= min_len_filter(new_cap as int, a0.len() as int),
                forall|j: int|
                    0 <= j < self.accept@.len() ==> #[trigger] self.accept@[j] == a0[j],
            decreases self.accept@.len(),
        {
            let ghost acc1 = self.accept@;
            match self.accept.pop_lru() {
                Some(evicted) => {
                    let ghost r1 = self.refuse@;
                    self.refuse.update(evicted);
                    proof {
                        lemma_lru_step_membership(r1, evicted, self.refuse.cap_spec());
                        assert forall|x: u64| self.accept@.contains(x) implies !self
                            .refuse@.contains(x) by {
                            let w = choose|w: int|
                                0 <= w < self.accept@.len() && self.accept@[w] == x;
                            assert(acc1[w] == x);
                            assert(acc1.contains(x));
                            assert(x != evicted);
                            assert(!r1.contains(x));
                        }
                    }
                },
                None => (),
            }
        }
        let ghost a1 = self.accept@;
        self.accept.resize(new_cap);
        proof {
            assert(a1.take(a1.len() as int) == a1);
            assert(self.accept@ == a1);
        }
        let refuse_cap = self.filter_limit - new_cap;
        let ghost r2 = self.refuse@;
        self.refuse.resize(refuse_cap);
        proof {
            assert forall|x: u64| self.accept@.contains(x) implies !self.refuse@.contains(
                x,
            ) by {
                if self.refuse@.contains(x) {
                    let w = choose|w: int|
                        0 <= w < self.refuse@.len() && self.refuse@[w] == x;
                    assert(r2[w] == x);
                    assert(r2.contains(x));
                }
            }
        }

        // Pull refugees back through freed room, most recent first, onto
        // the accept tail (they are older than everything accepted).
        while self.accept.len() < new_cap && self.refuse.len() > 0
            invariant
                self.accept.wf(),
                self.refuse.wf(),
                disjoint_seqs(self.accept@, self.refuse@),
                self.accept.cap_spec() == new_cap,
                self.refuse.cap_spec() == old(self).limit_spec() - new_cap,
                self.pending.keys_distinct(),
                self.estimator.wf(),
                self.estimator == old(self).estimator_view(),
                self.target_latency == old(self).target_spec(),
                self.filter_limit == old(self).limit_spec(),
                self.accept@.len() >= min_len_filter(new_cap as int, a0.len() as int),
                forall|j: int|
                    0 <= j < self.accept@.len() && j < a0.len()
                        ==> #[trigger] self.accept@[j] == a0[j],
            decreases self.refuse@.len(),
        {
            let ghost acc2 = self.accept@;
            let ghost r3 = self.refuse@;
            match self.refuse.pop_mru() {
                Some(promoted) => {
                    proof {
                        assert(r3.contains(promoted));
                        if self.accept@.contains(promoted) {
                            assert(!r3.contains(promoted));
                        }
                        assert(min_len_filter(new_cap as int, a0.len() as int)
                            <= a0.len());
                        if (self.accept@.len() as int) < a0.len() {
                            assert(self.accept@.len()
                                >= min_len_filter(new_cap as int, a0.len() as int));
                        }
                    }
                    self.accept.push_lru(promoted);
                    proof {
                        assert forall|x: u64| self.accept@.contains(x) implies !self
                            .refuse@.contains(x) by {
                            let w = choose|w: int|
                                0 <= w < self.accept@.len() && self.accept@[w] == x;
                            if w < acc2.len() {
                                assert(acc2[w] == x);
                                assert(acc2.contains(x));
                                if self.refuse@.contains(x) {
                                    let v = choose|v: int|
                                        0 <= v < self.refuse@.len() && self.refuse@[v]
                                            == x;
                                    assert(r3[v + 1] == x);
                                    assert(r3.contains(x));
                                }
                            } else {
                                assert(x == promoted);
                                if self.refuse@.contains(x) {
                                    let v = choose|v: int|
                                        0 <= v < self.refuse@.len() && self.refuse@[v]
                                            == x;
                                    assert(r3[v + 1] == x);
                                }
                            }
                        }
                        assert forall|j: int|
                            0 <= j < self.accept@.len() && j < a0.len() implies
                            #[trigger] self.accept@[j] == a0[j] by {
                            if j < acc2.len() {
                                assert(self.accept@[j] == acc2[j]);
                            } else {
                                assert(acc2.len() >= min_len_filter(
                                    new_cap as int,
                                    a0.len() as int,
                                ));
                            }
                        }
                    }
                },
                None => (),
            }
        }
    }
}

/// The proportional re-sizing law: below the latency target the accept
/// side grows by the remaining headroom scaled by the relative gap; at or
/// above it, the accept side shrinks by its own size scaled by the relative
/// overshoot. Integer division rounds both adjustments toward zero.
pub open spec fn desired_cap_spec(cap: int, limit: int, target: u64, q: u64) -> int {
    if q < target {
        cap + (limit - cap) * (target - q) / (target as int)
    } else if q < 1 {
        cap
    } else {
        cap - cap * (q - target) / (q as int)
    }
}

/// Smaller of two bounds.
pub open spec fn min_len_filter(a: int, b: int) -> int {
    if a <= b {
        a
    } else {
        b
    }
}

/// No key in both sequences at once.
pub open spec fn disjoint_seqs(a: Seq<u64>, b: Seq<u64>) -> bool {
    forall|x: u64| a.contains(x) ==> !b.contains(x)
}

/// `a * b / d <= a` whenever `b <= d`.
proof fn lemma_mul_div_le(a: u128, b: u128, d: u128)
    requires
        b <= d,
        d >= 1,
    ensures
        a * b / (d as int) <= a,
{
    assert(a * b / (d as int) <= a) by (nonlinear_arith)
        requires
            0 <= a,
            0 <= b <= d,
            d >= 1,
    ;
}

} // verus!
