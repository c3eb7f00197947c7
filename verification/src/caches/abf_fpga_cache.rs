//! Hardware-style aging Bloom filter.
//!
//! Unlike [`crate::caches::abf_cache::AgingBloomFilter`], every arrival is
//! recorded unconditionally and a plain arrival counter drives the rotation,
//! which makes the state evolution a total function of the arrival sequence.

use vstd::prelude::*;

verus! {

use crate::caches::Cache;
use crate::caches::bloom_ext::{bloom_items, bloom_new, bloom_check, bloom_set, bloom_clear};

pub struct AgingBloomFilterFPGA {
    k1: usize,
    arrival_cnt: usize,
    a1: bloomfilter::Bloom<u64>,
    a2: bloomfilter::Bloom<u64>,
}

impl AgingBloomFilterFPGA {
    pub closed spec fn active_items(&self) -> Set<u64> {
        bloom_items(self.a1)
    }

    pub closed spec fn stale_items(&self) -> Set<u64> {
        bloom_items(self.a2)
    }

    pub closed spec fn arrival_cnt_spec(&self) -> nat {
        self.arrival_cnt as nat
    }

    /// Generation capacity in arrivals.
    pub closed spec fn generation_cap(&self) -> nat {
        self.k1 as nat
    }

    pub open spec fn wf(&self) -> bool {
        &&& self.generation_cap() >= 1
        &&& self.arrival_cnt_spec() < self.generation_cap()
    }

    pub open spec fn tracks(&self, key: u64) -> bool {
        self.active_items().contains(key) || self.stale_items().contains(key)
    }

    /// Builds both generations over zeroed bitmaps of `bitmap_size` bytes;
    /// the caller sizes the bitmap for its target false-positive rate.
    pub fn new(k1: usize, bitmap_size: usize) -> (r: AgingBloomFilterFPGA)
        requires
            k1 >= 1,
            bitmap_size >= 1,
            bitmap_size <= 0x1000_0000_0000_0000,
        ensures
            r.wf(),
            r.generation_cap() == k1,
            r.arrival_cnt_spec() == 0,
            r.active_items() == Set::<u64>::empty(),
            r.stale_items() == Set::<u64>::empty(),
    {
        AgingBloomFilterFPGA {
            k1,
            arrival_cnt: 0,
            a1: bloom_new(bitmap_size, k1),
            a2: bloom_new(bitmap_size, k1),
        }
    }

    fn invert_and_clear(&mut self)
        requires
            old(self).generation_cap() >= 1,
        ensures
            final(self).wf(),
            final(self).generation_cap() == old(self).generation_cap(),
            final(self).active_items() == Set::<u64>::empty(),
            final(self).stale_items() == old(self).active_items(),
            final(self).arrival_cnt_spec() == 0,
    {
        core::mem::swap(&mut self.a2, &mut self.a1);
        bloom_clear(&mut self.a1);
        self.arrival_cnt = 0;
    }

    /// Membership in either generation; no side effects. A recorded key that
    /// has not been rotated out of both generations always answers true.
    pub fn contains_key(&self, item: &u64) -> (r: bool)
        ensures
            self.tracks(*item) ==> r,
    {
        bloom_check(&self.a1, item) || bloom_check(&self.a2, item)
    }

    /// Records one arrival of the key; the rotation fires exactly when the
    /// arrival counter reaches the generation capacity. A recorded key is
    /// tracked until a later rotation ages it out of both generations: no
    /// false negatives, ever.
    pub fn record(&mut self, item: u64)
        requires
            old(self).wf(),
        ensures
            final(self).wf(),
            final(self).tracks(item),
            final(self).generation_cap() == old(self).generation_cap(),
            old(self).arrival_cnt_spec() + 1 < old(self).generation_cap() ==> {
                &&& final(self).active_items() == old(self).active_items().insert(item)
                &&& final(self).stale_items() == old(self).stale_items()
                &&& final(self).arrival_cnt_spec() == old(self).arrival_cnt_spec() + 1
            },
            old(self).arrival_cnt_spec() + 1 == old(self).generation_cap() ==> {
                &&& final(self).active_items() == Set::<u64>::empty()
                &&& final(self).stale_items() == old(self).active_items().insert(item)
                &&& final(self).arrival_cnt_spec() == 0
            },
    {
        bloom_set(&mut self.a1, &item);
        self.arrival_cnt = self.arrival_cnt + 1;
        if self.arrival_cnt == self.k1 {
            self.invert_and_clear();
        }
    }

    /// Tests, then records the arrival: the answer reflects the state before
    /// the recording.
    pub fn check_and_set(&mut self, item: u64) -> (r: bool)
        requires
            old(self).wf(),
        ensures
            final(self).wf(),
            final(self).tracks(item),
            final(self).generation_cap() == old(self).generation_cap(),
            old(self).tracks(item) ==> r,
            old(self).arrival_cnt_spec() + 1 < old(self).generation_cap() ==> {
                &&& final(self).active_items() == old(self).active_items().insert(item)
                &&& final(self).stale_items() == old(self).stale_items()
                &&& final(self).arrival_cnt_spec() == old(self).arrival_cnt_spec() + 1
            },
            old(self).arrival_cnt_spec() + 1 == old(self).generation_cap() ==> {
                &&& final(self).active_items() == Set::<u64>::empty()
                &&& final(self).stale_items() == old(self).active_items().insert(item)
                &&& final(self).arrival_cnt_spec() == 0
            },
    {
        let ret = self.contains_key(&item);
        self.record(item);
        ret
    }

    pub fn get_arrival_cnt(&self) -> (r: usize)
        ensures
            r == self.arrival_cnt_spec(),
    {
        self.arrival_cnt
    }
}

impl Cache for AgingBloomFilterFPGA {
    /// Membership in either generation; the filter itself never changes.
    fn contains(&mut self, entry: &u64) -> (r: bool)
        ensures
            old(self).tracks(*entry) ==> r,
            *final(self) == *old(self),
    {
        self.contains_key(entry)
    }

    fn update(&mut self, entry: u64) {
        if self.k1 >= 1 && self.arrival_cnt < self.k1 {
            self.record(entry);
        }
    }
}

} // verus!
