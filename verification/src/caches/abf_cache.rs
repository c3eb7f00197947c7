//! Aging Bloom filter: two generations of probabilistic sets, rotated.
//!
//! Keys are recorded into the active generation; once it has accumulated the
//! configured generation capacity the generations rotate (the active one
//! becomes stale, the stale one is cleared and replaced), bounding membership
//! recency without per-key metadata. A recorded key that has not been rotated
//! out of both generations is always reported contained; unrecorded keys may
//! produce false positives at the rate the bitmap was sized for.

use vstd::prelude::*;

verus! {

use crate::caches::Cache;
use crate::caches::bloom_ext::{bloom_items, bloom_new, bloom_check, bloom_set, bloom_clear};

pub struct AgingBloomFilter {
    na: usize,
    size_a1: usize,
    a1: bloomfilter::Bloom<u64>,
    a2: bloomfilter::Bloom<u64>,
}

impl AgingBloomFilter {
    /// Keys recorded in the active generation.
    pub closed spec fn active_items(&self) -> Set<u64> {
        bloom_items(self.a1)
    }

    /// Keys recorded in the stale generation.
    pub closed spec fn stale_items(&self) -> Set<u64> {
        bloom_items(self.a2)
    }

    /// Number of keys recorded into the active generation since the last
    /// rotation.
    pub closed spec fn active_size(&self) -> nat {
        self.size_a1 as nat
    }

    /// Generation capacity: how many recordings trigger a rotation.
    pub closed spec fn generation_cap(&self) -> nat {
        self.na as nat
    }

    pub open spec fn wf(&self) -> bool {
        &&& self.generation_cap() >= 1
        &&& self.active_size() < self.generation_cap()
    }

    /// A key is tracked while it sits in either generation.
    pub open spec fn tracks(&self, key: u64) -> bool {
        self.active_items().contains(key) || self.stale_items().contains(key)
    }

    /// Builds both generations over zeroed bitmaps of `bitmap_size` bytes.
    /// The caller sizes the bitmap for its target false-positive rate; that
    /// sizing is a floating-point computation and lives with the caller.
    pub fn new(nb_elements: usize, bitmap_size: usize) -> (r: AgingBloomFilter)
        requires
            nb_elements >= 1,
            bitmap_size >= 1,
            bitmap_size <= 0x1000_0000_0000_0000,
        ensures
            r.wf(),
            r.generation_cap() == nb_elements,
            r.active_size() == 0,
            r.active_items() == Set::<u64>::empty(),
            r.stale_items() == Set::<u64>::empty(),
    {
        AgingBloomFilter {
            na: nb_elements,
            size_a1: 0,
            a1: bloom_new(bitmap_size, nb_elements),
            a2: bloom_new(bitmap_size, nb_elements),
        }
    }

    /// The active generation becomes stale; a cleared set takes its place.
    fn invert_and_clear(&mut self)
        requires
            old(self).generation_cap() >= 1,
        ensures
            final(self).wf(),
            final(self).generation_cap() == old(self).generation_cap(),
            final(self).active_items() == Set::<u64>::empty(),
            final(self).stale_items() == old(self).active_items(),
            final(self).active_size() == 0,
    {
        core::mem::swap(&mut self.a2, &mut self.a1);
        bloom_clear(&mut self.a1);
        self.size_a1 = 0;
    }

    /// Tests the key and records it when the active generation did not
    /// answer positively, rotating once the generation capacity is reached.
    /// A tracked key always answers true. The exact state change depends on
    /// which branch the probabilistic active-generation test takes, so the
    /// contract lists both outcomes of a recording and the no-record case.
    pub fn check_and_set(&mut self, item: u64) -> (r: bool)
        requires
            old(self).wf(),
        ensures
            final(self).wf(),
            final(self).generation_cap() == old(self).generation_cap(),
            old(self).tracks(item) ==> r,
            ({
                // The active test answered true: nothing is recorded.
                ||| (r && *final(self) == *old(self))
                // Recorded without rotation.
                ||| {
                    &&& final(self).active_items() == old(self).active_items().insert(item)
                    &&& final(self).stale_items() == old(self).stale_items()
                    &&& final(self).active_size() == old(self).active_size() + 1
                    &&& final(self).active_size() < final(self).generation_cap()
                }
                // Recorded, and the recording filled the generation.
                ||| {
                    &&& final(self).active_items() == Set::<u64>::empty()
                    &&& final(self).stale_items() == old(self).active_items().insert(item)
                    &&& final(self).active_size() == 0
                }
            }),
    {
        if bloom_check(&self.a1, &item) {
            true
        } else {
            let ret = bloom_check(&self.a2, &item);
            bloom_set(&mut self.a1, &item);
            self.size_a1 = self.size_a1 + 1;
            if self.size_a1 >= self.na {
                self.invert_and_clear();
            }
            ret
        }
    }

    pub fn get_active_size(&self) -> (r: usize)
        ensures
            r == self.active_size(),
    {
        self.size_a1
    }

    /// Changes the generation capacity. Shrinking discards enough history to
    /// honour the new bound: the whole filter is rotated away if the active
    /// generation is already over it, otherwise only the stale generation is
    /// dropped. Growing keeps everything.
    pub fn resize(&mut self, new_na: usize)
        requires
            old(self).wf(),
            new_na >= 1,
        ensures
            final(self).wf(),
            final(self).generation_cap() == new_na,
            new_na >= old(self).generation_cap() ==> {
                &&& final(self).active_items() == old(self).active_items()
                &&& final(self).stale_items() == old(self).stale_items()
                &&& final(self).active_size() == old(self).active_size()
            },
            new_na < old(self).generation_cap() && old(self).active_size() >= new_na ==> {
                &&& final(self).active_items() == Set::<u64>::empty()
                &&& final(self).stale_items() == old(self).active_items()
                &&& final(self).active_size() == 0
            },
            new_na < old(self).generation_cap() && old(self).active_size() < new_na ==> {
                &&& final(self).active_items() == old(self).active_items()
                &&& final(self).stale_items() == Set::<u64>::empty()
                &&& final(self).active_size() == old(self).active_size()
            },
    {
        if new_na < self.na {
            if self.size_a1 >= new_na {
                self.invert_and_clear();
            } else {
                bloom_clear(&mut self.a2);
            }
        }
        self.na = new_na;
    }

    /// Membership in either generation; no side effects.
    pub fn contains_key(&self, item: &u64) -> (r: bool)
        ensures
            self.tracks(*item) ==> r,
    {
        bloom_check(&self.a1, item) || bloom_check(&self.a2, item)
    }

    /// Records the key unless the active generation already answers
    /// positively, rotating at the generation capacity.
    pub fn record(&mut self, item: u64)
        requires
            old(self).wf(),
        ensures
            final(self).wf(),
            final(self).generation_cap() == old(self).generation_cap(),
            ({
                ||| *final(self) == *old(self)
                ||| {
                    &&& final(self).active_items() == old(self).active_items().insert(item)
                    &&& final(self).stale_items() == old(self).stale_items()
                    &&& final(self).active_size() == old(self).active_size() + 1
                    &&& final(self).active_size() < final(self).generation_cap()
                }
                ||| {
                    &&& final(self).active_items() == Set::<u64>::empty()
                    &&& final(self).stale_items() == old(self).active_items().insert(item)
                    &&& final(self).active_size() == 0
                }
            }),
    {
        if !bloom_check(&self.a1, &item) {
            bloom_set(&mut self.a1, &item);
            self.size_a1 = self.size_a1 + 1;
            if self.size_a1 >= self.na {
                self.invert_and_clear();
            }
        }
    }
}

impl Cache for AgingBloomFilter {
    /// Membership in either generation; the filter itself never changes.
    fn contains(&mut self, entry: &u64) -> (r: bool)
        ensures
            old(self).tracks(*entry) ==> r,
            *final(self) == *old(self),
    {
        self.contains_key(entry)
    }

    fn update(&mut self, entry: u64) {
        if self.na >= 1 && self.size_a1 < self.na {
            self.record(entry);
        }
    }
}

} // verus!
