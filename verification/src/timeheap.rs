//! The time-ordered priority store that underlies work accounting and
//! generator scheduling.
//!
//! Entries are (key, payload) pairs with an unsigned integer key, so the key
//! domain is totally ordered by construction and the fatal not-a-number key
//! of a float-keyed heap cannot arise. `pop` and `peek` return the entry with
//! the least key; among equal keys the entry that was inserted first wins,
//! which is one valid heap order.

use vstd::prelude::*;

verus! {

/// Priority store over integer keys. The representation is a plain vector;
/// the contracts only promise minimum-key semantics, never a layout.
pub struct TimeHeap<T> {
    entries: Vec<(u64, T)>,
}

/// Index of the first entry holding the minimal key of a non-empty sequence.
pub open spec fn min_index<T>(s: Seq<(u64, T)>) -> int
    recommends
        s.len() > 0,
    decreases s.len(),
{
    if s.len() <= 1 {
        0
    } else {
        let m = min_index(s.drop_last());
        if s.last().0 < s[m].0 {
            s.len() - 1
        } else {
            m
        }
    }
}

/// The entry at `min_index` carries a key no larger than any other.
pub proof fn lemma_min_index<T>(s: Seq<(u64, T)>)
    requires
        s.len() > 0,
    ensures
        0 <= min_index(s) < s.len(),
        forall|j: int| 0 <= j < s.len() ==> s[min_index(s)].0 <= #[trigger] s[j].0,
    decreases s.len(),
{
    if s.len() > 1 {
        lemma_min_index(s.drop_last());
        assert(forall|j: int|
            0 <= j < s.len() - 1 ==> s.drop_last()[j] == #[trigger] s[j]);
    }
}

impl<T> TimeHeap<T> {
    pub closed spec fn view(&self) -> Seq<(u64, T)> {
        self.entries@
    }

    pub fn new() -> (r: TimeHeap<T>)
        ensures
            r@ == Seq::<(u64, T)>::empty(),
    {
        TimeHeap { entries: Vec::new() }
    }

    pub fn len(&self) -> (r: usize)
        ensures
            r == self@.len(),
    {
        self.entries.len()
    }

    pub fn is_empty(&self) -> (r: bool)
        ensures
            r == (self@.len() == 0),
    {
        self.entries.len() == 0
    }

    /// Inserts an entry; everything already stored is kept unchanged.
    pub fn push(&mut self, key: u64, value: T)
        ensures
            final(self)@ == old(self)@.push((key, value)),
    {
        self.entries.push((key, value));
    }

    /// Exec scan for the index of the first minimal-key entry.
    fn find_min(&self) -> (r: usize)
        requires
            self@.len() > 0,
        ensures
            r == min_index(self@),
    {
        let mut best: usize = 0;
        let mut i: usize = 1;
        while i < self.entries.len()
            invariant
                1 <= i <= self@.len(),
                0 <= best < i,
                best == min_index(self@.take(i as int)),
            decreases self@.len() - i,
        {
            proof {
                assert(self@.take(i + 1).drop_last() == self@.take(i as int));
                assert(self@.take(i + 1).last() == self@[i as int]);
                lemma_min_index(self@.take(i as int));
            }
            if self.entries[i].0 < self.entries[best].0 {
                best = i;
            }
            i = i + 1;
        }
        proof {
            assert(self@.take(self@.len() as int) == self@);
        }
        best
    }

    /// Returns the least key together with a borrow of its payload.
    pub fn peek(&self) -> (r: Option<(u64, &T)>)
        ensures
            r is None <==> self@.len() == 0,
            r matches Some(p) ==> {
                &&& p.0 == self@[min_index(self@)].0
                &&& *p.1 == self@[min_index(self@)].1
                &&& forall|j: int| 0 <= j < self@.len() ==> p.0 <= #[trigger] self@[j].0
            },
    {
        if self.entries.len() == 0 {
            None
        } else {
            proof {
                lemma_min_index(self@);
            }
            let i = self.find_min();
            let e = &self.entries[i];
            Some((e.0, &e.1))
        }
    }

    /// Removes and returns the entry with the least key; all other entries
    /// stay, in their old relative order.
    pub fn pop(&mut self) -> (r: Option<(u64, T)>)
        ensures
            r is None <==> old(self)@.len() == 0,
            r is None ==> final(self)@ == old(self)@,
            r matches Some(p) ==> {
                &&& p.0 == old(self)@[min_index(old(self)@)].0
                &&& p.1 == old(self)@[min_index(old(self)@)].1
                &&& final(self)@ == old(self)@.remove(min_index(old(self)@))
                &&& final(self)@.len() == old(self)@.len() - 1
                &&& forall|j: int|
                    0 <= j < old(self)@.len() ==> p.0 <= #[trigger] old(self)@[j].0
            },
    {
        if self.entries.len() == 0 {
            None
        } else {
            proof {
                lemma_min_index(self@);
            }
            let i = self.find_min();
            let e = self.entries.remove(i);
            Some(e)
        }
    }

    /// Adds a constant offset to every stored key in one pass, re-basing all
    /// pending completion times when the schedule's reference frame shifts.
    /// Relative order of the keys is preserved because the shift is additive.
    pub fn translate_keys(&mut self, offset: u64)
        requires
            forall|j: int|
                0 <= j < old(self)@.len()
                    ==> #[trigger] old(self)@[j].0 + offset <= u64::MAX,
        ensures
            final(self)@.len() == old(self)@.len(),
            forall|j: int|
                0 <= j < old(self)@.len() ==> #[trigger] final(self)@[j] == (
                    (old(self)@[j].0 + offset) as u64,
                    old(self)@[j].1,
                ),
    {
        let ghost orig = self@;
        let mut i: usize = 0;
        while i < self.entries.len()
            invariant
                0 <= i <= self@.len(),
                self@.len() == orig.len(),
                forall|j: int|
                    0 <= j < orig.len() ==> #[trigger] orig[j].0 + offset <= u64::MAX,
                forall|j: int|
                    0 <= j < i ==> #[trigger] self@[j] == (
                        (orig[j].0 + offset) as u64,
                        orig[j].1,
                    ),
                forall|j: int| i <= j < orig.len() ==> #[trigger] self@[j] == orig[j],
            decreases self@.len() - i,
        {
            let k = self.entries[i].0;
            let kv = &mut self.entries[i];
            kv.0 = k + offset;
            i = i + 1;
        }
    }
}

} // verus!
