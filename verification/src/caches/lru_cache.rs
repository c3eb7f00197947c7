//! Exact least-recently-used cache.
//!
//! The recency list is a sequence of distinct keys, most recently used
//! first. `update` moves a key to the front, or inserts it there and evicts
//! the least recently used entry when the capacity is exceeded; `contains`
//! never alters the order. Shrinking retains exactly the most recently used
//! keys; growing never evicts.

use vstd::prelude::*;

verus! {

use crate::caches::Cache;

/// The recency list with the first occurrence of `k` removed; other keys
/// keep their relative order.
pub open spec fn remove_first(s: Seq<u64>, k: u64) -> Seq<u64>
    decreases s.len(),
{
    if s.len() == 0 {
        s
    } else if s.first() == k {
        s.drop_first()
    } else {
        seq![s.first()] + remove_first(s.drop_first(), k)
    }
}

/// Smaller of two sequence bounds.
pub open spec fn min_len(a: int, b: int) -> int {
    if a <= b {
        a
    } else {
        b
    }
}

/// The recency list after touching `k` in a list `s` under capacity `cap`:
/// `k` moves to the front (inserted if absent) and the list is cut back to
/// the capacity from its least recently used end.
pub open spec fn lru_step(s: Seq<u64>, k: u64, cap: nat) -> Seq<u64> {
    let moved = seq![k] + remove_first(s, k);
    moved.take(min_len(cap as int, moved.len() as int))
}

/// Exact LRU cache over content keys.
pub struct LruCache {
    order: Vec<u64>,
    capacity: usize,
}

impl LruCache {
    /// Keys currently cached, most recently used first.
    pub closed spec fn view(&self) -> Seq<u64> {
        self.order@
    }

    pub closed spec fn cap_spec(&self) -> nat {
        self.capacity as nat
    }

    /// The keys are distinct and fit the capacity.
    pub open spec fn wf(&self) -> bool {
        &&& self@.no_duplicates()
        &&& self@.len() <= self.cap_spec()
    }

    pub fn new(capacity: usize) -> (r: LruCache)
        ensures
            r.wf(),
            r@ == Seq::<u64>::empty(),
            r.cap_spec() == capacity,
    {
        LruCache { order: Vec::new(), capacity }
    }

    pub fn len(&self) -> (r: usize)
        ensures
            r == self@.len(),
    {
        self.order.len()
    }

    pub fn capacity(&self) -> (r: usize)
        ensures
            r == self.cap_spec(),
    {
        self.capacity
    }

    /// Index of the first occurrence of `k`, if any; the order is untouched.
    fn position_of(&self, k: u64) -> (r: Option<usize>)
        ensures
            r is None ==> !self@.contains(k),
            r matches Some(i) ==> {
                &&& 0 <= i < self@.len()
                &&& self@[i as int] == k
                &&& forall|j: int| 0 <= j < i ==> self@[j] != k
            },
    {
        let mut i: usize = 0;
        while i < self.order.len()
            invariant
                0 <= i <= self@.len(),
                forall|j: int| 0 <= j < i ==> self@[j] != k,
            decreases self@.len() - i,
        {
            if self.order[i] == k {
                return Some(i);
            }
            i = i + 1;
        }
        None
    }

    /// Pure membership test; recency is not altered.
    pub fn contains_key(&self, k: &u64) -> (r: bool)
        ensures
            r == self@.contains(*k),
    {
        let p = self.position_of(*k);
        match p {
            Some(_) => true,
            None => false,
        }
    }

    /// Touches `k`: moves it to the front, or inserts it there, evicting the
    /// least recently used key if the capacity would be exceeded.
    pub fn update(&mut self, k: u64)
        requires
            old(self).wf(),
        ensures
            final(self).wf(),
            final(self).cap_spec() == old(self).cap_spec(),
            final(self)@ == lru_step(old(self)@, k, old(self).cap_spec()),
    {
        let ghost s0 = self@;
        match self.position_of(k) {
            Some(i) => {
                self.order.remove(i);
                proof {
                    lemma_remove_first_at(s0, k, i as int);
                }
            },
            None => {
                proof {
                    lemma_remove_first_absent(s0, k);
                }
            },
        }
        proof {
            lemma_remove_first_no_dup(s0, k);
        }
        self.order.insert(0, k);
        proof {
            assert(self@ == seq![k] + remove_first(s0, k));
        }
        if self.order.len() > self.capacity {
            let ghost before = self@;
            self.order.pop();
            proof {
                assert(self@ == before.take(before.len() - 1));
                assert(self@ == lru_step(s0, k, old(self).cap_spec()));
            }
        } else {
            proof {
                let moved = seq![k] + remove_first(s0, k);
                assert(moved.take(moved.len() as int) == moved);
            }
        }
    }

    /// Changes the capacity. Shrinking to `c` retains exactly the `c` most
    /// recently used keys; growing never evicts.
    pub fn resize(&mut self, c: usize)
        requires
            old(self).wf(),
        ensures
            final(self).wf(),
            final(self).cap_spec() == c,
            final(self)@ == old(self)@.take(
                min_len(c as int, old(self)@.len() as int),
            ),
    {
        let ghost s0 = self@;
        while self.order.len() > c
            invariant
                self@.no_duplicates(),
                c <= self@.len() ==> self@ == s0.take(self@.len() as int),
                self@.len() < c ==> self@ == s0,
                self@.len() <= s0.len(),
            decreases self@.len(),
        {
            let ghost before = self@;
            self.order.pop();
            proof {
                assert(self@ == before.take(before.len() - 1));
                assert(s0.take(before.len() - 1) == before.take(before.len() - 1));
            }
        }
        self.capacity = c;
        proof {
            if s0.len() <= c {
                assert(s0.take(s0.len() as int) == s0);
            }
        }
    }

    /// The least recently used key, removed; `None` on an empty cache.
    /// Used by the adaptive partition to migrate entries across the
    /// partition boundary while preserving recency order.
    pub fn pop_lru(&mut self) -> (r: Option<u64>)
        requires
            old(self).wf(),
        ensures
            final(self).wf(),
            final(self).cap_spec() == old(self).cap_spec(),
            r is None <==> old(self)@.len() == 0,
            r is None ==> final(self)@ == old(self)@,
            r matches Some(k) ==> {
                &&& k == old(self)@.last()
                &&& final(self)@ == old(self)@.drop_last()
            },
    {
        self.order.pop()
    }

    /// Appends a fresh key at the least recently used end. The counterpart
    /// of `pop_lru` for boundary migration: the key must be new and there
    /// must be room, so recency order within the partition is preserved.
    pub fn push_lru(&mut self, k: u64)
        requires
            old(self).wf(),
            !old(self)@.contains(k),
            old(self)@.len() < old(self).cap_spec(),
        ensures
            final(self).wf(),
            final(self).cap_spec() == old(self).cap_spec(),
            final(self)@ == old(self)@.push(k),
    {
        self.order.push(k);
    }

    /// The most recently used key, removed. The counterpart of `pop_lru`
    /// for boundary migration in the adaptive partition.
    pub fn pop_mru(&mut self) -> (r: Option<u64>)
        requires
            old(self).wf(),
        ensures
            final(self).wf(),
            final(self).cap_spec() == old(self).cap_spec(),
            r is None <==> old(self)@.len() == 0,
            r is None ==> final(self)@ == old(self)@,
            r matches Some(k) ==> {
                &&& k == old(self)@.first()
                &&& final(self)@ == old(self)@.drop_first()
            },
    {
        if self.order.len() == 0 {
            None
        } else {
            let k = self.order.remove(0);
            proof {
                assert(self.order@ == old(self)@.drop_first());
            }
            Some(k)
        }
    }

    /// Removes a key outright, wherever it sits in the recency order.
    pub fn remove_key(&mut self, k: u64)
        requires
            old(self).wf(),
        ensures
            final(self).wf(),
            final(self).cap_spec() == old(self).cap_spec(),
            final(self)@ == remove_first(old(self)@, k),
    {
        let ghost s0 = self@;
        match self.position_of(k) {
            Some(i) => {
                self.order.remove(i);
                proof {
                    lemma_remove_first_at(s0, k, i as int);
                    lemma_remove_first_no_dup(s0, k);
                }
            },
            None => {
                proof {
                    lemma_remove_first_absent(s0, k);
                }
            },
        }
    }

    /// The cached keys, most recently used first.
    pub fn keys(&self) -> (r: Vec<u64>)
        ensures
            r@ == self@,
    {
        let mut out: Vec<u64> = Vec::new();
        let mut i: usize = 0;
        while i < self.order.len()
            invariant
                0 <= i <= self@.len(),
                out@ == self@.take(i as int),
            decreases self@.len() - i,
        {
            out.push(self.order[i]);
            proof {
                assert(out@ == self@.take(i + 1));
            }
            i = i + 1;
        }
        proof {
            assert(self@.take(self@.len() as int) == self@);
        }
        out
    }
}

impl Cache for LruCache {
    /// Pure membership; recency is not altered.
    fn contains(&mut self, entry: &u64) -> (r: bool)
        ensures
            r == old(self)@.contains(*entry),
            *final(self) == *old(self),
    {
        self.contains_key(entry)
    }

    /// One recency touch on a well-formed cache (the runtime check shields
    /// the verified method's precondition from unverified callers).
    fn update(&mut self, entry: u64)
        ensures
            old(self).wf() ==> final(self)@ == lru_step(old(self)@, entry, old(self).cap_spec())
                && final(self).wf() && final(self).cap_spec() == old(self).cap_spec(),
    {
        if self.wf_runtime() {
            self.update(entry);
        }
    }
}

impl LruCache {
    /// Exec check of the well-formedness the verified methods require; the
    /// trait entry point refuses to touch a malformed value.
    fn wf_runtime(&self) -> (r: bool)
        ensures
            r == self.wf(),
    {
        if self.order.len() > self.capacity {
            return false;
        }
        let mut i: usize = 0;
        while i < self.order.len()
            invariant
                0 <= i <= self@.len(),
                self@.len() <= self.cap_spec(),
                self@.take(i as int).no_duplicates(),
            decreases self@.len() - i,
        {
            match self.position_of(self.order[i]) {
                Some(p) => {
                    if p != i {
                        // A first occurrence before `i` is a duplicate.
                        proof {
                            assert(p < i);
                            assert(self@[p as int] == self@[i as int]);
                        }
                        return false;
                    }
                },
                None => {
                    proof {
                        assert(self@.contains(self@[i as int]));
                        assert(false);
                    }
                    return false;
                },
            }
            proof {
                assert(self@.take(i + 1).no_duplicates());
            }
            i = i + 1;
        }
        proof {
            assert(self@.take(self@.len() as int) == self@);
        }
        true
    }
}

/// What one touch can and cannot do to the key set: it only ever adds the
/// touched key, keeps the keys distinct, and puts the touched key in front
/// whenever there is any capacity.
pub proof fn lemma_lru_step_membership(s: Seq<u64>, k: u64, cap: nat)
    requires
        s.no_duplicates(),
    ensures
        forall|x: u64|
            #[trigger] lru_step(s, k, cap).contains(x) ==> (x == k || s.contains(x)),
        lru_step(s, k, cap).no_duplicates(),
        lru_step(s, k, cap).len() <= cap,
        cap >= 1 ==> lru_step(s, k, cap).len() >= 1 && lru_step(s, k, cap)[0] == k,
{
    lemma_remove_first_no_dup(s, k);
    let rf = remove_first(s, k);
    let full = seq![k] + rf;
    let m = min_len(cap as int, full.len() as int);
    let stepped = lru_step(s, k, cap);
    assert(stepped == full.take(m));
    assert(full.no_duplicates());
    assert forall|x: u64| #[trigger] stepped.contains(x) implies (x == k || s.contains(x)) by {
        let w = choose|w: int| 0 <= w < stepped.len() && stepped[w] == x;
        assert(full[w] == x);
        if w > 0 {
            assert(rf[w - 1] == x);
            assert(rf.contains(x));
        }
    }
    assert forall|a: int, b: int| 0 <= a < b < stepped.len() implies stepped[a] != stepped[b] by {
        assert(full[a] == stepped[a] && full[b] == stepped[b]);
    }
}

/// If the first occurrence of `k` in `s` is at `i`, removing index `i` is
/// removing that first occurrence.
proof fn lemma_remove_first_at(s: Seq<u64>, k: u64, i: int)
    requires
        0 <= i < s.len(),
        s[i] == k,
        forall|j: int| 0 <= j < i ==> s[j] != k,
    ensures
        remove_first(s, k) == s.remove(i),
    decreases s.len(),
{
    if i == 0 {
        assert(s.remove(0) == s.drop_first());
    } else {
        lemma_remove_first_at(s.drop_first(), k, i - 1);
        assert(s.drop_first().remove(i - 1) == s.remove(i).drop_first());
        assert(seq![s.first()] + s.remove(i).drop_first() == s.remove(i));
    }
}

/// Removing an absent key changes nothing.
proof fn lemma_remove_first_absent(s: Seq<u64>, k: u64)
    requires
        !s.contains(k),
    ensures
        remove_first(s, k) == s,
    decreases s.len(),
{
    if s.len() > 0 {
        assert(!s.drop_first().contains(k));
        lemma_remove_first_absent(s.drop_first(), k);
        assert(seq![s.first()] + s.drop_first() == s);
    }
}

/// On a duplicate-free list, removal keeps the remaining keys distinct,
/// drops `k` entirely, and keeps every other key.
pub proof fn lemma_remove_first_no_dup(s: Seq<u64>, k: u64)
    requires
        s.no_duplicates(),
    ensures
        remove_first(s, k).no_duplicates(),
        !remove_first(s, k).contains(k),
        forall|x: u64|
            #[trigger] remove_first(s, k).contains(x) <==> (s.contains(x) && x != k),
        remove_first(s, k).len() == if s.contains(k) {
            s.len() - 1
        } else {
            s.len() as int
        },
    decreases s.len(),
{
    if s.len() > 0 {
        let rest = s.drop_first();
        assert(rest.no_duplicates());
        lemma_remove_first_no_dup(rest, k);
        if s.first() == k {
            assert(!rest.contains(k));
            assert forall|x: u64| #[trigger] remove_first(s, k).contains(x)
                implies (s.contains(x) && x != k) by {
                assert(rest.contains(x));
                let w = choose|w: int| 0 <= w < rest.len() && rest[w] == x;
                assert(s[w + 1] == x);
            }
            assert forall|x: u64| s.contains(x) && x != k
                implies #[trigger] remove_first(s, k).contains(x) by {
                let w = choose|w: int| 0 <= w < s.len() && s[w] == x;
                assert(rest[w - 1] == x);
            }
        } else {
            let tail = remove_first(rest, k);
            assert(remove_first(s, k) == seq![s.first()] + tail);
            assert forall|x: u64| #[trigger] remove_first(s, k).contains(x)
                implies (s.contains(x) && x != k) by {
                let w = choose|w: int|
                    0 <= w < remove_first(s, k).len() && remove_first(s, k)[w] == x;
                if w == 0 {
                    assert(s[0] == x);
                } else {
                    assert(tail.contains(x));
                    let v = choose|v: int| 0 <= v < rest.len() && rest[v] == x;
                    assert(s[v + 1] == x);
                }
            }
            assert forall|x: u64| s.contains(x) && x != k
                implies #[trigger] remove_first(s, k).contains(x) by {
                let w = choose|w: int| 0 <= w < s.len() && s[w] == x;
                if w == 0 {
                    assert(remove_first(s, k)[0] == x);
                } else {
                    assert(rest[w - 1] == x);
                    assert(tail.contains(x));
                    let v = choose|v: int| 0 <= v < tail.len() && tail[v] == x;
                    assert(remove_first(s, k)[v + 1] == x);
                }
            }
            if tail.contains(s.first()) {
                assert(rest.contains(s.first()));
                assert(false);
            }
            if s.contains(k) {
                let w = choose|w: int| 0 <= w < s.len() && s[w] == k;
                assert(rest[w - 1] == k);
                assert(rest.contains(k));
            } else {
                if rest.contains(k) {
                    let v = choose|v: int| 0 <= v < rest.len() && rest[v] == k;
                    assert(s[v + 1] == k);
                    assert(false);
                }
            }
        }
    }
}


/// The recency list that results from a whole history of touches on a
/// fresh cache of capacity `cap`, in order.
pub open spec fn lru_history(cap: nat, updates: Seq<u64>) -> Seq<u64>
    decreases updates.len(),
{
    if updates.len() == 0 {
        Seq::empty()
    } else {
        lru_step(lru_history(cap, updates.drop_last()), updates.last(), cap)
    }
}

/// One more touch extends the history by one step.
pub proof fn lemma_lru_history_step(cap: nat, updates: Seq<u64>, k: u64)
    ensures
        lru_history(cap, updates.push(k)) == lru_step(lru_history(cap, updates), k, cap),
{
    assert(updates.push(k).drop_last() == updates);
    assert(updates.push(k).last() == k);
}

/// The sequence with later duplicates dropped: each key keeps only its
/// first occurrence.
pub open spec fn dedup_first(s: Seq<u64>) -> Seq<u64>
    decreases s.len(),
{
    if s.len() == 0 {
        s
    } else {
        seq![s.first()] + remove_first(dedup_first(s.drop_first()), s.first())
    }
}

/// Deduplication keeps exactly the keys of the input, without duplicates.
pub proof fn lemma_dedup_first_props(s: Seq<u64>)
    ensures
        dedup_first(s).no_duplicates(),
        forall|x: u64| #[trigger] dedup_first(s).contains(x) <==> s.contains(x),
        dedup_first(s).len() <= s.len(),
        s.len() > 0 ==> dedup_first(s).len() >= 1 && dedup_first(s)[0] == s.first(),
    decreases s.len(),
{
    if s.len() > 0 {
        let rest = s.drop_first();
        lemma_dedup_first_props(rest);
        let d = dedup_first(rest);
        lemma_remove_first_no_dup(d, s.first());
        let rf = remove_first(d, s.first());
        assert forall|a: int, b: int|
            0 <= a < b < dedup_first(s).len() implies dedup_first(s)[a] != dedup_first(
            s,
        )[b] by {
            if a > 0 {
                assert(rf[a - 1] == dedup_first(s)[a] && rf[b - 1] == dedup_first(s)[b]);
            } else {
                assert(rf.contains(dedup_first(s)[b]) || b == 0);
                assert(rf[b - 1] == dedup_first(s)[b]);
            }
        }
        assert forall|x: u64| #[trigger] dedup_first(s).contains(x) implies s.contains(
            x,
        ) by {
            let w = choose|w: int|
                0 <= w < dedup_first(s).len() && dedup_first(s)[w] == x;
            if w == 0 {
                assert(s[0] == x);
            } else {
                assert(rf[w - 1] == x);
                assert(rf.contains(x));
                assert(rest.contains(x));
                let v = choose|v: int| 0 <= v < rest.len() && rest[v] == x;
                assert(s[v + 1] == x);
            }
        }
        assert forall|x: u64| s.contains(x) implies #[trigger] dedup_first(s).contains(
            x,
        ) by {
            if x == s.first() {
                assert(dedup_first(s)[0] == x);
            } else {
                let w = choose|w: int| 0 <= w < s.len() && s[w] == x;
                assert(rest[w - 1] == x);
                assert(rest.contains(x));
                assert(d.contains(x));
                assert(rf.contains(x));
                let v = choose|v: int| 0 <= v < rf.len() && rf[v] == x;
                assert(dedup_first(s)[v + 1] == x);
            }
        }
    }
}

/// Index of the first occurrence of `k`, or a negative value if absent.
pub open spec fn first_index(s: Seq<u64>, k: u64) -> int
    decreases s.len(),
{
    if s.len() == 0 {
        -1
    } else if s.first() == k {
        0
    } else {
        let r = first_index(s.drop_first(), k);
        if r < 0 {
            -1
        } else {
            r + 1
        }
    }
}

pub proof fn lemma_first_index(s: Seq<u64>, k: u64)
    ensures
        s.contains(k) <==> first_index(s, k) >= 0,
        first_index(s, k) >= 0 ==> {
            &&& first_index(s, k) < s.len()
            &&& s[first_index(s, k)] == k
            &&& forall|j: int| 0 <= j < first_index(s, k) ==> s[j] != k
        },
    decreases s.len(),
{
    if s.len() > 0 && s.first() != k {
        let rest = s.drop_first();
        lemma_first_index(rest, k);
        if s.contains(k) {
            let w = choose|w: int| 0 <= w < s.len() && s[w] == k;
            assert(rest[w - 1] == k);
            assert(rest.contains(k));
        }
        if rest.contains(k) {
            let v = choose|v: int| 0 <= v < rest.len() && rest[v] == k;
            assert(s[v + 1] == k);
        }
        let fr = first_index(rest, k);
        if fr >= 0 {
            assert(s[fr + 1] == rest[fr]);
            assert forall|j: int| 0 <= j < fr + 1 implies s[j] != k by {
                if j > 0 {
                    assert(s[j] == rest[j - 1]);
                }
            }
        }
    }
}

/// THE recency law: touching keys one by one on a fresh cache leaves
/// exactly the most recently touched distinct keys, most recent first, cut
/// to the capacity — the duplicate-free prefix of the reversed history.
pub proof fn lemma_lru_history_is_recency(cap: nat, ups: Seq<u64>)
    ensures
        lru_history(cap, ups) == dedup_first(ups.reverse()).take(
            min_len(cap as int, dedup_first(ups.reverse()).len() as int),
        ),
    decreases ups.len(),
{
    let rev = ups.reverse();
    let d = dedup_first(rev);
    lemma_dedup_first_props(rev);
    if ups.len() == 0 {
        assert(lru_history(cap, ups) == d.take(min_len(cap as int, d.len() as int)));
    } else {
        let k = ups.last();
        let but = ups.drop_last();
        lemma_lru_history_is_recency(cap, but);
        let rb = but.reverse();
        let db = dedup_first(rb);
        lemma_dedup_first_props(rb);
        lemma_remove_first_no_dup(db, k);
        let c = min_len(cap as int, db.len() as int);
        let hist_b = db.take(c);
        assert(lru_history(cap, but) == hist_b);

        // The reversed history grows at the front.
        assert(rev =~= seq![k] + rb);
        assert(rev.first() == k);
        assert(rev.drop_first() =~= rb);
        assert(d == seq![k] + remove_first(db, k));

        // Membership of `k` in the window decides the shape.
        lemma_first_index(db, k);
        let fp = first_index(db, k);

        // The touched list before the final cut.
        let moved_b = seq![k] + remove_first(hist_b, k);
        let m1 = min_len(cap as int, moved_b.len() as int);
        assert(lru_history(cap, ups) == moved_b.take(m1));
        let m2 = min_len(cap as int, d.len() as int);

        if fp >= 0 && fp < c {
            // First occurrence inside the window: both sides drop it.
            lemma_remove_first_at(db, k, fp);
            assert forall|j: int| 0 <= j < fp implies hist_b[j] != k by {
                assert(hist_b[j] == db[j]);
            }
            assert(hist_b[fp] == k);
            lemma_remove_first_at(hist_b, k, fp);
            assert(remove_first(hist_b, k) == hist_b.remove(fp));
            assert(remove_first(db, k) == db.remove(fp));
            assert(moved_b.len() == c);
            assert(m1 == c);
            assert(m2 == c) by {
                assert(d.len() == db.len());
            }
            assert forall|i: int| 0 <= i < c implies moved_b.take(m1)[i] == d.take(m2)[i]
                by {
                if i > 0 {
                    if i - 1 < fp {
                        assert(hist_b.remove(fp)[i - 1] == hist_b[i - 1]);
                        assert(db.remove(fp)[i - 1] == db[i - 1]);
                        assert(hist_b[i - 1] == db[i - 1]);
                    } else {
                        assert(hist_b.remove(fp)[i - 1] == hist_b[i]);
                        assert(db.remove(fp)[i - 1] == db[i]);
                        assert(hist_b[i] == db[i]);
                    }
                }
            }
            assert(moved_b.take(m1) =~= d.take(m2));
        } else {
            // First occurrence absent or beyond the window: nothing to drop
            // inside it.
            assert(!hist_b.contains(k)) by {
                if hist_b.contains(k) {
                    let w = choose|w: int| 0 <= w < hist_b.len() && hist_b[w] == k;
                    assert(db[w] == k);
                    assert(db.contains(k));
                    assert(fp >= 0);
                    assert(w < fp || db[w] != k || w == fp);
                    assert(w == fp);
                }
            }
            lemma_remove_first_absent(hist_b, k);
            assert(moved_b == seq![k] + hist_b);
            if c == db.len() {
                // The whole deduplicated tail fits: the windows coincide.
                assert(hist_b =~= db);
                if fp >= 0 {
                    assert(fp < db.len());
                    assert(false);
                }
                lemma_remove_first_absent(db, k);
                assert(moved_b == d);
                assert(m1 == min_len(cap as int, d.len() as int));
                assert(moved_b.take(m1) =~= d.take(m2));
            } else {
                // The window is the full capacity; elements past it cannot
                // surface.
                assert(c == cap);
                assert(hist_b.len() == cap);
                assert(m1 == cap);
                let rfd = remove_first(db, k);
                if fp >= 0 {
                    lemma_remove_first_at(db, k, fp);
                    assert(rfd == db.remove(fp));
                } else {
                    lemma_remove_first_absent(db, k);
                }
                assert(rfd.len() >= cap);
                assert(m2 == cap) by {
                    assert(d.len() == 1 + rfd.len());
                }
                assert forall|i: int| 0 <= i < cap implies moved_b.take(m1)[i] == d.take(
                    m2,
                )[i] by {
                    if i > 0 {
                        assert(moved_b[i] == hist_b[i - 1]);
                        assert(hist_b[i - 1] == db[i - 1]);
                        assert(d[i] == rfd[i - 1]);
                        if fp >= 0 {
                            assert(db.remove(fp)[i - 1] == db[i - 1]);
                        }
                    }
                }
                assert(moved_b.take(m1) =~= d.take(m2));
            }
        }
    }
}

/// Corollary: after any non-empty history on a cache with room, the most
/// recently touched key is reported first.
pub proof fn lemma_lru_history_front(cap: nat, ups: Seq<u64>)
    requires
        cap >= 1,
        ups.len() > 0,
    ensures
        lru_history(cap, ups).len() >= 1,
        lru_history(cap, ups)[0] == ups.last(),
{
    lemma_lru_history_is_recency(cap, ups);
    let rev = ups.reverse();
    lemma_dedup_first_props(rev);
    assert(rev.first() == ups.last());
}

/// Resizing against the recency law: shrinking to `c` retains exactly the
/// `c` most recently used keys of the history; growing retains everything.
pub proof fn lemma_lru_resize_retains(cap: nat, c: nat, ups: Seq<u64>)
    ensures
        c <= cap ==> lru_history(cap, ups).take(
            min_len(c as int, lru_history(cap, ups).len() as int),
        ) == dedup_first(ups.reverse()).take(
            min_len(c as int, dedup_first(ups.reverse()).len() as int),
        ),
        c >= cap ==> lru_history(cap, ups).take(
            min_len(c as int, lru_history(cap, ups).len() as int),
        ) == lru_history(cap, ups),
{
    lemma_lru_history_is_recency(cap, ups);
    let d = dedup_first(ups.reverse());
    let h = lru_history(cap, ups);
    if c <= cap {
        assert(h.take(min_len(c as int, h.len() as int)) =~= d.take(
            min_len(c as int, d.len() as int),
        ));
    } else {
        assert(h.take(min_len(c as int, h.len() as int)) =~= h);
    }
}

} // verus!
