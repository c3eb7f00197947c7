//! Trace-replay source: replays pre-recorded (timestamp, content) records in
//! time order, with no further randomness. Reading and parsing the trace
//! file is the caller's collaborator; this station takes the records as
//! plain values.

use vstd::prelude::*;

verus! {

use crate::distribution::saturating_add_spec;
use crate::request::Request;
use crate::timeheap::{TimeHeap, min_index, lemma_min_index};

pub struct TraceGenerator {
    requests: TimeHeap<u64>,
    next_exit: u64,
    next_request: Option<Request>,
    next_id: u64,
}

impl TraceGenerator {
    /// Records not yet primed, as (timestamp, content) pairs.
    pub closed spec fn pending(&self) -> Seq<(u64, u64)> {
        self.requests@
    }

    pub closed spec fn next_exit_spec(&self) -> u64 {
        self.next_exit
    }

    pub closed spec fn next_request_spec(&self) -> Option<Request> {
        self.next_request
    }

    pub closed spec fn next_id_spec(&self) -> u64 {
        self.next_id
    }

    /// Replay order: while a record is primed, every pending record is due
    /// at or after it, so records surface in minimum-time order and the
    /// surrendered timestamps never decrease; and the primed slot is empty
    /// only when the whole trace is exhausted.
    pub open spec fn wf(&self) -> bool {
        &&& self.next_request_spec() is Some ==> forall|j: int|
            0 <= j < self.pending().len() ==> #[trigger] self.pending()[j].0
                >= self.next_exit_spec()
        &&& self.next_request_spec() is None ==> self.pending().len() == 0
    }

    /// Builds the replay source from (timestamp, content) records, in any
    /// order, and primes the earliest one: the pending set plus the primed
    /// pair carry exactly the given records. Identifiers count up from
    /// `id_base` in replay order.
    pub fn new(records: Vec<(u64, u64)>, id_base: u64) -> (r: TraceGenerator)
        ensures
            r.wf(),
            records@.len() == 0 ==> {
                &&& r.next_request_spec() is None
                &&& r.pending() == Seq::<(u64, u64)>::empty()
            },
            records@.len() > 0 ==> {
                &&& r.pending() == records@.remove(min_index(records@))
                &&& r.next_exit_spec() == records@[min_index(records@)].0
                &&& r.next_request_spec() matches Some(req) && req.content_spec()
                    == records@[min_index(records@)].1 && req.id_spec() == id_base
                    && req.log_view().len() == 0
            },
    {
        let mut ret = TraceGenerator {
            requests: TimeHeap::new(),
            next_exit: 0,
            next_request: None,
            next_id: id_base,
        };
        let mut i: usize = 0;
        while i < records.len()
            invariant
                0 <= i <= records@.len(),
                ret.requests@ == records@.take(i as int),
                ret.next_request is None,
                ret.next_id == id_base,
            decreases records@.len() - i,
        {
            let (t, c) = records[i];
            ret.requests.push(t, c);
            proof {
                assert(ret.requests@ == records@.take(i + 1));
            }
            i = i + 1;
        }
        proof {
            assert(records@.take(records@.len() as int) == records@);
        }
        ret.generate_next_exit();
        ret
    }

    /// Moves the earliest pending record into the primed slot.
    fn generate_next_exit(&mut self)
        ensures
            final(self).wf(),
            old(self).pending().len() == 0 ==> {
                &&& final(self).next_request_spec() is None
                &&& final(self).pending() == old(self).pending()
                &&& final(self).next_id_spec() == old(self).next_id_spec()
            },
            old(self).pending().len() > 0 ==> {
                &&& final(self).pending() == old(self).pending().remove(
                    min_index(old(self).pending()),
                )
                &&& final(self).pending().len() == old(self).pending().len() - 1
                &&& final(self).next_exit_spec() == old(self).pending()[min_index(
                    old(self).pending(),
                )].0
                &&& final(self).next_request_spec() matches Some(req) && req
                    .content_spec() == old(self).pending()[min_index(old(self).pending())].1
                    && req.id_spec() == old(self).next_id_spec() && req.log_view().len()
                    == 0
                &&& final(self).next_id_spec() == saturating_add_spec(
                    old(self).next_id_spec(),
                    1,
                )
            },
    {
        let ghost pre = self.requests@;
        proof {
            if pre.len() > 0 {
                lemma_min_index(pre);
            }
        }
        match self.requests.pop() {
            Some((t, content)) => {
                self.next_exit = t;
                self.next_request = Some(Request::new(self.next_id, content));
                self.next_id = if self.next_id < u64::MAX {
                    self.next_id + 1
                } else {
                    u64::MAX
                };
                proof {
                    let mi = min_index(pre);
                    assert forall|j: int| 0 <= j < self.requests@.len() implies
                        #[trigger] self.requests@[j].0 >= t by {
                        if j < mi {
                            assert(self.requests@[j] == pre[j]);
                        } else {
                            assert(self.requests@[j] == pre[j + 1]);
                        }
                    }
                }
            },
            None => {
                self.next_request = None;
            },
        }
    }

    pub fn advance_time(&mut self, _t: u64)
        ensures
            *final(self) == *old(self),
    {
    }

    pub fn read_next_exit(&self) -> (r: Option<(u64, &Request)>)
        ensures
            r is None <==> self.next_request_spec() is None,
            r matches Some(p) ==> p.0 == self.next_exit_spec() && Some(*p.1) == self
                .next_request_spec(),
    {
        match &self.next_request {
            None => None,
            Some(r) => Some((self.next_exit, r)),
        }
    }

    /// Surrenders the primed record and primes the earliest remaining one;
    /// under the replay-order invariant the surrendered timestamps never
    /// decrease across calls.
    pub fn pop_next_exit(&mut self) -> (r: Option<(u64, Request)>)
        requires
            old(self).wf(),
        ensures
            final(self).wf(),
            r is None <==> old(self).next_request_spec() is None,
            r is None ==> final(self).pending() == old(self).pending(),
            r matches Some(p) ==> {
                &&& p.0 == old(self).next_exit_spec()
                &&& Some(p.1) == old(self).next_request_spec()
                &&& old(self).pending().len() == 0 ==> final(self).next_request_spec()
                    is None && final(self).pending() == old(self).pending()
                &&& old(self).pending().len() > 0 ==> {
                    &&& final(self).pending() == old(self).pending().remove(
                        min_index(old(self).pending()),
                    )
                    &&& final(self).next_exit_spec() == old(self).pending()[min_index(
                        old(self).pending(),
                    )].0
                    &&& final(self).next_exit_spec() >= p.0
                    &&& final(self).next_request_spec() matches Some(req) && req
                        .content_spec() == old(self).pending()[min_index(
                        old(self).pending(),
                    )].1 && req.id_spec() == old(self).next_id_spec()
                }
            },
    {
        let ret = self.next_request.take();
        let t = self.next_exit;
        proof {
            if self.requests@.len() > 0 {
                lemma_min_index(self.requests@);
            }
        }
        self.generate_next_exit();
        match ret {
            None => None,
            Some(r) => Some((t, r)),
        }
    }

    pub fn read_load(&self) -> (r: usize)
        ensures
            r == 1,
    {
        1
    }
}

} // verus!
