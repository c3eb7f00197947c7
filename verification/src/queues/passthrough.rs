//! Pass-through queue: requests leave in arrival order, each immediately
//! available at the current simulated time.

use vstd::prelude::*;

verus! {

use crate::request::Request;

pub struct PassthroughQueue {
    time: u64,
    requests: Vec<Request>,
}

impl PassthroughQueue {
    pub closed spec fn time_spec(&self) -> u64 {
        self.time
    }

    /// Waiting requests in arrival order.
    pub closed spec fn waiting(&self) -> Seq<Request> {
        self.requests@
    }

    pub fn new() -> (r: PassthroughQueue)
        ensures
            r.time_spec() == 0,
            r.waiting() == Seq::<Request>::empty(),
    {
        PassthroughQueue { time: 0, requests: Vec::new() }
    }

    pub fn advance_time(&mut self, t: u64)
        ensures
            final(self).waiting() == old(self).waiting(),
            final(self).time_spec() == if t > old(self).time_spec() {
                t
            } else {
                old(self).time_spec()
            },
    {
        if t > self.time {
            self.time = t;
        }
    }

    pub fn arrival(&mut self, req: Request)
        ensures
            final(self).waiting() == old(self).waiting().push(req),
            final(self).time_spec() == old(self).time_spec(),
    {
        self.requests.push(req);
    }

    pub fn read_next_exit(&self) -> (r: Option<(u64, &Request)>)
        ensures
            r is None <==> self.waiting().len() == 0,
            r matches Some(p) ==> p.0 == self.time_spec() && *p.1 == self.waiting()
                .first(),
    {
        if self.requests.len() == 0 {
            None
        } else {
            Some((self.time, &self.requests[0]))
        }
    }

    pub fn pop_next_exit(&mut self) -> (r: Option<(u64, Request)>)
        ensures
            final(self).time_spec() == old(self).time_spec(),
            r is None <==> old(self).waiting().len() == 0,
            r is None ==> final(self).waiting() == old(self).waiting(),
            r matches Some(p) ==> {
                &&& p.0 == old(self).time_spec()
                &&& p.1 == old(self).waiting().first()
                &&& final(self).waiting() == old(self).waiting().drop_first()
            },
    {
        if self.requests.len() == 0 {
            None
        } else {
            let r = self.requests.remove(0);
            proof {
                assert(self.requests@ == old(self).waiting().drop_first());
            }
            Some((self.time, r))
        }
    }

    pub fn read_load(&self) -> (r: usize)
        ensures
            r == self.waiting().len(),
    {
        self.requests.len()
    }
}

} // verus!
