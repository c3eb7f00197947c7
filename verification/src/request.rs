//! The value record that flows through the network.
//!
//! A request carries a unique identifier, a content key naming the catalogue
//! item it refers to, and an ordered log of the transitions it has made.
//! Stations never alter a request except by appending log entries.

use vstd::prelude::*;

verus! {

/// One hop in a request's history: the simulated time of the transition,
/// the station it left and the station it was sent to.
#[derive(Clone, Copy, PartialEq, Eq, Structural, Debug)]
pub struct LogEntry {
    pub time: u64,
    pub origin: usize,
    pub destination: usize,
}

/// A request owned by exactly one station at a time.
#[derive(Clone, Debug)]
pub struct Request {
    id: u64,
    content: u64,
    log: Vec<LogEntry>,
}

impl Request {
    /// The complete history of the request as specification data.
    pub closed spec fn log_view(&self) -> Seq<LogEntry> {
        self.log@
    }

    pub closed spec fn id_spec(&self) -> u64 {
        self.id
    }

    pub closed spec fn content_spec(&self) -> u64 {
        self.content
    }

    pub fn new(id: u64, content: u64) -> (r: Request)
        ensures
            r.id_spec() == id,
            r.content_spec() == content,
            r.log_view() == Seq::<LogEntry>::empty(),
    {
        Request { id, content, log: Vec::new() }
    }

    pub fn get_id(&self) -> (r: u64)
        ensures
            r == self.id_spec(),
    {
        self.id
    }

    pub fn get_content(&self) -> (r: u64)
        ensures
            r == self.content_spec(),
    {
        self.content
    }

    /// `post` is `pre` after exactly one more transition record: identifier
    /// and content key untouched, the hop appended to the log. Contracts
    /// that follow a request through a hop speak in this relation.
    pub open spec fn is_hop_of(
        post: Request,
        pre: Request,
        time: u64,
        origin: usize,
        destination: usize,
    ) -> bool {
        &&& post.id_spec() == pre.id_spec()
        &&& post.content_spec() == pre.content_spec()
        &&& post.log_view() == pre.log_view().push(LogEntry { time, origin, destination })
    }

    /// Appends one transition record; the identifier, the content key and all
    /// earlier entries are untouched.
    pub fn add_log_entry(&mut self, time: u64, origin: usize, destination: usize)
        ensures
            Request::is_hop_of(*final(self), *old(self), time, origin, destination),
            final(self).id_spec() == old(self).id_spec(),
            final(self).content_spec() == old(self).content_spec(),
            final(self).log_view() == old(self).log_view().push(
                LogEntry { time, origin, destination },
            ),
    {
        self.log.push(LogEntry { time, origin, destination });
    }

    pub fn get_log(&self) -> (r: Vec<LogEntry>)
        ensures
            r@ == self.log_view(),
    {
        self.log.clone()
    }

    pub fn log_len(&self) -> (r: usize)
        ensures
            r == self.log_view().len(),
    {
        self.log.len()
    }

    /// Time elapsed between the first and the last logged transition;
    /// zero while the request has made at most one hop.
    pub fn get_current_lifetime(&self) -> (r: u64)
        ensures
            self.log_view().len() <= 1 ==> r == 0,
            self.log_view().len() > 1 ==> r == time_saturating_sub(
                self.log_view().last().time,
                self.log_view().first().time,
            ),
    {
        if self.log.len() <= 1 {
            0
        } else {
            let last = self.log[self.log.len() - 1].time;
            let first = self.log[0].time;
            if last >= first {
                last - first
            } else {
                0
            }
        }
    }
}

/// Difference of two instants, clamped at zero if they are out of order.
pub open spec fn time_saturating_sub(a: u64, b: u64) -> u64 {
    if a >= b {
        (a - b) as u64
    } else {
        0
    }
}

} // verus!
