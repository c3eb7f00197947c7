//! Terminal logger station: accepts completed requests and never emits.
//! It only buffers here; the surrounding binary drains the buffer and writes
//! it to durable storage, which is outside the verified library.

use vstd::prelude::*;

verus! {

use crate::request::Request;

pub struct FileLogger {
    buffer: Vec<Request>,
    buffer_size: usize,
}

impl FileLogger {
    /// Completed requests in arrival order, waiting to be drained.
    pub closed spec fn buffered(&self) -> Seq<Request> {
        self.buffer@
    }

    /// The batch size at which the surrounding binary is expected to drain.
    pub closed spec fn batch_spec(&self) -> usize {
        self.buffer_size
    }

    pub fn new(buffer_size: usize) -> (r: FileLogger)
        ensures
            r.buffered() == Seq::<Request>::empty(),
            r.batch_spec() == buffer_size,
    {
        FileLogger { buffer: Vec::new(), buffer_size }
    }

    pub fn arrival(&mut self, req: Request)
        ensures
            final(self).buffered() == old(self).buffered().push(req),
            final(self).batch_spec() == old(self).batch_spec(),
    {
        self.buffer.push(req);
    }

    /// True once a full batch is buffered and a drain is due.
    pub fn drain_due(&self) -> (r: bool)
        ensures
            r == (self.buffered().len() >= self.batch_spec()),
    {
        self.buffer.len() >= self.buffer_size
    }

    /// Hands the whole buffer to the caller, leaving it empty.
    pub fn drain(&mut self) -> (r: Vec<Request>)
        ensures
            r@ == old(self).buffered(),
            final(self).buffered() == Seq::<Request>::empty(),
            final(self).batch_spec() == old(self).batch_spec(),
    {
        let mut out: Vec<Request> = Vec::new();
        core::mem::swap(&mut out, &mut self.buffer);
        out
    }

    pub fn read_load(&self) -> (r: usize)
        ensures
            r == self.buffered().len(),
    {
        self.buffer.len()
    }
}

} // verus!
