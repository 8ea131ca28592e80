//! An optional write-coalescing buffer, separate from the transactional
//! path: pending writes accumulate keyed (a later write to a key replaces an
//! earlier one) until the caller drains them as one batch. The buffer is
//! unbounded; draining never blocks. Sending a drained batch onward — over a
//! channel to a background task, say — is the caller's business: this type
//! only decides what the batch holds.

use vstd::prelude::*;
use crate::assoc::{map_of, distinct_keys};
use crate::transaction::{op_views, opt_view, stage};
use crate::value::Value;

verus! {

/// Pending writes awaiting a flush: each key with either a payload to put or
/// `None` for a delete.
pub struct WriteCache {
    pending_writes: Vec<(String, Option<Value>)>,
}

impl WriteCache {
    /// The pending writes as they stand, in arrival order.
    pub closed spec fn op_seq(&self) -> Seq<(Seq<char>, Option<Seq<char>>)> {
        op_views(self.pending_writes@)
    }

    /// At most one pending write per key.
    pub open spec fn wf(&self) -> bool {
        distinct_keys(self.op_seq())
    }

    /// Creates an empty cache.
    pub fn new() -> (c: WriteCache)
        ensures
            c.wf(),
            c@ == Map::<Seq<char>, Option<Seq<char>>>::empty(),
    {
        let c = WriteCache { pending_writes: Vec::new() };
        proof {
            assert(c.op_seq() =~= Seq::<(Seq<char>, Option<Seq<char>>)>::empty());
        }
        c
    }

    /// Records a pending write: a payload to put, or `None` for a delete.
    /// A write already pending for the same key is replaced.
    pub fn add(&mut self, key: String, value: Option<Value>)
        requires
            old(self).wf(),
        ensures
            final(self).wf(),
            final(self)@ == old(self)@.insert(key@, opt_view(value)),
    {
        stage(&mut self.pending_writes, key, value);
    }

    /// Drains every pending write and hands them back as one batch, leaving
    /// the cache empty. The caller applies or forwards the batch.
    pub fn flush(&mut self) -> (batch: Vec<(String, Option<Value>)>)
        requires
            old(self).wf(),
        ensures
            final(self).wf(),
            final(self)@ == Map::<Seq<char>, Option<Seq<char>>>::empty(),
            op_views(batch@) == old(self).op_seq(),
            map_of(op_views(batch@)) == old(self)@,
    {
        let mut batch: Vec<(String, Option<Value>)> = Vec::new();
        std::mem::swap(&mut batch, &mut self.pending_writes);
        proof {
            assert(self.op_seq() =~= Seq::<(Seq<char>, Option<Seq<char>>)>::empty());
        }
        batch
    }
}

impl View for WriteCache {
    type V = Map<Seq<char>, Option<Seq<char>>>;

    open spec fn view(&self) -> Map<Seq<char>, Option<Seq<char>>> {
        map_of(self.op_seq())
    }
}

} // verus!
