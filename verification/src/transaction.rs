//! The transaction stager: records a batch of intended mutations (put or
//! delete) without touching the store, so they can later be applied as one
//! unit. Recording a second operation for a key replaces the first: within
//! one transaction only the last operation per key takes effect.

use vstd::prelude::*;
use crate::assoc::{map_of, distinct_keys, lemma_map_of_absent, lemma_map_of_remove,
    lemma_map_of_push};
use crate::strutil::str_eq;
use crate::value::Value;

verus! {

/// The view of one staged payload: a put carries the new payload, a delete
/// carries nothing.
pub open spec fn opt_view(v: Option<Value>) -> Option<Seq<char>> {
    match v {
        Some(v) => Some(v@),
        None => None,
    }
}

/// The views of a sequence of staged operations.
pub open spec fn op_views(es: Seq<(String, Option<Value>)>) -> Seq<
    (Seq<char>, Option<Seq<char>>),
> {
    Seq::new(es.len(), |i: int| (es[i].0@, opt_view(es[i].1)))
}

/// One operation applied to a store state: a put inserts, a delete removes.
pub open spec fn apply_op(
    m: Map<Seq<char>, Seq<char>>,
    k: Seq<char>,
    v: Option<Seq<char>>,
) -> Map<Seq<char>, Seq<char>> {
    match v {
        Some(v) => m.insert(k, v),
        None => m.remove(k),
    }
}

/// A sequence of operations applied in order, first to last.
pub open spec fn apply_ops(
    m: Map<Seq<char>, Seq<char>>,
    ops: Seq<(Seq<char>, Option<Seq<char>>)>,
) -> Map<Seq<char>, Seq<char>>
    decreases ops.len(),
{
    if ops.len() == 0 {
        m
    } else {
        apply_op(apply_ops(m, ops.drop_last()), ops.last().0, ops.last().1)
    }
}

/// A whole staged batch applied at once: a key staged as a put takes its new
/// payload, a key staged as a delete disappears, every other key keeps the
/// payload the store already had.
pub open spec fn apply_txn(
    m: Map<Seq<char>, Seq<char>>,
    t: Map<Seq<char>, Option<Seq<char>>>,
) -> Map<Seq<char>, Seq<char>> {
    Map::new(
        |k: Seq<char>|
            if t.contains_key(k) {
                t[k] is Some
            } else {
                m.contains_key(k)
            },
        |k: Seq<char>|
            if t.contains_key(k) {
                t[k]->0
            } else {
                m[k]
            },
    )
}

/// Applying staged operations one at a time, in order, reaches exactly the
/// state of applying the staged batch at once.
pub proof fn lemma_apply_ops_is_apply_txn(
    m: Map<Seq<char>, Seq<char>>,
    ops: Seq<(Seq<char>, Option<Seq<char>>)>,
)
    ensures
        apply_ops(m, ops) == apply_txn(m, map_of(ops)),
    decreases ops.len(),
{
    if ops.len() == 0 {
        assert(apply_txn(m, map_of(ops)) =~= m);
    } else {
        let dl = ops.drop_last();
        let k = ops.last().0;
        let v = ops.last().1;
        lemma_apply_ops_is_apply_txn(m, dl);
        assert(apply_op(apply_txn(m, map_of(dl)), k, v) =~= apply_txn(m, map_of(dl).insert(k, v)));
    }
}

/// A one-longer prefix of operations extends the reached state by one step.
pub proof fn lemma_apply_ops_take_succ(
    m: Map<Seq<char>, Seq<char>>,
    ops: Seq<(Seq<char>, Option<Seq<char>>)>,
    i: int,
)
    requires
        0 <= i < ops.len(),
    ensures
        apply_ops(m, ops.take(i + 1)) == apply_op(apply_ops(m, ops.take(i)), ops[i].0, ops[i].1),
{
    assert(ops.take(i + 1).drop_last() =~= ops.take(i));
    assert(ops.take(i + 1).last() == ops[i]);
}

/// Records `value` under `key` in a batch of staged operations, replacing any
/// operation already staged for that key.
pub(crate) fn stage(entries: &mut Vec<(String, Option<Value>)>, key: String, value: Option<Value>)
    requires
        distinct_keys(op_views(old(entries)@)),
    ensures
        distinct_keys(op_views(final(entries)@)),
        map_of(op_views(final(entries)@)) == map_of(op_views(old(entries)@)).insert(
            key@,
            opt_view(value),
        ),
{
    let ghost pre = op_views(entries@);
    let mut i: usize = 0;
    let mut found: Option<usize> = None;
    while i < entries.len()
        invariant
            i <= entries.len(),
            op_views(entries@) == pre,
            match found {
                Some(f) => f < pre.len() && pre[f as int].0 == key@,
                None => forall|j: int| 0 <= j < i ==> pre[j].0 != key@,
            },
        decreases entries.len() - i,
    {
        if found.is_none() && str_eq(entries[i].0.as_str(), key.as_str()) {
            found = Some(i);
        }
        i += 1;
    }
    match found {
        Some(f) => {
            proof {
                lemma_map_of_remove(pre, f as int);
            }
            entries.remove(f);
            proof {
                assert(op_views(entries@) =~= pre.remove(f as int));
                assert forall|j: int| 0 <= j < op_views(entries@).len()
                    implies op_views(entries@)[j].0 != key@ by {
                    let j0: int = if j < f { j } else { j + 1 };
                    assert(op_views(entries@)[j] == pre[j0]);
                    assert(distinct_keys(pre));
                }
                assert forall|a: int, b: int|
                    0 <= a < b < op_views(entries@).len()
                    implies op_views(entries@)[a].0 != op_views(entries@)[b].0 by {
                    let a0: int = if a < f { a } else { a + 1 };
                    let b0: int = if b < f { b } else { b + 1 };
                    assert(op_views(entries@)[a] == pre[a0]);
                    assert(op_views(entries@)[b] == pre[b0]);
                }
            }
        },
        None => {},
    }
    let ghost mid = op_views(entries@);
    proof {
        assert(distinct_keys(mid));
        assert(forall|j: int| 0 <= j < mid.len() ==> mid[j].0 != key@);
        lemma_map_of_absent(mid, key@);
        assert(map_of(mid) =~= map_of(pre).remove(key@));
        lemma_map_of_push(mid, key@, opt_view(value));
    }
    entries.push((key, value));
    proof {
        assert(op_views(entries@) =~= mid.push((key@, opt_view(value))));
        assert forall|a: int, b: int|
            0 <= a < b < op_views(entries@).len()
            implies op_views(entries@)[a].0 != op_views(entries@)[b].0 by {
            assert(op_views(entries@)[a] == mid.push((key@, opt_view(value)))[a]);
            assert(op_views(entries@)[b] == mid.push((key@, opt_view(value)))[b]);
        }
        assert(map_of(op_views(entries@)) =~= map_of(pre).insert(key@, opt_view(value)));
    }
}

/// A batch of staged mutations, not yet visible to readers of any store. It
/// has no effect until committed, and no effect at all if abandoned instead.
#[derive(Clone)]
pub struct Transaction {
    operations: Vec<(String, Option<Value>)>,
}

impl Transaction {
    /// The staged operations as they stand, in staging order.
    pub closed spec fn op_seq(&self) -> Seq<(Seq<char>, Option<Seq<char>>)> {
        op_views(self.operations@)
    }

    /// At most one staged operation per key.
    pub open spec fn wf(&self) -> bool {
        distinct_keys(self.op_seq())
    }

    /// Opens an empty transaction: nothing staged.
    pub fn new() -> (t: Transaction)
        ensures
            t.wf(),
            t@ == Map::<Seq<char>, Option<Seq<char>>>::empty(),
            t.op_seq() == Seq::<(Seq<char>, Option<Seq<char>>)>::empty(),
    {
        let t = Transaction { operations: Vec::new() };
        proof {
            assert(t.op_seq() =~= Seq::<(Seq<char>, Option<Seq<char>>)>::empty());
        }
        t
    }

    /// Stages a put of `value` under `key`, replacing any operation already
    /// staged for that key (last write wins).
    pub fn put(&mut self, key: String, value: Value)
        requires
            old(self).wf(),
        ensures
            final(self).wf(),
            final(self)@ == old(self)@.insert(key@, Some(value@)),
    {
        stage(&mut self.operations, key, Some(value));
    }

    /// Stages a delete of `key`, replacing any operation already staged for
    /// that key (last write wins).
    pub fn delete(&mut self, key: String)
        requires
            old(self).wf(),
        ensures
            final(self).wf(),
            final(self)@ == old(self)@.insert(key@, None),
    {
        stage(&mut self.operations, key, None);
    }

    /// The staged operations: each key with either its new payload (a put) or
    /// `None` (a delete).
    pub fn operations(&self) -> (r: &Vec<(String, Option<Value>)>)
        ensures
            op_views(r@) == self.op_seq(),
    {
        &self.operations
    }
}

impl View for Transaction {
    type V = Map<Seq<char>, Option<Seq<char>>>;

    open spec fn view(&self) -> Map<Seq<char>, Option<Seq<char>>> {
        map_of(self.op_seq())
    }
}

} // verus!
