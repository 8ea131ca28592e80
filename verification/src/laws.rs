//! The store's laws, stated over the operation semantics that the executable
//! contracts use, and proved for every input.

use vstd::prelude::*;
use crate::assoc::distinct_keys;
use crate::transaction::{apply_ops, apply_txn};

verus! {

/// A run of operations that never touches a key leaves that key exactly as
/// it was: present with the same payload, or absent.
pub proof fn lemma_untouched_key(
    m: Map<Seq<char>, Seq<char>>,
    k: Seq<char>,
    t: Seq<(Seq<char>, Option<Seq<char>>)>,
)
    requires
        forall|j: int| 0 <= j < t.len() ==> t[j].0 != k,
    ensures
        apply_ops(m, t).contains_key(k) == m.contains_key(k),
        m.contains_key(k) ==> apply_ops(m, t)[k] == m[k],
    decreases t.len(),
{
    if t.len() > 0 {
        lemma_untouched_key(m, k, t.drop_last());
        assert(t[t.len() - 1].0 != k);
    }
}

/// After a put of `v` under `k`, any later operations that never touch `k`
/// leave a lookup of `k` returning exactly `v`: the last value written.
pub proof fn lemma_put_then_get(
    m: Map<Seq<char>, Seq<char>>,
    k: Seq<char>,
    v: Seq<char>,
    t: Seq<(Seq<char>, Option<Seq<char>>)>,
)
    requires
        forall|j: int| 0 <= j < t.len() ==> t[j].0 != k,
    ensures
        apply_ops(m.insert(k, v), t).contains_key(k),
        apply_ops(m.insert(k, v), t)[k] == v,
{
    lemma_untouched_key(m.insert(k, v), k, t);
}

/// A key never written stays absent: operations that never touch it cannot
/// make a lookup of it succeed.
pub proof fn lemma_never_written_not_found(
    m: Map<Seq<char>, Seq<char>>,
    k: Seq<char>,
    t: Seq<(Seq<char>, Option<Seq<char>>)>,
)
    requires
        !m.contains_key(k),
        forall|j: int| 0 <= j < t.len() ==> t[j].0 != k,
    ensures
        !apply_ops(m, t).contains_key(k),
{
    lemma_untouched_key(m, k, t);
}

/// A key written then deleted stays absent through any later operations that
/// never touch it: a lookup of it fails.
pub proof fn lemma_deleted_not_found(
    m: Map<Seq<char>, Seq<char>>,
    k: Seq<char>,
    t: Seq<(Seq<char>, Option<Seq<char>>)>,
)
    requires
        forall|j: int| 0 <= j < t.len() ==> t[j].0 != k,
    ensures
        !apply_ops(m.remove(k), t).contains_key(k),
{
    lemma_untouched_key(m.remove(k), k, t);
}

/// What one committed batch does to each key, the whole batch at once: a key
/// staged as a put carries its staged payload, a key staged as a delete is
/// absent, and a key the batch does not touch is exactly as the store had it.
pub proof fn lemma_commit_effects(
    m: Map<Seq<char>, Seq<char>>,
    t: Map<Seq<char>, Option<Seq<char>>>,
    k: Seq<char>,
)
    ensures
        t.contains_key(k) && t[k] is Some ==> apply_txn(m, t).contains_key(k) && apply_txn(m, t)[k]
            == t[k]->0,
        t.contains_key(k) && t[k] is None ==> !apply_txn(m, t).contains_key(k),
        !t.contains_key(k) ==> apply_txn(m, t).contains_key(k) == m.contains_key(k) && (
        m.contains_key(k) ==> apply_txn(m, t)[k] == m[k]),
{
}

/// Within one open transaction the last staged write for a key wins: staging
/// a put of `v1` and then a put of `v2` under the same key commits exactly as
/// staging only the put of `v2`.
pub proof fn lemma_stage_last_write_wins(
    m: Map<Seq<char>, Seq<char>>,
    t: Map<Seq<char>, Option<Seq<char>>>,
    k: Seq<char>,
    v1: Seq<char>,
    v2: Seq<char>,
)
    ensures
        apply_txn(m, t.insert(k, Some(v1)).insert(k, Some(v2))) == apply_txn(
            m,
            t.insert(k, Some(v2)),
        ),
        apply_txn(m, t.insert(k, Some(v2)))[k] == v2,
{
    assert(t.insert(k, Some(v1)).insert(k, Some(v2)) =~= t.insert(k, Some(v2)));
}

/// The puts of a batch of writers, one put each.
pub open spec fn puts_of(ps: Seq<(Seq<char>, Seq<char>)>) -> Seq<
    (Seq<char>, Option<Seq<char>>),
> {
    Seq::new(ps.len(), |i: int| (ps[i].0, Some(ps[i].1)))
}

/// Writers that put distinct keys lose no update, whatever order their puts
/// reach the store in: afterwards every writer's key carries exactly the
/// value that writer put. Any interleaving of one-put writers applies their
/// puts in some order, and this holds of every order.
pub proof fn lemma_distinct_puts_all_present(
    m: Map<Seq<char>, Seq<char>>,
    ps: Seq<(Seq<char>, Seq<char>)>,
    i: int,
)
    requires
        distinct_keys(puts_of(ps)),
        0 <= i < ps.len(),
    ensures
        apply_ops(m, puts_of(ps)).contains_key(ps[i].0),
        apply_ops(m, puts_of(ps))[ps[i].0] == ps[i].1,
    decreases ps.len(),
{
    let ops = puts_of(ps);
    if i == ps.len() - 1 {
        assert(ops.last() == (ps[i].0, Some(ps[i].1)));
    } else {
        let dl = ps.drop_last();
        assert(puts_of(dl) =~= ops.drop_last());
        assert forall|a: int, b: int|
            0 <= a < b < puts_of(dl).len()
            implies puts_of(dl)[a].0 != puts_of(dl)[b].0 by {
            assert(ops[a].0 == puts_of(dl)[a].0);
            assert(ops[b].0 == puts_of(dl)[b].0);
        }
        lemma_distinct_puts_all_present(m, dl, i);
        assert(dl[i] == ps[i]);
        assert(ops[i].0 != ops[ps.len() - 1].0);
        assert(ops.last() == (ps[ps.len() - 1].0, Some(ps[ps.len() - 1].1)));
    }
}

} // verus!
