//! The database facade: one store, at most one open transaction, and the
//! serialize/deserialize half of persistence. The facade never performs I/O;
//! `save` hands the caller the snapshot text to write and `load` takes the
//! text that was read back.

use vstd::prelude::*;
use crate::assoc::{map_of, lemma_map_of_take_succ};
use crate::codec;
use crate::codec::{encode_entries, decode_entries};
use crate::errors::DatabaseError;
use crate::store::{Store, pair_views};
use crate::strutil::chars_to_string;
use crate::transaction::{Transaction, apply_ops, apply_txn, lemma_apply_ops_take_succ,
    lemma_apply_ops_is_apply_txn};
use crate::value::Value;

verus! {

/// An in-memory key-value store with staged transactions.
///
/// Writes through this type touch only memory; the caller that owns the
/// durable destination calls `save` after each committed mutation and writes
/// what it gets (write-through), and `load` once on startup. A persistence
/// failure after a commit does not roll the in-memory effects back: the
/// caller sees the error and the store keeps the committed state.
pub struct Database {
    store: Store,
    transaction: Option<Transaction>,
}

impl Database {
    /// The well-formedness the operations preserve.
    pub closed spec fn wf(&self) -> bool {
        &&& self.store.wf()
        &&& match self.transaction {
            Some(t) => t.wf(),
            None => true,
        }
    }

    /// The staged transaction, if one is open: each staged key with its
    /// pending payload (a put) or `None` (a delete).
    pub closed spec fn txn(&self) -> Option<Map<Seq<char>, Option<Seq<char>>>> {
        match self.transaction {
            Some(t) => Some(t@),
            None => None,
        }
    }

    /// The entries as persistence will see them, in insertion order.
    pub closed spec fn snapshot_seq(&self) -> Seq<(Seq<char>, Seq<char>)> {
        self.store.entry_views()
    }

    /// Creates an empty database with no transaction open.
    pub fn new() -> (db: Database)
        ensures
            db.wf(),
            db@ == Map::<Seq<char>, Seq<char>>::empty(),
            db.txn() is None,
    {
        Database { store: Store::new(), transaction: None }
    }

    /// Inserts or overwrites the entry for `key`. Always succeeds: overwrite
    /// is allowed.
    pub fn put(&mut self, key: String, value: Value)
        requires
            old(self).wf(),
        ensures
            final(self).wf(),
            final(self)@ == old(self)@.insert(key@, value@),
            final(self).txn() == old(self).txn(),
    {
        self.store.put(key, value);
    }

    /// Returns the current payload for `key`, copied on read, or
    /// `KeyNotFound` exactly when the key is absent.
    pub fn get(&self, key: &str) -> (r: Result<Value, DatabaseError>)
        requires
            self.wf(),
        ensures
            match r {
                Ok(v) => self@.contains_key(key@) && v@ == self@[key@],
                Err(e) => !self@.contains_key(key@) && (e matches DatabaseError::KeyNotFound(k)
                    && k@ == key@),
            },
    {
        match self.store.get(key) {
            Some(v) => Ok(Value { data: v.data.clone() }),
            None => Err(DatabaseError::KeyNotFound(key.to_owned())),
        }
    }

    /// Removes the entry for `key` if present. Deleting an absent key is
    /// accepted and leaves the store as it was (the delete is idempotent);
    /// this is this crate's fixed policy, applied consistently.
    pub fn delete(&mut self, key: &str)
        requires
            old(self).wf(),
        ensures
            final(self).wf(),
            final(self)@ == old(self)@.remove(key@),
            final(self).txn() == old(self).txn(),
    {
        self.store.delete(key);
    }

    /// Opens a transaction, or fails with `TransactionAlreadyInProgress` if
    /// one is already open. Only one transaction may be open at a time.
    pub fn begin_transaction(&mut self) -> (r: Result<(), DatabaseError>)
        requires
            old(self).wf(),
        ensures
            final(self).wf(),
            final(self)@ == old(self)@,
            match old(self).txn() {
                Some(t) => r == Err::<(), DatabaseError>(
                    DatabaseError::TransactionAlreadyInProgress,
                ) && final(self).txn() == old(self).txn(),
                None => r == Ok::<(), DatabaseError>(()) && final(self).txn() == Some(
                    Map::<Seq<char>, Option<Seq<char>>>::empty(),
                ),
            },
    {
        match &self.transaction {
            Some(_) => Err(DatabaseError::TransactionAlreadyInProgress),
            None => {
                self.transaction = Some(Transaction::new());
                Ok(())
            },
        }
    }

    /// Stages a put of `value` under `key` in the open transaction, replacing
    /// any operation already staged for that key. The store itself is not
    /// touched. Fails with `NoTransactionInProgress` if none is open.
    pub fn put_in_transaction(&mut self, key: String, value: Value) -> (r: Result<
        (),
        DatabaseError,
    >)
        requires
            old(self).wf(),
        ensures
            final(self).wf(),
            final(self)@ == old(self)@,
            match old(self).txn() {
                Some(t) => r == Ok::<(), DatabaseError>(()) && final(self).txn() == Some(
                    t.insert(key@, Some(value@)),
                ),
                None => r == Err::<(), DatabaseError>(DatabaseError::NoTransactionInProgress)
                    && final(self).txn() is None,
            },
    {
        match &mut self.transaction {
            Some(t) => {
                t.put(key, value);
                Ok(())
            },
            None => Err(DatabaseError::NoTransactionInProgress),
        }
    }

    /// Stages a delete of `key` in the open transaction, replacing any
    /// operation already staged for that key. Fails with
    /// `NoTransactionInProgress` if none is open.
    pub fn delete_in_transaction(&mut self, key: String) -> (r: Result<(), DatabaseError>)
        requires
            old(self).wf(),
        ensures
            final(self).wf(),
            final(self)@ == old(self)@,
            match old(self).txn() {
                Some(t) => r == Ok::<(), DatabaseError>(()) && final(self).txn() == Some(
                    t.insert(key@, None),
                ),
                None => r == Err::<(), DatabaseError>(DatabaseError::NoTransactionInProgress)
                    && final(self).txn() is None,
            },
    {
        match &mut self.transaction {
            Some(t) => {
                t.delete(key);
                Ok(())
            },
            None => Err(DatabaseError::NoTransactionInProgress),
        }
    }

    /// Applies every staged operation to the store as one unit and closes the
    /// transaction: a staged put inserts its payload, a staged delete removes
    /// its key, every other key is untouched. Fails with
    /// `NoTransactionInProgress` if none is open, leaving everything as it
    /// was. The caller persists the new state afterwards; a persistence
    /// failure does not undo the commit.
    pub fn commit_transaction(&mut self) -> (r: Result<(), DatabaseError>)
        requires
            old(self).wf(),
        ensures
            final(self).wf(),
            match old(self).txn() {
                Some(t) => r == Ok::<(), DatabaseError>(()) && final(self)@ == apply_txn(
                    old(self)@,
                    t,
                ) && final(self).txn() is None,
                None => r == Err::<(), DatabaseError>(DatabaseError::NoTransactionInProgress)
                    && final(self)@ == old(self)@ && final(self).txn() is None,
            },
    {
        let ghost m0 = self.store@;
        match self.transaction.take() {
            None => Err(DatabaseError::NoTransactionInProgress),
            Some(txn) => {
                let ops = txn.operations();
                let ghost opseq = txn.op_seq();
                proof {
                    assert(opseq.take(0) =~= Seq::<(Seq<char>, Option<Seq<char>>)>::empty());
                }
                let mut i: usize = 0;
                while i < ops.len()
                    invariant
                        crate::transaction::op_views(ops@) == opseq,
                        opseq.len() == ops@.len(),
                        i <= ops.len(),
                        self.store.wf(),
                        self.store@ == apply_ops(m0, opseq.take(i as int)),
                        self.transaction is None,
                    decreases ops.len() - i,
                {
                    proof {
                        lemma_apply_ops_take_succ(m0, opseq, i as int);
                    }
                    match &ops[i].1 {
                        Some(v) => {
                            self.store.put(ops[i].0.clone(), Value { data: v.data.clone() });
                        },
                        None => {
                            self.store.delete(ops[i].0.as_str());
                        },
                    }
                    i += 1;
                }
                proof {
                    assert(opseq.take(ops@.len() as int) =~= opseq);
                    lemma_apply_ops_is_apply_txn(m0, opseq);
                }
                Ok(())
            },
        }
    }

    /// Discards the staged operations of the open transaction with no effect
    /// on the store. Fails with `NoTransactionInProgress` if none is open.
    pub fn abandon_transaction(&mut self) -> (r: Result<(), DatabaseError>)
        requires
            old(self).wf(),
        ensures
            final(self).wf(),
            final(self)@ == old(self)@,
            final(self).txn() is None,
            match old(self).txn() {
                Some(t) => r == Ok::<(), DatabaseError>(()),
                None => r == Err::<(), DatabaseError>(DatabaseError::NoTransactionInProgress),
            },
    {
        match self.transaction.take() {
            Some(_) => Ok(()),
            None => Err(DatabaseError::NoTransactionInProgress),
        }
    }

    /// Serializes the full contents for persistence: the complete snapshot
    /// text that replaces any prior durable state.
    pub fn save(&self) -> (out: String)
        requires
            self.wf(),
        ensures
            out@ == encode_entries(self.snapshot_seq()),
            map_of(self.snapshot_seq()) == self@,
    {
        let entries = self.store.snapshot_entries();
        let chars = codec::encode(entries);
        chars_to_string(&chars)
    }

    /// Replaces the contents from a persisted snapshot. Empty text yields the
    /// empty store (a first run is not an error). Text that is not a snapshot
    /// fails with `CorruptData` and leaves the database exactly as it was: no
    /// partially-populated state is ever visible.
    pub fn load(&mut self, contents: &str) -> (r: Result<(), DatabaseError>)
        requires
            old(self).wf(),
        ensures
            final(self).wf(),
            match decode_entries(contents@) {
                Some(es) => r == Ok::<(), DatabaseError>(()) && final(self)@ == map_of(es)
                    && final(self).txn() == old(self).txn(),
                None => r == Err::<(), DatabaseError>(DatabaseError::CorruptData) && *final(self)
                    == *old(self),
            },
    {
        let entries = match codec::decode(contents) {
            Ok(entries) => entries,
            Err(e) => {
                return Err(e);
            },
        };
        let ghost es = pair_views(entries@);
        let mut fresh = Store::new();
        proof {
            assert(es.take(0) =~= Seq::<(Seq<char>, Seq<char>)>::empty());
        }
        let mut i: usize = 0;
        while i < entries.len()
            invariant
                es == pair_views(entries@),
                es.len() == entries@.len(),
                i <= entries.len(),
                fresh.wf(),
                fresh@ == map_of(es.take(i as int)),
            decreases entries.len() - i,
        {
            proof {
                lemma_map_of_take_succ(es, i as int);
            }
            let key = entries[i].0.clone();
            let value = Value { data: entries[i].1.data.clone() };
            fresh.put(key, value);
            i += 1;
        }
        proof {
            assert(es.take(entries@.len() as int) =~= es);
        }
        self.store = fresh;
        Ok(())
    }
}

/// Round trip: the snapshot text `save` produces decodes back, through
/// `load`, to exactly the contents that were saved — for every database, not
/// just those a test happens to build. With `save`'s and `load`'s own
/// contracts this gives: reopening from a saved snapshot yields a store whose
/// every lookup answers as the saved store did.
pub proof fn lemma_save_load_round_trip(db: Database)
    requires
        db.wf(),
    ensures
        decode_entries(encode_entries(db.snapshot_seq())) == Some(db.snapshot_seq()),
        map_of(db.snapshot_seq()) == db@,
{
    codec::lemma_round_trip(db.snapshot_seq());
}

impl View for Database {
    type V = Map<Seq<char>, Seq<char>>;

    closed spec fn view(&self) -> Map<Seq<char>, Seq<char>> {
        self.store@
    }
}

} // verus!
