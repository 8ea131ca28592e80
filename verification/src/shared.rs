//! A database safe to share between concurrent callers, built on vstd's
//! verified reader-writer lock: reads proceed concurrently, writes exclude
//! each other, and the lock's invariant keeps every state it guards
//! well-formed. Each mutator also produces the snapshot text of the state it
//! made, from inside its exclusive critical section, so the caller can write
//! it through to the durable destination: the text never shows a torn state
//! and never omits a write that completed before it was taken.

use vstd::prelude::*;
use vstd::rwlock::{RwLock, RwLockPredicate};
use crate::assoc::map_of;
use crate::codec::encode_entries;
use crate::database::Database;
use crate::errors::DatabaseError;
use crate::value::Value;

verus! {

/// The invariant every state behind the lock satisfies.
pub struct WellFormedDb;

impl RwLockPredicate<Database> for WellFormedDb {
    open spec fn inv(self, db: Database) -> bool {
        db.wf()
    }
}

/// Whether `snapshot` is the encoding of some contents with `key` carrying
/// `value`.
pub open spec fn snapshot_has(snapshot: Seq<char>, key: Seq<char>, value: Seq<char>) -> bool {
    exists|es: Seq<(Seq<char>, Seq<char>)>|
        snapshot == encode_entries(es) && map_of(es).contains_key(key) && map_of(es)[key] == value
}

/// Whether `snapshot` is the encoding of some contents without `key`.
pub open spec fn snapshot_lacks(snapshot: Seq<char>, key: Seq<char>) -> bool {
    exists|es: Seq<(Seq<char>, Seq<char>)>|
        snapshot == encode_entries(es) && !map_of(es).contains_key(key)
}

/// Whether `snapshot` is the encoding of some contents at all.
pub open spec fn snapshot_wf(snapshot: Seq<char>) -> bool {
    exists|es: Seq<(Seq<char>, Seq<char>)>| snapshot == encode_entries(es)
}

/// One database shared by many callers. All operations take `&self` and are
/// safe to call concurrently without outside synchronization.
pub struct SharedDatabase {
    lock: RwLock<Database, WellFormedDb>,
}

impl SharedDatabase {
    /// Creates an empty shared database with no transaction open.
    pub fn new() -> SharedDatabase {
        SharedDatabase { lock: RwLock::new(Database::new(), Ghost(WellFormedDb)) }
    }

    /// Takes ownership of an already-loaded database, to share from then on.
    pub fn from_database(db: Database) -> SharedDatabase
        requires
            db.wf(),
    {
        SharedDatabase { lock: RwLock::new(db, Ghost(WellFormedDb)) }
    }

    /// Builds a shared database from a persisted snapshot. Empty text yields
    /// the empty store (a first run is not an error); text that is not a
    /// snapshot fails with `CorruptData`, and only such text does.
    pub fn open_from_text(contents: &str) -> (r: Result<SharedDatabase, DatabaseError>)
        ensures
            r is Ok <==> crate::codec::decode_entries(contents@) is Some,
            r matches Err(e) ==> e == DatabaseError::CorruptData,
    {
        let mut db = Database::new();
        match db.load(contents) {
            Ok(_) => Ok(SharedDatabase::from_database(db)),
            Err(e) => Err(e),
        }
    }

    /// Inserts or overwrites the entry for `key` and returns the snapshot of
    /// the state this write made, for the caller to persist: it provably
    /// encodes contents in which `key` carries `value`. Once this call
    /// returns, any caller's lookup of `key` observes the write (until some
    /// other write to `key` lands); a lookup never observes it before this
    /// write completed.
    pub fn put(&self, key: String, value: Value) -> (snapshot: String)
        ensures
            snapshot_has(snapshot@, key@, value@),
    {
        let (mut db, handle) = self.lock.acquire_write();
        let ghost k = key@;
        let ghost v = value@;
        db.put(key, value);
        let snapshot = db.save();
        proof {
            let es = db.snapshot_seq();
            assert(snapshot@ == encode_entries(es) && map_of(es).contains_key(k) && map_of(es)[k]
                == v);
        }
        handle.release_write(db);
        snapshot
    }

    /// Returns the payload `key` carried in the state this lookup observed,
    /// or `KeyNotFound` exactly when that state lacked the key. The state is
    /// one that some prefix of the completed writes produced, never a torn
    /// one.
    pub fn get(&self, key: &str) -> (r: Result<Value, DatabaseError>)
        ensures
            r matches Err(e) ==> e matches DatabaseError::KeyNotFound(k) && k@ == key@,
    {
        let read_handle = self.lock.acquire_read();
        let result = read_handle.borrow().get(key);
        read_handle.release_read();
        result
    }

    /// Removes the entry for `key` if present (idempotent) and returns the
    /// snapshot of the resulting state, which provably lacks `key`.
    pub fn delete(&self, key: &str) -> (snapshot: String)
        ensures
            snapshot_lacks(snapshot@, key@),
    {
        let (mut db, handle) = self.lock.acquire_write();
        db.delete(key);
        let snapshot = db.save();
        proof {
            let es = db.snapshot_seq();
            assert(snapshot@ == encode_entries(es) && !map_of(es).contains_key(key@));
        }
        handle.release_write(db);
        snapshot
    }

    /// Opens a transaction; `begin` on a store whose transaction slot is
    /// taken fails with `TransactionAlreadyInProgress`. The check and the
    /// set are one atomic step: the slot is read and filled under the same
    /// exclusive hold, so two concurrent `begin`s cannot both succeed.
    pub fn begin_transaction(&self) -> (r: Result<(), DatabaseError>)
        ensures
            r matches Err(e) ==> e == DatabaseError::TransactionAlreadyInProgress,
    {
        let (mut db, handle) = self.lock.acquire_write();
        let result = db.begin_transaction();
        handle.release_write(db);
        result
    }

    /// Stages a put in the open transaction; the store itself is untouched,
    /// so no concurrent reader sees the staged value. Fails with
    /// `NoTransactionInProgress` if no transaction is open.
    pub fn put_in_transaction(&self, key: String, value: Value) -> (r: Result<(), DatabaseError>)
        ensures
            r matches Err(e) ==> e == DatabaseError::NoTransactionInProgress,
    {
        let (mut db, handle) = self.lock.acquire_write();
        let result = db.put_in_transaction(key, value);
        handle.release_write(db);
        result
    }

    /// Stages a delete in the open transaction. Fails with
    /// `NoTransactionInProgress` if no transaction is open.
    pub fn delete_in_transaction(&self, key: String) -> (r: Result<(), DatabaseError>)
        ensures
            r matches Err(e) ==> e == DatabaseError::NoTransactionInProgress,
    {
        let (mut db, handle) = self.lock.acquire_write();
        let result = db.delete_in_transaction(key);
        handle.release_write(db);
        result
    }

    /// Applies the staged batch and returns the snapshot of the committed
    /// state. The whole batch is applied under one exclusive hold of the
    /// lock, so a concurrent reader observes either none of the staged
    /// operations or all of them, never a subset. Fails with
    /// `NoTransactionInProgress` if no transaction is open.
    pub fn commit_transaction(&self) -> (r: Result<String, DatabaseError>)
        ensures
            match r {
                Ok(snapshot) => snapshot_wf(snapshot@),
                Err(e) => e == DatabaseError::NoTransactionInProgress,
            },
    {
        let (mut db, handle) = self.lock.acquire_write();
        let result = db.commit_transaction();
        match result {
            Ok(_) => {
                let snapshot = db.save();
                proof {
                    let es = db.snapshot_seq();
                    assert(snapshot@ == encode_entries(es));
                }
                handle.release_write(db);
                Ok(snapshot)
            },
            Err(e) => {
                handle.release_write(db);
                Err(e)
            },
        }
    }

    /// Discards the staged operations of the open transaction. Fails with
    /// `NoTransactionInProgress` if no transaction is open.
    pub fn abandon_transaction(&self) -> (r: Result<(), DatabaseError>)
        ensures
            r matches Err(e) ==> e == DatabaseError::NoTransactionInProgress,
    {
        let (mut db, handle) = self.lock.acquire_write();
        let result = db.abandon_transaction();
        handle.release_write(db);
        result
    }

    /// The snapshot of the current state, for an explicit flush: it includes
    /// every write that completed before this call began, and no torn state.
    pub fn save(&self) -> (snapshot: String)
        ensures
            snapshot_wf(snapshot@),
    {
        let read_handle = self.lock.acquire_read();
        let snapshot = read_handle.borrow().save();
        proof {
            let es = read_handle.view().snapshot_seq();
            assert(snapshot@ == encode_entries(es));
        }
        read_handle.release_read();
        snapshot
    }
}

} // verus!
