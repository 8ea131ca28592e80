use vstd::prelude::*;

verus! {

/// The error taxonomy of the store.
///
/// `KeyNotFound` is an ordinary, expected failure of a lookup.
/// `TransactionAlreadyInProgress` and `NoTransactionInProgress` signal misuse
/// of the transaction state machine. `CorruptData` is returned when a
/// persisted snapshot cannot be decoded; no partial recovery is attempted.
/// `PersistenceError` carries an I/O failure reported by whatever component
/// owns the durable destination; nothing inside this crate constructs it.
/// `LockError` stands for an internal synchronization failure and should be
/// unreachable in correct use.
#[derive(Debug, Clone, PartialEq, Eq)]
pub enum DatabaseError {
    KeyNotFound(String),
    TransactionAlreadyInProgress,
    NoTransactionInProgress,
    CorruptData,
    PersistenceError(String),
    LockError,
}

} // verus!
