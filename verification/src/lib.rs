//! An embedded, single-process key-value store: an in-memory mapping from
//! string keys to string-valued payloads, with staged multi-operation
//! transactions and a durable snapshot format.
//!
//! The store itself never performs I/O: `Database::save` produces the
//! snapshot text and `Database::load` consumes one, so a caller owns the
//! actual destination (a file, typically) and hands the text back and forth.
//! For concurrent callers, `SharedDatabase` wraps a `Database` in a verified
//! reader-writer lock and hands each mutation's snapshot out of its critical
//! section.

pub mod assoc;
pub mod codec;
pub mod database;
pub mod errors;
pub mod laws;
pub mod shared;
pub mod store;
pub mod strutil;
pub mod transaction;
pub mod value;
pub mod write_cache;

pub use database::Database;
pub use errors::DatabaseError;
pub use shared::SharedDatabase;
pub use store::Store;
pub use transaction::Transaction;
pub use value::Value;
pub use write_cache::WriteCache;
