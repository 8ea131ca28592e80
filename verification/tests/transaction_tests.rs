use nosql_db::{Database, DatabaseError, SharedDatabase, Value};
use std::sync::Arc;

#[test]
fn test_basic_transaction() {
    let mut db = Database::new();

    db.begin_transaction().expect("no transaction should be open yet");
    db.put_in_transaction("key1".to_string(), Value { data: "value1".to_string() })
        .expect("transaction is open");
    db.put_in_transaction("key2".to_string(), Value { data: "value2".to_string() })
        .expect("transaction is open");
    db.commit_transaction().expect("commit should succeed");

    assert_eq!(db.get("key1").unwrap().data, "value1");
    assert_eq!(db.get("key2").unwrap().data, "value2");
}

#[test]
fn transaction_tests_test_concurrent_transactions() {
    // Ten writers, one committed transaction each, through the shared facade.
    let db = Arc::new(SharedDatabase::new());

    for i in 0..10 {
        let db = db.clone();
        db.begin_transaction().expect("no other transaction can be open");
        db.put_in_transaction(format!("key{}", i), Value { data: format!("value{}", i) })
            .expect("transaction is open");
        db.commit_transaction().expect("commit should succeed");
    }

    for i in 0..10 {
        assert_eq!(db.get(&format!("key{}", i)).unwrap().data, format!("value{}", i));
    }
}

#[test]
fn test_begin_twice_fails() {
    let mut db = Database::new();

    db.begin_transaction().expect("no transaction should be open yet");
    assert_eq!(db.begin_transaction(), Err(DatabaseError::TransactionAlreadyInProgress));
}

#[test]
fn test_operations_without_begin_fail() {
    let mut db = Database::new();

    assert_eq!(
        db.put_in_transaction("key1".to_string(), Value { data: "value1".to_string() }),
        Err(DatabaseError::NoTransactionInProgress)
    );
    assert_eq!(
        db.delete_in_transaction("key1".to_string()),
        Err(DatabaseError::NoTransactionInProgress)
    );
    assert_eq!(db.commit_transaction(), Err(DatabaseError::NoTransactionInProgress));
    assert_eq!(db.abandon_transaction(), Err(DatabaseError::NoTransactionInProgress));
}

#[test]
fn test_transaction_atomic_batch() {
    let mut db = Database::new();

    db.begin_transaction().unwrap();
    db.put_in_transaction("a".to_string(), Value { data: "1".to_string() }).unwrap();
    db.put_in_transaction("b".to_string(), Value { data: "2".to_string() }).unwrap();
    db.delete_in_transaction("a".to_string()).unwrap();

    // Nothing staged is visible before the commit.
    assert!(db.get("a").is_err());
    assert!(db.get("b").is_err());

    db.commit_transaction().unwrap();

    // Only the fully-applied state is observable: `a` absent, `b` = 2.
    assert!(db.get("a").is_err());
    assert_eq!(db.get("b").unwrap().data, "2");
}

#[test]
fn test_transaction_last_write_wins() {
    let mut db = Database::new();

    db.begin_transaction().unwrap();
    db.put_in_transaction("k".to_string(), Value { data: "1".to_string() }).unwrap();
    db.put_in_transaction("k".to_string(), Value { data: "2".to_string() }).unwrap();
    db.commit_transaction().unwrap();

    assert_eq!(db.get("k").unwrap().data, "2");
}

#[test]
fn test_abandon_discards_staged_operations() {
    let mut db = Database::new();

    db.put("kept".to_string(), Value { data: "before".to_string() });
    db.begin_transaction().unwrap();
    db.put_in_transaction("kept".to_string(), Value { data: "after".to_string() }).unwrap();
    db.put_in_transaction("new".to_string(), Value { data: "x".to_string() }).unwrap();
    db.abandon_transaction().unwrap();

    assert_eq!(db.get("kept").unwrap().data, "before");
    assert!(db.get("new").is_err());
    // The store accepts a fresh transaction afterwards.
    db.begin_transaction().unwrap();
    db.commit_transaction().unwrap();
}

#[test]
fn test_staged_transaction_type() {
    let mut txn = nosql_db::Transaction::new();
    txn.put("a".to_string(), Value { data: "1".to_string() });
    txn.put("b".to_string(), Value { data: "2".to_string() });
    txn.put("a".to_string(), Value { data: "3".to_string() });
    txn.delete("b".to_string());

    let ops = txn.operations();
    assert_eq!(ops.len(), 2);
    let a = ops.iter().find(|e| e.0 == "a").expect("operation for a staged");
    assert_eq!(a.1.as_ref().unwrap().data, "3");
    let b = ops.iter().find(|e| e.0 == "b").expect("operation for b staged");
    assert!(b.1.is_none());
}
