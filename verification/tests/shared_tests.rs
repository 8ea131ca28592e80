use nosql_db::{Database, DatabaseError, SharedDatabase, Value};

#[test]
fn test_shared_put_get_delete() {
    let db = SharedDatabase::new();

    let snapshot = db.put("key1".to_string(), Value { data: "value1".to_string() });
    assert!(snapshot.contains("key1"));
    assert!(snapshot.contains("value1"));
    assert_eq!(db.get("key1").unwrap().data, "value1");

    let snapshot = db.delete("key1");
    assert!(!snapshot.contains("key1"));
    match db.get("key1") {
        Err(DatabaseError::KeyNotFound(k)) => assert_eq!(k, "key1"),
        _ => panic!("Expected KeyNotFound error"),
    }
}

#[test]
fn test_shared_transaction_protocol() {
    let db = SharedDatabase::new();

    assert_eq!(db.commit_transaction(), Err(DatabaseError::NoTransactionInProgress));
    db.begin_transaction().unwrap();
    assert_eq!(db.begin_transaction(), Err(DatabaseError::TransactionAlreadyInProgress));

    db.put_in_transaction("a".to_string(), Value { data: "1".to_string() }).unwrap();
    db.put_in_transaction("b".to_string(), Value { data: "2".to_string() }).unwrap();
    db.delete_in_transaction("a".to_string()).unwrap();

    // Staged operations are not visible before the commit.
    assert!(db.get("a").is_err());
    assert!(db.get("b").is_err());

    let snapshot = db.commit_transaction().unwrap();
    assert!(db.get("a").is_err());
    assert_eq!(db.get("b").unwrap().data, "2");

    // The committed snapshot reopens to the committed state.
    let mut reopened = Database::new();
    reopened.load(&snapshot).unwrap();
    assert!(reopened.get("a").is_err());
    assert_eq!(reopened.get("b").unwrap().data, "2");
}

#[test]
fn test_shared_from_database_and_save() {
    let mut db = Database::new();
    db.put("key1".to_string(), Value { data: "value1".to_string() });

    let shared = SharedDatabase::from_database(db);
    assert_eq!(shared.get("key1").unwrap().data, "value1");

    let snapshot = shared.save();
    let mut reopened = Database::new();
    reopened.load(&snapshot).unwrap();
    assert_eq!(reopened.get("key1").unwrap().data, "value1");
}
