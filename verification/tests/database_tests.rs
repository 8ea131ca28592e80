use nosql_db::{Database, DatabaseError, SharedDatabase, Value};
use std::sync::Arc;

#[test]
fn test_put_and_get() {
    let mut db = Database::new();

    db.put("key1".to_string(), Value { data: "value1".to_string() });

    let value = db.get("key1").expect("key1 should be present");
    assert_eq!(value.data, "value1");
}

#[test]
fn test_delete() {
    let mut db = Database::new();

    db.put("key1".to_string(), Value { data: "value1".to_string() });
    assert!(db.get("key1").is_ok());

    db.delete("key1");
    assert!(db.get("key1").is_err());
}

#[test]
fn test_persistence() {
    let snapshot = {
        let mut db = Database::new();
        db.put("key1".to_string(), Value { data: "value1".to_string() });
        db.save()
    };

    {
        let mut db = Database::new();
        db.load(&snapshot).expect("saved snapshot should load");
        let value = db.get("key1").expect("key1 should survive the round trip");
        assert_eq!(value.data, "value1");
    }
}

#[test]
fn test_concurrent_access() {
    // Ten writers of distinct keys sharing one database; every operation
    // goes through the concurrent facade, whose internal lock makes each put
    // one atomic write.
    let db = Arc::new(SharedDatabase::new());

    for i in 0..10 {
        let db = db.clone();
        let key = format!("key{}", i);
        let value = Value { data: format!("value{}", i) };
        db.put(key.clone(), value);
        assert_eq!(db.get(&key).unwrap().data, format!("value{}", i));
    }

    assert!(db.get("key0").is_ok());
    assert!(db.get("key9").is_ok());
}

#[test]
fn test_transaction() {
    let mut db = Database::new();

    db.begin_transaction().expect("no transaction should be open yet");

    db.put_in_transaction("key1".to_string(), Value { data: "value1".to_string() })
        .expect("transaction is open");
    db.put_in_transaction("key2".to_string(), Value { data: "value2".to_string() })
        .expect("transaction is open");
    db.delete_in_transaction("key1".to_string()).expect("transaction is open");

    db.commit_transaction().expect("commit should succeed");

    assert!(db.get("key1").is_err());
    assert_eq!(db.get("key2").unwrap().data, "value2");
}

#[test]
fn test_concurrent_transactions() {
    // Ten writers, each staging and committing one put through the shared
    // facade, which applies each committed batch atomically.
    let db = Arc::new(SharedDatabase::new());

    for i in 0..10 {
        let db = db.clone();
        let key = format!("key{}", i);
        let value = Value { data: format!("value{}", i) };
        db.begin_transaction().expect("no other transaction can be open");
        db.put_in_transaction(key.clone(), value).expect("transaction is open");
        db.commit_transaction().expect("commit should succeed");
        assert_eq!(db.get(&key).unwrap().data, format!("value{}", i));
    }

    for i in 0..10 {
        let key = format!("key{}", i);
        assert_eq!(db.get(&key).unwrap().data, format!("value{}", i));
    }
}

#[test]
fn test_update() {
    let mut db = Database::new();

    db.put("key1".to_string(), Value { data: "value1".to_string() });
    db.put("key1".to_string(), Value { data: "updated_value1".to_string() });

    let value = db.get("key1").expect("key1 should be present");
    assert_eq!(value.data, "updated_value1");
}

#[test]
fn test_get_non_existent_key() {
    let db = Database::new();

    match db.get("non_existent_key") {
        Err(DatabaseError::KeyNotFound(_)) => {},
        _ => panic!("Expected KeyNotFound error"),
    }
}
