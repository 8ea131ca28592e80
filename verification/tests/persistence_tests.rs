use nosql_db::{Database, DatabaseError, Value, WriteCache};

#[test]
fn persistence_tests_test_persistence() {
    let snapshot = {
        let mut db = Database::new();
        db.put("key1".to_string(), Value { data: "value1".to_string() });
        db.save()
    };

    // The snapshot carries the entries in the clear.
    assert!(snapshot.contains("key1"), "snapshot does not contain 'key1'");
    assert!(snapshot.contains("value1"), "snapshot does not contain 'value1'");

    let mut db = Database::new();
    db.load(&snapshot).expect("saved snapshot should load");
    let value = db.get("key1").expect("key1 should survive the round trip");
    assert_eq!(value.data, "value1", "Retrieved value does not match expected value");
}

#[test]
fn test_load_empty_text_yields_empty_store() {
    let mut db = Database::new();
    db.load("").expect("empty text is a first run, not an error");
    match db.get("anything") {
        Err(DatabaseError::KeyNotFound(_)) => {},
        _ => panic!("empty snapshot should yield an empty store"),
    }
}

#[test]
fn test_load_garbage_fails_with_corrupt_data() {
    let mut db = Database::new();
    db.put("kept".to_string(), Value { data: "value".to_string() });

    // A trailing escape, an unkeyed entry end, and plain truncated text.
    for garbage in ["key1", "key1:value1", "\\x", ";", "a:b;c\\"] {
        assert_eq!(db.load(garbage), Err(DatabaseError::CorruptData));
        // The failed load leaves the store exactly as it was.
        assert_eq!(db.get("kept").unwrap().data, "value");
    }
}

#[test]
fn test_round_trip_with_special_characters() {
    let mut db = Database::new();
    db.put("plain".to_string(), Value { data: "value".to_string() });
    db.put("colon:key".to_string(), Value { data: "semi;value".to_string() });
    db.put("back\\slash".to_string(), Value { data: "mix\\:;end".to_string() });
    db.put("".to_string(), Value { data: "empty key".to_string() });
    db.put("empty value".to_string(), Value { data: "".to_string() });

    let snapshot = db.save();
    let mut db2 = Database::new();
    db2.load(&snapshot).expect("snapshot should load");

    assert_eq!(db2.get("plain").unwrap().data, "value");
    assert_eq!(db2.get("colon:key").unwrap().data, "semi;value");
    assert_eq!(db2.get("back\\slash").unwrap().data, "mix\\:;end");
    assert_eq!(db2.get("").unwrap().data, "empty key");
    assert_eq!(db2.get("empty value").unwrap().data, "");
}

#[test]
fn test_save_exact_encoding() {
    let mut db = Database::new();
    db.put("a:b".to_string(), Value { data: "c;d".to_string() });
    assert_eq!(db.save(), "a\\:b:c\\;d;");
}

#[test]
fn test_save_after_delete_drops_the_entry() {
    let mut db = Database::new();
    db.put("key1".to_string(), Value { data: "value1".to_string() });
    db.put("key2".to_string(), Value { data: "value2".to_string() });
    db.delete("key1");

    let snapshot = db.save();
    assert!(!snapshot.contains("key1"));

    let mut db2 = Database::new();
    db2.load(&snapshot).unwrap();
    assert!(db2.get("key1").is_err());
    assert_eq!(db2.get("key2").unwrap().data, "value2");
}

#[test]
fn test_write_cache() {
    let mut cache = WriteCache::new();
    cache.add("key1".to_string(), Some(Value { data: "value1".to_string() }));
    cache.add("key2".to_string(), Some(Value { data: "value2".to_string() }));
    cache.add("key1".to_string(), Some(Value { data: "value1b".to_string() }));
    cache.add("key2".to_string(), None);

    let batch = cache.flush();
    assert_eq!(batch.len(), 2);
    let k1 = batch.iter().find(|e| e.0 == "key1").expect("key1 pending");
    assert_eq!(k1.1.as_ref().unwrap().data, "value1b");
    let k2 = batch.iter().find(|e| e.0 == "key2").expect("key2 pending");
    assert!(k2.1.is_none());

    // Drained: a second flush carries nothing.
    assert!(cache.flush().is_empty());
}
