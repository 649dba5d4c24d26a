use rust_eez::storage::FieldMap;
use rust_eez::storage::Keyspace;
use rust_eez::storage::StorageType;

#[test]
fn new_field_map_is_empty() {
    let fields = FieldMap::new();
    assert!(fields.is_empty());
    assert_eq!(fields.len(), 0);
    assert_eq!(fields.get("f"), None);
}

#[test]
fn fields_keep_the_order_of_their_first_setting() {
    let mut fields = FieldMap::new();
    fields.insert("b".into(), "1".into());
    fields.insert("a".into(), "2".into());
    fields.insert("b".into(), "3".into());
    assert_eq!(fields.len(), 2);
    assert_eq!(fields.name_at(0), "b");
    assert_eq!(fields.value_at(0), "3");
    assert_eq!(fields.name_at(1), "a");
    assert_eq!(fields.value_at(1), "2");
    assert_eq!(fields.get("b"), Some(&"3".to_string()));
    assert_eq!(fields.get("a"), Some(&"2".to_string()));
    assert_eq!(fields.get("c"), None);
}

#[test]
fn removing_a_field_says_whether_it_was_there() {
    let mut fields = FieldMap::new();
    fields.insert("a".into(), "1".into());
    fields.insert("b".into(), "2".into());
    fields.insert("c".into(), "3".into());
    assert!(fields.remove("b"));
    assert!(!fields.remove("b"));
    assert!(!fields.remove("z"));
    assert_eq!(fields.len(), 2);
    assert_eq!(fields.name_at(0), "a");
    assert_eq!(fields.name_at(1), "c");
    assert_eq!(fields.get("b"), None);
    assert!(fields.remove("a"));
    assert!(fields.remove("c"));
    assert!(fields.is_empty());
}

#[test]
fn clone_of_a_field_map_is_independent() {
    let mut fields = FieldMap::new();
    fields.insert("a".into(), "1".into());
    let mut copy = fields.clone();
    copy.insert("a".into(), "2".into());
    copy.insert("b".into(), "3".into());
    assert_eq!(fields.len(), 1);
    assert_eq!(fields.get("a"), Some(&"1".to_string()));
    assert_eq!(copy.len(), 2);
    assert_eq!(copy.get("a"), Some(&"2".to_string()));
}

#[test]
fn keyspace_holds_what_was_inserted() {
    let mut keyspace = Keyspace::new();
    assert!(keyspace.get("k").is_none());
    keyspace.insert("k".into(), StorageType::String("v".into()));
    match keyspace.get("k") {
        Some(StorageType::String(text)) => assert_eq!(text, "v"),
        other => panic!("unexpected entry {:?}", other),
    }
    let mut fields = FieldMap::new();
    fields.insert("f".into(), "x".into());
    keyspace.insert("k".into(), StorageType::HashMap(fields));
    match keyspace.get("k") {
        Some(StorageType::HashMap(fields)) => assert_eq!(fields.get("f"), Some(&"x".to_string())),
        other => panic!("unexpected entry {:?}", other),
    }
}

#[test]
fn keyspace_remove_says_whether_the_key_held_anything() {
    let mut keyspace = Keyspace::new();
    keyspace.insert("k".into(), StorageType::String("v".into()));
    assert!(keyspace.remove("k"));
    assert!(!keyspace.remove("k"));
    assert!(keyspace.get("k").is_none());
}

#[test]
fn clone_of_an_entry_holds_the_same() {
    let entry = StorageType::String("v".into());
    match entry.clone() {
        StorageType::String(text) => assert_eq!(text, "v"),
        other => panic!("unexpected entry {:?}", other),
    }
}

#[test]
fn new_shared_store_holds_no_key() {
    let storage = rust_eez::lock::new_shared();
    let keyspace = storage.read().unwrap();
    assert!(keyspace.get("k").is_none());
    assert!(keyspace.get("").is_none());
}
