use cftesting::table::KeyedTable;

#[test]
fn lookup_after_insert() {
    let mut table = KeyedTable::new();
    assert_eq!(table.get("a"), None);
    table.insert("a".to_string(), 1);
    table.insert("b".to_string(), 2);
    assert_eq!(table.get("a"), Some(&1));
    assert_eq!(table.get("b"), Some(&2));
    assert_eq!(table.get("c"), None);
    assert!(table.contains_key("b"));
    assert!(!table.contains_key("c"));
}

#[test]
fn insert_replaces() {
    let mut table = KeyedTable::new();
    table.insert("k".to_string(), "old");
    table.insert("j".to_string(), "other");
    table.insert("k".to_string(), "new");
    assert_eq!(table.get("k"), Some(&"new"));
    assert_eq!(table.get("j"), Some(&"other"));
}

#[test]
fn entries_hold_each_key_once() {
    let mut table = KeyedTable::new();
    table.insert("a".to_string(), 1);
    table.insert("b".to_string(), 2);
    table.insert("a".to_string(), 3);
    let keys: Vec<&str> = table.entries().iter().map(|(k, _)| k.as_str()).collect();
    assert_eq!(keys.len(), 2);
    assert!(keys.contains(&"a") && keys.contains(&"b"));
    assert_eq!(table.get("a"), Some(&3));
}
