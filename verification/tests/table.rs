use swagger::table::NameTable;

#[test]
fn new_table_is_empty() {
    let table: NameTable<u32> = NameTable::new();
    assert_eq!(table.len(), 0);
    assert_eq!(table.get("a"), None);
    assert!(!table.contains_key("a"));
    assert_eq!(table.position("a"), None);
}

#[test]
fn insert_appends_new_names_in_order() {
    let mut table: NameTable<u32> = NameTable::new();
    table.insert("b".to_string(), 2);
    table.insert("a".to_string(), 1);
    assert_eq!(table.len(), 2);
    assert_eq!(table.key_at(0), "b");
    assert_eq!(table.key_at(1), "a");
    assert_eq!(*table.value_at(0), 2);
    assert_eq!(*table.value_at(1), 1);
    assert_eq!(table.position("a"), Some(1));
    assert!(table.contains_key("b"));
}

#[test]
fn insert_replaces_value_and_keeps_place() {
    let mut table: NameTable<u32> = NameTable::new();
    table.insert("a".to_string(), 1);
    table.insert("b".to_string(), 2);
    table.insert("a".to_string(), 3);
    assert_eq!(table.len(), 2);
    assert_eq!(table.key_at(0), "a");
    assert_eq!(table.get("a"), Some(&3));
    assert_eq!(table.get("b"), Some(&2));
}

#[test]
fn names_are_compared_exactly() {
    let mut table: NameTable<u32> = NameTable::new();
    table.insert("Name".to_string(), 1);
    assert_eq!(table.get("name"), None);
    assert_eq!(table.get("Name "), None);
    assert_eq!(table.get("Name"), Some(&1));
}
