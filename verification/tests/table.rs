use helix_lsp::table::Table;

#[test]
fn table_keeps_one_value_for_each_key() {
    let mut table: Table<String, u8> = Table::new();
    assert!(table.is_empty());
    assert_eq!(table.insert("a".to_string(), 1), None);
    assert_eq!(table.insert("b".to_string(), 2), None);
    assert_eq!(table.insert("a".to_string(), 3), Some(1));
    assert_eq!(table.len(), 2);
    assert_eq!(table.get(&"a".to_string()), Some(&3));
    assert_eq!(table.get(&"c".to_string()), None);
    assert!(table.contains_key(&"b".to_string()));
    assert_eq!(table.remove(&"b".to_string()), Some(2));
    assert_eq!(table.remove(&"b".to_string()), None);
    assert!(!table.contains_key(&"b".to_string()));
    assert_eq!(table.entry(0), (&"a".to_string(), &3));
    assert_eq!(table.remove_at(0), ("a".to_string(), 3));
    assert!(table.is_empty());
    table.insert("x".to_string(), 9);
    table.insert("y".to_string(), 8);
    assert_eq!(table.entry(1), (&"y".to_string(), &8));
    assert_eq!(table.len(), 2);
}
