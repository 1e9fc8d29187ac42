use anytask::id_map::IdMap;

#[test]
fn id_map_insert_get_remove() {
    let mut m: IdMap<u32> = IdMap::new();
    assert_eq!(m.get("a"), None);
    m.insert("a".to_string(), 1);
    m.insert("b".to_string(), 2);
    assert_eq!(m.get("a"), Some(&1));
    assert!(m.contains_key("b"));
    m.insert("a".to_string(), 3);
    assert_eq!(m.get("a"), Some(&3));
    assert_eq!(m.remove("a"), Some(3));
    assert_eq!(m.get("a"), None);
    assert_eq!(m.remove("a"), None);
    assert_eq!(m.get("b"), Some(&2));
    m.clear();
    assert!(!m.contains_key("b"));
}
