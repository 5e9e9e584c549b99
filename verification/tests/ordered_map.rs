use backuper::ordered_map::OMap;

#[test]
fn test_omap_keeps_insertion_order() {
    let mut m: OMap<String, u32> = OMap::new();
    m.insert("users".to_string(), 1);
    m.insert("orders".to_string(), 2);
    m.insert("items".to_string(), 3);
    let s = m.to_serialize();
    let keys: Vec<&str> = s.iter().map(|(k, _)| k.as_str()).collect();
    assert_eq!(keys, vec!["users", "orders", "items"]);
    let values: Vec<u32> = s.iter().map(|(_, v)| **v).collect();
    assert_eq!(values, vec![1, 2, 3]);
}

#[test]
fn test_omap_reinsert_moves_key_last() {
    let mut m: OMap<u64, &str> = OMap::with_capacity(4);
    m.insert(1, "a");
    m.insert(2, "b");
    m.insert(3, "c");
    m.insert(1, "z");
    let s = m.to_serialize();
    assert_eq!(s, vec![(&2, &"b"), (&3, &"c"), (&1, &"z")]);
    assert_eq!(m.len(), 3);
    assert_eq!(m.get(&1), Some(&"z"));
}

#[test]
fn test_omap_empty() {
    let m: OMap<String, String> = OMap::new();
    assert!(m.to_serialize().is_empty());
    assert!(m.is_empty());
}

#[test]
fn test_omap_with_capacity_and_new_agree_after_same_inserts() {
    let ops = [("b", 1), ("a", 2), ("c", 3), ("b", 4), ("a", 5)];
    let mut m1: OMap<String, i32> = OMap::new();
    let mut m2: OMap<String, i32> = OMap::with_capacity(100);
    for (k, v) in ops {
        m1.insert(k.to_string(), v);
        m2.insert(k.to_string(), v);
    }
    assert_eq!(m1.to_serialize(), m2.to_serialize());
    assert_eq!(m1.len(), m2.len());
    let keys: Vec<&str> = m1.to_serialize().iter().map(|(k, _)| k.as_str()).collect();
    assert_eq!(keys, vec!["c", "b", "a"]);
    assert_eq!(m1.to_serialize().len(), m1.len());
}

#[test]
fn test_omap_with_capacity_is_empty() {
    let m: OMap<u64, u64> = OMap::with_capacity(8);
    assert!(m.to_serialize().is_empty());
    assert_eq!(m.len(), 0);
}
