use milston::helper::AutoIncrementalMap;

#[test]
fn sequential_keys_from_empty() {
    let mut map: AutoIncrementalMap<u32> = AutoIncrementalMap::default();
    assert_eq!(map.add(10), 1);
    assert_eq!(map.add(20), 2);
    assert_eq!(map.add(30), 3);
    assert_eq!(map.get_last_id(), 3);
    assert!(!map.is_empty());
}

#[test]
fn keys_stay_above_remaining_after_removal() {
    let mut map: AutoIncrementalMap<u32> = AutoIncrementalMap::default();
    map.add(10);
    map.add(20);
    map.add(30);
    map.remove(2);
    // The next key is one past the largest key still present, so it collides
    // with no current entry.
    assert_eq!(map.add(40), 4);
    // Once the largest keys are removed, the counter falls back to the
    // largest key still present: removed keys above it can be reassigned.
    map.remove(4);
    map.remove(3);
    assert_eq!(map.add(50), 2);
}

#[test]
fn remove_then_get_is_absent() {
    let mut map: AutoIncrementalMap<&str> = AutoIncrementalMap::default();
    let id = map.add("a");
    let other = map.add("b");
    assert_eq!(map.remove(id), Some("a"));
    assert!(map.get(id).is_none());
    assert_eq!(map.get(other), Some(&"b"));
    // Removing an absent key reports absence and alters nothing.
    assert!(map.remove(id).is_none());
    assert_eq!(map.len(), 1);
    assert_eq!(map.get(other), Some(&"b"));
}

#[test]
fn values_and_mutation() {
    let mut map: AutoIncrementalMap<u32> = AutoIncrementalMap::default();
    let a = map.add(1);
    let b = map.add(2);
    *map.get_mut(a).unwrap() = 11;
    assert_eq!(map.get(a), Some(&11));
    assert_eq!(map.get(b), Some(&2));
    assert!(map.get_mut(99).is_none());
    let values = map.get_values();
    assert_eq!(values.len(), 2);
}
