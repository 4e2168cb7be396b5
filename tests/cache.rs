use bike_anomaly::cache::CoordinateCache;

#[test]
fn empty_cache_has_nothing() {
    let cache: CoordinateCache<(i64, i64)> = CoordinateCache::new();
    assert_eq!(cache.get(&"Hyde Park Corner".to_string()), None);
    assert!(cache.entries().is_empty());
}

#[test]
fn put_then_get_and_overwrite() {
    let mut cache = CoordinateCache::new();
    cache.put("A".to_string(), (1i64, 2i64));
    cache.put("B".to_string(), (3, 4));
    assert_eq!(cache.get(&"A".to_string()), Some((1, 2)));
    assert_eq!(cache.get(&"a".to_string()), None);
    assert_eq!(cache.get(&"A ".to_string()), None);
    cache.put("A".to_string(), (5, 6));
    assert_eq!(cache.get(&"A".to_string()), Some((5, 6)));
    assert_eq!(cache.entries().len(), 2);
}

#[test]
fn persist_then_load_round_trips() {
    let mut cache = CoordinateCache::new();
    cache.put("A".to_string(), (1i64, 2i64));
    cache.put("B".to_string(), (3, 4));
    cache.put("C".to_string(), (5, 6));
    let loaded = CoordinateCache::from_entries(&cache.entries());
    for name in ["A", "B", "C", "D"] {
        assert_eq!(loaded.get(&name.to_string()), cache.get(&name.to_string()));
    }
    assert_eq!(loaded.entries().len(), 3);
}

#[test]
fn loading_repeated_names_keeps_the_last() {
    let entries = vec![
        ("A".to_string(), (1i64, 1i64)),
        ("B".to_string(), (2, 2)),
        ("A".to_string(), (3, 3)),
    ];
    let loaded = CoordinateCache::from_entries(&entries);
    assert_eq!(loaded.get(&"A".to_string()), Some((3, 3)));
    assert_eq!(loaded.get(&"B".to_string()), Some((2, 2)));
    assert_eq!(loaded.entries().len(), 2);
}
