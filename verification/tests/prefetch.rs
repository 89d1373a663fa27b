use ytamp::prefetch::{prefetch_step, PrefetchCache, PrefetchStep, MAX_PREFETCH_IN_FLIGHT};

fn never_failed(_: &u32) -> bool {
    false
}

#[test]
fn a_stored_buffer_is_found_again() {
    let mut cache = PrefetchCache::new();
    cache.insert("aaaaaaaaaaa".to_string(), 7u32);
    assert!(cache.contains("aaaaaaaaaaa"));
    assert!(!cache.contains("bbbbbbbbbbb"));
    assert_eq!(cache.get("aaaaaaaaaaa", never_failed), Some(7));
    assert_eq!(cache.get("bbbbbbbbbbb", never_failed), None);
}

#[test]
fn storing_under_a_cached_id_replaces_the_buffer() {
    let mut cache = PrefetchCache::new();
    cache.insert("a".to_string(), 1u32);
    cache.insert("a".to_string(), 2u32);
    assert_eq!(cache.get("a", never_failed), Some(2));
}

#[test]
fn the_least_recently_used_buffer_leaves_when_full() {
    let mut cache = PrefetchCache::new();
    for (i, id) in ["a", "b", "c", "d"].iter().enumerate() {
        cache.insert(id.to_string(), i as u32);
    }
    // Using "a" makes "b" the least recently used.
    assert_eq!(cache.get("a", never_failed), Some(0));
    cache.insert("e".to_string(), 4);
    assert!(cache.contains("a"));
    assert!(!cache.contains("b"));
    assert!(cache.contains("c"));
    assert!(cache.contains("d"));
    assert!(cache.contains("e"));
}

#[test]
fn a_failed_buffer_is_dropped_and_not_served() {
    let mut cache = PrefetchCache::new();
    cache.insert("a".to_string(), 99u32);
    assert_eq!(cache.get("a", |b: &u32| *b == 99), None);
    assert!(!cache.contains("a"));
}

#[test]
fn removing_an_id_forgets_its_buffer() {
    let mut cache = PrefetchCache::new();
    cache.insert("a".to_string(), 1u32);
    cache.insert("b".to_string(), 2u32);
    cache.remove("a");
    assert!(!cache.contains("a"));
    assert_eq!(cache.get("b", never_failed), Some(2));
}

#[test]
fn prefetch_requests_follow_their_rule() {
    let mut cache = PrefetchCache::new();
    cache.insert("warm".to_string(), 1u32);
    assert_eq!(prefetch_step(&cache, "warm", false, None, false, false, 0), PrefetchStep::Skip);
    assert_eq!(prefetch_step(&cache, "x", true, None, false, false, 0), PrefetchStep::Skip);
    assert_eq!(prefetch_step(&cache, "x", false, Some("x"), false, false, 0), PrefetchStep::Skip);
    assert_eq!(prefetch_step(&cache, "x", false, Some("y"), true, false, 0), PrefetchStep::Defer);
    assert_eq!(
        prefetch_step(&cache, "x", false, None, false, true, MAX_PREFETCH_IN_FLIGHT),
        PrefetchStep::PrepareLocal
    );
    assert_eq!(
        prefetch_step(&cache, "x", false, None, false, false, MAX_PREFETCH_IN_FLIGHT),
        PrefetchStep::Skip
    );
    assert_eq!(prefetch_step(&cache, "x", false, None, false, false, 1), PrefetchStep::Start);
}
