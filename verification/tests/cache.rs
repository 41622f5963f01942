use textmesh::{FontMetrics, ParsedFontCache};

fn metrics_a() -> FontMetrics {
    FontMetrics::new(1000, -200, 40)
}

fn metrics_b() -> FontMetrics {
    FontMetrics::new(800, -150, 0)
}

#[test]
fn cache_miss_then_hit() {
    let mut cache = ParsedFontCache::new();
    assert!(cache.get(7).is_none());
    cache.insert(7, metrics_a());
    let m = cache.get(7).unwrap();
    assert_eq!(m.ascender, 1000);
    assert_eq!(m.descender, -200);
    assert_eq!(m.line_gap, 40);
    assert_eq!(m.line_height, 1240);
    // A repeated query returns the cached instance untouched.
    let m2 = cache.get(7).unwrap();
    assert_eq!(m2.line_height, 1240);
    assert_eq!(cache.len(), 1);
}

#[test]
fn cache_keys_are_independent() {
    let mut cache = ParsedFontCache::new();
    cache.insert(1, metrics_a());
    cache.insert(2, metrics_b());
    assert_eq!(cache.get(1).unwrap().ascender, 1000);
    assert_eq!(cache.get(2).unwrap().ascender, 800);
    assert!(cache.get(3).is_none());
    assert_eq!(cache.len(), 2);
}

#[test]
fn cleanup_drops_exactly_the_dead_ids() {
    let mut cache = ParsedFontCache::new();
    cache.insert(1, metrics_a());
    cache.insert(2, metrics_b());
    cache.insert(3, metrics_a());
    cache.cleanup(&vec![1, 3, 9]);
    assert_eq!(cache.get(1).unwrap().ascender, 1000);
    assert!(cache.get(2).is_none());
    assert_eq!(cache.get(3).unwrap().ascender, 1000);
    // An id in the live set that was never cached stays absent.
    assert!(cache.get(9).is_none());
    assert_eq!(cache.len(), 2);
}

#[test]
fn cleanup_every_tick_is_harmless() {
    let mut cache = ParsedFontCache::new();
    cache.insert(5, metrics_b());
    cache.cleanup(&vec![5]);
    cache.cleanup(&vec![5]);
    assert_eq!(cache.get(5).unwrap().ascender, 800);
    cache.cleanup(&vec![]);
    assert!(cache.get(5).is_none());
    assert_eq!(cache.len(), 0);
}
