use ladybug_adbc::cache::{PreparedCache, PreparedEntry, MAX_PREPARED};

fn filled(n: usize) -> PreparedCache {
    let mut cache = PreparedCache::new();
    for i in 0..n {
        cache.insert(format!("k{i}"), PreparedEntry { query: format!("q{i}") });
    }
    cache
}

fn query<'a>(cache: &'a PreparedCache, key: &str) -> Option<&'a str> {
    cache.get(key).map(|e| e.query.as_str())
}

#[test]
fn entries_are_found_until_removed() {
    let mut cache = filled(3);
    assert_eq!(query(&cache, "k1"), Some("q1"));
    cache.remove("k1");
    assert_eq!(query(&cache, "k1"), None);
    assert_eq!(query(&cache, "k0"), Some("q0"));
    assert_eq!(query(&cache, "k2"), Some("q2"));
    cache.remove("absent");
    assert_eq!(query(&cache, "k0"), Some("q0"));
}

#[test]
fn the_oldest_entry_is_dropped_first() {
    assert_eq!(MAX_PREPARED, 512);
    let cache = filled(512);
    assert_eq!(query(&cache, "k0"), Some("q0"));
    let cache = filled(514);
    assert_eq!(query(&cache, "k0"), None);
    assert_eq!(query(&cache, "k1"), None);
    assert_eq!(query(&cache, "k2"), Some("q2"));
    assert_eq!(query(&cache, "k513"), Some("q513"));
}

#[test]
fn removed_entries_make_room() {
    let mut cache = filled(512);
    cache.remove("k0");
    cache.insert("a".to_string(), PreparedEntry { query: "qa".to_string() });
    assert_eq!(query(&cache, "k1"), Some("q1"));
    cache.insert("b".to_string(), PreparedEntry { query: "qb".to_string() });
    assert_eq!(query(&cache, "k1"), None);
    assert_eq!(query(&cache, "k2"), Some("q2"));
    assert_eq!(query(&cache, "b"), Some("qb"));
}

#[test]
fn an_entry_outlives_fewer_newer_ones_than_the_limit() {
    let mut cache = filled(300);
    cache.insert("kept".to_string(), PreparedEntry { query: "q".to_string() });
    for i in 0..511 {
        cache.insert(format!("n{i}"), PreparedEntry { query: String::new() });
        if i % 2 == 0 {
            cache.remove(&format!("k{i}"));
        }
    }
    assert_eq!(query(&cache, "kept"), Some("q"));
    let mut full = filled(0);
    full.insert("gone".to_string(), PreparedEntry { query: "q".to_string() });
    for i in 0..512 {
        full.insert(format!("n{i}"), PreparedEntry { query: String::new() });
    }
    assert_eq!(query(&full, "gone"), None);
}

#[test]
fn many_removals_keep_the_rest() {
    let mut cache = filled(400);
    for i in 0..390 {
        cache.remove(&format!("k{i}"));
    }
    for i in 390..400 {
        assert_eq!(query(&cache, &format!("k{i}")), Some(format!("q{i}").as_str()));
    }
}
