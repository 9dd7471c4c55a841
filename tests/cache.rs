use pastebin::cache::ExpiringCache;

fn s(x: &str) -> String {
    x.to_string()
}

#[test]
fn get_after_put_returns_latest_content() {
    let mut c = ExpiringCache::new(Some(1));
    c.put_at(s("k"), s("first"), 10);
    assert_eq!(c.get(&s("k")), Some(s("first")));
    c.put_at(s("k"), s("second"), 20);
    assert_eq!(c.get(&s("k")), Some(s("second")));
    assert_eq!(c.size_bytes(), 6);
}

#[test]
fn repeated_miss_changes_nothing() {
    let mut c = ExpiringCache::new(Some(1));
    c.put_at(s("a"), s("xyz"), 1);
    for _ in 0..3 {
        assert_eq!(c.get(&s("missing")), None);
    }
    assert_eq!(c.size_bytes(), 3);
    assert_eq!(c.get(&s("a")), Some(s("xyz")));
}

#[test]
fn size_counts_utf8_bytes() {
    let mut c = ExpiringCache::new(Some(1));
    c.put_at(s("a"), s("h\u{e9}llo"), 1);
    c.put_at(s("b"), s("\u{1F600}"), 2);
    assert_eq!(c.size_bytes(), 10);
}

#[test]
fn eviction_takes_earliest_first() {
    let mut c = ExpiringCache::new(Some(1));
    c.put_at(s("b"), s("bbbb"), 200);
    c.put_at(s("a"), s("aaaa"), 100);
    c.put_at(s("c"), s("cccc"), 300);
    c.enforce_size_bound(8);
    assert_eq!(c.get(&s("a")), None);
    assert_eq!(c.get(&s("b")), Some(s("bbbb")));
    assert_eq!(c.get(&s("c")), Some(s("cccc")));
    assert_eq!(c.size_bytes(), 8);
}

#[test]
fn size_bound_is_met_after_enforcement() {
    let mut c = ExpiringCache::new(Some(1));
    for i in 0..10i64 {
        c.put_at(format!("k{}", i), s("0123456789"), i);
    }
    assert_eq!(c.size_bytes(), 100);
    c.enforce_size_bound(35);
    assert_eq!(c.size_bytes(), 30);
    assert_eq!(c.get(&s("k6")), None);
    assert_eq!(c.get(&s("k7")), Some(s("0123456789")));
    c.enforce_size_bound(0);
    assert_eq!(c.size_bytes(), 0);
    assert_eq!(c.get(&s("k9")), None);
}

#[test]
fn stale_record_is_dropped_without_changing_size() {
    let mut c = ExpiringCache::new(Some(1));
    c.put_at(s("a"), s("aaaa"), 1);
    c.put_at(s("a"), s("a"), 2);
    c.put_at(s("b"), s("bb"), 3);
    assert_eq!(c.size_bytes(), 3);
    // The first record of "a" evicts it; its second record is then stale.
    c.enforce_size_bound(2);
    assert_eq!(c.get(&s("a")), None);
    assert_eq!(c.get(&s("b")), Some(s("bb")));
    assert_eq!(c.size_bytes(), 2);
    c.enforce_size_bound(1);
    assert_eq!(c.get(&s("b")), None);
    assert_eq!(c.size_bytes(), 0);
}

#[test]
fn disabled_cache_does_nothing() {
    let mut c = ExpiringCache::new(None);
    assert!(!c.is_enabled());
    c.put(s("k"), s("content"));
    c.put_at(s("j"), s("content"), 5);
    assert_eq!(c.get(&s("k")), None);
    assert_eq!(c.get(&s("j")), None);
    assert_eq!(c.size_bytes(), 0);
    c.enforce_size_bound(0);
    c.enforce_configured();
    assert_eq!(c.size_bytes(), 0);
}

#[test]
fn configured_bound_is_in_mebibytes() {
    let mut c = ExpiringCache::new(Some(1));
    let big = "x".repeat(600 * 1024);
    c.put_at(s("a"), big.clone(), 1);
    c.put_at(s("b"), big.clone(), 2);
    c.enforce_configured();
    assert_eq!(c.get(&s("a")), None);
    assert_eq!(c.get(&s("b")), Some(big));
    assert_eq!(c.size_bytes(), 600 * 1024);
}

#[test]
fn put_with_clock_is_found() {
    let mut c = ExpiringCache::new(Some(4));
    c.put(s("k"), s("v"));
    assert_eq!(c.get(&s("k")), Some(s("v")));
}
