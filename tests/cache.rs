use novel_reader::cache::{expiry_at, Cache, CacheEntry, MAX_ENTRIES};
use novel_reader::keys::{detail_key, DETAIL_TTL_SECS};
use serde_json::Value;

fn text(s: &str) -> Value {
    Value::String(s.to_string())
}

#[test]
fn get_returns_value_until_ttl_then_absent() {
    let mut c = Cache::new();
    c.set("k", text("v"), Some(10), 1_000);
    assert_eq!(c.get("k", 1_000), Some(text("v")));
    assert_eq!(c.get("k", 11_000), Some(text("v")));
    assert_eq!(c.len(), 1);
    assert_eq!(c.get("k", 11_001), None);
    assert_eq!(c.len(), 0);
    assert_eq!(c.get("k", 11_002), None);
}

#[test]
fn entry_without_ttl_never_expires() {
    let mut c = Cache::new();
    c.set("k", text("v"), None, 0);
    assert_eq!(c.get("k", u64::MAX), Some(text("v")));
    c.sweep(u64::MAX);
    assert_eq!(c.len(), 1);
}

#[test]
fn get_of_missing_key_is_absent() {
    let mut c = Cache::new();
    assert_eq!(c.get("nothing", 5), None);
    assert_eq!(c.len(), 0);
}

#[test]
fn last_set_wins_regardless_of_ttl() {
    let mut c = Cache::new();
    c.set("k", text("first"), Some(1), 0);
    c.set("k", text("second"), None, 0);
    assert_eq!(c.len(), 1);
    assert_eq!(c.get("k", 5_000_000), Some(text("second")));
    c.set("k", text("third"), Some(1), 0);
    assert_eq!(c.get("k", 1_000), Some(text("third")));
    assert_eq!(c.get("k", 1_001), None);
}

#[test]
fn capacity_is_never_exceeded() {
    let mut c = Cache::with_capacity(3);
    assert_eq!(c.capacity(), 3);
    for k in ["a", "b", "c", "d", "e"] {
        c.set(k, text(k), None, 0);
        assert!(c.len() <= 3);
    }
    assert_eq!(c.len(), 3);
    // The keys inserted longest ago went first.
    assert_eq!(c.get("a", 0), None);
    assert_eq!(c.get("b", 0), None);
    assert_eq!(c.get("c", 0), Some(text("c")));
    assert_eq!(c.get("e", 0), Some(text("e")));
}

#[test]
fn overwriting_present_key_keeps_count() {
    let mut c = Cache::with_capacity(2);
    c.set("a", text("1"), None, 0);
    c.set("b", text("2"), None, 0);
    c.set("a", text("3"), Some(5), 0);
    assert_eq!(c.len(), 2);
    assert_eq!(c.get("a", 0), Some(text("3")));
    assert_eq!(c.get("b", 0), Some(text("2")));
}

#[test]
fn eviction_skips_keys_already_gone() {
    let mut c = Cache::with_capacity(2);
    c.set("a", text("1"), Some(1), 0);
    c.set("b", text("2"), None, 0);
    assert_eq!(c.get("a", 2_000), None);
    c.set("c", text("3"), None, 0);
    assert_eq!(c.len(), 2);
    c.set("d", text("4"), None, 0);
    assert_eq!(c.len(), 2);
    assert_eq!(c.get("b", 0), None);
    assert_eq!(c.get("c", 0), Some(text("3")));
    assert_eq!(c.get("d", 0), Some(text("4")));
}

#[test]
fn default_capacity_is_max_entries() {
    let c = Cache::new();
    assert_eq!(c.capacity(), MAX_ENTRIES);
    assert_eq!(MAX_ENTRIES, 10_000);
}

#[test]
fn sweep_removes_exactly_expired_entries() {
    let mut c = Cache::new();
    c.set("short", text("s"), Some(1), 0);
    c.set("long", text("l"), Some(100), 0);
    c.set("forever", text("f"), None, 0);
    c.set("edge", text("e"), Some(2), 0);
    c.sweep(2_000);
    assert_eq!(c.len(), 3);
    assert_eq!(c.get("short", 0), None);
    assert_eq!(c.get("edge", 2_000), Some(text("e")));
    assert_eq!(c.get("long", 2_000), Some(text("l")));
    assert_eq!(c.get("forever", 2_000), Some(text("f")));
    c.sweep(200_000);
    assert_eq!(c.len(), 1);
    assert_eq!(c.get("forever", 200_000), Some(text("f")));
}

#[test]
fn sweep_then_set_still_evicts_oldest() {
    let mut c = Cache::with_capacity(2);
    c.set("a", text("1"), Some(1), 0);
    c.set("b", text("2"), None, 0);
    c.sweep(5_000);
    c.set("c", text("3"), None, 0);
    c.set("d", text("4"), None, 0);
    assert_eq!(c.len(), 2);
    assert_eq!(c.get("b", 0), None);
    assert_eq!(c.get("c", 0), Some(text("3")));
}

#[test]
fn expiry_saturates_at_clock_limit() {
    assert_eq!(expiry_at(5, None), None);
    assert_eq!(expiry_at(5, Some(3)), Some(3_005));
    assert_eq!(expiry_at(u64::MAX - 10, Some(1)), Some(u64::MAX));
    assert_eq!(expiry_at(0, Some(u64::MAX)), Some(u64::MAX));
}

#[test]
fn entry_expiry_check() {
    let e = CacheEntry { value: Value::Null, expires_at: Some(10) };
    assert!(!e.is_expired_at(10));
    assert!(e.is_expired_at(11));
    let f = CacheEntry { value: Value::Null, expires_at: None };
    assert!(!f.is_expired_at(u64::MAX));
}

#[test]
fn cache_miss_then_detail_served_verbatim_for_a_day() {
    let key = detail_key("sourceA", "42");
    assert_eq!(key, "novel:sourceA:42:detail");
    let mut doc = serde_json::Map::new();
    doc.insert("title".to_string(), text("X"));
    doc.insert("synopsis".to_string(), text("Y"));
    doc.insert("pageCount".to_string(), Value::from(5));
    let doc = Value::Object(doc);

    let mut c = Cache::new();
    let start = 1_700_000_000_000u64;
    assert_eq!(c.get(&key, start), None);
    c.set(&key, doc.clone(), Some(DETAIL_TTL_SECS), start);
    assert_eq!(c.get(&key, start + 1), Some(doc.clone()));
    assert_eq!(c.get(&key, start + 24 * 3_600_000), Some(doc.clone()));
    assert_eq!(c.get(&key, start + 24 * 3_600_000 + 1), None);
}

#[test]
fn overwrite_keeps_insertion_place_for_eviction() {
    let mut c = Cache::with_capacity(2);
    c.set("a", text("1"), None, 0);
    c.set("b", text("2"), None, 0);
    c.set("a", text("3"), None, 0);
    c.set("c", text("4"), None, 0);
    assert_eq!(c.get("a", 0), None);
    assert_eq!(c.get("b", 0), Some(text("2")));
    assert_eq!(c.get("c", 0), Some(text("4")));
}

#[test]
fn same_stores_evict_same_key() {
    let mut x = Cache::with_capacity(2);
    let mut y = Cache::with_capacity(2);
    for c in [&mut x, &mut y] {
        c.set("p", text("1"), Some(1), 0);
        c.set("q", text("2"), None, 0);
        c.sweep(5_000);
        c.set("r", text("3"), None, 0);
        c.set("s", text("4"), None, 0);
    }
    for c in [&mut x, &mut y] {
        assert_eq!(c.len(), 2);
        assert_eq!(c.get("q", 0), None);
        assert_eq!(c.get("r", 0), Some(text("3")));
        assert_eq!(c.get("s", 0), Some(text("4")));
    }
}
