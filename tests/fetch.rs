use novel_reader::cache::Cache;
use novel_reader::error::AppError;
use novel_reader::fetch::{ReadStep, ReadThrough};
use novel_reader::keys::{detail_key, DETAIL_TTL_SECS};
use serde_json::Value;

fn text(s: &str) -> Value {
    Value::String(s.to_string())
}

fn fail(m: &str) -> Result<Value, AppError> {
    Err(AppError::Upstream(m.to_string()))
}

fn served(step: ReadStep) -> Option<Value> {
    match step {
        ReadStep::Serve(v) => Some(v),
        _ => None,
    }
}

#[test]
fn miss_fetches_stores_and_serves_for_a_day() {
    let key = detail_key("sourceA", "42");
    let mut doc = serde_json::Map::new();
    doc.insert("title".to_string(), text("X"));
    doc.insert("synopsis".to_string(), text("Y"));
    doc.insert("pageCount".to_string(), Value::from(5));
    let doc = Value::Object(doc);

    let mut cache = Cache::new();
    let t0 = 50_000u64;
    let (mut read, step) = ReadThrough::start(&mut cache, &key, DETAIL_TTL_SECS, t0);
    assert!(matches!(step, ReadStep::Fetch));
    let step = read.on_fetched(&mut cache, Ok(doc.clone()), t0);
    assert_eq!(served(step), Some(doc.clone()));

    let day = 24 * 3_600_000;
    let (_, again) = ReadThrough::start(&mut cache, &key, DETAIL_TTL_SECS, t0 + day);
    assert_eq!(served(again), Some(doc.clone()));
    let (_, later) = ReadThrough::start(&mut cache, &key, DETAIL_TTL_SECS, t0 + day + 1);
    assert!(matches!(later, ReadStep::Fetch));
    assert_eq!(cache.len(), 0);
}

#[test]
fn fetch_retried_with_backoff_then_stored() {
    let mut cache = Cache::new();
    let (mut read, step) = ReadThrough::start(&mut cache, "k", 60, 0);
    assert!(matches!(step, ReadStep::Fetch));
    assert!(matches!(read.on_fetched(&mut cache, fail("a"), 0), ReadStep::Backoff { delay_ms: 500 }));
    assert!(matches!(read.on_fetched(&mut cache, fail("b"), 500), ReadStep::Backoff { delay_ms: 1000 }));
    assert_eq!(cache.len(), 0);
    let step = read.on_fetched(&mut cache, Ok(text("v")), 1_500);
    assert_eq!(served(step), Some(text("v")));
    assert_eq!(cache.get("k", 61_500), Some(text("v")));
    assert_eq!(cache.get("k", 61_501), None);
}

#[test]
fn three_failed_fetches_fail_and_leave_cache_alone() {
    let mut cache = Cache::new();
    cache.set("other", text("o"), None, 0);
    let (mut read, _) = ReadThrough::start(&mut cache, "k", 60, 0);
    assert!(matches!(read.on_fetched(&mut cache, fail("a"), 0), ReadStep::Backoff { .. }));
    assert!(matches!(read.on_fetched(&mut cache, fail("b"), 0), ReadStep::Backoff { .. }));
    match read.on_fetched(&mut cache, fail("c"), 0) {
        ReadStep::Fail(e) => assert_eq!(e, AppError::Upstream("c".to_string())),
        _ => panic!("a third failure must end the read"),
    }
    assert_eq!(cache.len(), 1);
    assert_eq!(cache.get("k", 0), None);
}

#[test]
fn refresh_skips_cache_read_but_stores() {
    let mut cache = Cache::new();
    cache.set("k", text("old"), Some(100), 0);
    let mut read = ReadThrough::refresh("k", 100);
    let step = read.on_fetched(&mut cache, Ok(text("new")), 10);
    assert_eq!(served(step), Some(text("new")));
    assert_eq!(cache.len(), 1);
    assert_eq!(cache.get("k", 100_010), Some(text("new")));
}

#[test]
fn hit_serves_without_fetch() {
    let mut cache = Cache::new();
    cache.set("k", text("v"), None, 0);
    let (_, step) = ReadThrough::start(&mut cache, "k", 10, 99);
    assert_eq!(served(step), Some(text("v")));
}
