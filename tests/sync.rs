use novel_reader::error::AppError;
use novel_reader::modules::ModuleType;
use novel_reader::sync::{
    apply_batch, batch_pass, batch_should_fetch, Datum, FavoriteRecord, RoundRobin, RoundStep,
    BATCH_INTERVAL_MS, IDLE_SLEEP_MS, ROUND_ROBIN_BUDGET_MS,
};

fn record(source: ModuleType, id: &str) -> FavoriteRecord {
    FavoriteRecord {
        source,
        id: id.to_string(),
        title: "Old".to_string(),
        last_updated_at: Some("2025-01-01 00:00:00".to_string()),
        page_count: 4,
        read_progress: 2,
    }
}

fn datum(id: &str, title: Option<&str>, pages: Option<u64>, updated: Option<&str>) -> Datum {
    Datum {
        id: id.to_string(),
        title: title.map(|t| t.to_string()),
        page_count: pages,
        last_updated_at: updated.map(|t| t.to_string()),
    }
}

#[test]
fn merge_title_without_update_time_keeps_stored_time() {
    let mut r = record(ModuleType::Narou, "n1");
    r.merge(&datum("n1", Some("New"), None, None));
    assert_eq!(r.title, "New");
    assert_eq!(r.last_updated_at, Some("2025-01-01 00:00:00".to_string()));
    assert_eq!(r.page_count, 4);
    assert_eq!(r.read_progress, 2);
}

#[test]
fn merge_replaces_every_present_field() {
    let mut r = record(ModuleType::Kakuyomu, "k1");
    r.merge(&datum("k1", Some("T"), Some(9), Some("2026-02-02 10:00:00")));
    assert_eq!(r.title, "T");
    assert_eq!(r.page_count, 9);
    assert_eq!(r.last_updated_at, Some("2026-02-02 10:00:00".to_string()));
    assert_eq!(r.id, "k1");
}

#[test]
fn empty_datum_has_no_update() {
    assert!(!datum("x", None, None, None).has_update());
    assert!(datum("x", None, Some(0), None).has_update());
}

#[test]
fn batch_merges_matching_records_only() {
    let records = vec![
        record(ModuleType::Nocturne, "a"),
        record(ModuleType::Nocturne, "b"),
        record(ModuleType::Narou, "a"),
    ];
    let data = vec![datum("a", Some("A1"), Some(3), None), datum("a", None, None, Some("2026-01-01"))];
    let out = apply_batch(&records, ModuleType::Nocturne, &data);
    assert_eq!(out.len(), 3);
    assert_eq!(out[0].title, "A1");
    assert_eq!(out[0].page_count, 3);
    assert_eq!(out[0].last_updated_at, Some("2026-01-01".to_string()));
    assert_eq!(out[1].title, "Old");
    assert_eq!(out[2].title, "Old");
}

#[test]
fn failed_bulk_fetch_changes_nothing() {
    let records = vec![record(ModuleType::Narou, "a")];
    let out = batch_pass(&records, ModuleType::Narou, &Err(AppError::Upstream("down".to_string())));
    assert_eq!(out.len(), 1);
    assert_eq!(out[0].title, "Old");
    assert_eq!(out[0].page_count, 4);
    let ok = batch_pass(&records, ModuleType::Narou, &Ok(vec![datum("a", Some("New"), None, None)]));
    assert_eq!(ok[0].title, "New");
}

#[test]
fn batch_pass_skipped_without_favorites() {
    assert!(!batch_should_fetch(0));
    assert!(batch_should_fetch(2));
    assert_eq!(BATCH_INTERVAL_MS, 600_000);
}

#[test]
fn round_robin_spaces_three_ids_over_hour() {
    let mut rr = RoundRobin::new();
    for expected in [0usize, 1, 2, 0] {
        assert_eq!(rr.plan(3), RoundStep::Fetch { index: expected });
        assert_eq!(rr.finish(true), 1_200_000);
    }
    assert_eq!(ROUND_ROBIN_BUDGET_MS, 3_600_000);
}

#[test]
fn round_robin_shrinking_list_stays_in_range() {
    let mut rr = RoundRobin::new();
    assert_eq!(rr.plan(3), RoundStep::Fetch { index: 0 });
    assert_eq!(rr.finish(true), 1_200_000);
    assert_eq!(rr.plan(3), RoundStep::Fetch { index: 1 });
    assert_eq!(rr.finish(true), 1_200_000);
    assert_eq!(rr.cursor(), 2);
    assert_eq!(rr.plan(1), RoundStep::Fetch { index: 0 });
    assert_eq!(rr.finish(true), 3_600_000);
}

#[test]
fn round_robin_failure_retries_same_id() {
    let mut rr = RoundRobin::new();
    assert_eq!(rr.plan(2), RoundStep::Fetch { index: 0 });
    assert_eq!(rr.finish(true), 1_800_000);
    assert_eq!(rr.plan(2), RoundStep::Fetch { index: 1 });
    assert_eq!(rr.finish(false), IDLE_SLEEP_MS);
    assert_eq!(rr.plan(2), RoundStep::Fetch { index: 1 });
}

#[test]
fn empty_favorites_sleep_and_never_fetch() {
    let mut rr = RoundRobin::new();
    assert_eq!(rr.plan(2), RoundStep::Fetch { index: 0 });
    assert_eq!(rr.finish(true), 1_800_000);
    for _ in 0..5 {
        assert_eq!(rr.plan(0), RoundStep::Idle { sleep_ms: 60_000 });
        assert_eq!(rr.cursor(), 1);
    }
    assert_eq!(rr.plan(4), RoundStep::Fetch { index: 1 });
}
