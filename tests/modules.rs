use novel_reader::config::{parse_decimal, parse_port, trim_trailing_slashes, Config, DEFAULT_DB_PATH, DEFAULT_PORT};
use novel_reader::error::AppError;
use novel_reader::keys::{
    detail_key, page_key, ranking_key, search_key, PAGE_TTL_SECS, RANKING_TTL_SECS, SEARCH_TTL_SECS,
};
use novel_reader::modules::{str_eq, ModuleType};
use novel_reader::ranking::{validate_period, DEFAULT_PERIOD};
use novel_reader::toc::{merge_listing_pages, number_episodes, page_position, SEQUENTIAL_PAGE_LIMIT};

#[test]
fn resolve_known_and_unknown_sources() {
    assert_eq!(ModuleType::resolve("narou"), Ok(ModuleType::Narou));
    assert_eq!(ModuleType::resolve("nocturne"), Ok(ModuleType::Nocturne));
    assert_eq!(ModuleType::resolve("kakuyomu"), Ok(ModuleType::Kakuyomu));
    assert_eq!(
        ModuleType::resolve("Narou"),
        Err(AppError::BadRequest("Invalid type".to_string()))
    );
    assert!(matches!(ModuleType::resolve(""), Err(AppError::BadRequest(_))));
}

#[test]
fn as_str_round_trips_through_resolve() {
    for m in [ModuleType::Narou, ModuleType::Nocturne, ModuleType::Kakuyomu] {
        assert_eq!(ModuleType::resolve(m.as_str()), Ok(m));
    }
    assert_eq!(ModuleType::Kakuyomu.as_str(), "kakuyomu");
}

#[test]
fn only_kakuyomu_lacks_bulk_lookup() {
    assert!(ModuleType::Narou.has_bulk_lookup());
    assert!(ModuleType::Nocturne.has_bulk_lookup());
    assert!(!ModuleType::Kakuyomu.has_bulk_lookup());
}

#[test]
fn str_eq_compares_characters() {
    assert!(str_eq("ノクターン", "ノクターン"));
    assert!(!str_eq("abc", "abd"));
    assert!(!str_eq("ab", "abc"));
    assert!(str_eq("", ""));
}

#[test]
fn validate_period_accepts_and_rejects() {
    for p in ["daily", "weekly", "monthly", "quarter", "yearly"] {
        assert_eq!(validate_period("narou", p), Ok(()));
    }
    assert_eq!(
        validate_period("narou", "hourly"),
        Err(AppError::BadRequest("Invalid period".to_string()))
    );
    assert_eq!(
        validate_period("kakuyomu", "quarter"),
        Err(AppError::BadRequest("kakuyomu does not support quarter ranking".to_string()))
    );
    assert_eq!(validate_period("kakuyomu", "yearly"), Ok(()));
    assert_eq!(DEFAULT_PERIOD, "daily");
}

#[test]
fn cache_keys_follow_layout() {
    assert_eq!(page_key("narou", "n1", "3"), "novel:narou:n1:page:3");
    assert_eq!(ranking_key("kakuyomu", "weekly"), "novel:kakuyomu:ranking:weekly");
    assert_eq!(search_key("nocturne", "魔法"), "novel:nocturne:search:魔法");
    assert_eq!(detail_key("narou", "x"), "novel:narou:x:detail");
    assert_eq!(PAGE_TTL_SECS, 86_400);
    assert_eq!(RANKING_TTL_SECS, 10_800);
    assert_eq!(SEARCH_TTL_SECS, 3_600);
}

#[test]
fn episodes_numbered_from_one() {
    let eps = number_episodes(&vec!["a".to_string(), "b".to_string()]);
    assert_eq!(eps.len(), 2);
    assert_eq!((eps[0].num, eps[0].title.as_str()), (1, "a"));
    assert_eq!((eps[1].num, eps[1].title.as_str()), (2, "b"));
    assert!(number_episodes(&Vec::new()).is_empty());
}

#[test]
fn listing_pages_numbered_as_one_table() {
    let pages = vec![
        vec!["first".to_string(), "second".to_string()],
        vec![],
        vec!["third".to_string()],
    ];
    let eps = merge_listing_pages(&pages);
    let got: Vec<(u64, &str)> = eps.iter().map(|e| (e.num, e.title.as_str())).collect();
    assert_eq!(got, vec![(1, "first"), (2, "second"), (3, "third")]);
}

#[test]
fn port_parsing() {
    assert_eq!(parse_port("8080"), Some(8080));
    assert_eq!(parse_port("+80"), Some(80));
    assert_eq!(parse_port("65535"), Some(65535));
    assert_eq!(parse_port("65536"), None);
    assert_eq!(parse_port("99999999999"), None);
    assert_eq!(parse_port(""), None);
    assert_eq!(parse_port("+"), None);
    assert_eq!(parse_port("8o"), None);
    assert_eq!(parse_port("-1"), None);
}

#[test]
fn trailing_slashes_trimmed() {
    assert_eq!(trim_trailing_slashes("/app//"), "/app");
    assert_eq!(trim_trailing_slashes("///"), "");
    assert_eq!(trim_trailing_slashes("/a/b"), "/a/b");
}

#[test]
fn config_from_values() {
    let c = Config::from_values(None, None, None).unwrap();
    assert_eq!(c.port, DEFAULT_PORT);
    assert_eq!(c.port, 3000);
    assert_eq!(c.base_path, "");
    assert_eq!(c.db_path, DEFAULT_DB_PATH);
    let c = Config::from_values(Some("8081"), Some("/novel/"), Some("/tmp/x.db")).unwrap();
    assert_eq!(c.port, 8081);
    assert_eq!(c.base_path, "/novel");
    assert_eq!(c.db_path, "/tmp/x.db");
    let c = Config::from_values(Some("junk"), Some("/"), None).unwrap();
    assert_eq!(c.port, 3000);
    assert_eq!(c.base_path, "");
    assert!(matches!(
        Config::from_values(None, Some("no-slash"), None),
        Err(AppError::BadRequest(_))
    ));
    assert!(matches!(
        Config::from_values(None, Some("/bad path"), None),
        Err(AppError::BadRequest(_))
    ));
}

#[test]
fn page_locator_positions() {
    assert_eq!(page_position("1"), Ok(Some(0)));
    assert_eq!(page_position("42"), Ok(Some(41)));
    assert_eq!(page_position("99999"), Ok(Some(99_998)));
    assert_eq!(page_position("100000"), Ok(None));
    assert_eq!(page_position("1177354054880238351"), Ok(None));
    assert_eq!(page_position("abc"), Ok(None));
    assert_eq!(page_position("0"), Err(()));
    assert_eq!(SEQUENTIAL_PAGE_LIMIT, 100_000);
}

#[test]
fn decimal_parsing_respects_bound() {
    assert_eq!(parse_decimal("10", 10), Some(10));
    assert_eq!(parse_decimal("11", 10), None);
    assert_eq!(parse_decimal("4294967295", u32::MAX), Some(u32::MAX));
    assert_eq!(parse_decimal("4294967296", u32::MAX), None);
    assert_eq!(parse_decimal("007", 10), Some(7));
}
