use stocks_api::access::{constant_time_eq, is_request_authorized, rewrite_v1_alias};
use stocks_api::debounce::{
    history_recently_checked, mark_history_checked, HistoryChecks, HISTORY_CHECK_TTL_SECS,
};
use stocks_api::events::{fetch_event_log, page_bounds, EventLogEntry, EventQuery};
use stocks_api::reply::Reason;

#[test]
fn constant_time_eq_cases() {
    assert!(constant_time_eq("secret-token", "secret-token"));
    assert!(constant_time_eq("", ""));
    assert!(!constant_time_eq("secret-token", "secret-tokeX"), "same length, different bytes");
    assert!(!constant_time_eq("secret", "secret-token"), "different lengths");
    assert!(!constant_time_eq("secret-token", ""), "empty guess");
    assert!(!constant_time_eq("\u{e9}", "\u{e8}"), "letters of more than one byte");
}

const TOKEN: Option<&str> = Some("secret-token");

/// Whether a request is let in, once a versioned path has been resolved.
fn passes(token: Option<&str>, method: &str, path: &str, header: Option<&str>) -> bool {
    let rewritten = rewrite_v1_alias(path, "");
    let path = rewritten.as_deref().unwrap_or(path);
    is_request_authorized(token, method == "OPTIONS", path, header)
}

#[test]
fn auth_gate_rejects_missing_wrong_and_malformed_tokens() {
    let lists = "/api/watchlist/lists";
    assert!(!passes(TOKEN, "GET", lists, None), "no header");
    assert_eq!(Reason::Unauthorized.status(), 401);
    assert_eq!(Reason::Unauthorized.code(), "unauthorized");
    assert!(!passes(TOKEN, "GET", lists, Some("Bearer wrong-token")), "wrong token");
    assert!(!passes(TOKEN, "GET", lists, Some("secret-token")), "missing Bearer prefix");
    assert!(passes(TOKEN, "GET", lists, Some("Bearer secret-token")), "correct token");
}

#[test]
fn auth_gate_exemptions_and_disabled_mode() {
    assert!(passes(TOKEN, "GET", "/api/health", None), "health is reachable without a token");
    assert!(passes(TOKEN, "GET", "/api/v1/health", None), "the versioned path is resolved first");
    assert!(passes(TOKEN, "OPTIONS", "/api/watchlist/lists", None), "preflights are let in");
    assert!(passes(None, "GET", "/api/watchlist/lists", None), "no configured token lets everyone in");
    assert!(passes(TOKEN, "GET", "/api/v1/openapi.json", None));
}

fn entry(id: i64, level: &str, symbol: Option<&str>) -> EventLogEntry {
    EventLogEntry {
        id,
        timestamp: "2026-01-01T00:00:00Z".to_string(),
        level: level.to_string(),
        source: "test".to_string(),
        event_type: "test".to_string(),
        symbol: symbol.map(|s| s.to_string()),
        details: None,
    }
}

fn query(page: Option<u32>, size: Option<u32>) -> EventQuery {
    EventQuery { page, size, level: None, source: None, event_type: None, symbol: None }
}

#[test]
fn v1_alias_rewrites_path_and_preserves_query() {
    assert_eq!(rewrite_v1_alias("/api/v1/events", "size=1").as_deref(), Some("/api/events?size=1"));
    assert_eq!(rewrite_v1_alias("/api/v1/events", "").as_deref(), Some("/api/events"));
    assert_eq!(rewrite_v1_alias("/api/events", "size=1"), None);
    let log = vec![entry(1, "info", None), entry(2, "info", None)];
    let (items, total) = fetch_event_log(log, &query(None, Some(1)));
    assert_eq!(items.len(), 1, "query string survives the rewrite");
    assert_eq!(items[0].id, 2, "the newest first");
    assert!(total >= 2);
    assert_eq!(
        rewrite_v1_alias("/api/v1/no-such-endpoint", "").as_deref(),
        Some("/api/no-such-endpoint")
    );
}

#[test]
fn pages_of_the_log_follow_on() {
    let log = || (1..=5).map(|id| entry(id, "info", None)).collect::<Vec<_>>();
    let ids = |page: u32| {
        fetch_event_log(log(), &query(Some(page), Some(2))).0.iter().map(|e| e.id).collect::<Vec<_>>()
    };
    assert_eq!(ids(1), vec![5, 4]);
    assert_eq!(ids(2), vec![3, 2]);
    assert_eq!(ids(3), vec![1]);
    assert!(ids(4).is_empty());
    assert_eq!(ids(0), vec![5, 4], "the first page where number 0 is asked for");
}

#[test]
fn the_log_is_filtered_before_it_is_counted() {
    let log = vec![entry(1, "error", Some("A")), entry(2, "info", Some("A")), entry(3, "error", None)];
    let mut q = query(None, None);
    q.level = Some("error".to_string());
    q.symbol = Some("A".to_string());
    let (items, total) = fetch_event_log(log, &q);
    assert_eq!((items.len(), total), (1, 1));
    assert_eq!(items[0].id, 1);
}

#[test]
fn page_sizes_are_bounded() {
    assert_eq!(page_bounds(&query(None, None)), (1, 50, 0));
    assert_eq!(page_bounds(&query(Some(3), Some(0))), (3, 1, 2));
    assert_eq!(page_bounds(&query(Some(2), Some(5000))), (2, 1000, 1000));
    assert_eq!(page_bounds(&query(Some(u32::MAX), Some(1000))).2, 4_294_967_294_000);
}

#[test]
fn history_check_debounces_within_ttl() {
    let mut checks = HistoryChecks::new();
    assert!(!history_recently_checked(&checks, "DEB1.TEST", 0), "unknown symbol is not debounced");
    mark_history_checked(&mut checks, "DEB1.TEST", 0);
    assert!(history_recently_checked(&checks, "DEB1.TEST", 0), "a fresh mark suppresses refetching");
    assert!(history_recently_checked(&checks, "DEB1.TEST", HISTORY_CHECK_TTL_SECS - 1));
}

#[test]
fn history_check_expires_after_ttl() {
    let mut checks = HistoryChecks::new();
    mark_history_checked(&mut checks, "DEB2.TEST", 0);
    assert!(
        !history_recently_checked(&checks, "DEB2.TEST", HISTORY_CHECK_TTL_SECS + 1),
        "an expired mark allows refetching"
    );
}

#[test]
fn history_check_map_prunes_stale_entries_past_capacity() {
    let mut checks = HistoryChecks::new();
    for i in 0..2100 {
        mark_history_checked(&mut checks, &format!("PRUNE{i}.TEST"), 0);
    }
    assert!(history_recently_checked(&checks, "PRUNE0.TEST", 0));
    let now = HISTORY_CHECK_TTL_SECS + 1;
    mark_history_checked(&mut checks, "PRUNE-TRIGGER.TEST", now);
    assert!(
        !history_recently_checked(&checks, "PRUNE0.TEST", 0),
        "stale entries are pruned once the map exceeds capacity"
    );
    assert!(
        history_recently_checked(&checks, "PRUNE-TRIGGER.TEST", now),
        "the fresh entry survives the prune"
    );
}
