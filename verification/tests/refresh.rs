use stocks_api::refresh::{
    get_sync_state, judge_gate, latest_change, rates_are_current, refresh_all, refresh_dividends_for_symbols,
    refresh_gate, refresh_should_stamp, sync_fx_history, DividendRefreshResult, Gate, PairOutcome,
};
use stocks_api::textmap::TextMap;

#[test]
fn refresh_stamp_decision_table() {
    assert!(!refresh_should_stamp(true, false), "attempted but everything failed: retry allowed");
    assert!(refresh_should_stamp(true, true), "attempted and something succeeded");
    assert!(refresh_should_stamp(false, false), "nothing to do is done");
    assert!(refresh_should_stamp(false, true), "dividends-only work still counts");
}

fn no_dividends() -> DividendRefreshResult {
    DividendRefreshResult { updated: 0, errors: vec![] }
}

fn runs(gate: Gate) -> bool {
    matches!(gate, Gate::Run)
}

#[test]
fn refresh_debounce_scenario() {
    let first = "2026-07-01T10:00:00+00:00";
    assert!(runs(refresh_gate(None, None, first, false)), "first call runs");
    let report = refresh_all(&Ok(vec![]), &Ok(vec![]), &Ok(vec![]), &no_dividends());
    assert!(report.stamp, "empty-portfolio run must stamp");

    match refresh_gate(None, Some(first), "2026-07-01T10:09:59+00:00", false) {
        Gate::Debounced(last) => assert_eq!(last, first),
        other => panic!("{other:?}"),
    }
    assert!(runs(refresh_gate(Some(true), Some(first), "2026-07-01T10:00:01+00:00", false)));
    assert!(runs(refresh_gate(None, Some(first), "2026-07-01T10:10:01+00:00", false)), "expired window runs again");
    assert!(runs(refresh_gate(None, Some("not a time"), first, false)));
    match refresh_gate(Some(true), Some(first), first, true) {
        Gate::InProgress => {}
        other => panic!("{other:?}"),
    }
    assert!(runs(judge_gate(Some(false), Some(first), Some(600), false)));
    assert!(matches!(judge_gate(None, Some(first), Some(599), true), Gate::Debounced(_)));
}

#[test]
fn times_in_other_zones_are_compared_as_times() {
    let last = "2026-07-01T10:00:00+00:00";
    assert!(matches!(
        refresh_gate(None, Some(last), "2026-07-01T20:05:00+10:00", false),
        Gate::Debounced(_)
    ));
}

#[test]
fn a_refresh_reports_what_it_came_to() {
    let failed = |e: &str| Some(e.to_string());
    let report = refresh_all(
        &Ok(vec![None, failed("W1 failed")]),
        &Err("no holdings".to_string()),
        &Ok(vec![failed("delisted"), None]),
        &DividendRefreshResult { updated: 3, errors: vec!["D: gone".to_string()] },
    );
    assert_eq!(report.watchlist_prices, 2);
    assert_eq!(report.holdings_prices, 0);
    assert_eq!(report.sold_prices, 2);
    assert_eq!(report.dividends_updated, 3);
    assert_eq!(report.errors, vec!["W1 failed", "no holdings", "D: gone"]);
    assert!(report.stamp);
    assert_eq!(
        report.summary,
        "Refreshed 1 watchlist prices, 0 holdings prices, 1 sold prices, dividends for 3 symbols (3 error(s))"
    );
}

#[test]
fn a_total_failure_is_not_put_down() {
    let report = refresh_all(
        &Ok(vec![Some("x".to_string())]),
        &Ok(vec![]),
        &Ok(vec![None]),
        &no_dividends(),
    );
    assert!(!report.stamp);
}

#[test]
fn dividend_errors_stand_under_their_symbol() {
    let outcomes = vec![
        ("A".to_string(), Ok(())),
        ("B".to_string(), Err("timed out".to_string())),
    ];
    let (result, line) = refresh_dividends_for_symbols(&outcomes, 2);
    assert_eq!(result.updated, 1);
    assert_eq!(result.errors, vec!["B: timed out"]);
    assert_eq!(line, "Dividend refresh complete: 1/2 symbols updated, 1 error(s)");
}

#[test]
fn rates_are_fetched_when_a_later_one_can_be_expected() {
    assert!(rates_are_current(Some("2026-08-07"), "2026-08-07"));
    assert!(rates_are_current(Some("2026-08-08"), "2026-08-07"));
    assert!(!rates_are_current(Some("2026-08-06"), "2026-08-07"));
    assert!(!rates_are_current(None, "2026-08-07"));
    let report = sync_fx_history(
        vec!["GBP".to_string(), "USD".to_string()],
        &vec![
            ("GBPAUD=X".to_string(), PairOutcome::Skipped),
            ("USDAUD=X".to_string(), PairOutcome::Fetched(600)),
            ("EURAUD=X".to_string(), PairOutcome::FetchFailed("404".to_string())),
            ("NZDAUD=X".to_string(), PairOutcome::PersistFailed("locked".to_string())),
        ],
    );
    assert_eq!((report.fetched, report.skipped, report.bars_written), (1, 1, 600));
    assert_eq!(
        report.errors,
        vec![
            "FX rate history fetch failed for EURAUD=X: 404",
            "FX rates for NZDAUD=X could not be persisted: locked",
        ]
    );
}

#[test]
fn the_last_change_is_the_latest_of_its_tables() {
    let mut stamps = TextMap::new();
    stamps.insert("watchlist_symbols".to_string(), "2026-01-02T00:00:00Z".to_string());
    stamps.insert("watchlist_memberships".to_string(), "2026-01-03T00:00:00Z".to_string());
    assert_eq!(
        latest_change(&stamps, &["watchlist_symbols", "watchlist_memberships", "other"]).as_deref(),
        Some("2026-01-03T00:00:00Z")
    );
    assert_eq!(latest_change(&stamps, &["other"]), None);
}

#[test]
fn each_part_changes_with_its_own_tables() {
    let mut stamps = TextMap::new();
    for (table, day) in [
        ("holdings_transactions", "2026-01-02"),
        ("holdings_custom_fields", "2026-01-05"),
        ("watchlist_symbol_fields", "2026-01-03"),
        ("app_config", "2026-01-01"),
        ("prices", "2026-01-09"),
    ] {
        stamps.insert(table.to_string(), day.to_string());
    }
    let state = get_sync_state(&stamps);
    assert_eq!(state.holdings.as_deref(), Some("2026-01-05"));
    assert_eq!(state.watchlist.as_deref(), Some("2026-01-03"));
    assert_eq!(state.config.as_deref(), Some("2026-01-01"));
    assert_eq!(state.dividends, None);
    assert_eq!(state.symbol_info, None);
}
