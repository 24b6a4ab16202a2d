use chrono::{Datelike, NaiveDate};
use stocks_api::fields::DayClose;
use stocks_api::history::{
    build_portfolio_history, days_between, history_floor, history_range, history_start,
    history_summary, DailyValue, HistoryAccount, HistoryCash, HistoryInputs,
    HistoryTrade, SeriesCursor,
};
use stocks_api::number::{Decimals, Formula, Number};
use stocks_api::settle::{trade_cash_legs, StoredTrade};
use stocks_api::textmap::TextMap;

fn n(x: f64) -> Number {
    Number { bits: x.to_bits() }
}

fn f(x: Number) -> f64 {
    f64::from_bits(x.bits)
}

fn value(formula: &Formula) -> f64 {
    match formula {
        Formula::Value(x) => f(*x),
        Formula::Whole(w) => *w as f64,
        Formula::Sum(a, b) => value(a) + value(b),
        Formula::Difference(a, b) => value(a) - value(b),
        Formula::Product(a, b) => value(a) * value(b),
        Formula::Quotient(a, b) => value(a) / value(b),
        Formula::Opposite(a) => -value(a),
        Formula::Rounded(a) => value(a).round(),
    }
}

fn calc(formula: Formula) -> Number {
    n(value(&formula))
}

fn render(x: Number, decimals: Decimals) -> String {
    match decimals {
        Decimals::Fixed(places) => format!("{:.*}", places as usize, f(x)),
        Decimals::Shortest => format!("{}", f(x)),
    }
}

fn empty() -> HistoryInputs {
    HistoryInputs {
        trades: vec![],
        cash: vec![],
        accounts: vec![],
        currencies: TextMap::new(),
        closes: TextMap::new(),
        quotes: TextMap::new(),
        manual: TextMap::new(),
    }
}

fn buy(symbol: &str, date: &str, quantity: f64, price: f64, settled: bool) -> HistoryTrade {
    HistoryTrade {
        date: date.to_string(),
        symbol: symbol.to_string(),
        transaction_type: "purchase".to_string(),
        quantity: n(quantity),
        price: n(price),
        brokerage: n(0.0),
        has_cash_leg: settled,
    }
}

fn deposit(account_id: i64, date: &str, amount: f64) -> HistoryCash {
    HistoryCash { date: date.to_string(), account_id, amount: n(amount), kind: "deposit".to_string() }
}

fn closes(points: &[(&str, f64)]) -> Vec<DayClose> {
    points.iter().map(|(date, close)| DayClose { date: date.to_string(), close: n(*close) }).collect()
}

fn account(id: i64, currency: &str) -> HistoryAccount {
    HistoryAccount { id, currency: currency.to_string() }
}

fn build(h: HistoryInputs, from: Option<&str>, to: Option<&str>) -> Vec<DailyValue> {
    build_portfolio_history(h, from, to, "2026-07-31", &calc).unwrap()
}

fn on<'a>(series: &'a [DailyValue], date: &str) -> &'a DailyValue {
    series.iter().find(|p| p.date == date).unwrap_or_else(|| panic!("no point for {date}"))
}

fn total(day: &DailyValue) -> f64 {
    f(day.stocks) + f(day.cash)
}

fn stored(symbol: &str, quantity: f64, price: f64, account: i64) -> StoredTrade {
    StoredTrade {
        cash_account_id: Some(account),
        transaction_type: "purchase".to_string(),
        date: "2026-03-02".to_string(),
        symbol: symbol.to_string(),
        quantity: Some(n(quantity)),
        price: Some(n(price)),
        original_price: None,
        fx_rate: None,
        brokerage: None,
        amount: None,
        currency: None,
        withholding_amount: None,
        notes: None,
    }
}

fn legs(trade: &StoredTrade, currency: &str) -> Vec<HistoryCash> {
    trade_cash_legs(trade, Some(currency), None, None, &calc, &render)
        .unwrap()
        .into_iter()
        .map(|leg| HistoryCash {
            date: leg.date,
            account_id: leg.account_id,
            amount: leg.amount,
            kind: leg.kind,
        })
        .collect()
}

#[test]
fn history_values_holdings_at_each_day_close() {
    let mut h = empty();
    h.accounts = vec![account(1, "AUD")];
    h.cash = vec![deposit(1, "2026-03-02", 1000.0)];
    h.cash.extend(legs(&stored("BHP.AX", 10.0, 40.0, 1), "AUD"));
    h.trades = vec![buy("BHP.AX", "2026-03-02", 10.0, 40.0, true)];
    h.closes.insert("BHP.AX".to_string(), closes(&[("2026-03-02", 40.0), ("2026-03-03", 44.0)]));

    let series = build(h, None, Some("2026-03-04"));
    let d2 = on(&series, "2026-03-02");
    assert!((f(d2.stocks) - 400.0).abs() < 1e-9);
    assert!((f(d2.cash) - 600.0).abs() < 1e-9);
    assert!((f(d2.flow) - 1000.0).abs() < 1e-9, "only the deposit is a flow");
    let d3 = on(&series, "2026-03-03");
    assert!((f(d3.stocks) - 440.0).abs() < 1e-9);
    assert!(f(d3.flow).abs() < 1e-9, "a price rise is not a flow");
    assert!((f(on(&series, "2026-03-04").stocks) - 440.0).abs() < 1e-9, "close carries forward");
}

#[test]
fn trades_without_a_cash_leg_count_as_external_funding() {
    let mut h = empty();
    let mut trade = buy("BHP.AX", "2026-03-02", 10.0, 40.0, false);
    trade.brokerage = n(9.5);
    h.trades = vec![trade];
    h.closes.insert("BHP.AX".to_string(), closes(&[("2026-03-02", 40.0), ("2026-03-03", 44.0)]));
    let series = build(h, None, Some("2026-03-03"));
    let funded = on(&series, "2026-03-02");
    assert!((f(funded.flow) - 409.5).abs() < 1e-9, "cost plus brokerage entered the portfolio");
    assert!((total(funded) - 400.0).abs() < 1e-9);
}

#[test]
fn history_converts_foreign_holdings_and_cash_to_aud() {
    let mut h = empty();
    h.accounts = vec![account(1, "USD")];
    h.cash = vec![deposit(1, "2026-03-02", 500.0)];
    let mut trade = stored("AAPL", 10.0, 150.0, 1);
    trade.currency = Some("USD".to_string());
    trade.original_price = Some(n(100.0));
    trade.fx_rate = Some(n(1.5));
    h.cash.extend(legs(&trade, "USD"));
    h.trades = vec![buy("AAPL", "2026-03-02", 10.0, 150.0, true)];
    h.currencies.insert("AAPL".to_string(), "USD".to_string());
    h.closes.insert("AAPL".to_string(), closes(&[("2026-03-02", 100.0)]));
    h.closes.insert("USDAUD=X".to_string(), closes(&[("2026-03-02", 1.5)]));
    let series = build(h, None, Some("2026-03-02"));
    let day = on(&series, "2026-03-02");
    assert!((f(day.stocks) - 1500.0).abs() < 1e-9, "stocks {}", f(day.stocks));
    assert!((f(day.cash) - -750.0).abs() < 1e-9, "cash {}", f(day.cash));
    assert!((f(day.flow) - 750.0).abs() < 1e-9, "the US$500 deposit in AUD");
}

#[test]
fn history_excludes_accounts_not_in_the_portfolio() {
    let mut h = empty();
    h.accounts = vec![account(1, "AUD")];
    h.cash = vec![deposit(1, "2026-03-02", 1000.0), deposit(2, "2026-03-02", 9999.0)];
    let series = build(h, None, Some("2026-03-02"));
    let day = on(&series, "2026-03-02");
    assert!((f(day.cash) - 1000.0).abs() < 1e-9, "excluded account leaked in: {}", f(day.cash));
    assert!((f(day.flow) - 1000.0).abs() < 1e-9);
}

#[test]
fn only_deposits_and_withdrawals_are_flows() {
    for (kind, flow) in [
        ("deposit", 1000.0),
        ("withdrawal", 1000.0),
        ("opening_balance", 0.0),
        ("dividend", 0.0),
        ("interest", 0.0),
        ("fee", 0.0),
        ("fx_in", 0.0),
        ("adjustment", 0.0),
    ] {
        let mut h = empty();
        h.accounts = vec![account(1, "AUD")];
        h.cash = vec![deposit(1, "2026-03-02", 1000.0)];
        h.cash[0].kind = kind.to_string();
        let series = build(h, None, Some("2026-03-02"));
        let day = on(&series, "2026-03-02");
        assert_eq!((f(day.cash), f(day.flow)), (1000.0, flow), "{kind}");
    }
}

#[test]
fn history_window_carries_the_opening_position() {
    let mut h = empty();
    h.trades = vec![buy("BHP.AX", "2026-03-01", 10.0, 40.0, false)];
    h.closes.insert("BHP.AX".to_string(), closes(&[("2026-03-01", 40.0), ("2026-03-05", 50.0)]));
    let series = build(h, Some("2026-03-05"), Some("2026-03-05"));
    assert_eq!(series.len(), 2);
    assert_eq!(series[0].date, "2026-03-04", "element 0 is the anchor day");
    assert!((f(series[1].stocks) - 500.0).abs() < 1e-9);
    assert!(f(series[1].flow).abs() < 1e-9);
}

#[test]
fn history_accounting_reconciles_from_an_empty_start() {
    let mut h = empty();
    h.trades = vec![buy("BHP.AX", "2026-03-02", 10.0, 40.0, false)];
    h.closes.insert("BHP.AX".to_string(), closes(&[("2026-03-02", 40.0), ("2026-03-03", 44.0)]));
    let series = build(h, None, Some("2026-03-03"));
    let contributions: f64 = series[1..].iter().map(|p| f(p.flow)).sum();
    let summary = history_summary(&series, n(contributions), Some(n(0.10)), &calc);
    let (opening, gain, end) =
        (f(summary.opening_value), f(summary.gain), f(summary.end_value));
    assert!(opening.abs() < 1e-9, "nothing was held before the first trade");
    assert!((contributions - 400.0).abs() < 1e-9);
    assert!((gain - 40.0).abs() < 1e-9, "the 10% rise on $400");
    assert!((opening + contributions + gain - end).abs() < 1e-9, "books must balance");
    assert_eq!(summary.start_date.as_deref(), Some("2026-03-02"));
    assert_eq!(summary.end_date.as_deref(), Some("2026-03-03"));
    assert_eq!(summary.twr_pct.map(f), Some(10.0));
}

#[test]
fn the_summary_of_nothing_is_nothing() {
    let summary = history_summary(&vec![], n(0.0), None, &calc);
    assert_eq!(summary.start_date, None);
    assert_eq!(summary.end_date, None);
    assert_eq!(f(summary.opening_value), 0.0);
    assert_eq!(f(summary.end_value), 0.0);
    assert_eq!(summary.twr_pct, None);
}

#[test]
fn history_uses_a_manual_price_once_the_bars_stop() {
    let mut h = empty();
    h.trades = vec![buy("DEAD.AX", "2026-03-01", 10.0, 100.0, false)];
    h.closes.insert("DEAD.AX".to_string(), closes(&[("2026-03-01", 100.0), ("2026-03-02", 90.0)]));
    h.manual.insert("DEAD.AX".to_string(), n(120.5));
    let series = build(h, None, Some("2026-03-04"));
    assert!((f(on(&series, "2026-03-01").stocks) - 1000.0).abs() < 1e-9);
    assert!((f(on(&series, "2026-03-02").stocks) - 900.0).abs() < 1e-9);
    assert!((f(on(&series, "2026-03-03").stocks) - 1205.0).abs() < 1e-9);
    assert!((f(on(&series, "2026-03-04").stocks) - 1205.0).abs() < 1e-9);
}

#[test]
fn history_is_empty_without_any_transactions() {
    assert!(build(empty(), None, None).is_empty());
}

#[test]
fn history_rejects_a_backwards_range() {
    let mut h = empty();
    h.trades = vec![buy("BHP.AX", "2026-03-01", 1.0, 1.0, false)];
    let r = build_portfolio_history(h, Some("2026-03-05"), Some("2026-03-01"), "2026-07-31", &calc);
    assert!(r.is_err());
}

#[test]
fn the_charts_last_point_matches_the_holdings_total() {
    let today = "2026-07-31";
    let mut h = empty();
    h.trades = vec![buy("USX", "2026-01-05", 10.0, 150.0, false)];
    h.currencies.insert("USX".to_string(), "USD".to_string());
    h.closes.insert("USX".to_string(), closes(&[(today, 100.0)]));
    h.closes.insert("USDAUD=X".to_string(), closes(&[(today, 1.5)]));
    h.quotes.insert("USX".to_string(), n(110.0));
    h.quotes.insert("USDAUD=X".to_string(), n(1.6));
    let series = build_portfolio_history(h, None, None, today, &calc).unwrap();
    let last = series.last().unwrap();
    assert_eq!(last.date, today);
    assert!((f(last.stocks) - 1760.0).abs() < 0.01, "chart ends at {}", f(last.stocks));
}

fn fixture() -> HistoryInputs {
    let mut h = empty();
    h.trades = vec![
        buy("MAN.AX", "2026-01-05", 100.0, 10.0, false),
        buy("TRL.AX", "2026-02-02", 50.0, 20.0, false),
    ];
    h.closes.insert("MAN.AX".to_string(), closes(&[("2025-08-01", 10.0)]));
    h.closes.insert("TRL.AX".to_string(), closes(&[("2026-02-02", 30.0)]));
    h
}

fn floored(floor: &str, from: Option<&str>) -> (Option<String>, Option<String>) {
    let h = fixture();
    let floor = history_floor(Some(floor));
    let from = history_start(from, floor);
    let series = build(h, from, None);
    let summary = history_summary(&series, n(0.0), None, &calc);
    (summary.start_date, floor.map(|s| s.to_string()))
}

#[test]
fn history_without_a_floor_starts_at_the_first_transaction() {
    for value in ["", "   "] {
        let (start, floor) = floored(value, None);
        assert_eq!(start.as_deref(), Some("2026-01-05"), "earliest holding transaction");
        assert_eq!(floor, None);
    }
}

#[test]
fn a_floor_truncates_the_unbounded_range() {
    let (start, floor) = floored("2026-03-01", None);
    assert_eq!(start.as_deref(), Some("2026-03-01"));
    assert_eq!(floor.as_deref(), Some("2026-03-01"));
}

#[test]
fn a_floor_raises_an_earlier_requested_range() {
    let (start, _) = floored("2026-03-01", Some("2020-01-01"));
    assert_eq!(start.as_deref(), Some("2026-03-01"), "the request is raised to the floor");
}

#[test]
fn a_floor_leaves_a_later_range_untouched() {
    let (start, _) = floored("2026-01-01", Some("2026-05-01"));
    assert_eq!(start.as_deref(), Some("2026-05-01"));
}

#[test]
fn a_floor_rebases_the_opening_value() {
    let wide = history_summary(&build(fixture(), None, None), n(0.0), None, &calc);
    let narrow = history_summary(&build(fixture(), Some("2026-03-01"), None), n(0.0), None, &calc);
    assert_eq!(f(wide.opening_value), 0.0);
    assert_eq!(f(narrow.opening_value), 2500.0, "the anchor moves with the window");
}

#[test]
fn a_series_is_read_as_of_the_day() {
    let points = closes(&[("2026-03-02", 1.0), ("2026-03-05", 2.0)]);
    let mut cursor = SeriesCursor::new(&points);
    assert_eq!(cursor.value_on("2026-03-01"), None);
    assert_eq!(cursor.value_on("2026-03-04").map(f), Some(1.0));
    assert_eq!(cursor.value_on("2026-03-05").map(f), Some(2.0));
    assert!(!cursor.is_past_end("2026-03-05"));
    assert!(cursor.is_past_end("2026-03-06"));
}

#[test]
fn days_are_written_out_one_by_one() {
    let first = NaiveDate::from_ymd_opt(2024, 2, 28).unwrap().num_days_from_ce();
    assert_eq!(days_between(first, first + 2), vec!["2024-02-28", "2024-02-29", "2024-03-01"]);
    assert!(history_range(Some(first), None).is_err());
    assert!(history_range(None, Some(first)).is_err());
}
