use chrono::{Datelike, NaiveDate};
use stocks_api::dividends::{
    calculate_dividend_payments, calculate_dividend_totals, calculate_shares_on_date,
    dedupe_dividend_events, read_dividends, sort_events, store_dividend_events_for_symbol,
    DividendEntry, DividendEvent, HeldTrade,
};
use stocks_api::number::{Formula, Number};

fn n(x: f64) -> Number {
    Number { bits: x.to_bits() }
}

fn f(x: Number) -> f64 {
    f64::from_bits(x.bits)
}

fn value(formula: &Formula) -> f64 {
    match formula {
        Formula::Value(x) => f(*x),
        Formula::Whole(w) => *w as f64,
        Formula::Sum(a, b) => value(a) + value(b),
        Formula::Difference(a, b) => value(a) - value(b),
        Formula::Product(a, b) => value(a) * value(b),
        Formula::Quotient(a, b) => value(a) / value(b),
        Formula::Opposite(a) => -value(a),
        Formula::Rounded(a) => value(a).round(),
    }
}

fn calc(formula: Formula) -> Number {
    n(value(&formula))
}

fn day(date: &str) -> i32 {
    NaiveDate::parse_from_str(date, "%Y-%m-%d").unwrap().num_days_from_ce()
}

fn date_of(day: i32) -> String {
    NaiveDate::from_num_days_from_ce_opt(day).unwrap().format("%Y-%m-%d").to_string()
}

fn tx(kind: &str, date: &str, quantity: f64) -> HeldTrade {
    HeldTrade {
        symbol: "TST.AX".to_string(),
        transaction_type: kind.to_string(),
        date: date.to_string(),
        quantity: Some(n(quantity)),
        currency: "AUD".to_string(),
    }
}

fn event_of(symbol: &str, ex_date: &str, amount: f64) -> DividendEvent {
    DividendEvent {
        symbol: symbol.to_string(),
        ex_date: day(ex_date),
        payment_date: None,
        record_date: None,
        amount: n(amount),
        fetched_at: "2026-08-14T00:00:00Z".to_string(),
    }
}

fn event(ex_date: &str, amount: f64) -> DividendEvent {
    event_of("TST.AX", ex_date, amount)
}

fn shares(trades: &Vec<HeldTrade>, date: &str) -> f64 {
    f(calculate_shares_on_date(trades, "TST.AX", date, &calc))
}

fn dates(events: &[DividendEvent]) -> Vec<String> {
    events.iter().map(|e| date_of(e.ex_date)).collect()
}

fn stored(events: &[DividendEvent]) -> Vec<(String, f64)> {
    events.iter().map(|e| (date_of(e.ex_date), f(e.amount))).collect()
}

#[test]
fn refetching_dividends_replaces_the_symbols_history() {
    let store = |table: Vec<DividendEvent>, events: Vec<DividendEvent>| {
        store_dividend_events_for_symbol(table, "TST.AX", &events, &calc)
    };
    let kept = store(Vec::new(), vec![event("2025-02-27", 0.10)]);
    assert_eq!(stored(&kept), vec![("2025-02-27".to_string(), 0.10)]);

    let kept = store(kept, vec![event("2025-02-28", 0.10)]);
    assert_eq!(stored(&kept), vec![("2025-02-28".to_string(), 0.10)]);

    let kept = store(kept, Vec::new());
    assert_eq!(stored(&kept), vec![("2025-02-28".to_string(), 0.10)]);
}

#[test]
fn duplicate_dividend_reports_collapse_to_the_earliest() {
    let ev = |ex_date: &str, amount: f64| event_of("VAE.AX", ex_date, amount);
    assert_eq!(
        dates(&dedupe_dividend_events(
            &vec![ev("2025-07-02", 0.677876), ev("2025-07-01", 0.677876)],
            &calc
        )),
        vec!["2025-07-01"]
    );
    assert_eq!(
        dates(&dedupe_dividend_events(
            &vec![ev("2024-10-01", 0.72522), ev("2024-10-04", 0.72522)],
            &calc
        )),
        vec!["2024-10-01"]
    );
    assert_eq!(
        dates(&dedupe_dividend_events(&vec![ev("2025-01-02", 0.5), ev("2025-04-01", 0.5)], &calc))
            .len(),
        2
    );
    assert_eq!(
        dates(&dedupe_dividend_events(
            &vec![ev("2025-07-01", 0.10), ev("2025-07-02", 0.25)],
            &calc
        ))
        .len(),
        2
    );
}

#[test]
fn shares_on_date_single_purchase() {
    let txs = vec![tx("purchase", "2024-01-15", 100.0)];
    assert_eq!(shares(&txs, "2024-02-01"), 100.0);
}

#[test]
fn shares_on_date_before_purchase() {
    let txs = vec![tx("purchase", "2024-03-01", 100.0)];
    assert_eq!(shares(&txs, "2024-02-01"), 0.0);
}

#[test]
fn shares_on_date_on_purchase_day() {
    let txs = vec![tx("purchase", "2024-02-01", 100.0)];
    assert_eq!(shares(&txs, "2024-02-01"), 100.0);
}

#[test]
fn shares_on_date_after_partial_sale() {
    let txs = vec![tx("purchase", "2024-01-01", 200.0), tx("sale", "2024-03-01", 50.0)];
    assert_eq!(shares(&txs, "2024-04-01"), 150.0);
}

#[test]
fn shares_on_date_between_purchase_and_sale() {
    let txs = vec![tx("purchase", "2024-01-01", 200.0), tx("sale", "2024-06-01", 50.0)];
    assert_eq!(shares(&txs, "2024-03-01"), 200.0);
}

#[test]
fn shares_on_date_fully_sold_returns_zero() {
    let txs = vec![tx("purchase", "2024-01-01", 100.0), tx("sale", "2024-06-01", 100.0)];
    assert_eq!(shares(&txs, "2024-12-01"), 0.0);
}

#[test]
fn shares_on_date_multiple_purchases() {
    let txs = vec![tx("purchase", "2024-01-01", 100.0), tx("purchase", "2024-03-01", 50.0)];
    assert_eq!(shares(&txs, "2024-04-01"), 150.0);
}

#[test]
fn shares_of_another_symbol_do_not_count() {
    let mut other = tx("purchase", "2024-01-01", 100.0);
    other.symbol = "OTH.AX".to_string();
    assert_eq!(shares(&vec![other, tx("purchase", "2024-01-01", 7.0)], "2024-04-01"), 7.0);
}

#[test]
fn dividend_payment_for_shares_held() {
    let txs = vec![tx("purchase", "2024-01-01", 100.0)];
    let payments = calculate_dividend_payments(&txs, &vec![event("2024-06-01", 0.50)], &calc);
    assert_eq!(payments.len(), 1);
    assert_eq!(f(payments[0].shares_held), 100.0);
    assert!((f(payments[0].total_payment) - 50.0).abs() < 0.001);
}

#[test]
fn dividend_payment_before_purchase_is_zero() {
    let txs = vec![tx("purchase", "2024-07-01", 100.0)];
    let payments = calculate_dividend_payments(&txs, &vec![event("2024-06-01", 0.50)], &calc);
    assert_eq!(payments.len(), 0);
}

#[test]
fn dividend_payment_after_full_sale_is_zero() {
    let txs = vec![tx("purchase", "2024-01-01", 100.0), tx("sale", "2024-04-01", 100.0)];
    let payments = calculate_dividend_payments(&txs, &vec![event("2024-06-01", 0.50)], &calc);
    assert_eq!(payments.len(), 0);
}

#[test]
fn dividend_payment_proportional_to_shares_held() {
    let txs = vec![tx("purchase", "2024-01-01", 200.0), tx("sale", "2024-04-01", 100.0)];
    let payments = calculate_dividend_payments(&txs, &vec![event("2024-06-01", 0.50)], &calc);
    assert_eq!(payments.len(), 1);
    assert_eq!(f(payments[0].shares_held), 100.0);
    assert!((f(payments[0].total_payment) - 50.0).abs() < 0.001);
}

#[test]
fn dividend_payment_multiple_events() {
    let txs = vec![tx("purchase", "2024-01-01", 100.0)];
    let events = vec![event("2024-03-01", 0.30), event("2024-09-01", 0.35)];
    let payments = calculate_dividend_payments(&txs, &events, &calc);
    assert_eq!(payments.len(), 2);
    let total: f64 = payments.iter().map(|p| f(p.total_payment)).sum();
    assert!((total - 65.0).abs() < 0.001);
}

#[test]
fn integration_calculate_dividend_totals_filters_pre_purchase() {
    let txs = vec![tx("purchase", "2024-06-01", 100.0)];
    let events = vec![event("2024-01-01", 0.50), event("2024-09-01", 0.30)];
    let totals = calculate_dividend_totals(&txs, &events, &calc);
    let total = f(*totals.get(&txs[0].symbol).unwrap());
    assert!((total - 30.0).abs() < 0.001, "expected $30 dividend, got ${}", total);
}

#[test]
fn later_trades_leave_an_earlier_entitlement() {
    let txs = vec![tx("purchase", "2024-01-01", 100.0), tx("sale", "2024-07-01", 100.0)];
    let payments = calculate_dividend_payments(&txs, &vec![event("2024-06-01", 0.50)], &calc);
    assert_eq!(f(payments[0].shares_held), 100.0);
}

#[test]
fn events_are_sorted_by_day() {
    let sorted = sort_events(&vec![
        event("2024-09-01", 3.0),
        event("2024-03-01", 1.0),
        event("2024-03-01", 2.0),
    ]);
    assert_eq!(
        stored(&sorted),
        vec![
            ("2024-03-01".to_string(), 1.0),
            ("2024-03-01".to_string(), 2.0),
            ("2024-09-01".to_string(), 3.0),
        ]
    );
}

#[test]
fn a_dividend_answer_is_dated_where_it_is_traded() {
    let entry = DividendEntry {
        amount: Some(n(0.44)),
        date: Some(1767564000),
        ex_date: None,
        payment_date: None,
        record_date: None,
    };
    let events = read_dividends("TST.AX", &vec![entry], Some(39600), "now").unwrap();
    assert_eq!(stored(&events), vec![("2026-01-05".to_string(), 0.44)]);
    assert_eq!(events[0].symbol, "TST.AX");
    assert_eq!(events[0].fetched_at, "now");
}

#[test]
fn of_two_events_of_a_day_the_last_stays() {
    let fetched = vec![event("2024-09-01", 3.0), event("2024-03-01", 1.0), event("2024-03-01", 2.0)];
    let kept = store_dividend_events_for_symbol(vec![], "TST.AX", &fetched, &calc);
    assert_eq!(kept.iter().map(|e| f(e.amount)).collect::<Vec<_>>(), [2.0, 3.0]);
}

#[test]
fn storing_a_report_twice_changes_no_date_or_amount() {
    let report = || {
        vec![event("2024-09-01", 3.0), event("2024-03-01", 1.0), event("2024-03-01", 2.0), event("2024-09-03", 3.0)]
    };
    let table = vec![event_of("VAE.AX", "2024-03-01", 9.0), event("2020-01-01", 7.0)];
    let once = store_dividend_events_for_symbol(table, "TST.AX", &report(), &calc);
    let seen = |events: &[DividendEvent]| -> Vec<(String, String, f64)> {
        events.iter().map(|e| (e.symbol.clone(), date_of(e.ex_date), f(e.amount))).collect()
    };
    let expected = vec![
        ("VAE.AX".to_string(), "2024-03-01".to_string(), 9.0),
        ("TST.AX".to_string(), "2024-03-01".to_string(), 2.0),
        ("TST.AX".to_string(), "2024-09-01".to_string(), 3.0),
    ];
    assert_eq!(seen(&once), expected);
    let mut again = report();
    for e in again.iter_mut() {
        e.fetched_at = "later".to_string();
    }
    let twice = store_dividend_events_for_symbol(once, "TST.AX", &again, &calc);
    assert_eq!(seen(&twice), expected);
    assert_eq!(twice[1].fetched_at, "later");
}
