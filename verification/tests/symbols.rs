use chrono::{Datelike, NaiveDate};
use stocks_api::number::{Formula, Number};
use stocks_api::symbols::{
    fx_pair_symbol, last_expected_trading_day, load_exited_symbols, load_holding_symbols,
    load_sold_symbols, normalize_symbol, parse_symbols, shares_held, TradeRow,
};

fn n(x: f64) -> Number {
    Number { bits: x.to_bits() }
}

fn f(x: Number) -> f64 {
    f64::from_bits(x.bits)
}

fn value(formula: &Formula) -> f64 {
    match formula {
        Formula::Value(x) => f(*x),
        Formula::Whole(w) => *w as f64,
        Formula::Sum(a, b) => value(a) + value(b),
        Formula::Difference(a, b) => value(a) - value(b),
        Formula::Product(a, b) => value(a) * value(b),
        Formula::Quotient(a, b) => value(a) / value(b),
        Formula::Opposite(a) => -value(a),
        Formula::Rounded(a) => value(a).round(),
    }
}

fn calc(formula: Formula) -> Number {
    n(value(&formula))
}

fn row(symbol: &str, kind: &str, quantity: f64) -> TradeRow {
    TradeRow {
        symbol: symbol.to_string(),
        transaction_type: kind.to_string(),
        quantity: Some(n(quantity)),
    }
}

#[test]
fn integration_load_holding_symbols_excludes_fully_sold() {
    let rows = vec![row("TST.AX", "purchase", 100.0), row("TST.AX", "sale", 100.0)];
    let symbols = load_holding_symbols(&rows, &calc);
    assert!(!symbols.contains(&"TST.AX".to_string()));
}

#[test]
fn exited_and_held_symbols_do_not_overlap() {
    let rows = vec![row("TST.AX", "purchase", 100.0), row("TST.AX", "sale", 100.0)];
    let exited = load_exited_symbols(&rows, &calc);
    let held = load_holding_symbols(&rows, &calc);
    assert_eq!(exited, vec!["TST.AX".to_string()]);
    assert!(held.is_empty());
    assert!(exited.iter().all(|s| !held.contains(s)));
}

#[test]
fn a_partly_sold_holding_is_not_treated_as_exited() {
    let rows = vec![row("TST.AX", "purchase", 100.0), row("TST.AX", "sale", 40.0)];
    assert!(load_exited_symbols(&rows, &calc).is_empty());
    assert_eq!(load_holding_symbols(&rows, &calc), vec!["TST.AX".to_string()]);
}

#[test]
fn a_never_sold_symbol_is_not_exited() {
    let rows = vec![row("TST.AX", "purchase", 100.0)];
    assert!(load_exited_symbols(&rows, &calc).is_empty());
}

#[test]
fn integration_load_holding_symbols_includes_partial_holding() {
    let rows = vec![row("TST.AX", "purchase", 100.0), row("TST.AX", "sale", 40.0)];
    let symbols = load_holding_symbols(&rows, &calc);
    assert!(symbols.contains(&"TST.AX".to_string()));
}

#[test]
fn symbols_come_in_order_and_once() {
    let rows = vec![
        row("ZZZ.AX", "purchase", 1.0),
        row("AAA.AX", "purchase", 1.0),
        row("ZZZ.AX", "purchase", 1.0),
        row("MMM.AX", "purchase", 5.0),
        row("MMM.AX", "sale", 5.0),
    ];
    assert_eq!(load_holding_symbols(&rows, &calc), vec!["AAA.AX", "ZZZ.AX"]);
    assert_eq!(load_sold_symbols(&rows, &calc), vec!["MMM.AX"]);
    assert_eq!(load_exited_symbols(&rows, &calc), vec!["MMM.AX"]);
}

#[test]
fn a_symbol_is_trimmed_and_upper_case() {
    assert_eq!(normalize_symbol("  bhp.ax \t"), "BHP.AX");
    assert_eq!(normalize_symbol("stra\u{df}e"), "STRASSE");
    assert_eq!(normalize_symbol(" \u{2003} "), "");
}

#[test]
fn case_and_padding_make_one_symbol() {
    for written in [" tst.ax ", "TST.AX", "Tst.aX", "\u{2003}tst.AX\n"] {
        let stored = normalize_symbol(written);
        assert_eq!(stored, "TST.AX");
        assert_eq!(normalize_symbol(&stored), stored);
    }
}

#[test]
fn symbols_in_a_list_are_normalised() {
    assert_eq!(parse_symbols(" bhp.ax, ,cba.ax,"), vec!["BHP.AX", "CBA.AX"]);
    assert!(parse_symbols("").is_empty());
}

#[test]
fn fx_pair_symbol_builds_yahoo_pairs() {
    assert_eq!(fx_pair_symbol("usd"), "USDAUD=X");
    assert_eq!(fx_pair_symbol(" GBP "), "GBPAUD=X");
}

#[test]
fn last_expected_trading_day_table() {
    let cases: &[(u32, u32, &str, &str)] = &[
        (6, 0, "TST.AX", "2026-01-06"),
        (9, 23, "MSFT", "2026-01-09"),
        (3, 12, "TST.AX", "2026-01-02"),
        (4, 12, "MSFT", "2026-01-02"),
        (5, 6, "TST.AX", "2026-01-02"),
        (5, 7, "TST.AX", "2026-01-05"),
        (5, 9, "MSFT", "2026-01-02"),
        (5, 10, "MSFT", "2026-01-05"),
        (5, 8, "tst.ax", "2026-01-05"),
        (5, 8, "MSFT", "2026-01-02"),
    ];
    for (day, hour, symbol, expected) in cases {
        let date = NaiveDate::from_ymd_opt(2026, 1, *day).unwrap();
        assert_eq!(
            last_expected_trading_day(date.num_days_from_ce(), *hour, symbol).as_deref(),
            Some(*expected),
            "2026-01-{day:02} {hour:02}:00 UTC for {symbol}"
        );
    }
}

#[test]
fn the_shares_held_are_what_was_bought_less_what_was_sold() {
    let rows = vec![
        row("TST.AX", "purchase", 100.0),
        row("BHP.AX", "purchase", 7.0),
        row("TST.AX", "sale", 40.0),
        row("TST.AX", "dividend", 60.0),
    ];
    assert_eq!(f(shares_held(&rows, "TST.AX", &calc)), 60.0);
    assert_eq!(f(shares_held(&rows, "NONE", &calc)), 0.0);
}
