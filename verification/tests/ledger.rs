use stocks_api::csv::{cash_account_csv, csv_field, export_file_name, CsvRow};
use stocks_api::dividends::HeldTrade;
use stocks_api::drawings::{check_drawing, check_move, chart_drawings, ChartDrawing, NewChartDrawing};
use stocks_api::number::{Decimals, Formula, Number};
use stocks_api::records::{transactions_ledger, ReportedDividend};
use stocks_api::reply::Reason;

fn n(x: f64) -> Number {
    Number { bits: x.to_bits() }
}

fn f(x: Number) -> f64 {
    f64::from_bits(x.bits)
}

fn value(formula: &Formula) -> f64 {
    match formula {
        Formula::Value(x) => f(*x),
        Formula::Whole(w) => *w as f64,
        Formula::Sum(a, b) => value(a) + value(b),
        Formula::Difference(a, b) => value(a) - value(b),
        Formula::Product(a, b) => value(a) * value(b),
        Formula::Quotient(a, b) => value(a) / value(b),
        Formula::Opposite(a) => -value(a),
        Formula::Rounded(a) => value(a).round(),
    }
}

fn calc(formula: Formula) -> Number {
    n(value(&formula))
}

fn render(x: Number, decimals: Decimals) -> String {
    match decimals {
        Decimals::Fixed(places) => format!("{:.*}", places as usize, f(x)),
        Decimals::Shortest => format!("{}", f(x)),
    }
}

fn drawing(id: i64, symbol: &str, kind: &str, price: f64, label: &str) -> ChartDrawing {
    ChartDrawing {
        id,
        symbol: symbol.to_string(),
        kind: kind.to_string(),
        price: n(price),
        label: Some(label.to_string()),
        colour: None,
        start_date: None,
        end_date: None,
        end_price: None,
        created_at: "2026-01-01T00:00:00Z".to_string(),
    }
}

fn level(price: f64) -> NewChartDrawing {
    NewChartDrawing { kind: None, price: n(price), start_date: None, end_date: None, end_price: None }
}

fn trend(start: Option<&str>, end: Option<&str>, end_price: Option<f64>) -> NewChartDrawing {
    NewChartDrawing {
        kind: Some("trend".to_string()),
        price: n(30.0),
        start_date: start.map(|s| s.to_string()),
        end_date: end.map(|s| s.to_string()),
        end_price: end_price.map(n),
    }
}

fn refused(d: &NewChartDrawing) -> bool {
    match check_drawing(d) {
        Err(r) => r.reason == Reason::BadRequest,
        Ok(_) => false,
    }
}

#[test]
fn chart_levels_round_trip_and_delete() {
    let rows = || {
        vec![
            drawing(1, "BHP.AX", "horizontal", 38.5, "support"),
            drawing(2, "BHP.AX", "horizontal", 45.0, "resistance"),
        ]
    };
    let drawings = chart_drawings(rows(), "BHP.AX");
    assert_eq!(drawings.len(), 2);
    assert_eq!(f(drawings[0].price), 45.0, "highest level first");
    assert_eq!(drawings[1].label.as_deref(), Some("support"));
    assert_eq!(check_drawing(&level(38.5)).unwrap(), "horizontal");
    assert!(chart_drawings(rows(), "RIO.AX").is_empty());
}

#[test]
fn a_trendline_needs_both_of_its_anchors() {
    assert!(refused(&trend(Some("2026-01-05"), None, None)), "no end anchor");
    assert!(refused(&trend(Some("2026-01-05"), Some("2026-03-05"), None)), "no end price");
    assert!(refused(&trend(Some("2026-01-05"), Some("2026-03-05"), Some(0.0))), "zero end price");
    assert!(refused(&trend(Some("2026-01-05"), Some("2026-01-05"), Some(40.0))), "same date twice");
    let mut squiggle = level(30.0);
    squiggle.kind = Some("squiggle".to_string());
    assert!(refused(&squiggle), "unknown kind");
    let good = trend(Some("2026-01-05"), Some("2026-03-05"), Some(42.5));
    assert_eq!(check_drawing(&good).unwrap(), "trend");
}

#[test]
fn a_horizontal_level_leaves_the_trend_anchors_empty() {
    assert_eq!(check_drawing(&level(38.5)).unwrap(), "horizontal");
}

#[test]
fn a_level_moves_to_a_new_price_and_a_trendline_does_not() {
    assert!(check_move(1, n(41.25), Some("horizontal")).is_ok());
    for bad in [0.0, -1.0] {
        assert_eq!(check_move(1, n(bad), Some("horizontal")).unwrap_err().reason.status(), 400);
    }
    assert_eq!(check_move(9999, n(40.0), None).unwrap_err().reason.status(), 404);
    assert_eq!(check_move(2, n(31.0), Some("trend")).unwrap_err().reason.status(), 400);
}

#[test]
fn a_chart_level_must_be_a_positive_price() {
    for bad in [0.0, -5.0, f64::NAN, f64::INFINITY] {
        assert!(refused(&level(bad)), "price {bad}");
    }
}

fn cash_row(date: &str, kind: &str, amount: f64, notes: Option<&str>) -> CsvRow {
    CsvRow {
        date: date.to_string(),
        kind: kind.to_string(),
        amount: n(amount),
        notes: notes.map(|s| s.to_string()),
        transfer_group_id: None,
        symbol: None,
        transaction_type: None,
    }
}

#[test]
fn the_cash_export_runs_a_balance_and_escapes_its_fields() {
    assert_eq!(export_file_name("CBA CDIA"), "cash-cba-cdia.csv");
    let rows = vec![
        cash_row("2026-06-05", "deposit", 10000.0, Some("Opening funds")),
        cash_row("2026-06-25", "trade_buy", -1509.0, Some("purchase SPCX, at 1.4189")),
        cash_row("2026-07-01", "interest", 11.37, None),
    ];
    let text = cash_account_csv("AUD", &rows, &calc, &render);
    let lines: Vec<&str> = text.lines().collect();
    assert_eq!(lines[0], "Date,Transaction,Description,Amount (AUD),Balance (AUD)");
    assert_eq!(lines[1], "2026-06-05,deposit,Opening funds,10000.00,10000.00");
    assert_eq!(lines[2], "2026-06-25,trade_buy,\"purchase SPCX, at 1.4189\",-1509.00,8491.00");
    assert_eq!(lines[2].matches(',').count() - 1, 4, "the quoted comma is not a delimiter");
    assert_eq!(lines[3], "2026-07-01,interest,,11.37,8502.37");
}

#[test]
fn a_csv_field_is_quoted_where_it_has_to_be() {
    assert_eq!(csv_field("plain"), "plain");
    assert_eq!(csv_field("a \"b\""), "\"a \"\"b\"\"\"");
    assert_eq!(csv_field("two\nlines"), "\"two\nlines\"");
    assert_eq!(csv_field(""), "");
}

fn trade(symbol: &str, kind: &str, date: &str, quantity: f64) -> HeldTrade {
    HeldTrade {
        symbol: symbol.to_string(),
        transaction_type: kind.to_string(),
        date: date.to_string(),
        quantity: Some(n(quantity)),
        currency: "AUD".to_string(),
    }
}

fn reported(symbol: &str, ex_date: &str, amount: f64) -> ReportedDividend {
    ReportedDividend { symbol: symbol.to_string(), ex_date: ex_date.to_string(), amount: n(amount) }
}

#[test]
fn the_ledger_hides_dividends_from_outside_the_holding_period() {
    let trades = vec![
        trade("VSO.AX", "purchase", "2025-01-09", 15.0),
        trade("VSO.AX", "sale", "2026-06-24", 15.0),
    ];
    let events = vec![
        reported("VSO.AX", "2024-07-01", 0.76),
        reported("VSO.AX", "2026-01-02", 1.38),
        reported("VSO.AX", "2026-07-01", 2.19),
    ];
    let lines = transactions_ledger(&trades, &events, &calc);
    let derived: Vec<&str> =
        lines.iter().filter(|l| l.index >= trades.len()).map(|l| l.date.as_str()).collect();
    assert_eq!(derived, vec!["2026-01-02"]);
}

#[test]
fn the_ledger_is_newest_first_and_keeps_ties_in_order() {
    let trades = vec![
        trade("A", "purchase", "2026-01-01", 1.0),
        trade("B", "purchase", "2026-02-01", 1.0),
        trade("C", "purchase", "2026-01-01", 1.0),
    ];
    let lines = transactions_ledger(&trades, &vec![], &calc);
    assert_eq!(lines.iter().map(|l| l.index).collect::<Vec<_>>(), vec![1, 0, 2]);
}

#[test]
fn a_recorded_dividend_is_not_shown_twice() {
    let trades = vec![
        trade("A", "purchase", "2026-01-01", 1.0),
        trade("A", "dividend", "2026-03-01", 1.0),
    ];
    let lines = transactions_ledger(&trades, &vec![reported("A", "2026-03-01", 0.5)], &calc);
    assert_eq!(lines.len(), 2);
}
