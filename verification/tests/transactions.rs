use stocks_api::number::{Decimals, Formula, Number};
use stocks_api::reply::Reason;
use stocks_api::sales::{get_hindsight, get_portfolio_sold, hindsight_floor, judge_floor, undated_sale, Sale, SoldEntry};
use stocks_api::settle::StoredTrade;
use stocks_api::symbols::{load_holding_symbols, TradeRow};
use stocks_api::textmap::TextMap;
use stocks_api::transactions::{
    apply_rate, check_oversell, filled_fields, insert_holding_transaction, modify_holding_transaction,
    needed_rate_day, no_rate, NewHoldingTransaction,
};

fn n(x: f64) -> Number {
    Number { bits: x.to_bits() }
}

fn f(x: Number) -> f64 {
    f64::from_bits(x.bits)
}

fn value(formula: &Formula) -> f64 {
    match formula {
        Formula::Value(x) => f(*x),
        Formula::Whole(w) => *w as f64,
        Formula::Sum(a, b) => value(a) + value(b),
        Formula::Difference(a, b) => value(a) - value(b),
        Formula::Product(a, b) => value(a) * value(b),
        Formula::Quotient(a, b) => value(a) / value(b),
        Formula::Opposite(a) => -value(a),
        Formula::Rounded(a) => value(a).round(),
    }
}

fn calc(formula: Formula) -> Number {
    n(value(&formula))
}

fn render(x: Number, decimals: Decimals) -> String {
    match decimals {
        Decimals::Fixed(places) => format!("{:.*}", places as usize, f(x)),
        Decimals::Shortest => format!("{}", f(x)),
    }
}

fn payload(kind: &str, date: &str, quantity: Option<f64>, price: Option<f64>) -> NewHoldingTransaction {
    NewHoldingTransaction {
        transaction_type: kind.to_string(),
        date: date.to_string(),
        quantity: quantity.map(n),
        price: price.map(n),
        amount: None,
        brokerage: None,
        notes: None,
        currency: None,
        original_price: None,
        fx_rate: None,
        cash_account_id: None,
        withholding_amount: None,
        confirm: None,
    }
}

fn purchase(quantity: f64, price: f64) -> NewHoldingTransaction {
    payload("purchase", "2026-01-05", Some(quantity), Some(price))
}

fn sale(quantity: f64) -> NewHoldingTransaction {
    payload("sale", "2026-06-01", Some(quantity), Some(6.0))
}

#[test]
fn integration_insert_and_fetch_holding_transaction() {
    let mut p = payload("purchase", "2024-01-15", Some(50.0), Some(12.50));
    p.brokerage = Some(n(9.95));
    p.notes = Some("initial buy".to_string());
    let tx = insert_holding_transaction("TST.AX", &p).unwrap();
    assert_eq!(tx.quantity.map(f), Some(50.0));
    assert_eq!(tx.price.map(f), Some(12.50));
    assert_eq!(tx.brokerage.map(f), Some(9.95));
    assert_eq!(tx.symbol, "TST.AX");
    assert_eq!(tx.notes.as_deref(), Some("initial buy"));
}

#[test]
fn integration_insert_transaction_rejects_zero_quantity() {
    let p = payload("purchase", "2024-01-15", Some(0.0), Some(10.0));
    assert!(insert_holding_transaction("TST.AX", &p).is_err(), "should reject zero quantity");
}

#[test]
fn oversell_without_confirm_is_409_and_writes_nothing() {
    let refusal = check_oversell(&sale(15.0), "TST.AX", n(10.0), &calc, &render).unwrap_err();
    assert_eq!(refusal.reason, Reason::OversellUnconfirmed);
    assert_eq!(refusal.reason.status(), 409);
    assert_eq!(refusal.reason.code(), "oversell_confirmation_required");
}

#[test]
fn oversell_with_confirm_is_recorded() {
    let mut s = sale(15.0);
    s.confirm = Some(true);
    assert!(check_oversell(&s, "TST.AX", n(10.0), &calc, &render).is_ok());
    assert_eq!(insert_holding_transaction("TST.AX", &s).unwrap().transaction_type, "sale");
}

#[test]
fn sale_within_holding_needs_no_confirm() {
    assert!(check_oversell(&sale(5.0), "TST.AX", n(10.0), &calc, &render).is_ok());
    assert!(check_oversell(&sale(10.0), "TST.AX", n(10.0), &calc, &render).is_ok());
}

#[test]
fn invalid_transactions_rejected_with_envelope_and_nothing_written() {
    let mut free = payload("dividend", "2026-01-05", None, None);
    free.amount = Some(n(0.0));
    for p in [
        purchase(0.0, 5.0),
        purchase(-3.0, 5.0),
        purchase(10.0, 0.0),
        purchase(10.0, -1.0),
        free,
        payload("gift", "2026-01-05", Some(1.0), Some(1.0)),
        payload("purchase", "05/01/2026", Some(1.0), Some(1.0)),
    ] {
        assert!(insert_holding_transaction("TST.AX", &p).is_err(), "{p:?}");
    }
    assert_eq!(Reason::BadRequest.status(), 400);
    assert_eq!(Reason::BadRequest.code(), "bad_request");
}

#[test]
fn foreign_purchase_without_price_or_original_is_rejected() {
    let mut p = payload("purchase", "2026-01-05", Some(10.0), None);
    p.currency = Some("USD".to_string());
    let refusal = needed_rate_day(&p).unwrap_err();
    assert_eq!(refusal.reason.status(), 400);
    assert!(refusal.message.contains("original_price"), "{}", refusal.message);
}

#[test]
fn foreign_purchase_with_supplied_fx_persists_native_and_aud() {
    let mut p = purchase(10.0, 150.0);
    p.currency = Some("USD".to_string());
    p.original_price = Some(n(100.0));
    p.fx_rate = Some(n(1.5));
    assert!(needed_rate_day(&p).unwrap().is_none(), "the rate is supplied");
    let record = insert_holding_transaction("TSM", &p).unwrap();
    assert_eq!(record.currency.as_deref(), Some("USD"));
    assert_eq!(record.original_price.map(f), Some(100.0));
    assert_eq!(record.fx_rate.map(f), Some(1.5));
    assert_eq!(record.price.map(f), Some(150.0), "AUD price = native x rate");
}

#[test]
fn a_foreign_price_is_converted_at_the_rate_of_its_day() {
    let mut p = payload("purchase", "2026-01-05", Some(10.0), None);
    p.currency = Some("USD".to_string());
    p.original_price = Some(n(100.0));
    assert!(needed_rate_day(&p).unwrap().is_some());
    let refusal = no_rate(&p, "No FX data for USDAUD=X");
    assert_eq!(refusal.reason.status(), 422);
    let p = apply_rate(p, n(1.5), &calc);
    assert_eq!(p.price.map(f), Some(150.0));
    assert_eq!(p.fx_rate.map(f), Some(1.5));
}

#[test]
fn update_transaction_rewrites_fields() {
    let p = payload("purchase", "2026-02-01", Some(12.0), Some(5.5));
    let record: StoredTrade = modify_holding_transaction("TST.AX", &p, None).unwrap();
    assert_eq!(record.date, "2026-02-01");
    assert_eq!(record.quantity.map(f), Some(12.0));
    assert_eq!(record.price.map(f), Some(5.5));
}

#[test]
fn an_edit_keeps_the_tax_withheld() {
    let mut p = payload("dividend", "2026-02-01", None, None);
    p.amount = Some(n(10.0));
    let record = modify_holding_transaction("TST.AX", &p, Some(n(3.0))).unwrap();
    assert_eq!(record.withholding_amount.map(f), Some(3.0));
}

#[test]
fn delete_recalculates_holdings() {
    let row = |quantity: f64| TradeRow {
        symbol: "TST.AX".to_string(),
        transaction_type: "purchase".to_string(),
        quantity: Some(n(quantity)),
    };
    assert_eq!(load_holding_symbols(&vec![row(4.0)], &calc), vec!["TST.AX"]);
    assert!(load_holding_symbols(&vec![], &calc).is_empty());
}

#[test]
fn empty_fields_are_not_stored() {
    let given = vec![("a".to_string(), " x ".to_string()), ("b".to_string(), "".to_string())];
    let kept = filled_fields(&given);
    assert_eq!(kept.len(), 1);
    assert_eq!(kept[0].0, "a");
}

fn sold(symbol: &str, date: &str, price: f64, cost: Option<f64>) -> Sale {
    Sale {
        symbol: symbol.to_string(),
        currency: "AUD".to_string(),
        date: date.to_string(),
        quantity: n(100.0),
        price: n(price),
        cost: cost.map(n),
    }
}

#[test]
fn hindsight_measures_a_sale_from_its_purchase() {
    let rows = get_hindsight(&vec![sold("TST.AX", "2025-01-03", 10.0, Some(8.0))], &TextMap::new(), &calc);
    assert_eq!(rows.len(), 1);
    let r = &rows[0];
    assert_eq!(r.symbol, "TST.AX");
    assert_eq!(f(r.sale_price), 10.0);
    assert_eq!(r.purchase_price.map(f), Some(8.0));
    assert_eq!(f(r.quantity), 100.0);
    assert_eq!(r.currency, "AUD");
    assert_eq!(r.realised_pct.map(f), Some(25.0));
    let rows = get_hindsight(&vec![sold("A", "2025-01-03", 10.0, Some(0.0))], &TextMap::new(), &calc);
    assert_eq!(rows[0].realised_pct, None, "nothing to measure from");
}

#[test]
fn hindsight_reports_every_sale_separately() {
    let sales = vec![
        sold("TST.AX", "2025-02-01", 15.0, Some(10.0)),
        sold("TST.AX", "2025-04-01", 25.0, Some(20.0)),
    ];
    let rows = get_hindsight(&sales, &TextMap::new(), &calc);
    assert_eq!(rows.len(), 2);
    assert_eq!(rows[0].sale_date, "2025-04-01");
    assert_eq!(rows[0].purchase_price.map(f), Some(20.0));
    assert_eq!(rows[1].sale_date, "2025-02-01");
    assert_eq!(rows[1].purchase_price.map(f), Some(10.0), "the first sale ate the cheaper lot");
}

#[test]
fn hindsight_knows_what_is_delisted() {
    let mut dead = TextMap::new();
    dead.insert("TST.AX".to_string(), "2025-08-01".to_string());
    let rows = get_hindsight(&vec![sold("TST.AX", "2025-08-01", 3.91, Some(2.25))], &dead, &calc);
    assert_eq!(rows[0].delisted_on.as_deref(), Some("2025-08-01"));
}

#[test]
fn hindsight_ignores_a_position_still_held() {
    assert!(get_hindsight(&vec![], &TextMap::new(), &calc).is_empty());
}

#[test]
fn a_sale_without_a_date_is_left_out() {
    let rows = get_hindsight(
        &vec![sold("B", "2025-01-03", 1.0, None), sold("C", "soon", 1.0, None), sold("A", "2025-01-03", 1.0, None)],
        &TextMap::new(),
        &calc,
    );
    let symbols: Vec<(&str, usize)> = rows.iter().map(|r| (r.symbol.as_str(), r.sale)).collect();
    assert_eq!(symbols, vec![("A", 2), ("B", 0)]);
    assert_eq!(undated_sale("soon"), "Sale dated 'soon' is not a usable date and was skipped");
}

#[test]
fn prices_are_looked_at_from_a_week_before_the_first_sale() {
    assert_eq!(hindsight_floor(&vec!["2025-04-01".to_string(), "2025-01-03".to_string()]), "2024-12-27");
    assert_eq!(hindsight_floor(&vec!["soon".to_string()]), "");
    assert_eq!(hindsight_floor(&vec![]), "");
    assert_eq!(judge_floor(None), "");
    assert_eq!(judge_floor(Some(i32::MIN)), "");
}

#[test]
fn the_sales_add_up() {
    let entry = |date: &str, quantity: f64, cost: f64, pl: f64| SoldEntry {
        symbol: "A".to_string(),
        date: date.to_string(),
        quantity: n(quantity),
        avg_purchase_price: n(cost),
        sale_price: n(0.0),
        brokerage: n(0.0),
        dividends: n(0.0),
        days_held: 1,
        realised_pl: n(pl),
    };
    let report =
        get_portfolio_sold(vec![entry("2025-01-01", 10.0, 2.0, 5.0), entry("2025-02-01", 1.0, 3.0, -1.0)], &calc);
    assert_eq!(f(report.total_realised_pl), 4.0);
    assert_eq!(f(report.total_cost), 23.0);
    assert_eq!(report.entries[0].date, "2025-02-01", "the latest first");
}
