use stocks_api::context::{
    build_portfolio_context, currencies_of, currency_of, effective_price, rate_to_base, sector_of,
    store_symbol_info, to_aud, CachedQuote, PortfolioInputs, PriceSource, SymbolInfo, TradeCurrency,
};
use stocks_api::fields::{
    close_on_or_after, load_holdings_symbol_fields, resolve_baseline, save_custom_fields,
    update_holdings_symbol_fields, upsert_holdings_symbol_fields, write_baseline, Baseline,
    DayClose, Field, FieldRow,
};
use stocks_api::indicators::PriceHistoryPoint;
use stocks_api::number::{Decimals, Formula, Number};
use stocks_api::overview::{
    best_watchlist, overview_totals, worst_holdings, AverageRow, PositionRow, RisenRow,
};
use stocks_api::reply::Reason;
use stocks_api::risk::{display_of, portfolio_risk_row, risk_totals, RiskRow};
use stocks_api::stops::effective_stop_loss;
use stocks_api::textmap::TextMap;
use stocks_api::valuation::{
    baseline_point, effective_basis, figures_of, figures_of_lot, profit_of, value_of_shares,
    HoldingFigures, Remaining,
};

fn n(x: f64) -> Number {
    Number { bits: x.to_bits() }
}

fn f(x: Number) -> f64 {
    f64::from_bits(x.bits)
}

fn value(formula: &Formula) -> f64 {
    match formula {
        Formula::Value(x) => f(*x),
        Formula::Whole(w) => *w as f64,
        Formula::Sum(a, b) => value(a) + value(b),
        Formula::Difference(a, b) => value(a) - value(b),
        Formula::Product(a, b) => value(a) * value(b),
        Formula::Quotient(a, b) => value(a) / value(b),
        Formula::Opposite(a) => -value(a),
        Formula::Rounded(a) => value(a).round(),
    }
}

fn calc(formula: Formula) -> Number {
    n(value(&formula))
}

fn render(x: Number, decimals: Decimals) -> String {
    match decimals {
        Decimals::Fixed(places) => format!("{:.*}", places as usize, f(x)),
        Decimals::Shortest => format!("{}", f(x)),
    }
}

fn field(text: &str) -> Field {
    Field {
        text: text.to_string(),
        number: text.parse::<f64>().ok().map(n),
        trimmed_number: text.trim().parse::<f64>().ok().map(n),
    }
}

fn fields(pairs: &[(&str, &str)]) -> TextMap<Field> {
    let mut map = TextMap::new();
    for (key, text) in pairs {
        map.insert(key.to_string(), field(text));
    }
    map
}

fn bar(date: &str, high: Option<f64>, close: f64) -> PriceHistoryPoint {
    PriceHistoryPoint {
        date: date.to_string(),
        open: None,
        high: high.map(n),
        low: None,
        close: Some(n(close)),
        volume: None,
    }
}

fn flat_bars(close: f64) -> Vec<PriceHistoryPoint> {
    let start = chrono::NaiveDate::from_ymd_opt(2025, 8, 1).unwrap();
    (0..150)
        .map(|i| bar(&(start + chrono::Duration::days(i)).format("%Y-%m-%d").to_string(), None, close))
        .collect()
}

fn close_to(x: Number, expected: f64) -> bool {
    (f(x) - expected).abs() < 1e-6
}

fn left(shares: f64, cost: f64) -> Remaining {
    Remaining { shares: n(shares), cost: n(cost), native_cost: n(cost) }
}

fn figures(shares: f64, cost: f64, price: f64) -> Option<HoldingFigures> {
    let basis = effective_basis(None, None, n(cost), n(0.0));
    figures_of(left(shares, cost), &basis, Some(n(price)), None, &calc)
}

fn position(symbol: &str, shares: f64, price: f64, cost: f64, sold: (f64, f64)) -> PositionRow {
    PositionRow {
        symbol: symbol.to_string(),
        shares: n(shares),
        price: Some(n(price)),
        cost: n(cost),
        dividends: n(0.0),
        etf: false,
        sector: None,
        sold_proceeds: n(sold.0),
        sold_dividends: n(0.0),
        sold_pl: n(sold.1),
    }
}

fn trailing() -> (TextMap<Field>, Vec<PriceHistoryPoint>) {
    (
        fields(&[("trailing_sell_pct", "10"), ("trailing_sell_date", "2026-05-01")]),
        vec![bar("2026-05-15", None, 30.0), bar("2026-06-01", None, 25.0)],
    )
}

#[test]
fn holdings_endpoint_reports_positions_and_stop_losses() {
    assert!(figures(0.0, 0.0, 7.0).is_none(), "fully sold symbol must be excluded");
    let man = figures(100.0, 1000.0, 12.0).unwrap();
    assert!(close_to(man.invested, 1000.0));
    assert!(close_to(man.avg_cost.unwrap(), 10.0));
    assert!(close_to(man.pl, 200.0));
    assert!(close_to(man.pl_pct.unwrap(), 20.0));
    let manual = fields(&[("stop_loss", "9.0")]);
    let (sl, is_trailing) =
        effective_stop_loss(Some(&manual), &flat_bars(10.0), Some(n(12.0)), None, &calc).unwrap();
    assert!(close_to(sl, 9.0), "manual stop loss passes through");
    assert!(!is_trailing);
    let (trl, trl_bars) = trailing();
    let (sl, is_trailing) =
        effective_stop_loss(Some(&trl), &trl_bars, Some(n(28.0)), None, &calc).unwrap();
    assert!(close_to(sl, 27.0));
    assert!(is_trailing);
    let part = figures(60.0, 60.0, 1.5).unwrap();
    assert!(close_to(part.invested, 60.0));
    assert!(effective_stop_loss(None, &flat_bars(3.0), Some(n(1.5)), None, &calc).is_none());
}

#[test]
fn overview_endpoint_totals_reconcile_with_seeded_data() {
    let rows = vec![
        position("MAN.AX", 100.0, 12.0, 1000.0, (0.0, 0.0)),
        position("TRL.AX", 50.0, 28.0, 1000.0, (0.0, 0.0)),
        position("PART.AX", 60.0, 1.5, 60.0, (80.0, 40.0)),
        position("SOLD.AX", 0.0, 7.0, 0.0, (60.0, 10.0)),
    ];
    let totals = overview_totals(&rows, &calc);
    assert_eq!(totals.holdings.count, 3);
    assert!(close_to(totals.holdings.value, 2690.0));
    assert!(close_to(totals.holdings.pl, 630.0));
    assert!(close_to(totals.sold_pl, 50.0));
    assert!(close_to(totals.total_pl, 680.0));
    assert_eq!(totals.sectors.len(), 1);
    assert_eq!(totals.sectors[0].name, "Unallocated");
    assert_eq!(totals.equities.count + totals.etfs.count, totals.holdings.count);
}

#[test]
fn overview_worst_holdings_sorted_by_sma_gap() {
    let row = |symbol: &str, shares: f64, price: f64, sma: Option<f64>| AverageRow {
        symbol: symbol.to_string(),
        shares: n(shares),
        price: Some(n(price)),
        sma150: sma.map(n),
    };
    let rows = vec![
        row("MAN.AX", 100.0, 12.0, Some(10.0)),
        row("TRL.AX", 50.0, 28.0, None),
        row("PART.AX", 60.0, 1.5, Some(3.0)),
    ];
    let worst = worst_holdings(&rows, &calc);
    assert_eq!(worst.len(), 2);
    assert_eq!(rows[worst[0].position].symbol, "PART.AX");
    assert!(close_to(worst[0].pct_diff, -50.0));
    assert_eq!(rows[worst[1].position].symbol, "MAN.AX");
    assert!(close_to(worst[1].pct_diff, 20.0));
}

#[test]
fn the_watchlist_is_led_by_the_latest_crossing() {
    let row = |symbol: &str, price: f64, sma: f64, days: i64| RisenRow {
        symbol: symbol.to_string(),
        price: Some(n(price)),
        sma50: Some(n(sma)),
        days,
    };
    let rows = vec![row("OLD", 12.0, 10.0, 9), row("LOW", 8.0, 10.0, 1), row("NEW", 12.0, 10.0, 2)];
    assert_eq!(best_watchlist(&rows), vec![2, 0]);
}

fn risk(
    shares: f64,
    cost: f64,
    price: f64,
    symbol_fields: Option<&TextMap<Field>>,
    bars: &Vec<PriceHistoryPoint>,
) -> RiskRow {
    let display = display_of("AUD", true, &TextMap::new());
    portfolio_risk_row(left(shares, cost), &display, Some(n(price)), symbol_fields, bars, &calc).unwrap()
}

#[test]
fn risk_endpoint_reports_margins_and_dollar_impact() {
    let manual = fields(&[("stop_loss", "9.0")]);
    let man = risk(100.0, 1000.0, 12.0, Some(&manual), &flat_bars(10.0));
    assert!(close_to(man.purchase_price.unwrap(), 10.0));
    assert!(close_to(man.current_price.unwrap(), 12.0));
    assert!(close_to(man.pl_pct.unwrap(), 20.0));
    assert!(close_to(man.stop_loss.unwrap(), 9.0));
    assert!(close_to(man.stop_loss_pct.unwrap(), -10.0), "stop 9 vs purchase 10");
    assert!(close_to(man.stop_loss_dollar.unwrap(), -100.0));
    assert!(!man.is_trailing_sell);

    let (trl_fields, trl_bars) = trailing();
    let trl = risk(50.0, 1000.0, 28.0, Some(&trl_fields), &trl_bars);
    assert!(close_to(trl.stop_loss.unwrap(), 27.0));
    assert!(close_to(trl.stop_loss_pct.unwrap(), 35.0), "stop 27 vs purchase 20");
    assert!(close_to(trl.stop_loss_dollar.unwrap(), 350.0));
    assert!(trl.is_trailing_sell);

    let part = risk(60.0, 60.0, 1.5, None, &flat_bars(3.0));
    let totals = risk_totals(&vec![man, trl, part], &calc);
    assert!(close_to(totals.total_invested, 2060.0));
    assert!(close_to(totals.total_sl_dollar, 250.0));
    assert!(close_to(totals.total_sl_pct.unwrap(), 250.0 / 2060.0 * 100.0));
}

#[test]
fn high30d_uses_intraday_highs() {
    let mut bars = flat_bars(10.0);
    bars.push(bar("2026-07-02", Some(15.5), 11.0));
    assert!(close_to(risk(100.0, 1000.0, 12.0, None, &bars).high30d.unwrap(), 15.5));
}

#[test]
fn high30d_falls_back_to_close_when_high_is_missing() {
    let mut bars = flat_bars(10.0);
    bars.push(bar("2026-07-03", None, 14.25));
    assert!(close_to(risk(100.0, 1000.0, 12.0, None, &bars).high30d.unwrap(), 14.25));
}

#[test]
fn a_foreign_holding_is_shown_in_its_own_currency() {
    let mut rates = TextMap::new();
    rates.insert("USD".to_string(), Some(n(1.5)));
    let native = display_of("USD", false, &rates);
    assert_eq!(native.currency, "USD");
    let home = display_of("USD", true, &rates);
    assert_eq!(home.currency, "AUD");
}

fn legacy_bars() -> Vec<DayClose> {
    vec![
        DayClose { date: "2025-01-02".to_string(), close: n(20.0) },
        DayClose { date: "2026-06-01".to_string(), close: n(25.0) },
    ]
}

fn basis_change(date: &str) -> Vec<(String, String)> {
    vec![("pl_basis_date".to_string(), date.to_string())]
}

#[test]
fn saving_a_basis_date_resolves_and_stores_its_price() {
    let mut stored: TextMap<String> = TextMap::new();
    let changes = basis_change("2025-01-01");
    let r = update_holdings_symbol_fields(&mut stored, None, Some(&changes), "TST.AX", &legacy_bars(), &render);
    match r {
        Ok(Baseline::Priced(p)) => assert_eq!(f(p), 20.0),
        other => panic!("{other:?}"),
    }
    assert_eq!(stored.get("pl_basis_date").map(String::as_str), Some("2025-01-01"));
    assert_eq!(stored.get("pl_basis_price").map(String::as_str), Some("20"));
}

#[test]
fn a_baseline_is_written_kept_or_cleared() {
    let mut stored: TextMap<String> = TextMap::new();
    write_baseline(&mut stored, Baseline::Priced(n(20.25)), &render);
    assert_eq!(stored.get("pl_basis_price").map(String::as_str), Some("20.25"));
    write_baseline(&mut stored, Baseline::Untouched, &render);
    assert_eq!(stored.get("pl_basis_price").map(String::as_str), Some("20.25"));
    write_baseline(&mut stored, Baseline::Cleared, &render);
    assert!(!stored.contains_key("pl_basis_price"));
}

#[test]
fn a_basis_date_with_no_stored_price_is_refused() {
    let mut stored: TextMap<String> = TextMap::new();
    let changes = basis_change("2030-01-01");
    let refusal =
        update_holdings_symbol_fields(&mut stored, None, Some(&changes), "TST.AX", &legacy_bars(), &render)
            .unwrap_err();
    assert_eq!(refusal.reason, Reason::Unprocessable);
    assert_eq!(refusal.reason.status(), 422);
    assert!(!stored.contains_key("pl_basis_price"), "nothing is stored for a date we cannot price");
    assert!(!stored.contains_key("pl_basis_date"), "nothing is stored for a date we cannot price");
}

#[test]
fn a_refused_basis_date_leaves_the_stored_one() {
    let mut stored: TextMap<String> = TextMap::new();
    stored.insert("pl_basis_date".to_string(), "2025-01-01".to_string());
    stored.insert("pl_basis_price".to_string(), "20".to_string());
    let mut changes = basis_change("2030-01-01");
    changes.push(("sector".to_string(), "Energy".to_string()));
    let r =
        update_holdings_symbol_fields(&mut stored, Some("new"), Some(&changes), "TST.AX", &legacy_bars(), &render);
    assert!(r.is_err());
    assert_eq!(stored.get("pl_basis_date").map(String::as_str), Some("2025-01-01"));
    assert_eq!(stored.get("pl_basis_price").map(String::as_str), Some("20"));
    assert_eq!(stored.len(), 2);
}

#[test]
fn clearing_the_basis_date_clears_its_price() {
    let mut stored: TextMap<String> = TextMap::new();
    stored.insert("pl_basis_date".to_string(), "2025-01-01".to_string());
    stored.insert("pl_basis_price".to_string(), "20".to_string());
    let changes = basis_change("");
    let r = update_holdings_symbol_fields(&mut stored, None, Some(&changes), "TST.AX", &legacy_bars(), &render);
    match r {
        Ok(Baseline::Cleared) => {}
        other => panic!("{other:?}"),
    }
    assert!(!stored.contains_key("pl_basis_date"));
    assert!(!stored.contains_key("pl_basis_price"));
}

#[test]
fn a_baseline_replaces_the_purchase_as_the_cost_basis() {
    let set = fields(&[("pl_basis_date", "2025-01-01"), ("pl_basis_price", "20")]);
    let point = baseline_point(Some(&set)).unwrap();
    assert_eq!(point.date, "2025-01-01");
    assert_eq!(f(point.price), 20.0);
    let basis = effective_basis(Some(point), Some((n(2000.0), n(30.0))), n(500.0), n(80.0));
    let tst = figures_of(left(100.0, 500.0), &basis, Some(n(25.0)), None, &calc).unwrap();
    assert!(close_to(tst.invested, 2000.0));
    assert!(close_to(tst.avg_cost.unwrap(), 20.0));
    assert!(close_to(tst.native_avg_cost.unwrap(), 20.0));
    assert!(close_to(tst.dividends, 30.0));
    assert!(close_to(tst.pl, 530.0));
    assert!(close_to(tst.pl_pct.unwrap(), 26.5));
    assert_eq!(basis.from.unwrap().date, "2025-01-01");
}

#[test]
fn the_overview_total_follows_the_same_baseline() {
    let mut row = position("TST.AX", 100.0, 25.0, 500.0, (0.0, 0.0));
    row.dividends = n(80.0);
    assert!(close_to(overview_totals(&vec![row], &calc).holdings.pl, 2080.0));
    let mut row = position("TST.AX", 100.0, 25.0, 2000.0, (0.0, 0.0));
    row.dividends = n(30.0);
    assert!(close_to(overview_totals(&vec![row], &calc).holdings.pl, 530.0));
}

#[test]
fn a_holding_with_no_basis_measures_from_its_purchase() {
    let basis = effective_basis(baseline_point(None), None, n(500.0), n(80.0));
    assert!(basis.from.is_none());
    let tst = figures_of(left(100.0, 500.0), &basis, Some(n(25.0)), None, &calc).unwrap();
    assert!(close_to(tst.invested, 500.0));
    assert!(close_to(tst.avg_cost.unwrap(), 5.0));
    assert!(close_to(tst.dividends, 80.0), "both payments count");
    assert!(close_to(tst.pl, 2080.0));
}

#[test]
fn a_lot_is_valued_at_the_price() {
    let lot = figures_of_lot(n(10.0), Some(n(12.0)), Some(n(10.0)), Some(n(5.0)), &calc);
    assert_eq!(lot.current_value.map(f), Some(120.0));
    assert_eq!(lot.unrealised_pl.map(f), Some(15.0));
    let lot = figures_of_lot(n(10.0), None, Some(n(10.0)), None, &calc);
    assert_eq!(lot.current_value, None);
    assert_eq!(lot.unrealised_pl, None);
}

#[test]
fn shares_without_a_price_are_worth_nothing() {
    assert_eq!(f(value_of_shares(n(3.0), None, &calc)), 0.0);
    assert_eq!(f(value_of_shares(n(3.0), Some(n(2.0)), &calc)), 6.0);
    assert_eq!(f(profit_of(n(10.0), n(4.0), n(1.0), &calc)), 7.0);
}

#[test]
fn a_baseline_is_the_first_close_from_its_date_on() {
    assert_eq!(close_on_or_after(&legacy_bars(), "2025-01-01").map(f), Some(20.0));
    assert_eq!(close_on_or_after(&legacy_bars(), "2025-01-03").map(f), Some(25.0));
    assert_eq!(close_on_or_after(&legacy_bars(), "2026-06-02"), None);
    match resolve_baseline(None, "TST.AX", &legacy_bars()) {
        Ok(Baseline::Untouched) => {}
        other => panic!("{other:?}"),
    }
}

#[test]
fn custom_field_merge_deletes_empty_keeps_absent_upserts_rest() {
    let mut stored: TextMap<String> = TextMap::new();
    let change = |pairs: &[(&str, &str)]| {
        pairs.iter().map(|(k, v)| (k.to_string(), v.to_string())).collect::<Vec<_>>()
    };
    save_custom_fields(&mut stored, &change(&[("target", "10"), ("conviction", "high")]));
    save_custom_fields(&mut stored, &change(&[("target", ""), ("thesis", " breakout ")]));
    assert!(!stored.contains_key("target"), "empty value must delete the key");
    assert_eq!(stored.get("conviction").map(String::as_str), Some("high"), "absent key must be untouched");
    assert_eq!(stored.get("thesis").map(String::as_str), Some("breakout"), "values are trimmed on upsert");
    upsert_holdings_symbol_fields(&mut stored, &change(&[("conviction", "")]));
    assert!(!stored.contains_key("conviction"));
}

#[test]
fn fields_are_grouped_by_symbol() {
    let row = |symbol: &str, key: &str, text: &str| FieldRow {
        symbol: symbol.to_string(),
        key: key.to_string(),
        field: field(text),
    };
    let all = load_holdings_symbol_fields(vec![row("A", "x", "1"), row("B", "x", "2"), row("A", "sector", "Energy")]);
    assert_eq!(all.len(), 2);
    assert_eq!(all.get("A").unwrap().get("x").unwrap().text, "1");
    assert_eq!(sector_of(&all, "A").as_deref(), Some("Energy"));
    assert_eq!(sector_of(&all, "B"), None);
}

fn info(kind: Option<&str>, currency: Option<&str>) -> SymbolInfo {
    SymbolInfo {
        instrument_type: kind.map(|s| s.to_string()),
        long_name: None,
        currency: currency.map(|s| s.to_string()),
    }
}

#[test]
fn a_symbol_keeps_what_a_report_leaves_out() {
    let merged = store_symbol_info(Some(info(Some("ETF"), Some("AUD"))), info(None, Some("USD")));
    assert_eq!(merged.instrument_type.as_deref(), Some("ETF"));
    assert_eq!(merged.currency.as_deref(), Some("USD"));
    assert_eq!(store_symbol_info(None, info(Some("EQUITY"), None)).instrument_type.as_deref(), Some("EQUITY"));
}

#[test]
fn a_price_is_taken_from_where_it_can_be_had() {
    let quote = |price: Option<f64>| CachedQuote {
        price: price.map(n),
        price_date: Some("2026-07-10".to_string()),
        change: None,
        change_percent: None,
        volume: Some(5),
    };
    let close = DayClose { date: "2026-07-01".to_string(), close: n(9.0) };
    let p = effective_price(Some(&quote(Some(12.0))), None, Some(&close), Some(n(1.5)), &calc);
    assert_eq!((p.native.map(f), p.aud.map(f)), (Some(12.0), Some(18.0)));
    assert_eq!(p.source, PriceSource::Cache);
    let p = effective_price(Some(&quote(Some(0.0))), None, Some(&close), None, &calc);
    assert_eq!(p.native.map(f), Some(9.0), "a zero quote is no price");
    assert_eq!(p.source, PriceSource::LastClose);
    let p = effective_price(None, None, None, None, &calc);
    assert_eq!(p.native, None);
    assert_eq!(p.source.name(), PriceSource::Unpriced.name());
}

#[test]
fn the_context_knows_currency_and_kind() {
    let mut infos = TextMap::new();
    infos.insert("AAPL".to_string(), info(Some("EQUITY"), Some("USD")));
    infos.insert("VAS.AX".to_string(), info(Some("ETF"), Some("AUD")));
    let mut rates = TextMap::new();
    rates.insert("USD".to_string(), Some(n(1.5)));
    assert_eq!(currency_of(&infos, "AAPL"), "USD");
    assert_eq!(currency_of(&infos, "XYZ"), "AUD");
    assert_eq!(rate_to_base(&rates, "USD").map(f), Some(1.5));
    assert_eq!(f(to_aud(&infos, &rates, "AAPL", n(2.0), &calc)), 3.0);
    let symbols = vec!["AAPL".to_string(), "VAS.AX".to_string()];
    assert_eq!(currencies_of(&symbols, &infos), vec!["USD"]);
    let inputs = PortfolioInputs {
        trades: vec![TradeCurrency {
            symbol: "AAPL".to_string(),
            transaction_type: "purchase".to_string(),
            currency: "USD".to_string(),
        }],
        config: TextMap::new(),
        info: infos,
        rates,
        quotes: TextMap::new(),
        last_closes: TextMap::new(),
    };
    let ctx = build_portfolio_context(&symbols, &inputs, &calc);
    assert_eq!(ctx.len(), 2);
    assert!(ctx[0].international && !ctx[0].etf);
    assert!(ctx[1].etf && !ctx[1].international);
}

#[test]
fn shares_that_are_no_number_are_shown() {
    let left = Remaining { shares: n(f64::NAN), cost: n(10.0), native_cost: n(10.0) };
    let basis = effective_basis(None, None, n(10.0), n(0.0));
    let shown = figures_of(left, &basis, Some(n(2.0)), None, &calc).unwrap();
    assert_eq!(f(shown.invested), 10.0);
    assert_eq!(shown.avg_cost, None);
    let none = Remaining { shares: n(0.0), cost: n(10.0), native_cost: n(10.0) };
    assert!(figures_of(none, &basis, Some(n(2.0)), None, &calc).is_none());
}
