use stocks_api::context::{CachedQuote, PortfolioInputs, SymbolInfo, TradeCurrency};
use stocks_api::fields::{DayClose, Field};
use stocks_api::indicators::PriceHistoryPoint;
use stocks_api::number::{Formula, Number};
use stocks_api::overview::Agg;
use stocks_api::portfolio::{
    get_portfolio_holdings, get_portfolio_lots, get_portfolio_overview, get_portfolio_risk,
    holding_candidates, watch_candidates, Lot, Portfolio, Standing, Watched,
};
use stocks_api::quotes::CurrentPrice;
use stocks_api::textmap::TextMap;
use stocks_api::valuation::{rebase_point, Remaining};
use stocks_api::watchlist::WatchRow;

fn n(x: f64) -> Number {
    Number { bits: x.to_bits() }
}

fn f(x: Number) -> f64 {
    f64::from_bits(x.bits)
}

fn value(formula: &Formula) -> f64 {
    match formula {
        Formula::Value(x) => f(*x),
        Formula::Whole(w) => *w as f64,
        Formula::Sum(a, b) => value(a) + value(b),
        Formula::Difference(a, b) => value(a) - value(b),
        Formula::Product(a, b) => value(a) * value(b),
        Formula::Quotient(a, b) => value(a) / value(b),
        Formula::Opposite(a) => -value(a),
        Formula::Rounded(a) => value(a).round(),
    }
}

fn calc(formula: Formula) -> Number {
    n(value(&formula))
}

fn field(text: &str) -> Field {
    Field {
        text: text.to_string(),
        number: text.parse::<f64>().ok().map(n),
        trimmed_number: text.trim().parse::<f64>().ok().map(n),
    }
}

fn map<V>(entries: Vec<(&str, V)>) -> TextMap<V> {
    let mut out = TextMap::new();
    for (key, entry) in entries {
        out.insert(key.to_string(), entry);
    }
    out
}

fn flat_bars(close: f64) -> Vec<PriceHistoryPoint> {
    let start = chrono::NaiveDate::from_ymd_opt(2025, 8, 1).unwrap();
    (0..150)
        .map(|i| PriceHistoryPoint {
            date: (start + chrono::Duration::days(i)).format("%Y-%m-%d").to_string(),
            open: None,
            high: None,
            low: None,
            close: Some(n(close)),
            volume: None,
        })
        .collect()
}

fn quote(price: f64) -> CachedQuote {
    CachedQuote {
        price: Some(n(price)),
        price_date: Some("2026-02-02".to_string()),
        change: None,
        change_percent: None,
        volume: Some(900),
    }
}

fn trade(symbol: &str, currency: &str) -> TradeCurrency {
    TradeCurrency {
        symbol: symbol.to_string(),
        transaction_type: "purchase".to_string(),
        currency: currency.to_string(),
    }
}

fn info(kind: &str, currency: &str) -> SymbolInfo {
    SymbolInfo {
        instrument_type: Some(kind.to_string()),
        long_name: None,
        currency: Some(currency.to_string()),
    }
}

fn standing(symbol: &str, left: (f64, f64, f64), dividends: f64) -> Standing {
    Standing {
        symbol: symbol.to_string(),
        left: Remaining { shares: n(left.0), cost: n(left.1), native_cost: n(left.2) },
        dividends: n(dividends),
        rebased: None,
        sold_proceeds: n(0.0),
        sold_dividends: n(0.0),
        sold_pl: n(0.0),
    }
}

/// A share at home, a foreign fund measured from a baseline, and one sold out of.
fn portfolio() -> Portfolio {
    let mut foreign = standing("VTI", (2.0, 500.0, 340.0), 9.0);
    foreign.rebased = Some((n(300.0), n(4.0)));
    let mut sold = standing("OLD.AX", (0.0, 0.0, 0.0), 0.0);
    sold.sold_proceeds = n(120.0);
    sold.sold_dividends = n(5.0);
    sold.sold_pl = n(25.0);
    Portfolio {
        inputs: PortfolioInputs {
            trades: vec![trade("BHP.AX", "AUD"), trade("VTI", "USD"), trade("OLD.AX", "AUD")],
            config: TextMap::new(),
            info: map(vec![("BHP.AX", info("EQUITY", "AUD")), ("VTI", info("ETF", "USD"))]),
            rates: map(vec![("USD", Some(n(1.5)))]),
            quotes: map(vec![("BHP.AX", quote(50.0)), ("VTI", quote(200.0))]),
            last_closes: map(vec![(
                "OLD.AX",
                DayClose { date: "2026-01-30".to_string(), close: n(12.0) },
            )]),
        },
        fields: map(vec![
            ("BHP.AX", map(vec![("sector", field("Materials")), ("stop_loss", field("40"))])),
            (
                "VTI",
                map(vec![
                    ("pl_basis_date", field("2026-01-01")),
                    ("pl_basis_price", field("100")),
                ]),
            ),
        ]),
        bars: map(vec![("BHP.AX", flat_bars(62.5)), ("VTI", flat_bars(160.0))]),
        standings: vec![standing("BHP.AX", (10.0, 400.0, 400.0), 7.0), foreign, sold],
    }
}

#[test]
fn holdings_show_how_every_symbol_stands() {
    let rows = get_portfolio_holdings(&portfolio(), &calc);
    assert_eq!(rows.len(), 2);
    let home = &rows[0];
    assert_eq!(home.context.symbol, "BHP.AX");
    assert_eq!(home.sector.as_deref(), Some("Materials"));
    assert_eq!(f(home.shares), 10.0);
    assert_eq!(f(home.figures.current_value), 500.0);
    assert_eq!(f(home.figures.pl), 107.0);
    assert_eq!(home.figures.avg_cost.map(f), Some(40.0));
    assert_eq!(home.sma150.map(f), Some(62.5));
    assert_eq!(home.stop.map(|s| (f(s.0), s.1)), Some((40.0, false)));
    assert!(home.basis.from.is_none());
    let foreign = &rows[1];
    assert!(foreign.context.etf && foreign.context.international);
    assert_eq!(f(foreign.figures.current_value), 600.0);
    assert_eq!(f(foreign.figures.invested), 300.0);
    assert_eq!(f(foreign.figures.pl), 304.0);
    assert_eq!(foreign.figures.avg_cost.map(f), Some(150.0));
    assert_eq!(foreign.figures.native_avg_cost.map(f), Some(100.0));
    assert_eq!(foreign.sma150.map(f), Some(240.0));
    assert_eq!(foreign.basis.from.as_ref().map(|b| b.date.as_str()), Some("2026-01-01"));
}

#[test]
fn the_totals_add_up_what_the_holdings_show() {
    let p = portfolio();
    let rows = get_portfolio_holdings(&p, &calc);
    let overview = get_portfolio_overview(&p, &calc);
    let totals = &overview.totals;
    assert_eq!(totals.holdings.count, rows.len());
    assert_eq!(f(totals.holdings.value), rows.iter().map(|r| f(r.figures.current_value)).sum::<f64>());
    assert_eq!(f(totals.holdings.pl), rows.iter().map(|r| f(r.figures.pl)).sum::<f64>());
    assert_eq!(f(totals.holdings.cost), rows.iter().map(|r| f(r.figures.invested)).sum::<f64>());
    assert_eq!(f(totals.holdings.value), 1100.0);
    assert_eq!(f(totals.holdings.pl), 411.0);
    assert_eq!(f(totals.etfs.value), 600.0);
    assert_eq!(f(totals.equities.value), 500.0);
    assert_eq!((totals.sold.count, f(totals.sold.value)), (1, 120.0));
    assert_eq!(f(totals.sold.cost), 100.0);
    assert_eq!(f(totals.total_pl), 436.0);
    let names: Vec<&str> = totals.sectors.iter().map(|s| s.name.as_str()).collect();
    assert_eq!(names, ["Unallocated", "Materials"]);
    assert_eq!(totals.sectors.iter().map(|s| s.figures.count).sum::<usize>(), totals.holdings.count);
    let amounts: [fn(&Agg) -> Number; 4] = [|a| a.value, |a| a.pl, |a| a.cost, |a| a.dividends];
    for amount in amounts {
        let held = f(amount(&totals.holdings));
        assert!((held - f(amount(&totals.equities)) - f(amount(&totals.etfs))).abs() < 1e-9);
        assert!((held - totals.sectors.iter().map(|s| f(amount(&s.figures))).sum::<f64>()).abs() < 1e-9);
    }
    assert_eq!(overview.positions.len(), 3);
    let worst: Vec<(&str, f64)> = overview
        .worst
        .iter()
        .map(|w| (overview.averages[w.position].symbol.as_str(), f(w.pct_diff)))
        .collect();
    assert_eq!(worst, [("BHP.AX", -20.0), ("VTI", 25.0)]);
}

#[test]
fn the_engine_is_asked_from_the_baseline_in_the_base_currency() {
    let p = portfolio();
    let point = rebase_point(p.fields.get("VTI"), Some(n(1.5)), &calc).unwrap();
    assert_eq!((point.date.as_str(), f(point.price)), ("2026-01-01", 150.0));
    assert!(rebase_point(p.fields.get("BHP.AX"), None, &calc).is_none());
}

#[test]
fn lots_are_valued_in_the_base_currency() {
    let lot = |symbol: &str, remaining: f64| Lot {
        transaction_id: 1,
        symbol: symbol.to_string(),
        date: "2025-01-01".to_string(),
        remaining: n(remaining),
        price: Some(n(250.0)),
        brokerage: Some(n(10.0)),
    };
    let figures =
        get_portfolio_lots(&portfolio(), &vec![lot("VTI", 2.0), lot("VTI", 0.0), lot("NONE", 1.0)], &calc);
    assert_eq!(figures[0].current_value.map(f), Some(600.0));
    assert_eq!(figures[0].unrealised_pl.map(f), Some(90.0));
    assert_eq!(figures[1].current_value, None);
    assert_eq!(figures[2].unrealised_pl, None);
}

#[test]
fn risk_is_told_of_what_is_held() {
    let (lines, totals) = get_portfolio_risk(&portfolio(), &calc);
    assert_eq!(lines.len(), 2);
    assert_eq!(lines[0].symbol, "BHP.AX");
    assert_eq!(lines[0].row.stop_loss_dollar.map(f), Some(0.0));
    assert_eq!(lines[1].display.currency, "USD");
    assert_eq!(lines[1].row.current_price.map(f), Some(200.0));
    assert_eq!(f(lines[1].row.total_invested), 340.0);
    assert_eq!(f(totals.total_invested), 740.0);
    assert_eq!(totals.total_sl_pct.map(f), Some(0.0));
}

#[test]
fn lists_see_symbols_in_their_own_currency() {
    let p = portfolio();
    let none = Vec::new();
    let held = holding_candidates(&p, &none, &calc);
    assert_eq!(held.len(), 3);
    assert_eq!(held[1].price.map(f), Some(200.0));
    assert_eq!(held[1].volume, Some(900));
    assert_eq!(held[1].currency.as_deref(), Some("USD"));
    assert_eq!(held[1].bars.map(|b| b.len()), Some(150));
    assert_eq!(held[2].price.map(f), Some(12.0));
    assert_eq!(held[2].bars.map(|b| b.len()), Some(0));
    assert!(held[2].fields.is_none());
}

#[test]
fn lists_see_every_row_of_the_watchlist() {
    let row = |id: i64, symbol: &str, list: &str| WatchRow {
        id,
        symbol: symbol.to_string(),
        list_name: list.to_string(),
        added_at: "2026-01-01".to_string(),
        notes: None,
        breakthrough_price: Some(n(30.0)),
        stop_loss_price: None,
    };
    let price = CurrentPrice {
        symbol: "CSL.AX".to_string(),
        price: Some(n(31.0)),
        change: None,
        change_percent: None,
        volume: Some(70),
        day_open: None,
        day_high: None,
        day_low: None,
        last_updated: "2026-02-02T00:00:00Z".to_string(),
        price_date: None,
        error: None,
    };
    let watched = Watched {
        rows: vec![row(1, "CSL.AX", "a"), row(2, "CSL.AX", "b"), row(3, "WES.AX", "a")],
        prices: map(vec![("CSL.AX", price)]),
        fields: map(vec![("CSL.AX", map(vec![("target", field("35"))]))]),
        bars: map(vec![("CSL.AX", flat_bars(29.0))]),
    };
    let none = Vec::new();
    let seen = watch_candidates(&watched, &none);
    assert_eq!(seen.len(), 3);
    assert_eq!(seen[1].price.map(f), Some(31.0));
    assert_eq!(seen[1].volume, Some(70));
    assert_eq!(seen[0].breakthrough_price.map(f), Some(30.0));
    assert_eq!(seen[0].fields.and_then(|m| m.get("target")).and_then(|t| t.number).map(f), Some(35.0));
    assert_eq!(seen[0].bars.map(|b| b.len()), Some(150));
    assert!(seen[2].price.is_none() && seen[2].fields.is_none());
    assert_eq!(seen[2].bars.map(|b| b.len()), Some(0));
}
