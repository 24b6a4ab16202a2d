use stocks_api::bars::{
    asked_days, asked_periods, history_span, inject_live, merge_bar, persist_price_history, plan_fetch,
    read_history, supply, FetchPlan, HistoryAnswer, HistoryQuote, LiveBar,
};
use stocks_api::fields::DayClose;
use stocks_api::indicators::PriceHistoryPoint;
use stocks_api::number::{is_usable_quote, larger, smaller, Decimals, Formula, Number};
use stocks_api::quotes::{
    answered_quote, complete_session, dedupe, fetch_and_cache_current_prices, keep_quote,
    load_cached_prices_with_fallback, resolve_quote, session_range, symbols_to_fetch, CurrentPrice,
    DayQuote, Fetched, FetchedSymbol, Keeping, YahooMeta,
};
use stocks_api::rates::{
    asked_currencies, choose_rate, fx_rate_on, is_missing_rate, judge_fresh, judge_rate_request,
    pick_rate, rate_is_fresh, rate_request, rate_window, CachedRate,
};
use stocks_api::textmap::TextMap;

fn n(x: f64) -> Number {
    Number { bits: x.to_bits() }
}

fn f(x: Number) -> f64 {
    f64::from_bits(x.bits)
}

fn value(formula: &Formula) -> f64 {
    match formula {
        Formula::Value(x) => f(*x),
        Formula::Whole(w) => *w as f64,
        Formula::Sum(a, b) => value(a) + value(b),
        Formula::Difference(a, b) => value(a) - value(b),
        Formula::Product(a, b) => value(a) * value(b),
        Formula::Quotient(a, b) => value(a) / value(b),
        Formula::Opposite(a) => -value(a),
        Formula::Rounded(a) => value(a).round(),
    }
}

fn calc(formula: Formula) -> Number {
    n(value(&formula))
}

fn render(x: Number, decimals: Decimals) -> String {
    match decimals {
        Decimals::Fixed(places) => format!("{:.*}", places as usize, f(x)),
        Decimals::Shortest => format!("{}", f(x)),
    }
}

fn range(
    highs: [Option<f64>; 2],
    lows: [Option<f64>; 2],
    trades: [Option<f64>; 2],
) -> (Option<f64>, Option<f64>) {
    let (high, low) = session_range(
        highs.map(|x| x.map(n)),
        lows.map(|x| x.map(n)),
        trades.map(|x| x.map(n)),
    );
    (high.map(f), low.map(f))
}

#[test]
fn session_range_contains_the_open_when_meta_misses_the_opening_print() {
    let (high, low) = range(
        [Some(190.9199981689453), Some(190.255)],
        [Some(187.89999389648438), Some(187.9)],
        [Some(190.9199981689453), Some(189.08)],
    );
    let (high, low) = (high.unwrap(), low.unwrap());
    assert_eq!(high, 190.9199981689453);
    assert_eq!(low, 187.89999389648438);
    for trade in [190.9199981689453, 189.08] {
        assert!(low <= trade && trade <= high, "{trade} outside {low}..{high}");
    }
}

#[test]
fn session_range_widens_to_a_price_past_a_lagging_bar() {
    let (high, low) = range([Some(10.0), None], [Some(9.0), None], [Some(9.5), Some(10.2)]);
    assert_eq!((high, low), (Some(10.2), Some(9.0)));
}

#[test]
fn session_range_without_highs_or_lows_invents_nothing() {
    let (high, low) = range([None, None], [None, Some(0.0)], [Some(9.5), Some(10.2)]);
    assert_eq!((high, low), (None, None), "open and price alone are not a range; zero is not a low");
}

fn price(value: Option<f64>) -> CurrentPrice {
    CurrentPrice {
        symbol: "DEAD.AX".to_string(),
        price: value.map(n),
        change: None,
        change_percent: None,
        volume: None,
        day_open: None,
        day_high: None,
        day_low: None,
        last_updated: "2026-07-17T00:00:00Z".to_string(),
        price_date: Some("2026-07-17".to_string()),
        error: None,
    }
}

#[test]
fn a_delisted_symbols_zero_quote_never_replaces_a_real_price() {
    assert!(matches!(keep_quote(&price(Some(355.89))), Keeping::CachedAndStored));
    assert!(matches!(keep_quote(&price(Some(0.0))), Keeping::Refused));
    assert!(matches!(keep_quote(&price(None)), Keeping::Refused));
}

#[test]
fn usable_quotes_exclude_zero_negative_and_nan() {
    assert!(is_usable_quote(Some(n(0.01))));
    assert!(!is_usable_quote(Some(n(0.0))), "a delisted symbol's zero");
    assert!(!is_usable_quote(Some(n(-1.0))));
    assert!(!is_usable_quote(Some(n(f64::NAN))));
    assert!(!is_usable_quote(Some(n(f64::INFINITY))));
    assert!(!is_usable_quote(None));
}

#[test]
fn a_refresh_of_only_dead_symbols_asks_yahoo_nothing() {
    let mut dead = TextMap::new();
    dead.insert("JLG.AX".to_string(), "2025-08-01".to_string());
    let asked = symbols_to_fetch(&vec!["JLG.AX".to_string()], &dead);
    assert!(asked.is_empty(), "a dead symbol yields no quote and no request");
    assert!(fetch_and_cache_current_prices(&vec![], "now", &calc, &render).is_empty());
    let both = vec!["A".to_string(), "JLG.AX".to_string(), "A".to_string()];
    assert_eq!(symbols_to_fetch(&both, &dead), vec!["A"]);
    assert_eq!(dedupe(&both), vec!["A", "JLG.AX"]);
}

fn meta() -> YahooMeta {
    YahooMeta {
        regular_market_price: Some(n(11.0)),
        regular_market_change: None,
        regular_market_change_percent: None,
        regular_market_volume: Some(7),
        chart_previous_close: Some(n(10.0)),
        regular_market_day_high: Some(n(11.5)),
        regular_market_day_low: Some(n(9.5)),
        day_open: None,
        instrument_type: None,
        long_name: None,
        currency: None,
        regular_market_time: Some(1767567600),
        gmtoffset: Some(39600),
    }
}

#[test]
fn a_quote_reports_its_change_from_the_previous_close() {
    let q = answered_quote("TST.AX", &meta(), "now", &calc);
    assert_eq!(q.price.map(f), Some(11.0));
    assert_eq!(q.change.map(f), Some(1.0));
    assert_eq!(q.change_percent.map(f), Some(10.0));
    assert_eq!(q.price_date.as_deref(), Some("2026-01-05"));
    assert_eq!(q.error, None);
}

#[test]
fn a_session_is_completed_from_its_bar() {
    let bar = DayQuote {
        open: Some(vec![Some(n(12.0))]),
        high: Some(vec![Some(n(12.0))]),
        low: Some(vec![Some(n(9.0))]),
        volume: Some(vec![Some(3)]),
    };
    let m = complete_session(meta(), Some(&bar));
    assert_eq!(m.day_open.map(f), Some(12.0));
    assert_eq!(m.regular_market_day_high.map(f), Some(12.0));
    assert_eq!(m.regular_market_day_low.map(f), Some(9.0));
    let m = complete_session(meta(), None);
    assert_eq!(m.day_open, None);
}

#[test]
fn a_failed_fetch_falls_back_to_the_last_close() {
    let q = resolve_quote(
        "TST.AX",
        &Fetched::Failed("timed out".to_string()),
        Some(n(9.5)),
        "now",
        &calc,
        &render,
    );
    assert_eq!(q.price.map(f), Some(9.5));
    assert!(q.error.is_some());
    let rows = vec![FetchedSymbol {
        symbol: "TST.AX".to_string(),
        fetched: Fetched::Answer(meta()),
        last_close: None,
    }];
    let kept = fetch_and_cache_current_prices(&rows, "now", &calc, &render);
    assert_eq!(kept.len(), 1);
    assert!(matches!(kept[0].1, Keeping::CachedAndStored));
}

#[test]
fn every_symbol_has_a_cached_line() {
    let lines = load_cached_prices_with_fallback(
        vec![price(Some(1.0))],
        &vec!["DEAD.AX".to_string(), "NEW.AX".to_string()],
    );
    assert_eq!(lines.len(), 2);
    assert_eq!(lines[0].price.map(f), Some(1.0));
    assert_eq!(lines[1].symbol, "NEW.AX");
    assert_eq!(lines[1].price, None);
}

fn rate(points: &[(&str, f64)], currency: &str, date: &str) -> Option<f64> {
    let points: Vec<DayClose> = if currency == "USD" {
        points.iter().map(|(d, c)| DayClose { date: d.to_string(), close: n(*c) }).collect()
    } else {
        vec![]
    };
    fx_rate_on(currency, &points, date).map(f)
}

#[test]
fn fx_rate_on_reads_stored_rates_as_of_a_date() {
    let points = [("2026-08-06", 1.50), ("2026-08-07", 1.55)];
    assert_eq!(rate(&points, "USD", "2026-08-07"), Some(1.55));
    assert_eq!(rate(&points, "USD", "2026-08-09"), Some(1.55));
    assert_eq!(rate(&points, "USD", "2026-08-06"), Some(1.50));
    assert_eq!(rate(&points, "USD", "2026-08-05"), None);
    assert_eq!(rate(&points, "AUD", "2026-08-05"), Some(1.0));
    assert_eq!(rate(&points, "GBP", "2026-08-07"), None);
}

#[test]
fn the_rate_on_or_before_the_day_is_picked() {
    let times = vec![1767225600, 1767312000, 1767398400];
    let closes = vec![Some(n(1.1)), None, Some(n(1.3))];
    let picked = pick_rate(&times, &closes, None, "2026-01-02").unwrap();
    assert_eq!((f(picked.rate), picked.date.as_str()), (1.1, "2026-01-01"));
    let err = pick_rate(&times, &closes, None, "2025-12-31").unwrap_err();
    assert_eq!(err, "No FX rate found on or before 2025-12-31");
    assert!(is_missing_rate(&err));
    assert!(!is_missing_rate("FX fetch failed"));
}

#[test]
fn currencies_are_asked_for_by_their_codes() {
    assert_eq!(asked_currencies(" usd,GBP,AUD,x,US1,usd"), vec!["GBP", "USD"]);
}

#[test]
fn a_cached_rate_serves_until_it_is_an_hour_old() {
    let cached = CachedRate {
        price: Some(n(1.5)),
        last_updated: "2026-01-01T00:00:00Z".to_string(),
    };
    assert!(rate_is_fresh(Some(&cached), "2026-01-01T00:59:59Z"));
    assert!(!rate_is_fresh(Some(&cached), "2026-01-01T01:00:00Z"));
    assert!(!rate_is_fresh(None, "2026-01-01T00:00:00Z"));
    assert!(judge_fresh(Some(&cached), Some(10)) && !judge_fresh(Some(&cached), None));
    assert_eq!(choose_rate(None, Some(&cached)).0.map(f), Some(1.5), "a failed fetch keeps the cached rate");
    assert_eq!(choose_rate(Some(n(1.6)), Some(&cached)).0.map(f), Some(1.6));
}

fn bar(date: &str, close: Option<f64>) -> PriceHistoryPoint {
    PriceHistoryPoint {
        date: date.to_string(),
        open: None,
        high: None,
        low: None,
        close: close.map(n),
        volume: None,
    }
}

#[test]
fn a_bar_keeps_what_a_new_one_leaves_out() {
    let mut stored = bar("2026-01-05", Some(10.0));
    stored.high = Some(n(11.0));
    let merged = merge_bar(Some(&stored), &bar("2026-01-05", Some(9.0)));
    assert_eq!(merged.close.map(f), Some(9.0));
    assert_eq!(merged.high.map(f), Some(11.0));
    let mut bars = vec![stored];
    persist_price_history(&mut bars, &vec![bar("2026-01-05", None), bar("2026-01-06", Some(12.0))]);
    assert_eq!(bars.len(), 2);
    assert_eq!(bars[0].close.map(f), Some(10.0), "a missing close never blanks a bar");
    assert_eq!(bars[1].close.map(f), Some(12.0));
}

#[test]
fn a_history_answer_is_read_bar_by_bar() {
    let answer = HistoryAnswer {
        gmtoffset: Some(39600),
        timestamps: Some(vec![1767564000]),
        quote: Some(HistoryQuote {
            open: None,
            high: None,
            low: None,
            close: Some(vec![Some(n(37.39))]),
            volume: Some(vec![Some(100000)]),
        }),
    };
    let bars = read_history("TST.AX", &answer).unwrap();
    assert_eq!(bars.len(), 1);
    assert_eq!(bars[0].date, "2026-01-05");
    assert_eq!(bars[0].close.map(f), Some(37.39));
    assert_eq!(bars[0].volume, Some(100000));
    let none = HistoryAnswer { gmtoffset: None, timestamps: None, quote: None };
    assert!(read_history("TST.AX", &none).is_err());
}

#[test]
fn stored_bars_serve_while_they_are_current() {
    let stored = || vec![bar("2026-01-02", Some(1.0)), bar("2026-01-05", Some(2.0))];
    assert!(matches!(plan_fetch(&stored(), 2, "2026-01-05", false), FetchPlan::Serve));
    assert!(matches!(plan_fetch(&stored(), 2, "2026-01-06", false), FetchPlan::Supplement));
    assert!(matches!(plan_fetch(&stored(), 2, "2026-01-06", true), FetchPlan::Serve));
    assert!(matches!(plan_fetch(&vec![], 300, "2026-01-06", false), FetchPlan::Refetch));
    let s = supply(FetchPlan::Supplement, stored(), vec![bar("2026-01-05", Some(9.0)), bar("2026-01-06", Some(3.0))]);
    let dates: Vec<&str> = s.served.iter().map(|b| b.date.as_str()).collect();
    assert_eq!(dates, vec!["2026-01-02", "2026-01-05", "2026-01-06"]);
}

#[test]
fn a_live_price_makes_the_last_bar() {
    let live = LiveBar {
        price: Some(n(5.0)),
        price_date: Some("2026-01-06".to_string()),
        volume: Some(1),
        open: None,
        high: None,
        low: None,
    };
    let bars = inject_live(vec![bar("2026-01-05", Some(2.0))], Some(&live), "2026-01-06");
    assert_eq!(bars.len(), 2);
    assert_eq!(bars[1].close.map(f), Some(5.0));
    let bars = inject_live(vec![bar("2026-01-06", Some(2.0))], Some(&live), "2026-01-06");
    assert_eq!(bars.len(), 1);
    assert_eq!(bars[0].close.map(f), Some(5.0));
    assert_eq!(inject_live(vec![], None, "2026-01-06").len(), 0);
}

#[test]
fn what_is_asked_for_is_bounded() {
    assert_eq!(asked_periods("50, 150,x,0"), asked_periods("50,150"));
    assert!(asked_days(None) > 0);
    assert_eq!(history_span(400), "2y");
}

#[test]
fn numbers_are_compared_as_doubles_are() {
    let values = [f64::NEG_INFINITY, -2.5, -0.0, 0.0, 1e-310, 1.0, 1e308, f64::INFINITY, f64::NAN];
    for a in values {
        for b in values {
            assert_eq!(n(a).less_than(n(b)), a < b, "{a} < {b}");
            assert_eq!(n(a).no_more_than(n(b)), a <= b, "{a} <= {b}");
            assert_eq!(n(a).same_value(n(b)), a == b, "{a} == {b}");
        }
        assert_eq!(n(a).is_positive(), a > 0.0);
        assert_eq!(n(a).is_negative(), a < 0.0);
        assert_eq!(n(a).finite(), a.is_finite());
        assert_eq!(n(a).not_a_number(), a.is_nan());
        assert_eq!(f(n(a).abs()).to_bits(), a.abs().to_bits());
    }
    assert_eq!(f(larger(n(1.0), n(2.0))), 2.0);
    assert_eq!(f(smaller(n(1.0), n(2.0))), 1.0);
    assert_eq!(f64::from_bits(stocks_api::number::ONE_BITS), 1.0);
    assert_eq!(f64::from_bits(stocks_api::number::TWO_BITS), 2.0);
    assert_eq!(f64::from_bits(stocks_api::number::HUNDRED_BITS), 100.0);
    assert_eq!(f64::from_bits(stocks_api::dividends::SAME_AMOUNT_BITS), 1e-6);
    assert_eq!(f64::from_bits(stocks_api::transactions::SHARE_TOLERANCE_BITS), 1e-9);
}

#[test]
fn formulas_are_built_as_written() {
    let of = |x: f64| Formula::of(n(x));
    assert_eq!(f(calc(of(1.0).plus(of(2.0)).times(of(3.0)).minus(of(4.0)).over(of(5.0)))), 1.0);
    assert_eq!(f(calc(of(1.0).negated())), -1.0);
    assert_eq!(f(calc(of(1.0).percent_of(of(4.0)))), 25.0);
    assert_eq!(f(calc(of(1.236).in_cents())), 1.24);
    assert_eq!(f(calc(Formula::of_whole(-7))), -7.0);
}

#[test]
fn a_rate_is_asked_for_by_currency_and_day() {
    assert_eq!(rate_request(" usd ", "1970-01-01").unwrap(), ("USD".to_string(), 719_163));
    assert_eq!(judge_rate_request("gbp", Some(5)).unwrap(), ("GBP".to_string(), 5));
    for date in ["01/01/2025", "2025-02-30", ""] {
        let refusal = rate_request("USD", date).unwrap_err();
        assert_eq!(refusal.reason.status(), 400);
        assert_eq!(refusal.message, "Invalid date format, use YYYY-MM-DD");
    }
}

#[test]
fn rates_are_asked_for_from_a_week_before_to_two_days_after() {
    assert_eq!(rate_window(719_163), (-604_800, 172_800));
    assert_eq!(rate_window(719_170), (0, 777_600));
}
