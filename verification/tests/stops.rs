use stocks_api::fields::Field;
use stocks_api::indicators::PriceHistoryPoint;
use stocks_api::number::{Formula, Number};
use stocks_api::stops::{convert, effective_stop_loss, recent_high};
use stocks_api::textmap::TextMap;

fn n(x: f64) -> Number {
    Number { bits: x.to_bits() }
}

fn f(x: Number) -> f64 {
    f64::from_bits(x.bits)
}

fn value(formula: &Formula) -> f64 {
    match formula {
        Formula::Value(x) => f(*x),
        Formula::Whole(w) => *w as f64,
        Formula::Sum(a, b) => value(a) + value(b),
        Formula::Difference(a, b) => value(a) - value(b),
        Formula::Product(a, b) => value(a) * value(b),
        Formula::Quotient(a, b) => value(a) / value(b),
        Formula::Opposite(a) => -value(a),
        Formula::Rounded(a) => value(a).round(),
    }
}

fn calc(formula: Formula) -> Number {
    n(value(&formula))
}

fn field(text: &str) -> Field {
    Field {
        text: text.to_string(),
        number: text.parse::<f64>().ok().map(n),
        trimmed_number: text.trim().parse::<f64>().ok().map(n),
    }
}

fn sym_fields(pairs: &[(&str, &str)]) -> TextMap<Field> {
    let mut map = TextMap::new();
    for (key, text) in pairs {
        map.insert(key.to_string(), field(text));
    }
    map
}

fn bar(date: &str, high: Option<f64>, close: Option<f64>) -> PriceHistoryPoint {
    PriceHistoryPoint {
        date: date.to_string(),
        open: None,
        high: high.map(n),
        low: None,
        close: close.map(n),
        volume: None,
    }
}

fn close(date: &str, price: f64) -> PriceHistoryPoint {
    bar(date, None, Some(price))
}

fn ohlc(date: &str, high: f64, price: f64) -> PriceHistoryPoint {
    bar(date, Some(high), Some(price))
}

fn stop(
    fields: Option<&TextMap<Field>>,
    bars: Vec<PriceHistoryPoint>,
    current: Option<f64>,
    rate: Option<f64>,
) -> Option<(f64, bool)> {
    effective_stop_loss(fields, &bars, current.map(n), rate.map(n), &calc)
        .map(|(price, trailing)| (f(price), trailing))
}

#[test]
fn stop_loss_manual_field_wins_over_trailing() {
    let fields = sym_fields(&[
        ("stop_loss", "4.50"),
        ("trailing_sell_pct", "10"),
        ("trailing_sell_date", "2026-05-01"),
    ]);
    assert_eq!(stop(Some(&fields), vec![], Some(5.0), None), Some((4.50, false)));
}

#[test]
fn stop_loss_zero_manual_falls_back_to_trailing() {
    let fields = sym_fields(&[("stop_loss", "0"), ("trailing_sell_pct", "10")]);
    assert_eq!(stop(Some(&fields), vec![], Some(10.0), None), Some((9.0, true)));
}

#[test]
fn trailing_falls_back_to_close_when_high_is_missing() {
    let bars =
        vec![close("2026-05-01", 20.0), close("2026-05-12", 12.0), close("2026-06-01", 11.0)];
    let fields = sym_fields(&[("trailing_sell_pct", "10"), ("trailing_sell_date", "2026-05-10")]);
    let (sl, trailing) = stop(Some(&fields), bars, Some(11.5), None).unwrap();
    assert!((sl - 10.8).abs() < 1e-9, "expected 10.8, got {sl}");
    assert!(trailing);
}

#[test]
fn trailing_uses_intraday_high_not_the_close() {
    let bars = vec![
        ohlc("2026-06-10", 52.22, 52.03),
        ohlc("2026-06-11", 59.87, 58.57),
        ohlc("2026-06-12", 60.69, 58.48),
    ];
    let fields = sym_fields(&[("trailing_sell_pct", "15"), ("trailing_sell_date", "2026-06-09")]);
    let (sl, trailing) = stop(Some(&fields), bars, Some(58.48), None).unwrap();
    assert!(trailing);
    assert!((sl - 51.5865).abs() < 1e-4, "expected ~51.59 from the high, got {sl}");
    assert!(sl > 58.57 * 0.85, "must not trail the highest close");
}

#[test]
fn trailing_peak_spans_bars_with_and_without_highs() {
    let bars = vec![ohlc("2026-05-12", 11.0, 10.0), close("2026-05-13", 12.0)];
    let fields = sym_fields(&[("trailing_sell_pct", "10"), ("trailing_sell_date", "2026-05-10")]);
    let (sl, _) = stop(Some(&fields), bars, Some(9.0), None).unwrap();
    assert!((sl - 10.8).abs() < 1e-9, "peak should be 12.0 from the close-only bar, got stop {sl}");
}

#[test]
fn trailing_peak_includes_the_live_price() {
    let bars = vec![ohlc("2026-05-12", 11.0, 10.5)];
    let fields = sym_fields(&[("trailing_sell_pct", "10"), ("trailing_sell_date", "2026-05-10")]);
    let (sl, _) = stop(Some(&fields), bars, Some(20.0), None).unwrap();
    assert!((sl - 18.0).abs() < 1e-9, "live 20.0 should set the peak, got stop {sl}");
}

#[test]
fn trailing_live_price_can_be_the_reference() {
    let bars = vec![close("2026-05-12", 12.0)];
    let fields = sym_fields(&[("trailing_sell_pct", "10"), ("trailing_sell_date", "2026-05-10")]);
    let (sl, trailing) = stop(Some(&fields), bars, Some(13.0), None).unwrap();
    assert!((sl - 11.7).abs() < 1e-9, "expected 11.7, got {sl}");
    assert!(trailing);
}

#[test]
fn trailing_without_placement_date_uses_current_price_only() {
    let bars = vec![close("2026-05-12", 15.0)];
    let fields = sym_fields(&[("trailing_sell_pct", "10")]);
    assert_eq!(stop(Some(&fields), bars, Some(10.0), None), Some((9.0, true)));
}

#[test]
fn trailing_empty_placement_date_is_treated_as_absent() {
    let bars = vec![close("2026-05-12", 15.0)];
    let fields = sym_fields(&[("trailing_sell_pct", "10"), ("trailing_sell_date", "")]);
    assert_eq!(stop(Some(&fields), bars, Some(10.0), None), Some((9.0, true)));
}

#[test]
fn stop_loss_none_when_no_fields() {
    assert_eq!(stop(None, vec![], Some(10.0), None), None);
    let empty = sym_fields(&[]);
    assert_eq!(stop(Some(&empty), vec![], Some(10.0), None), None);
}

#[test]
fn stop_loss_zero_or_negative_trailing_pct_ignored() {
    let zero = sym_fields(&[("trailing_sell_pct", "0")]);
    assert_eq!(stop(Some(&zero), vec![], Some(10.0), None), None);
    let negative = sym_fields(&[("trailing_sell_pct", "-5")]);
    assert_eq!(stop(Some(&negative), vec![], Some(10.0), None), None);
}

#[test]
fn trailing_none_when_no_price_and_no_closes() {
    let fields = sym_fields(&[("trailing_sell_pct", "10"), ("trailing_sell_date", "2026-05-10")]);
    assert_eq!(stop(Some(&fields), vec![], None, None), None);
}

#[test]
fn trailing_conversion_applies_to_stored_closes() {
    let bars = vec![close("2026-05-12", 10.0)];
    let fields = sym_fields(&[("trailing_sell_pct", "10"), ("trailing_sell_date", "2026-05-10")]);
    let (sl, trailing) = stop(Some(&fields), bars, Some(18.0), Some(2.0)).unwrap();
    assert!((sl - 18.0).abs() < 1e-9, "expected 18.0, got {sl}");
    assert!(trailing);
}

#[test]
fn a_lower_price_leaves_the_trailing_stop_where_it_was() {
    let fields = sym_fields(&[("trailing_sell_pct", "10"), ("trailing_sell_date", "2026-05-10")]);
    let bars = || vec![ohlc("2026-05-12", 20.0, 19.0)];
    let high = stop(Some(&fields), bars(), Some(20.0), None);
    let low = stop(Some(&fields), bars(), Some(5.0), None);
    assert_eq!(high, low);
}

#[test]
fn the_recent_high_looks_at_the_last_bars_alone() {
    let bars = vec![ohlc("2026-01-01", 99.0, 1.0), ohlc("2026-01-02", 5.0, 4.0), close("2026-01-03", 6.0)];
    assert_eq!(recent_high(&bars, 2, None, &calc).map(f), Some(6.0));
    assert_eq!(recent_high(&bars, 3, Some(n(2.0)), &calc).map(f), Some(198.0));
    assert_eq!(recent_high(&vec![], 3, None, &calc), None);
}

#[test]
fn a_bar_without_a_close_lifts_the_stop_and_not_the_recent_high() {
    let bars = || {
        let mut open_day = ohlc("2026-05-13", 30.0, 1.0);
        open_day.close = None;
        vec![ohlc("2026-05-12", 20.0, 19.0), open_day]
    };
    let fields = sym_fields(&[("trailing_sell_pct", "10"), ("trailing_sell_date", "2026-05-10")]);
    assert_eq!(stop(Some(&fields), bars(), Some(5.0), None), Some((27.0, true)));
    assert_eq!(recent_high(&bars(), 1, None, &calc).map(f), Some(20.0));
}

#[test]
fn a_price_without_a_rate_is_not_converted() {
    assert_eq!(f(convert(n(3.0), None, &calc)), 3.0);
    assert_eq!(f(convert(n(3.0), Some(n(1.5)), &calc)), 4.5);
}
