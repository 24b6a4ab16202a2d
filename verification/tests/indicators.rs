use stocks_api::indicators::{
    compute_symbol_indicators, crossover_reference, indicator_value, stored_sma,
    stored_weekly_ema, weekly_ema_series, AverageStats, PriceHistoryPoint, Reference,
};
use stocks_api::number::{Formula, Number};

fn n(x: f64) -> Number {
    Number { bits: x.to_bits() }
}

fn f(x: Number) -> f64 {
    f64::from_bits(x.bits)
}

fn value(formula: &Formula) -> f64 {
    match formula {
        Formula::Value(x) => f(*x),
        Formula::Whole(w) => *w as f64,
        Formula::Sum(a, b) => value(a) + value(b),
        Formula::Difference(a, b) => value(a) - value(b),
        Formula::Product(a, b) => value(a) * value(b),
        Formula::Quotient(a, b) => value(a) / value(b),
        Formula::Opposite(a) => -value(a),
        Formula::Rounded(a) => value(a).round(),
    }
}

fn calc(formula: Formula) -> Number {
    n(value(&formula))
}

fn bar(date: &str, close: f64) -> PriceHistoryPoint {
    PriceHistoryPoint {
        date: date.to_string(),
        open: None,
        high: None,
        low: None,
        close: Some(n(close)),
        volume: None,
    }
}

fn bars(points: &[(&str, f64)]) -> Vec<PriceHistoryPoint> {
    points.iter().map(|(date, close)| bar(date, *close)).collect()
}

#[test]
fn weekly_ema_series_uses_the_last_completed_week() {
    let history = bars(&[
        ("2026-01-05", 100.0),
        ("2026-01-09", 105.0),
        ("2026-01-12", 200.0),
        ("2026-01-16", 205.0),
        ("2026-01-19", 300.0),
    ]);
    let series = weekly_ema_series(&history, 2, &calc).expect("three weeks is enough for period 2");
    assert_eq!(series.len(), history.len(), "one value per daily bar");
    assert_eq!(series[0], None);
    assert_eq!(series[1], None);
    assert_eq!(series[2], None);
    assert_eq!(series[3], None);
    assert_eq!(series[4].map(f), Some(155.0));
    assert_eq!(weekly_ema_series(&history, 40, &calc), None);
}

#[test]
fn weekly_ema_collapses_to_one_close_per_week() {
    let history = bars(&[
        ("2026-01-05", 100.0),
        ("2026-01-07", 101.0),
        ("2026-01-09", 105.0),
        ("2026-01-12", 200.0),
        ("2026-01-16", 205.0),
    ]);
    let ema = f(stored_weekly_ema(&history, 2, &calc).expect("two weeks is enough for period 2"));
    assert!((ema - 155.0).abs() < 1e-9, "expected the mean of 105 and 205, got {ema}");
}

#[test]
fn weekly_ema_handles_short_weeks_and_insufficient_history() {
    let history = bars(&[("2026-01-09", 10.0), ("2026-01-12", 20.0), ("2026-01-13", 30.0)]);
    assert!((f(stored_weekly_ema(&history, 2, &calc).unwrap()) - 20.0).abs() < 1e-9);
    assert_eq!(stored_weekly_ema(&history, 40, &calc), None);
}

#[test]
fn a_weekly_average_moves_by_its_weight() {
    let history = bars(&[("2026-01-09", 10.0), ("2026-01-16", 20.0), ("2026-01-23", 30.0)]);
    let expected = 30.0 * (2.0 / 3.0) + 15.0 * (1.0 - 2.0 / 3.0);
    assert!((f(stored_weekly_ema(&history, 2, &calc).unwrap()) - expected).abs() < 1e-9);
}

#[test]
fn indicator_value_resolves_the_three_offered_keys() {
    let start = chrono::NaiveDate::from_ymd_opt(2026, 1, 1).unwrap();
    let history: Vec<PriceHistoryPoint> = (0..150)
        .map(|i| bar(&(start + chrono::Duration::days(i)).format("%Y-%m-%d").to_string(), 10.0))
        .collect();
    assert_eq!(indicator_value(&history, "sma50", &calc).map(f), Some(10.0));
    assert_eq!(indicator_value(&history, "sma150", &calc).map(f), Some(10.0));
    assert_eq!(indicator_value(&history, "ema40w", &calc), None);
    assert_eq!(indicator_value(&history, "sma999", &calc), None);
}

#[test]
fn a_simple_average_takes_the_last_closes() {
    let closes: Vec<Number> = [1.0, 2.0, 3.0, 4.0].iter().map(|x| n(*x)).collect();
    assert_eq!(stored_sma(&closes, 2, &calc).map(f), Some(3.5));
    assert_eq!(stored_sma(&closes, 5, &calc), None);
}

#[test]
fn a_crossing_is_measured_against_its_field() {
    let history = bars(&[("2026-01-05", 1.0), ("2026-01-06", 2.0)]);
    match crossover_reference(&history, "sma50", None, &calc) {
        Some(Reference::SimpleAverage(50)) => {}
        other => panic!("{other:?}"),
    }
    match crossover_reference(&history, "target", Some(n(10.0)), &calc) {
        Some(Reference::Series(values)) => {
            assert_eq!(values.iter().map(|v| v.map(f)).collect::<Vec<_>>(), vec![Some(10.0); 2]);
        }
        other => panic!("{other:?}"),
    }
    assert!(crossover_reference(&history, "target", None, &calc).is_none());
    assert!(crossover_reference(&history, "ema40w", None, &calc).is_none());
}

#[test]
fn only_a_price_above_its_average_has_crossed() {
    let short = AverageStats { latest: Some(n(1.0)), days: 3, volume_pct: Some(n(20.0)) };
    let long = AverageStats { latest: Some(n(2.0)), days: 9, volume_pct: Some(n(5.0)) };
    let told = compute_symbol_indicators(Some(n(2.0)), short, long);
    assert_eq!(told.sma50.map(f), Some(1.0));
    assert_eq!(told.sma150.map(f), Some(2.0));
    assert_eq!(told.days_since_50sma, Some(3));
    assert_eq!(told.volume_pct_50sma.map(f), Some(20.0));
    assert_eq!(told.days_since_150sma, None);
    assert_eq!(told.volume_pct_150sma, None);
    let unpriced = compute_symbol_indicators(None, short, long);
    assert_eq!(unpriced.days_since_50sma, None);
    let unknown = AverageStats { latest: None, days: 3, volume_pct: None };
    assert_eq!(compute_symbol_indicators(Some(n(2.0)), unknown, long).days_since_50sma, None);
}
