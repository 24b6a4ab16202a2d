use stocks_api::fields::Field;
use stocks_api::indicators::PriceHistoryPoint;
use stocks_api::lists::{
    crossing_direction, crossing_symbols, crossing_window, custom_list, field_label,
    operator_metric, operator_side, parse_list_sort, ranked_positions, Crossing, CustomList,
    Entry, FieldDef, HoldingCandidate, ListDef, Metric, Side, WatchCandidate,
};
use stocks_api::number::{Formula, Number};
use stocks_api::textmap::TextMap;

fn n(x: f64) -> Number {
    Number { bits: x.to_bits() }
}

fn f(x: Number) -> f64 {
    f64::from_bits(x.bits)
}

fn value(formula: &Formula) -> f64 {
    match formula {
        Formula::Value(x) => f(*x),
        Formula::Whole(w) => *w as f64,
        Formula::Sum(a, b) => value(a) + value(b),
        Formula::Difference(a, b) => value(a) - value(b),
        Formula::Product(a, b) => value(a) * value(b),
        Formula::Quotient(a, b) => value(a) / value(b),
        Formula::Opposite(a) => -value(a),
        Formula::Rounded(a) => value(a).round(),
    }
}

fn calc(formula: Formula) -> Number {
    n(value(&formula))
}

fn field(text: &str) -> Field {
    Field {
        text: text.to_string(),
        number: text.parse::<f64>().ok().map(n),
        trimmed_number: text.trim().parse::<f64>().ok().map(n),
    }
}

fn fields(pairs: &[(&str, &str)]) -> TextMap<Field> {
    let mut map = TextMap::new();
    for (key, text) in pairs {
        map.insert(key.to_string(), field(text));
    }
    map
}

fn bar(date: &str, close: f64, volume: i64) -> PriceHistoryPoint {
    PriceHistoryPoint {
        date: date.to_string(),
        open: None,
        high: None,
        low: None,
        close: Some(n(close)),
        volume: Some(volume),
    }
}

fn flat_bars(close: f64, count: i64) -> Vec<PriceHistoryPoint> {
    let start = chrono::NaiveDate::from_ymd_opt(2025, 8, 1).unwrap();
    (0..count)
        .map(|i| {
            bar(&(start + chrono::Duration::days(i)).format("%Y-%m-%d").to_string(), close, 100)
        })
        .collect()
}

fn def(key: &str, source: &str, field_key: &str, operator: &str) -> ListDef {
    ListDef {
        key: key.to_string(),
        label: key.to_string(),
        source: source.to_string(),
        field_key: field_key.to_string(),
        operator: operator.to_string(),
        compare: None,
        limit: None,
        sort: None,
    }
}

struct Fixture {
    man: TextMap<Field>,
    trl: TextMap<Field>,
    man_bars: Vec<PriceHistoryPoint>,
    trl_bars: Vec<PriceHistoryPoint>,
    part_bars: Vec<PriceHistoryPoint>,
}

fn fixture() -> Fixture {
    Fixture {
        man: fields(&[("stop_loss", "9.0"), ("min_volume", "100000")]),
        trl: fields(&[
            ("trailing_sell_pct", "10"),
            ("trailing_sell_date", "2026-05-01"),
            ("min_volume", "200000"),
        ]),
        man_bars: flat_bars(10.0, 150),
        trl_bars: vec![bar("2026-05-15", 30.0, 1), bar("2026-06-01", 25.0, 1)],
        part_bars: flat_bars(3.0, 150),
    }
}

fn held<'a>(
    symbol: &str,
    shares: f64,
    price: f64,
    volume: i64,
    fields: Option<&'a TextMap<Field>>,
    bars: &'a Vec<PriceHistoryPoint>,
) -> HoldingCandidate<'a> {
    HoldingCandidate {
        symbol: symbol.to_string(),
        shares: n(shares),
        price: Some(n(price)),
        volume: Some(volume),
        currency: Some("AUD".to_string()),
        fields,
        bars: Some(bars),
    }
}

fn holdings(x: &Fixture) -> Vec<HoldingCandidate<'_>> {
    vec![
        held("MAN.AX", 100.0, 12.0, 500_000, Some(&x.man), &x.man_bars),
        held("TRL.AX", 50.0, 28.0, 120_000, Some(&x.trl), &x.trl_bars),
        held("PART.AX", 60.0, 1.5, 90_000, None, &x.part_bars),
        held("SOLD.AX", 0.0, 7.0, 10_000, None, &x.part_bars),
    ]
}

fn no_crossing(_row: usize, _level: Option<Number>) -> Option<Crossing> {
    None
}

fn run(def: &ListDef, asked: Option<&str>, x: &Fixture) -> CustomList {
    custom_list(def, asked, &holdings(x), &vec![], &vec![], &vec![], &calc, &no_crossing)
}

fn find<'a>(list: &'a CustomList, symbol: &str) -> Option<&'a Entry> {
    list.entries.iter().find(|e| e.symbol == symbol)
}

fn close_to(x: Number, expected: f64) -> bool {
    (f(x) - expected).abs() < 1e-6
}

fn stop_losses(limit: usize) -> ListDef {
    let mut d = def("stop_losses", "holdings", "holdings:stop_loss", "pct_below");
    d.limit = Some(limit);
    d
}

#[test]
fn list_sort_override_changes_which_rows_survive_the_limit() {
    let x = fixture();
    let list = run(&stop_losses(1), None, &x);
    assert_eq!(list.entries.len(), 1);
    assert_eq!(list.entries[0].symbol, "TRL.AX");
    assert_eq!(list.sort, "asc");
    assert!(list.truncated, "a row was cut, so the list is truncated");

    let list = run(&stop_losses(1), Some("desc"), &x);
    assert_eq!(list.entries.len(), 1);
    assert_eq!(list.entries[0].symbol, "MAN.AX");
    assert_eq!(list.sort, "desc");
}

#[test]
fn list_sort_override_is_scoped_and_fails_safe() {
    let x = fixture();
    let asked = |raw: &str| {
        parse_list_sort(Some(raw)).get("stop_losses").map(|s| s.to_string())
    };
    let order = asked("some_other_list:desc");
    assert_eq!(run(&stop_losses(1), order.as_deref(), &x).entries[0].symbol, "TRL.AX");
    for raw in ["stop_losses:sideways", "stop_losses", ""] {
        let order = asked(raw);
        let list = run(&stop_losses(1), order.as_deref(), &x);
        assert_eq!(list.entries[0].symbol, "TRL.AX");
        assert_eq!(list.sort, "asc");
    }
}

#[test]
fn parse_list_sort_accepts_only_valid_directions() {
    let parsed = parse_list_sort(Some("a:desc, b:ASC ,c:nonsense,d,:desc,e:"));
    assert_eq!(parsed.get("a").map(String::as_str), Some("desc"));
    assert_eq!(parsed.get("b").map(String::as_str), Some("asc"), "whitespace and case tolerated");
    assert!(!parsed.contains_key("c"));
    assert!(!parsed.contains_key("d"));
    assert!(!parsed.contains_key("e"));
    assert!(parse_list_sort(None).len() == 0);
}

#[test]
fn a_bad_pair_spoils_nothing_and_the_last_pair_counts() {
    let raw = "a:desc,b:asc,a:ASC";
    let parsed = parse_list_sort(Some(raw));
    assert_eq!(parsed.len(), 2);
    assert_eq!(parsed.get("a").map(String::as_str), Some("asc"));
    for bad in ["a", "a:sideways", "", "b:desc:asc"] {
        let more = parse_list_sort(Some(&format!("{raw},{bad}")));
        assert_eq!(more.len(), 2);
        assert_eq!(more.get("a").map(String::as_str), Some("asc"));
        assert_eq!(more.get("b").map(String::as_str), Some("asc"));
    }
}

#[test]
fn overview_stop_loss_list_includes_trailing_holdings() {
    let x = fixture();
    let list = run(&stop_losses(20), None, &x);
    let man = find(&list, "MAN.AX").unwrap();
    assert!(close_to(man.field_value, 9.0));
    assert!(!man.is_trailing);
    assert!(close_to(man.pct_diff, 33.333333333333336));
    let trl = find(&list, "TRL.AX").unwrap();
    assert!(close_to(trl.field_value, 27.0), "trailing trigger appears as the list value");
    assert!(trl.is_trailing);
    assert!(find(&list, "PART.AX").is_none());
    assert!(find(&list, "SOLD.AX").is_none());
}

#[test]
fn overview_list_can_compare_volume_against_a_stored_field() {
    let x = fixture();
    let mut d = def("vol", "holdings", "holdings:min_volume", "above");
    d.compare = Some("volume".to_string());
    let list = run(&d, None, &x);
    assert!(list.by_volume);
    let man = find(&list, "MAN.AX").unwrap();
    assert!(close_to(man.compare_value, 500_000.0), "volume drives the comparison");
    assert!(close_to(man.price, 12.0), "the price stays on the entry as context");
    assert!(close_to(man.pct_diff, 400.0));
    assert!(find(&list, "TRL.AX").is_none());
}

#[test]
fn overview_list_defaults_to_comparing_price() {
    let x = fixture();
    let list = run(&stop_losses(20), None, &x);
    assert!(!list.by_volume);
    let man = find(&list, "MAN.AX").unwrap();
    assert!(close_to(man.compare_value, 12.0));
}

#[test]
fn overview_indicator_list_ranks_holdings_against_the_50_day_sma() {
    let x = fixture();
    let list = run(&def("above_sma", "holdings", "indicator:sma50", "above"), None, &x);
    assert_eq!(list.field_label, "50-Day SMA", "the key resolves to a readable heading");
    let man = find(&list, "MAN.AX").unwrap();
    assert!(close_to(man.field_value, 10.0), "flat closes at 10.0");
    assert!(close_to(man.pct_diff, 20.0), "price 12 against a 10.0 average");
    assert_eq!(man.origin.name(), "holdings", "drives which screen the symbol links to");
    assert!(find(&list, "PART.AX").is_none());
    assert!(find(&list, "TRL.AX").is_none());
}

fn crossed(_row: usize, _level: Option<Number>) -> Option<Crossing> {
    Some(Crossing { days: 5, volume_pct: Some(n(200.0)) })
}

fn crossing_list(operator: &str, sort: Option<&str>, price: f64) -> CustomList {
    let target = fields(&[("target", "10.0")]);
    let bars = flat_bars(price, 5);
    let rows = vec![held("TST.AX", 100.0, price, 100, Some(&target), &bars)];
    let mut d = def("crossing", "holdings", "holdings:target", operator);
    d.sort = sort.map(|s| s.to_string());
    custom_list(&d, None, &rows, &vec![], &vec![], &vec![], &calc, &crossed)
}

#[test]
fn overview_days_above_list_counts_from_the_crossing() {
    let list = crossing_list("days_above", None, 12.0);
    assert_eq!(list.metric.name(), "days");
    let tst = find(&list, "TST.AX").unwrap();
    assert_eq!(tst.days, Some(5));
    assert!(close_to(tst.volume_cross_pct.unwrap(), 200.0));
}

#[test]
fn overview_days_below_list_dates_the_breakdown() {
    let list = crossing_list("days_below", None, 8.0);
    let tst = find(&list, "TST.AX").unwrap();
    assert_eq!(tst.days, Some(5));
    assert!(close_to(tst.volume_cross_pct.unwrap(), 200.0));
    assert!(crossing_list("days_above", None, 8.0).entries.is_empty());
}

#[test]
fn overview_volume_cross_list_reports_its_metric() {
    let list = crossing_list("volume_cross_pct", Some("desc"), 12.0);
    assert_eq!(list.metric.name(), "volume_cross_pct");
    assert_eq!(list.sort, "desc");
    let tst = find(&list, "TST.AX").unwrap();
    assert!(close_to(tst.volume_cross_pct.unwrap(), 200.0));
    assert_eq!(tst.days, Some(5), "the date is still reported alongside it");
}

#[test]
fn a_symbol_that_is_held_and_watched_is_listed_once() {
    let x = fixture();
    let rows = holdings(&x);
    let watched = vec![WatchCandidate {
        symbol: "MAN.AX".to_string(),
        price: Some(n(12.0)),
        volume: None,
        breakthrough_price: None,
        stop_loss_price: None,
        fields: None,
        bars: Some(&x.man_bars),
    }];
    let d = def("both", "both", "indicator:sma50", "above");
    let list = custom_list(&d, None, &rows, &watched, &vec![], &vec![], &calc, &no_crossing);
    assert_eq!(list.entries.iter().filter(|e| e.symbol == "MAN.AX").count(), 1);
}

#[test]
fn a_watched_symbol_is_held_against_its_own_prices() {
    let none: Vec<PriceHistoryPoint> = vec![];
    let watched = vec![WatchCandidate {
        symbol: "WAT.AX".to_string(),
        price: Some(n(11.0)),
        volume: None,
        breakthrough_price: Some(n(10.0)),
        stop_loss_price: None,
        fields: None,
        bars: Some(&none),
    }];
    let d = def("risen", "watchlist", "watchlist:breakthrough_price", "above");
    let list = custom_list(&d, None, &vec![], &watched, &vec![], &vec![], &calc, &no_crossing);
    assert_eq!(list.entries.len(), 1);
    assert!(close_to(list.entries[0].pct_diff, 10.0));
    assert_eq!(list.entries[0].origin.name(), "watchlist");
}

#[test]
fn missing_ranks_come_last_either_way() {
    let ranks = vec![Some(3), None, Some(1), Some(2)];
    assert_eq!(ranked_positions(&ranks, false, 10), vec![2, 3, 0, 1]);
    assert_eq!(ranked_positions(&ranks, true, 10), vec![0, 3, 2, 1]);
    assert_eq!(ranked_positions(&ranks, true, 2), vec![0, 3]);
    assert_eq!(ranked_positions(&vec![Some(1), Some(1)], true, 2), vec![0, 1]);
}

#[test]
fn operators_have_a_side_a_direction_and_a_metric() {
    assert_eq!(operator_side("above"), Side::Over);
    assert_eq!(operator_side("pct_above"), Side::Under);
    assert_eq!(operator_side("sideways"), Side::Neither);
    assert_eq!(crossing_direction("days_below"), Some(Side::Under));
    assert_eq!(crossing_direction("above"), None);
    assert_eq!(operator_metric("days_above"), Metric::Days);
    assert_eq!(operator_metric("volume_cross_pct"), Metric::VolumeCross);
}

#[test]
fn labels_come_from_the_definitions_and_then_the_built_in_ones() {
    let defs = vec![FieldDef { key: "target".to_string(), label: "Target".to_string() }];
    assert_eq!(field_label(&defs, "target"), "Target");
    assert_eq!(field_label(&defs, "sma50"), "50-Day SMA");
}

#[test]
fn prices_are_read_for_lists_about_crossings_alone() {
    let held = vec!["B.AX".to_string(), "A.AX".to_string()];
    let watched = vec!["W.AX".to_string(), "A.AX".to_string()];
    let plain = vec![def("a", "both", "indicator:ema40w", "above")];
    assert!(crossing_symbols(&plain, &held, &watched).is_empty());
    assert_eq!(crossing_window(&plain), 600);
    let both = vec![def("a", "both", "indicator:ema40w", "days_above")];
    assert_eq!(crossing_symbols(&both, &held, &watched), vec!["A.AX", "B.AX", "W.AX"]);
    assert_eq!(crossing_window(&both), 3000);
    let one = vec![def("a", "watchlist", "indicator:sma50", "days_below")];
    assert_eq!(crossing_symbols(&one, &held, &watched), vec!["A.AX", "W.AX"]);
    assert_eq!(crossing_window(&one), 600);
}
