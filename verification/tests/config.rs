use stocks_api::config::{
    validate_config_value, validate_custom_fields, validate_dashboard_custom_lists,
    validate_optional_date,
};
use stocks_api::fields::Field;
use stocks_api::json::Json;
use stocks_api::marks::{dead_symbols, fx_currencies_in_use, manual_prices};
use stocks_api::meta::{
    config_json, default_sectors, reserved_holdings_keys, reserved_watchlist_keys, sectors,
    supported_currencies,
};
use stocks_api::number::Number;
use stocks_api::reply::Reason;
use stocks_api::settings::{load_config, update_config, upsert_config, visible_config, ConfigItem};

fn item(key: &str, value: &str) -> ConfigItem {
    ConfigItem { key: key.to_string(), value: value.to_string() }
}

#[test]
fn config_validation_accepts_everything_the_editor_can_build() {
    let valid = r#"[
        {"key":"a","label":"Above","source":"holdings","field_key":"holdings:stop_loss","operator":"above","limit":15,"sort":"asc"},
        {"key":"b","label":"Volume","source":"watchlist","field_key":"watchlist:breakthrough_price","operator":"pct_below","compare":"volume"},
        {"key":"c","label":"SMA","source":"both","field_key":"indicator:sma50","operator":"days_above"},
        {"key":"d","label":"SMA150","source":"holdings","field_key":"indicator:sma150","operator":"days_below"},
        {"key":"e","label":"EMA","source":"holdings","field_key":"indicator:ema40w","operator":"volume_cross_pct","sort":"desc"},
        {"key":"f","label":"Nulls","source":"holdings","field_key":"holdings:x","operator":"below","compare":null,"sort":null,"limit":null}
    ]"#;
    assert_eq!(validate_dashboard_custom_lists(valid), Ok(()));
    assert_eq!(validate_dashboard_custom_lists("[]"), Ok(()), "no lists is a legitimate configuration");
}

#[test]
fn config_validation_rejects_and_explains() {
    let base = |extra: &str| format!(r#"[{{"key":"a","label":"A","source":"holdings","field_key":"holdings:x","operator":"above"{extra}}}]"#);
    let cases: Vec<(String, &str)> = vec![
        ("{not json".to_string(), "not valid JSON"),
        (r#"{"key":"a"}"#.to_string(), "must be a JSON array"),
        ("[3]".to_string(), "must be an object"),
        (r#"[{"label":"A","source":"holdings","field_key":"holdings:x","operator":"above"}]"#.to_string(), "key is required"),
        (r#"[{"key":"a","source":"holdings","field_key":"holdings:x","operator":"above"}]"#.to_string(), "label is required"),
        (r#"[{"key":"a","label":"A","source":"nowhere","field_key":"holdings:x","operator":"above"}]"#.to_string(), "source 'nowhere' is not one of"),
        (r#"[{"key":"a","label":"A","source":"holdings","field_key":"holdings:x","operator":"sideways"}]"#.to_string(), "operator 'sideways' is not one of"),
        (r#"[{"key":"a","label":"A","source":"holdings","field_key":"stop_loss","operator":"above"}]"#.to_string(), "field_key must look like"),
        (r#"[{"key":"a","label":"A","source":"holdings","field_key":"sectors:x","operator":"above"}]"#.to_string(), "prefix 'sectors' is not"),
        (r#"[{"key":"a","label":"A","source":"holdings","field_key":"indicator:sma200","operator":"above"}]"#.to_string(), "indicator 'sma200' is not one of"),
        (base(r#","compare":"turnover""#), "compare 'turnover' is not one of"),
        (base(r#","sort":"up""#), "sort 'up' is not one of"),
        (base(r#","limit":0"#), "limit 0 is outside 1-100"),
        (base(r#","limit":500"#), "limit 500 is outside 1-100"),
        (base(r#","limit":"lots""#), "limit must be a whole number"),
    ];
    for (json, expected) in cases {
        let err = validate_dashboard_custom_lists(&json)
            .expect_err(&format!("should have been rejected: {json}"));
        assert!(err.contains(expected), "expected {expected:?} in {err:?}");
    }
    let dup = r#"[{"key":"a","label":"A","source":"holdings","field_key":"holdings:x","operator":"above"},
                  {"key":"a","label":"B","source":"holdings","field_key":"holdings:y","operator":"below"}]"#;
    assert!(validate_dashboard_custom_lists(dup).unwrap_err().contains("duplicate key 'a'"));
}

#[test]
fn a_dead_symbol_mark_must_carry_a_real_date() {
    assert_eq!(validate_config_value("dead_symbol_JLG.AX", "2025-08-01"), Ok(()));
    assert_eq!(validate_config_value("dead_symbol_JLG.AX", ""), Ok(()), "clearing the mark is allowed");
    assert!(validate_config_value("dead_symbol_JLG.AX", "01/08/2025").is_err());
    assert!(validate_config_value("dead_symbol_JLG.AX", "delisted").is_err());
}

#[test]
fn dead_symbols_reads_the_marks_and_ignores_cleared_ones() {
    let dead = dead_symbols(&vec![
        item("dead_symbol_JLG.AX", "2025-08-01"),
        item("dead_symbol_CCLD.AX", "   "),
        item("manual_price_JLG.AX", "3.91"),
        item("portfolio_history_start", "2025-01-01"),
    ]);
    assert_eq!(dead.get("JLG.AX"), Some(&"2025-08-01".to_string()));
    assert!(!dead.contains_key("CCLD.AX"), "a cleared mark is not a dead symbol");
    assert_eq!(dead.len(), 1);
}

#[test]
fn marking_a_symbol_dead_discards_its_stale_quote() {
    let change = update_config("dead_symbol_JLG.AX", "2025-08-01").unwrap();
    assert_eq!(change.drop_quote_of.as_deref(), Some("JLG.AX"));
    assert_eq!(change.item.key, "dead_symbol_JLG.AX");
    assert_eq!(change.item.value, "2025-08-01");
}

#[test]
fn clearing_the_mark_leaves_the_cache_alone() {
    let change = update_config("dead_symbol_BACK.AX", "").unwrap();
    assert_eq!(change.drop_quote_of, None);
}

#[test]
fn config_validation_leaves_unrelated_keys_alone() {
    assert_eq!(validate_config_value("manual_price_TST.AX", "12.50"), Ok(()));
    assert_eq!(validate_config_value("sectors", "not json at all"), Ok(()));
    assert!(validate_config_value("holdings_custom_fields", "{}").is_err());
    assert_eq!(validate_config_value("holdings_custom_fields", r#"[{"key":"k","label":"L"}]"#), Ok(()));
    assert!(validate_config_value("watchlist_custom_fields", r#"[{"key":"k"}]"#).unwrap_err().contains("label is required"));
}

#[test]
fn history_floor_must_be_a_date_or_empty() {
    assert_eq!(validate_config_value("portfolio_history_start", "2025-01-01"), Ok(()));
    assert_eq!(validate_config_value("portfolio_history_start", ""), Ok(()));
    assert!(validate_config_value("portfolio_history_start", "01/01/2025").is_err());
    assert!(validate_config_value("portfolio_history_start", "last year").is_err());
}

#[test]
fn update_config_rejects_a_malformed_dashboard_list() {
    let refusal = update_config(
        "dashboard_custom_lists",
        r#"[{"key":"a","label":"A","source":"holdings","field_key":"indicator:sma42","operator":"above"}]"#,
    )
    .unwrap_err();
    assert_eq!(refusal.reason, Reason::BadRequest);
    assert_eq!(refusal.reason.status(), 400);
    assert!(refusal.message.contains("sma42"));
}

#[test]
fn a_malformed_stored_config_is_logged_not_swallowed() {
    let (defs, logged) =
        config_json("dashboard_custom_lists", Some("[{\"key\": truncated"), "expected a list");
    assert!(defs.is_empty());
    assert!(logged.unwrap().starts_with("Could not parse dashboard_custom_lists, falling back to empty: "));
    let (defs, logged) = config_json("dashboard_custom_lists", Some("{}"), "expected a list");
    assert!(defs.is_empty());
    assert_eq!(
        logged.as_deref(),
        Some("Could not parse dashboard_custom_lists, falling back to empty: expected a list")
    );
    let (defs, logged) = config_json("dashboard_custom_lists", Some("[1,2]"), "expected a list");
    assert_eq!(defs.len(), 2);
    assert!(logged.is_none());
    let (defs, logged) = config_json("dashboard_custom_lists", None, "expected a list");
    assert!(defs.is_empty() && logged.is_none());
}

#[test]
fn a_date_setting_may_be_blank() {
    assert_eq!(validate_optional_date("  "), Ok(()));
    assert_eq!(validate_optional_date(" 2025-02-28 "), Ok(()));
    assert!(validate_optional_date("2025-02-30").is_err());
    for other in ["2025-8-1", "2025-08-1", "2025-8-01", "+2025-08-01", "20250801", "+10000-01-01", "-0001-01-01"] {
        assert_eq!(
            validate_optional_date(other),
            Err(format!("'{other}' is not a date in YYYY-MM-DD form"))
        );
        assert!(validate_config_value("dead_symbol_TST.AX", other).is_err());
        assert!(validate_config_value("portfolio_history_start", other).is_err());
    }
    assert_eq!(validate_optional_date("2025-08-01"), Ok(()));
}

#[test]
fn field_definitions_need_distinct_keys() {
    let err = validate_custom_fields(r#"[{"key":"k","label":"A"},{"key":"k","label":"B"}]"#).unwrap_err();
    assert!(err.contains("duplicate key 'k'"));
    assert_eq!(validate_custom_fields("[]"), Ok(()));
}

#[test]
fn the_analysis_key_is_hidden() {
    let shown = visible_config(vec![item("ai_api_key", "a-secret"), item("sectors", "[]")]);
    assert!(shown.iter().all(|i| i.key != "ai_api_key" && i.value != "a-secret"));
    assert!(shown.iter().any(|i| i.key == "sectors"));
}

#[test]
fn settings_come_in_the_order_of_their_keys() {
    let loaded = load_config(vec![item("b", "2"), item("a", "1"), item("c", "3")]);
    let keys: Vec<&str> = loaded.iter().map(|i| i.key.as_str()).collect();
    assert_eq!(keys, vec!["a", "b", "c"]);
}

#[test]
fn manual_prices_are_read_by_symbol() {
    let field = |text: &str| Field {
        text: text.to_string(),
        number: text.parse::<f64>().ok().map(|x| Number { bits: x.to_bits() }),
        trimmed_number: text.trim().parse::<f64>().ok().map(|x| Number { bits: x.to_bits() }),
    };
    let prices = manual_prices(&vec![
        ("manual_price_TST.AX".to_string(), field("12.5")),
        ("manual_price_BAD.AX".to_string(), field("dear")),
        ("sectors".to_string(), field("3")),
    ]);
    assert_eq!(prices.get("TST.AX"), Some(&Number { bits: 12.5f64.to_bits() }));
    assert_eq!(prices.len(), 1);
}

#[test]
fn fx_currencies_come_from_holdings_and_symbol_info() {
    let used = vec!["USD".to_string(), "AUD".to_string(), "".to_string(), "gbp".to_string()];
    assert_eq!(fx_currencies_in_use(&used), vec!["GBP".to_string(), "USD".to_string()]);
}

#[test]
fn sectors_fall_back_to_the_built_in_list() {
    let names = |j: &Json| match j {
        Json::Array(items) => {
            items.iter().map(|i| i.as_text().unwrap_or("").to_string()).collect::<Vec<_>>()
        }
        _ => vec![],
    };
    assert_eq!(names(&default_sectors()).len(), 12);
    let (set, logged) = sectors(Some(r#"["Mine"]"#));
    assert_eq!(names(&set), vec!["Mine"]);
    assert!(logged.is_none());
    let (set, logged) = sectors(Some("not json"));
    assert_eq!(names(&set)[0], "Energy");
    assert!(logged.unwrap().contains("falling back to the built-in list"));
    assert_eq!(names(&sectors(None).0)[11], "Others");
}

#[test]
fn the_vocabulary_is_published() {
    assert_eq!(supported_currencies().len(), 9);
    assert_eq!(supported_currencies()[0], "AUD");
    assert!(reserved_holdings_keys().contains(&"pl_basis_price"));
    assert_eq!(reserved_watchlist_keys(), vec!["breakthrough_price", "stop_loss_price", "sector"]);
}

#[test]
fn a_written_setting_is_read_back() {
    let rows = vec![item("c", "3"), item("a", "1")];
    let rows = upsert_config(rows, "b", "2");
    let rows = upsert_config(rows, "a", "9");
    let loaded = load_config(rows);
    let pairs: Vec<(&str, &str)> =
        loaded.iter().map(|i| (i.key.as_str(), i.value.as_str())).collect();
    assert_eq!(pairs, [("a", "9"), ("b", "2"), ("c", "3")]);
}
