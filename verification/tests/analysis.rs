use stocks_api::analysis::{
    analysis_prompt, analysis_setup, anthropic_answer, anthropic_request, openai_answer,
    openai_request, AnalysisFacts, AnalysisMessage,
};
use stocks_api::context::{CachedQuote, SymbolInfo};
use stocks_api::json::{parse, Json};
use stocks_api::number::{Decimals, Number};
use stocks_api::reply::Reason;
use stocks_api::textmap::TextMap;

fn n(x: f64) -> Number {
    Number { bits: x.to_bits() }
}

fn f(x: Number) -> f64 {
    f64::from_bits(x.bits)
}

fn render(x: Number, decimals: Decimals) -> String {
    match decimals {
        Decimals::Fixed(places) => format!("{:.*}", places as usize, f(x)),
        Decimals::Shortest => format!("{}", f(x)),
    }
}

fn config(pairs: &[(&str, &str)]) -> TextMap<String> {
    let mut map = TextMap::new();
    for (key, text) in pairs {
        map.insert(key.to_string(), text.to_string());
    }
    map
}

#[test]
fn an_analysis_needs_a_key() {
    for given in [config(&[]), config(&[("ai_api_key", "")])] {
        let refusal = analysis_setup(&given, "usual").unwrap_err();
        assert_eq!(refusal.reason, Reason::BadRequest);
        assert_eq!(refusal.message, "AI API key not configured. Set it in Configuration.");
    }
    let setup = analysis_setup(&config(&[("ai_api_key", "k")]), "usual").unwrap();
    assert!(!setup.openai);
    assert_eq!((setup.api_key.as_str(), setup.model.as_str()), ("k", "usual"));
    let setup = analysis_setup(
        &config(&[("ai_api_key", "k"), ("ai_provider", "openai"), ("ai_model", "m")]),
        "usual",
    )
    .unwrap();
    assert!(setup.openai);
    assert_eq!(setup.model, "m");
}

fn nothing() -> AnalysisFacts {
    AnalysisFacts {
        quote: None,
        info: None,
        watch: None,
        watchlist_fields: vec![],
        holdings_fields: vec![],
    }
}

#[test]
fn the_prompt_tells_what_is_on_record() {
    let bare = analysis_prompt("TST.AX", &nothing(), &render);
    assert!(bare.starts_with("You are a stock market analyst. Analyze the stock TST.AX using web search"));
    assert!(bare.ends_with("Local data from user's portfolio:\nNo local data available."));
    let facts = AnalysisFacts {
        quote: Some(CachedQuote {
            price: Some(n(12.0)),
            price_date: Some("2026-07-10".to_string()),
            change: Some(n(0.5)),
            change_percent: Some(n(4.345)),
            volume: Some(-3),
        }),
        info: Some(SymbolInfo {
            instrument_type: Some("EQUITY".to_string()),
            long_name: Some("Test Ltd".to_string()),
            currency: None,
        }),
        watch: Some((Some(n(5.0)), None)),
        watchlist_fields: vec![],
        holdings_fields: vec![
            ("target".to_string(), "10".to_string()),
            ("thesis".to_string(), "up".to_string()),
        ],
    };
    let told = analysis_prompt("TST.AX", &facts, &render);
    let local = told.split("portfolio:\n").nth(1).unwrap();
    let lines: Vec<&str> = local.split('\n').collect();
    assert_eq!(lines[0], "Current price: $12.00, change: 0.50 (4.34%), volume: -3, as of 2026-07-10");
    assert_eq!(lines[1], "Name: Test Ltd, Type: EQUITY");
    assert_eq!(lines[2], "Breakthrough Price: 5.00");
    assert_eq!(lines[3], "Holdings fields: target: 10, thesis: up");
    assert_eq!(lines.len(), 4);
}

fn text<'a>(j: &'a Json, name: &str) -> Option<&'a str> {
    j.field(name).and_then(|x| x.as_text())
}

fn items<'a>(j: &'a Json, name: &str) -> &'a [Json] {
    match j.field(name) {
        Some(Json::Array(all)) => all.as_slice(),
        _ => &[],
    }
}

#[test]
fn the_talk_is_sent_along() {
    let talk = vec![AnalysisMessage { role: "user".to_string(), content: "well?".to_string() }];
    let sent = anthropic_request("m", "prompt", &talk);
    assert_eq!(text(&sent, "model"), Some("m"));
    assert_eq!(text(&sent, "system"), Some("prompt"));
    assert_eq!(items(&sent, "messages").len(), 1);
    assert_eq!(text(&items(&sent, "messages")[0], "content"), Some("well?"));
    assert_eq!(text(&items(&sent, "tools")[0], "name"), Some("web_search"));
    let sent = openai_request("m", "prompt", &talk);
    assert_eq!(items(&sent, "messages").len(), 2);
    assert_eq!(text(&items(&sent, "messages")[0], "role"), Some("system"));
    assert_eq!(text(&items(&sent, "messages")[1], "role"), Some("user"));
    assert!(sent.field("system").is_none());
}

#[test]
fn the_text_blocks_of_an_answer_are_joined() {
    let body = r#"{"content":[{"type":"text","text":"Buy "},{"type":"tool","text":"no"},{"type":"text","text":"low"}]}"#;
    assert_eq!(anthropic_answer(true, "200 OK", body), Ok("Buy low".to_string()));
    assert_eq!(
        anthropic_answer(true, "200 OK", "{}"),
        Err("No text in Anthropic response: {}".to_string())
    );
    assert!(anthropic_answer(true, "200 OK", "<html>")
        .unwrap_err()
        .starts_with("Failed to parse Anthropic response: "));
    assert_eq!(
        anthropic_answer(false, "401 Unauthorized", "no"),
        Err("Anthropic API error (401 Unauthorized): no".to_string())
    );
}

#[test]
fn the_first_choice_of_an_answer_is_taken() {
    let body = r#"{"choices":[{"message":{"content":"Hold"}},{"message":{"content":"Sell"}}]}"#;
    assert_eq!(openai_answer(true, "200 OK", body), Ok("Hold".to_string()));
    assert_eq!(
        openai_answer(true, "200 OK", r#"{"choices":[]}"#),
        Err(r#"No content in OpenAI response: {"choices":[]}"#.to_string())
    );
    assert!(openai_answer(true, "200 OK", "").unwrap_err().starts_with("Failed to parse OpenAI response: "));
    assert_eq!(
        openai_answer(false, "500 Internal Server Error", "x"),
        Err("OpenAI API error (500 Internal Server Error): x".to_string())
    );
}

#[test]
fn json_is_read_as_it_stands() {
    let j = parse(r#"{"a":[null,true,7,-1,"x"],"b":{}}"#).unwrap();
    match items(&j, "a") {
        [Json::Null, Json::Bool(true), Json::Number(Some(7)), Json::Number(None), Json::Text(x)] => {
            assert_eq!(x, "x");
        }
        other => panic!("{other:?}"),
    }
    assert!(j.field("c").is_none());
    assert!(parse("{").is_err());
    assert!(parse("null").unwrap().is_null());
}
