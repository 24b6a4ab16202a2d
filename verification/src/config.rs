//! The settings: which values a key takes, and which ones a client may see.
use vstd::prelude::*;
use crate::dates::{date_number, date_text, format_day, parse_day};
use crate::json::{json_text, parse, Json, JsonTree};
use crate::text::{
    contains_text, decimal, decimal_text, has_prefix, is_blank, join, join_text, joined, joined3,
    joined5, one_of, option_slice_view, same, split_once, split_once_text, starts_with,
    string_views, trim_text, trimmed, views,
};

verus! {

broadcast use vstd::string::group_string_axioms;

// ---------------------------------------------------------------------------
// The vocabulary of a dashboard list
// ---------------------------------------------------------------------------

/// Where a dashboard list takes its symbols from.
pub open spec fn list_sources_text() -> Seq<Seq<char>> {
    seq!["holdings"@, "watchlist"@, "both"@]
}

/// How a dashboard list selects and ranks.
pub open spec fn list_operators_text() -> Seq<Seq<char>> {
    seq![
        "above"@,
        "below"@,
        "pct_above"@,
        "pct_below"@,
        "days_above"@,
        "days_below"@,
        "volume_cross_pct"@,
    ]
}

/// What a dashboard list holds against its field.
pub open spec fn list_compares_text() -> Seq<Seq<char>> {
    seq!["price"@, "volume"@]
}

/// The two directions of a ranking.
pub open spec fn list_sorts_text() -> Seq<Seq<char>> {
    seq!["asc"@, "desc"@]
}

/// The figures derived from stored closes.
pub open spec fn list_indicators_text() -> Seq<Seq<char>> {
    seq!["sma50"@, "sma150"@, "ema40w"@]
}

fn list_sources() -> (r: Vec<&'static str>)
    ensures
        views(r@) == list_sources_text(),
{
    let r = vec!["holdings", "watchlist", "both"];
    assert(views(r@) =~= list_sources_text());
    r
}

fn list_operators() -> (r: Vec<&'static str>)
    ensures
        views(r@) == list_operators_text(),
{
    let r = vec![
        "above",
        "below",
        "pct_above",
        "pct_below",
        "days_above",
        "days_below",
        "volume_cross_pct",
    ];
    assert(views(r@) =~= list_operators_text());
    r
}

fn list_compares() -> (r: Vec<&'static str>)
    ensures
        views(r@) == list_compares_text(),
{
    let r = vec!["price", "volume"];
    assert(views(r@) =~= list_compares_text());
    r
}

fn list_sorts() -> (r: Vec<&'static str>)
    ensures
        views(r@) == list_sorts_text(),
{
    let r = vec!["asc", "desc"];
    assert(views(r@) =~= list_sorts_text());
    r
}

fn list_indicators() -> (r: Vec<&'static str>)
    ensures
        views(r@) == list_indicators_text(),
{
    let r = vec!["sma50", "sma150", "ema40w"];
    assert(views(r@) =~= list_indicators_text());
    r
}

// ---------------------------------------------------------------------------
// What is wrong with a definition
// ---------------------------------------------------------------------------

/// The view of a verdict.
pub open spec fn verdict(r: Result<(), String>) -> Result<(), Seq<char>> {
    match r {
        Ok(_) => Ok(()),
        Err(e) => Err(e@),
    }
}

/// The first of two complaints.
pub open spec fn first_of(a: Option<Seq<char>>, b: Option<Seq<char>>) -> Option<Seq<char>> {
    if a is Some {
        a
    } else {
        b
    }
}

/// The text of a field, trimmed, where it is a text and not blank.
pub open spec fn text_field(item: JsonTree, name: Seq<char>) -> Option<Seq<char>> {
    match item.field(name) {
        Some(JsonTree::Text(s)) => if is_blank(s) {
            None
        } else {
            Some(trim_text(s))
        },
        _ => None,
    }
}

/// A field that may be missing; a null counts as missing.
pub open spec fn optional_field(item: JsonTree, name: Seq<char>) -> Option<JsonTree> {
    match item.field(name) {
        Some(JsonTree::Null) => None,
        other => other,
    }
}

/// The complaint about a word outside a vocabulary.
pub open spec fn unknown_word(field: Seq<char>, found: Seq<char>, allowed: Seq<Seq<char>>) -> Seq<
    char,
> {
    field + " '"@ + found + "' is not one of: "@ + join_text(allowed, ", "@)
}

/// The complaint about a word, where it is outside the vocabulary.
pub open spec fn word_error(field: Seq<char>, found: Seq<char>, allowed: Seq<Seq<char>>) -> Option<
    Seq<char>,
> {
    if allowed.contains(found) {
        None
    } else {
        Some(unknown_word(field, found, allowed))
    }
}

/// The complaint about a required field.
pub open spec fn required_error(item: JsonTree, name: Seq<char>) -> Option<Seq<char>> {
    if text_field(item, name) is None {
        Some(name + " is required"@)
    } else {
        None
    }
}

/// The complaint about a required field with a vocabulary.
pub open spec fn required_word_error(
    item: JsonTree,
    name: Seq<char>,
    allowed: Seq<Seq<char>>,
) -> Option<Seq<char>> {
    match text_field(item, name) {
        None => Some(name + " is required"@),
        Some(found) => word_error(name, found, allowed),
    }
}

/// The complaint about an optional field with a vocabulary.
pub open spec fn optional_word_error(
    item: JsonTree,
    name: Seq<char>,
    allowed: Seq<Seq<char>>,
) -> Option<Seq<char>> {
    match optional_field(item, name) {
        None => None,
        Some(v) => match v.text() {
            None => Some(name + " must be a string"@),
            Some(found) => word_error(name, found, allowed),
        },
    }
}

/// Whether one of the earlier definitions has that key.
pub open spec fn key_taken(earlier: Seq<JsonTree>, key: Seq<char>) -> bool {
    exists|j: int|
        0 <= j < earlier.len() && #[trigger] text_field(earlier[j], "key"@) == Some(key)
}

/// The complaint about the key of a list.
pub open spec fn list_key_error(item: JsonTree, earlier: Seq<JsonTree>) -> Option<Seq<char>> {
    match text_field(item, "key"@) {
        None => Some("key is required"@),
        Some(key) => if key_taken(earlier, key) {
            Some("duplicate key '"@ + key + "' — keys identify a list to the client"@)
        } else {
            None
        },
    }
}

/// The complaint about the field that a list is held against.
pub open spec fn field_key_error(item: JsonTree) -> Option<Seq<char>> {
    match text_field(item, "field_key"@) {
        None => Some("field_key is required"@),
        Some(field_key) => match split_once_text(field_key, ':') {
            None => Some(
                "field_key must look like holdings:key, watchlist:key or indicator:key"@,
            ),
            Some(parts) => if parts.0 == "holdings"@ || parts.0 == "watchlist"@ {
                if is_blank(parts.1) {
                    Some("field_key '"@ + field_key + "' names no field"@)
                } else {
                    None
                }
            } else if parts.0 == "indicator"@ {
                word_error("indicator"@, parts.1, list_indicators_text())
            } else {
                Some(
                    "field_key prefix '"@ + parts.0
                        + "' is not holdings, watchlist or indicator"@,
                )
            },
        },
    }
}

/// The complaint about the length of a list.
pub open spec fn limit_error(item: JsonTree) -> Option<Seq<char>> {
    match optional_field(item, "limit"@) {
        None => None,
        Some(JsonTree::Number(Some(n))) => if n == 0 || n > 100 {
            Some("limit "@ + decimal_text(n as nat) + " is outside 1-100"@)
        } else {
            None
        },
        Some(_) => Some("limit must be a whole number"@),
    }
}

/// The first thing wrong with a list definition that follows the earlier ones.
pub open spec fn list_error(item: JsonTree, earlier: Seq<JsonTree>) -> Option<Seq<char>> {
    if !(item is Object) {
        Some("must be an object"@)
    } else {
        first_of(
            list_key_error(item, earlier),
            first_of(
                required_error(item, "label"@),
                first_of(
                    required_word_error(item, "source"@, list_sources_text()),
                    first_of(
                        required_word_error(item, "operator"@, list_operators_text()),
                        first_of(
                            field_key_error(item),
                            first_of(
                                optional_word_error(item, "compare"@, list_compares_text()),
                                first_of(
                                    optional_word_error(item, "sort"@, list_sorts_text()),
                                    limit_error(item),
                                ),
                            ),
                        ),
                    ),
                ),
            ),
        )
    }
}

/// The first thing wrong with the lists from number `i` on, with its place.
pub open spec fn lists_error_from(items: Seq<JsonTree>, i: int) -> Option<Seq<char>>
    decreases items.len() - i,
{
    if i < 0 || i >= items.len() {
        None
    } else {
        match list_error(items[i], items.take(i)) {
            Some(e) => Some("list "@ + decimal_text((i + 1) as nat) + ": "@ + e),
            None => lists_error_from(items, i + 1),
        }
    }
}

/// The verdict on a document of list definitions.
pub open spec fn lists_verdict(doc: JsonTree) -> Result<(), Seq<char>> {
    match doc {
        JsonTree::Array(items) => match lists_error_from(items, 0) {
            Some(e) => Err(e),
            None => Ok(()),
        },
        _ => Err("must be a JSON array of list definitions"@),
    }
}

/// The first thing wrong with a field definition that follows the earlier ones.
pub open spec fn field_error(item: JsonTree, earlier: Seq<JsonTree>) -> Option<Seq<char>> {
    if !(item is Object) {
        Some("must be an object"@)
    } else {
        match text_field(item, "key"@) {
            None => Some("key is required"@),
            Some(key) => if key_taken(earlier, key) {
                Some("duplicate key '"@ + key + "'"@)
            } else {
                required_error(item, "label"@)
            },
        }
    }
}

/// The first thing wrong with the fields from number `i` on, with its place.
pub open spec fn fields_error_from(items: Seq<JsonTree>, i: int) -> Option<Seq<char>>
    decreases items.len() - i,
{
    if i < 0 || i >= items.len() {
        None
    } else {
        match field_error(items[i], items.take(i)) {
            Some(e) => Some("field "@ + decimal_text((i + 1) as nat) + ": "@ + e),
            None => fields_error_from(items, i + 1),
        }
    }
}

/// The verdict on a document of field definitions.
pub open spec fn fields_verdict(doc: JsonTree) -> Result<(), Seq<char>> {
    match doc {
        JsonTree::Array(items) => match fields_error_from(items, 0) {
            Some(e) => Err(e),
            None => Ok(()),
        },
        _ => Err("must be a JSON array of field definitions"@),
    }
}

// ---------------------------------------------------------------------------
// Validating
// ---------------------------------------------------------------------------

/// The text of a field, trimmed, where it is a text and not blank.
fn text_of<'a>(item: &'a Json, name: &str) -> (r: Option<&'a str>)
    ensures
        option_slice_view(r) == text_field(item.tree(), name@),
{
    match item.field(name) {
        Some(Json::Text(s)) => {
            let t = trimmed(s.as_str());
            if t.is_empty() {
                None
            } else {
                Some(t)
            }
        },
        _ => None,
    }
}

/// Whether a required field is there.
fn check_required(item: &Json, name: &str) -> (r: Result<(), String>)
    ensures
        verdict(r) == (match required_error(item.tree(), name@) {
            Some(e) => Err(e),
            None => Ok(()),
        }),
{
    match text_of(item, name) {
        None => Err(joined(name, " is required")),
        Some(_) => Ok(()),
    }
}

/// Whether a word is in a vocabulary.
fn check_word(field: &str, found: &str, allowed: &Vec<&str>) -> (r: Result<(), String>)
    ensures
        verdict(r) == (match word_error(field@, found@, views(allowed@)) {
            Some(e) => Err(e),
            None => Ok(()),
        }),
{
    if one_of(found, allowed.as_slice()) {
        Ok(())
    } else {
        let words = join(allowed.as_slice(), ", ");
        Err(joined5(field, " '", found, "' is not one of: ", words.as_str()))
    }
}

/// Whether a required field holds a word of a vocabulary.
fn check_required_word(item: &Json, name: &str, allowed: &Vec<&str>) -> (r: Result<(), String>)
    ensures
        verdict(r) == (match required_word_error(item.tree(), name@, views(allowed@)) {
            Some(e) => Err(e),
            None => Ok(()),
        }),
{
    match text_of(item, name) {
        None => Err(joined(name, " is required")),
        Some(found) => check_word(name, found, allowed),
    }
}

/// Whether an optional field, where it is there, holds a word of a vocabulary.
fn check_optional_word(item: &Json, name: &str, allowed: &Vec<&str>) -> (r: Result<(), String>)
    ensures
        verdict(r) == (match optional_word_error(item.tree(), name@, views(allowed@)) {
            Some(e) => Err(e),
            None => Ok(()),
        }),
{
    match item.field(name) {
        None => Ok(()),
        Some(v) => if v.is_null() {
            Ok(())
        } else {
            match v.as_text() {
                None => Err(joined(name, " must be a string")),
                Some(found) => check_word(name, found, allowed),
            }
        },
    }
}

/// Whether the field that a list is held against is named as it has to be.
fn check_field_key(item: &Json) -> (r: Result<(), String>)
    ensures
        verdict(r) == (match field_key_error(item.tree()) {
            Some(e) => Err(e),
            None => Ok(()),
        }),
{
    match text_of(item, "field_key") {
        None => Err("field_key is required".to_owned()),
        Some(field_key) => match split_once(field_key, ':') {
            None => Err(
                "field_key must look like holdings:key, watchlist:key or indicator:key".to_owned(),
            ),
            Some((prefix, name)) => if same(prefix, "holdings") || same(prefix, "watchlist") {
                if trimmed(name).is_empty() {
                    Err(joined3("field_key '", field_key, "' names no field"))
                } else {
                    Ok(())
                }
            } else if same(prefix, "indicator") {
                check_word("indicator", name, &list_indicators())
            } else {
                Err(
                    joined3(
                        "field_key prefix '",
                        prefix,
                        "' is not holdings, watchlist or indicator",
                    ),
                )
            },
        },
    }
}

/// Whether the length of a list is one it may have.
fn check_limit(item: &Json) -> (r: Result<(), String>)
    ensures
        verdict(r) == (match limit_error(item.tree()) {
            Some(e) => Err(e),
            None => Ok(()),
        }),
{
    match item.field("limit") {
        None => Ok(()),
        Some(v) => match v {
            Json::Null => Ok(()),
            Json::Number(Some(n)) => if *n == 0 || *n > 100 {
                Err(joined3("limit ", decimal(*n).as_str(), " is outside 1-100"))
            } else {
                Ok(())
            },
            _ => Err("limit must be a whole number".to_owned()),
        },
    }
}

/// Whether the keys gathered so far are those of the definitions read so far.
spec fn keys_gathered(seen: Seq<String>, items: Seq<JsonTree>, n: int) -> bool {
    &&& seen.len() == n
    &&& forall|j: int|
        0 <= j < n ==> text_field(#[trigger] items[j], "key"@) == Some(seen[j]@)
}

proof fn lemma_key_taken(seen: Seq<String>, items: Seq<JsonTree>, n: int, key: Seq<char>)
    requires
        keys_gathered(seen, items, n),
        0 <= n <= items.len(),
    ensures
        string_views(seen).contains(key) == key_taken(items.take(n), key),
{
    let earlier = items.take(n);
    if string_views(seen).contains(key) {
        let j = choose|j: int| 0 <= j < seen.len() && string_views(seen)[j] == key;
        assert(earlier[j] == items[j]);
        assert(text_field(earlier[j], "key"@) == Some(key));
    }
    if key_taken(earlier, key) {
        let j = choose|j: int|
            0 <= j < earlier.len() && #[trigger] text_field(earlier[j], "key"@) == Some(key);
        assert(earlier[j] == items[j]);
        assert(string_views(seen)[j] == key);
    }
}

/// Whether a list definition that follows others with the `seen` keys is sound,
/// and its key.
fn check_list(
    item: &Json,
    seen: &Vec<String>,
    Ghost(items): Ghost<Seq<JsonTree>>,
    Ghost(n): Ghost<int>,
) -> (r: Result<String, String>)
    requires
        keys_gathered(seen@, items, n),
        0 <= n < items.len(),
        items[n] == item.tree(),
    ensures
        match r {
            Ok(key) => list_error(item.tree(), items.take(n)) is None && text_field(
                item.tree(),
                "key"@,
            ) == Some(key@),
            Err(e) => list_error(item.tree(), items.take(n)) == Some(e@),
        },
{
    match item {
        Json::Object(_) => {},
        _ => return Err("must be an object".to_owned()),
    }
    let key = match text_of(item, "key") {
        None => return Err("key is required".to_owned()),
        Some(key) => key,
    };
    proof {
        lemma_key_taken(seen@, items, n, key@);
    }
    if contains_text(seen, key) {
        return Err(joined3("duplicate key '", key, "' — keys identify a list to the client"));
    }
    match check_required(item, "label") {
        Err(e) => return Err(e),
        Ok(_) => {},
    }
    match check_required_word(item, "source", &list_sources()) {
        Err(e) => return Err(e),
        Ok(_) => {},
    }
    match check_required_word(item, "operator", &list_operators()) {
        Err(e) => return Err(e),
        Ok(_) => {},
    }
    match check_field_key(item) {
        Err(e) => return Err(e),
        Ok(_) => {},
    }
    match check_optional_word(item, "compare", &list_compares()) {
        Err(e) => return Err(e),
        Ok(_) => {},
    }
    match check_optional_word(item, "sort", &list_sorts()) {
        Err(e) => return Err(e),
        Ok(_) => {},
    }
    match check_limit(item) {
        Err(e) => return Err(e),
        Ok(_) => {},
    }
    Ok(key.to_owned())
}

/// The verdict on a document of list definitions.
pub fn validate_list_definitions(doc: &Json) -> (r: Result<(), String>)
    ensures
        verdict(r) == lists_verdict(doc.tree()),
{
    match doc {
        Json::Array(items) => {
            let ghost trees = doc.tree()->Array_0;
            let mut seen: Vec<String> = Vec::new();
            let mut i: usize = 0;
            while i < items.len()
                invariant
                    i <= items.len(),
                    *doc == Json::Array(*items),
                    trees == doc.tree()->Array_0,
                    trees.len() == items.len(),
                    keys_gathered(seen@, trees, i as int),
                    lists_error_from(trees, 0) == lists_error_from(trees, i as int),
                decreases items.len() - i,
            {
                assert(trees[i as int] == items@[i as int].tree());
                match check_list(&items[i], &seen, Ghost(trees), Ghost(i as int)) {
                    Ok(key) => {
                        seen.push(key);
                    },
                    Err(e) => {
                        let place = decimal(i as u64 + 1);
                        let head = joined3("list ", place.as_str(), ": ");
                        return Err(joined(head.as_str(), e.as_str()));
                    },
                }
                i += 1;
            }
            Ok(())
        },
        _ => Err("must be a JSON array of list definitions".to_owned()),
    }
}


/// The verdict on a document of field definitions.
pub fn validate_field_definitions(doc: &Json) -> (r: Result<(), String>)
    ensures
        verdict(r) == fields_verdict(doc.tree()),
{
    match doc {
        Json::Array(items) => {
            let ghost trees = doc.tree()->Array_0;
            let mut seen: Vec<String> = Vec::new();
            let mut i: usize = 0;
            while i < items.len()
                invariant
                    i <= items.len(),
                    *doc == Json::Array(*items),
                    trees == doc.tree()->Array_0,
                    trees.len() == items.len(),
                    keys_gathered(seen@, trees, i as int),
                    fields_error_from(trees, 0) == fields_error_from(trees, i as int),
                decreases items.len() - i,
            {
                assert(trees[i as int] == items@[i as int].tree());
                match check_field(&items[i], &seen, Ghost(trees), Ghost(i as int)) {
                    Ok(key) => {
                        seen.push(key);
                    },
                    Err(e) => {
                        let place = decimal(i as u64 + 1);
                        let head = joined3("field ", place.as_str(), ": ");
                        return Err(joined(head.as_str(), e.as_str()));
                    },
                }
                i += 1;
            }
            Ok(())
        },
        _ => Err("must be a JSON array of field definitions".to_owned()),
    }
}

/// Whether a field definition that follows others with the `seen` keys is
/// sound, and its key.
fn check_field(
    item: &Json,
    seen: &Vec<String>,
    Ghost(items): Ghost<Seq<JsonTree>>,
    Ghost(n): Ghost<int>,
) -> (r: Result<String, String>)
    requires
        keys_gathered(seen@, items, n),
        0 <= n < items.len(),
        items[n] == item.tree(),
    ensures
        match r {
            Ok(key) => field_error(item.tree(), items.take(n)) is None && text_field(
                item.tree(),
                "key"@,
            ) == Some(key@),
            Err(e) => field_error(item.tree(), items.take(n)) == Some(e@),
        },
{
    match item {
        Json::Object(_) => {},
        _ => return Err("must be an object".to_owned()),
    }
    let key = match text_of(item, "key") {
        None => return Err("key is required".to_owned()),
        Some(key) => key,
    };
    proof {
        lemma_key_taken(seen@, items, n, key@);
    }
    if contains_text(seen, key) {
        return Err(joined3("duplicate key '", key, "'"));
    }
    match check_required(item, "label") {
        Err(e) => return Err(e),
        Ok(_) => {},
    }
    Ok(key.to_owned())
}

/// The verdict on a text, given what it holds as JSON and how such a document
/// is judged.
pub open spec fn document_verdict(
    parsed: Result<JsonTree, Seq<char>>,
    judge: spec_fn(JsonTree) -> Result<(), Seq<char>>,
) -> Result<(), Seq<char>> {
    match parsed {
        Ok(doc) => judge(doc),
        Err(e) => Err("not valid JSON: "@ + e),
    }
}

/// Rejects dashboard lists that the dashboard could not show.
pub fn validate_dashboard_custom_lists(value: &str) -> (r: Result<(), String>)
    ensures
        verdict(r) == document_verdict(json_text(value@), |doc: JsonTree| lists_verdict(doc)),
{
    match parse(value) {
        Ok(doc) => validate_list_definitions(&doc),
        Err(e) => Err(joined("not valid JSON: ", e.as_str())),
    }
}

/// Rejects custom field definitions without a key or a label.
pub fn validate_custom_fields(value: &str) -> (r: Result<(), String>)
    ensures
        verdict(r) == document_verdict(json_text(value@), |doc: JsonTree| fields_verdict(doc)),
{
    match parse(value) {
        Ok(doc) => validate_field_definitions(&doc),
        Err(e) => Err(joined("not valid JSON: ", e.as_str())),
    }
}

/// The characters of a date in the form YYYY-MM-DD.
pub const DATE_LENGTH: usize = 10;

/// The verdict on a date setting, given the day that its trimmed text names: the
/// text has to be that day as the calendar writes it, with a year of four
/// digits, since it is compared as text.
pub open spec fn optional_date_verdict(value: Seq<char>, day: Option<int>) -> Result<
    (),
    Seq<char>,
> {
    if is_blank(value) || (day is Some && date_text(day->0) == Some(trim_text(value)) && trim_text(
        value,
    ).len() == DATE_LENGTH) {
        Ok(())
    } else {
        Err("'"@ + trim_text(value) + "' is not a date in YYYY-MM-DD form"@)
    }
}

/// A date setting that may be cleared. Stored and compared as text, so that a
/// date in any other form would order wrongly rather than fail.
pub fn validate_optional_date(value: &str) -> (r: Result<(), String>)
    ensures
        verdict(r) == optional_date_verdict(value@, date_number(trim_text(value@))),
{
    let t = trimmed(value);
    judge_optional_date(value, parse_day(t))
}

/// The verdict on a date setting whose trimmed text names `day`.
pub fn judge_optional_date(value: &str, day: Option<i32>) -> (r: Result<(), String>)
    ensures
        verdict(r) == optional_date_verdict(value@, crate::dates::option_day(day)),
{
    let t = trimmed(value);
    let written = match day {
        Some(d) => format_day(d),
        None => None,
    };
    let in_form = match &written {
        Some(w) => same(w.as_str(), t) && t.unicode_len() == DATE_LENGTH,
        None => false,
    };
    if t.is_empty() || in_form {
        Ok(())
    } else {
        Err(joined3("'", t, "' is not a date in YYYY-MM-DD form"))
    }
}

/// The setting that holds the earliest day the portfolio's history starts at.
pub open spec fn portfolio_history_start() -> Seq<char> {
    "portfolio_history_start"@
}

/// What precedes the symbol in the key of the mark that it no longer trades.
pub open spec fn dead_symbol_prefix() -> Seq<char> {
    "dead_symbol_"@
}

/// The verdict on a setting.
pub open spec fn config_verdict(key: Seq<char>, value: Seq<char>) -> Result<(), Seq<char>> {
    if key == "dashboard_custom_lists"@ {
        document_verdict(json_text(value), |doc: JsonTree| lists_verdict(doc))
    } else if key == "holdings_custom_fields"@ || key == "watchlist_custom_fields"@ {
        document_verdict(json_text(value), |doc: JsonTree| fields_verdict(doc))
    } else if key == portfolio_history_start() || has_prefix(key, dead_symbol_prefix()) {
        optional_date_verdict(value, date_number(trim_text(value)))
    } else {
        Ok(())
    }
}

/// Rejects a setting that would later fail to be read.
///
/// Some keys hold JSON or dates that other parts read back. A typo accepted
/// here would show up only as an empty dashboard with nothing pointing at it.
pub fn validate_config_value(key: &str, value: &str) -> (r: Result<(), String>)
    ensures
        verdict(r) == config_verdict(key@, value@),
{
    if same(key, "dashboard_custom_lists") {
        validate_dashboard_custom_lists(value)
    } else if same(key, "holdings_custom_fields") || same(key, "watchlist_custom_fields") {
        validate_custom_fields(value)
    } else if same(key, "portfolio_history_start") || starts_with(key, "dead_symbol_") {
        validate_optional_date(value)
    } else {
        Ok(())
    }
}

// ---------------------------------------------------------------------------
// Laws
// ---------------------------------------------------------------------------

/// Where no list from number `i` on is faulty, none of them is.
proof fn lemma_no_list_error(items: Seq<JsonTree>, i: int, k: int)
    requires
        lists_error_from(items, i) is None,
        0 <= i <= k < items.len(),
    ensures
        list_error(items[k], items.take(k)) is None,
    decreases k - i,
{
    if i < k {
        lemma_no_list_error(items, i + 1, k);
    }
}

/// Every list of an accepted document is written in the dashboard's vocabulary:
/// its operator, its source and its field are ones the dashboard knows, and its
/// key belongs to no other list.
pub proof fn accepted_lists_use_the_vocabulary(items: Seq<JsonTree>, i: int, j: int)
    requires
        lists_verdict(JsonTree::Array(items)) is Ok,
        0 <= i < j < items.len(),
    ensures
        text_field(items[i], "key"@) is Some,
        text_field(items[i], "key"@) != text_field(items[j], "key"@),
        list_sources_text().contains(text_field(items[i], "source"@)->0),
        list_sources_text().contains(text_field(items[j], "source"@)->0),
        list_operators_text().contains(text_field(items[i], "operator"@)->0),
        list_operators_text().contains(text_field(items[j], "operator"@)->0),
        field_key_error(items[i]) is None,
        field_key_error(items[j]) is None,
{
    lemma_no_list_error(items, 0, i);
    lemma_no_list_error(items, 0, j);
    let key = text_field(items[j], "key"@)->0;
    assert(items.take(j)[i] == items[i]);
    if text_field(items[i], "key"@) == Some(key) {
        assert(text_field(items.take(j)[i], "key"@) == Some(key));
        assert(key_taken(items.take(j), key));
    }
}

/// An empty value clears the history's floor, and the mark of a symbol that no
/// longer trades.
pub proof fn a_date_setting_can_be_cleared(key: Seq<char>)
    requires
        key == portfolio_history_start() || has_prefix(key, dead_symbol_prefix()),
    ensures
        config_verdict(key, seq![]) is Ok,
{
    reveal_strlit("dashboard_custom_lists");
    reveal_strlit("holdings_custom_fields");
    reveal_strlit("watchlist_custom_fields");
    reveal_strlit("portfolio_history_start");
    reveal_strlit("dead_symbol_");
    reveal_with_fuel(crate::text::trim_start_text, 1);
    reveal_with_fuel(crate::text::trim_end_text, 1);
    assert(is_blank(Seq::<char>::empty()));
    if has_prefix(key, dead_symbol_prefix()) {
        assert(key.subrange(0, 12)[0] == 'd');
        assert(key.subrange(0, 12)[1] == 'e');
        assert(key[1] == 'e');
        assert(key[0] == 'd');
        assert("dashboard_custom_lists"@[1] == 'a');
        assert("holdings_custom_fields"@[0] == 'h');
        assert("watchlist_custom_fields"@[0] == 'w');
    } else {
        assert("portfolio_history_start"@[0] == 'p');
        assert("dashboard_custom_lists"@[0] == 'd');
        assert("holdings_custom_fields"@[0] == 'h');
        assert("watchlist_custom_fields"@[0] == 'w');
    }
}

/// A list definition is accepted exactly where it has a key that no earlier one
/// has, a label, a source, an operator and a field that are known, and, where it
/// has them, a comparison, a direction and a length that are: the length from 1 to
/// 100.
pub proof fn what_a_list_definition_needs(item: JsonTree, earlier: Seq<JsonTree>)
    ensures
        list_error(item, earlier) is None ==> item is Object && text_field(item, "key"@) is Some
            && text_field(item, "label"@) is Some && (text_field(item, "source"@) == Some(
            "holdings"@,
        ) || text_field(item, "source"@) == Some("watchlist"@) || text_field(item, "source"@)
            == Some("both"@)) && !key_taken(earlier, text_field(item, "key"@)->0),
        list_error(item, earlier) is None ==> ({
            let o = text_field(item, "operator"@);
            o == Some("above"@) || o == Some("below"@) || o == Some("pct_above"@) || o == Some(
                "pct_below"@,
            ) || o == Some("days_above"@) || o == Some("days_below"@) || o == Some(
                "volume_cross_pct"@,
            )
        }),
        list_error(item, earlier) is None ==> (optional_field(item, "limit"@) is None || (
        optional_field(item, "limit"@) matches Some(JsonTree::Number(Some(n))) && 1 <= n <= 100)),
        list_error(item, earlier) is None ==> (optional_field(item, "sort"@) is None || (
        optional_field(item, "sort"@)->0.text() == Some("asc"@) || optional_field(
            item,
            "sort"@,
        )->0.text() == Some("desc"@))),
        list_error(item, earlier) is None ==> (optional_field(item, "compare"@) is None || (
        optional_field(item, "compare"@)->0.text() == Some("price"@) || optional_field(
            item,
            "compare"@,
        )->0.text() == Some("volume"@))),
{
    lemma_words();
}

/// A list definition with all it needs is accepted.
pub proof fn a_sound_list_definition_is_accepted(
    item: JsonTree,
    earlier: Seq<JsonTree>,
    table: Seq<char>,
    field: Seq<char>,
)
    requires
        item is Object,
        text_field(item, "key"@) is Some,
        !key_taken(earlier, text_field(item, "key"@)->0),
        text_field(item, "label"@) is Some,
        text_field(item, "source"@) == Some("holdings"@) || text_field(item, "source"@) == Some(
            "watchlist"@,
        ) || text_field(item, "source"@) == Some("both"@),
        text_field(item, "operator"@) == Some("above"@) || text_field(item, "operator"@) == Some(
            "below"@,
        ) || text_field(item, "operator"@) == Some("days_below"@),
        text_field(item, "field_key"@) is Some,
        split_once_text(text_field(item, "field_key"@)->0, ':') == Some((table, field)),
        (table == "holdings"@ || table == "watchlist"@) && trim_text(field).len() > 0 || table
            == "indicator"@ && (field == "sma50"@ || field == "sma150"@ || field == "ema40w"@),
        optional_field(item, "compare"@) is None,
        optional_field(item, "sort"@) is None,
        optional_field(item, "limit"@) is None,
    ensures
        list_error(item, earlier) is None,
{
    lemma_words();
    reveal_strlit("holdings");
    reveal_strlit("watchlist");
    reveal_strlit("indicator");
    assert("holdings"@.len() == 8 && "watchlist"@.len() == 9 && "indicator"@.len() == 9);
    assert("watchlist"@[0] == 'w' && "indicator"@[0] == 'i');
}

proof fn lemma_words()
    ensures
        forall|w: Seq<char>| #[trigger]
            list_sources_text().contains(w) <==> w == "holdings"@ || w == "watchlist"@ || w
                == "both"@,
        forall|w: Seq<char>| #[trigger]
            list_operators_text().contains(w) <==> w == "above"@ || w == "below"@ || w
                == "pct_above"@ || w == "pct_below"@ || w == "days_above"@ || w == "days_below"@
                || w == "volume_cross_pct"@,
        forall|w: Seq<char>| #[trigger]
            list_compares_text().contains(w) <==> w == "price"@ || w == "volume"@,
        forall|w: Seq<char>| #[trigger]
            list_sorts_text().contains(w) <==> w == "asc"@ || w == "desc"@,
        forall|w: Seq<char>| #[trigger]
            list_indicators_text().contains(w) <==> w == "sma50"@ || w == "sma150"@ || w
                == "ema40w"@,
{
    let a = list_sources_text();
    assert(a[0] == "holdings"@ && a[1] == "watchlist"@ && a[2] == "both"@ && a.len() == 3);
    let b = list_operators_text();
    assert(b[0] == "above"@ && b[1] == "below"@ && b[2] == "pct_above"@ && b[3] == "pct_below"@
        && b[4] == "days_above"@ && b[5] == "days_below"@ && b[6] == "volume_cross_pct"@ && b.len()
        == 7);
    let c = list_compares_text();
    assert(c[0] == "price"@ && c[1] == "volume"@ && c.len() == 2);
    let d = list_sorts_text();
    assert(d[0] == "asc"@ && d[1] == "desc"@ && d.len() == 2);
    let e = list_indicators_text();
    assert(e[0] == "sma50"@ && e[1] == "sma150"@ && e[2] == "ema40w"@ && e.len() == 3);
}

/// A date setting is accepted where it is blank, or is the text of the day it
/// names, of ten characters.
pub proof fn what_a_date_setting_needs(value: Seq<char>, day: Option<int>)
    ensures
        optional_date_verdict(value, day) is Ok <==> trim_text(value).len() == 0 || (day is Some
            && date_text(day->0) == Some(trim_text(value)) && trim_text(value).len() == 10),
{
}

/// The first definition at fault is told by its place, and definitions without a
/// fault are taken.
pub proof fn the_first_fault_is_told_by_its_place(items: Seq<JsonTree>, i: int)
    requires
        0 <= i <= items.len(),
        forall|j: int| 0 <= j < i ==> list_error(#[trigger] items[j], items.take(j)) is None,
        i < items.len() ==> list_error(items[i], items.take(i)) is Some,
    ensures
        i < items.len() ==> lists_verdict(JsonTree::Array(items)) == Err::<(), Seq<char>>(
            "list "@ + decimal_text((i + 1) as nat) + ": "@ + list_error(
                items[i],
                items.take(i),
            )->0,
        ),
        i == items.len() ==> lists_verdict(JsonTree::Array(items)) is Ok,
{
    lemma_first_fault(items, i, 0);
}

proof fn lemma_first_fault(items: Seq<JsonTree>, i: int, from: int)
    requires
        0 <= from <= i <= items.len(),
        forall|j: int| 0 <= j < i ==> list_error(#[trigger] items[j], items.take(j)) is None,
        i < items.len() ==> list_error(items[i], items.take(i)) is Some,
    ensures
        i < items.len() ==> lists_error_from(items, from) == Some(
            "list "@ + decimal_text((i + 1) as nat) + ": "@ + list_error(
                items[i],
                items.take(i),
            )->0,
        ),
        i == items.len() ==> lists_error_from(items, from) is None,
    decreases i - from,
{
    if from < i {
        assert(list_error(items[from], items.take(from)) is None);
        lemma_first_fault(items, i, from + 1);
    }
}

/// A field at fault is told by its place too.
pub proof fn the_first_field_at_fault_is_told_by_its_place(items: Seq<JsonTree>, i: int)
    requires
        0 <= i <= items.len(),
        forall|j: int| 0 <= j < i ==> field_error(#[trigger] items[j], items.take(j)) is None,
        i < items.len() ==> field_error(items[i], items.take(i)) is Some,
    ensures
        i < items.len() ==> fields_verdict(JsonTree::Array(items)) == Err::<(), Seq<char>>(
            "field "@ + decimal_text((i + 1) as nat) + ": "@ + field_error(
                items[i],
                items.take(i),
            )->0,
        ),
        i == items.len() ==> fields_verdict(JsonTree::Array(items)) is Ok,
{
    lemma_first_field_fault(items, i, 0);
}

proof fn lemma_first_field_fault(items: Seq<JsonTree>, i: int, from: int)
    requires
        0 <= from <= i <= items.len(),
        forall|j: int| 0 <= j < i ==> field_error(#[trigger] items[j], items.take(j)) is None,
        i < items.len() ==> field_error(items[i], items.take(i)) is Some,
    ensures
        i < items.len() ==> fields_error_from(items, from) == Some(
            "field "@ + decimal_text((i + 1) as nat) + ": "@ + field_error(
                items[i],
                items.take(i),
            )->0,
        ),
        i == items.len() ==> fields_error_from(items, from) is None,
    decreases i - from,
{
    if from < i {
        assert(field_error(items[from], items.take(from)) is None);
        lemma_first_field_fault(items, i, from + 1);
    }
}

} // verus!
