//! What a client is told of the service's vocabulary, and reading settings that
//! are kept as JSON.
use vstd::prelude::*;
use crate::json::{json_text, parse, Json, JsonTree};
use crate::text::{joined, joined3, option_slice_view, option_view, views};

verus! {

broadcast use vstd::string::group_string_axioms;

/// The currencies that can be picked.
pub open spec fn currencies_text() -> Seq<Seq<char>> {
    seq!["AUD"@, "USD"@, "GBP"@, "EUR"@, "JPY"@, "CAD"@, "HKD"@, "SGD"@, "NZD"@]
}

/// The currencies that can be picked.
pub fn supported_currencies() -> (r: Vec<&'static str>)
    ensures
        views(r@) == currencies_text(),
{
    let r: Vec<&'static str> =
        vec!["AUD", "USD", "GBP", "EUR", "JPY", "CAD", "HKD", "SGD", "NZD"];
    assert(views(r@) =~= currencies_text());
    r
}

/// The fields of a holding that have a meaning of their own.
pub open spec fn reserved_holdings_text() -> Seq<Seq<char>> {
    seq![
        "stop_loss"@,
        "trailing_sell_pct"@,
        "trailing_sell_date"@,
        "sector"@,
        "pl_basis_date"@,
        "pl_basis_price"@,
    ]
}

/// The fields of a holding that have a meaning of their own.
pub fn reserved_holdings_keys() -> (r: Vec<&'static str>)
    ensures
        views(r@) == reserved_holdings_text(),
{
    let r: Vec<&'static str> = vec![
        "stop_loss",
        "trailing_sell_pct",
        "trailing_sell_date",
        "sector",
        "pl_basis_date",
        "pl_basis_price",
    ];
    assert(views(r@) =~= reserved_holdings_text());
    r
}

/// The fields of a watched symbol that have a meaning of their own.
pub open spec fn reserved_watchlist_text() -> Seq<Seq<char>> {
    seq!["breakthrough_price"@, "stop_loss_price"@, "sector"@]
}

/// The fields of a watched symbol that have a meaning of their own.
pub fn reserved_watchlist_keys() -> (r: Vec<&'static str>)
    ensures
        views(r@) == reserved_watchlist_text(),
{
    let r: Vec<&'static str> = vec!["breakthrough_price", "stop_loss_price", "sector"];
    assert(views(r@) =~= reserved_watchlist_text());
    r
}

/// The sectors where none are set up.
pub open spec fn default_sectors_text() -> Seq<Seq<char>> {
    seq![
        "Energy"@,
        "Materials"@,
        "Industrials"@,
        "Consumer Discretionary"@,
        "Consumer Staples"@,
        "Health Care"@,
        "Financials"@,
        "Information Technology"@,
        "Communication Services"@,
        "Utilities"@,
        "Real Estate"@,
        "Others"@,
    ]
}

/// The sectors where none are set up.
pub open spec fn default_sectors_tree() -> JsonTree {
    JsonTree::Array(
        Seq::new(
            default_sectors_text().len(),
            |i: int| JsonTree::Text(default_sectors_text()[i]),
        ),
    )
}

/// The sectors where none are set up.
pub fn default_sectors() -> (r: Json)
    ensures
        r.tree() == default_sectors_tree(),
{
    let names: Vec<&'static str> = vec![
        "Energy",
        "Materials",
        "Industrials",
        "Consumer Discretionary",
        "Consumer Staples",
        "Health Care",
        "Financials",
        "Information Technology",
        "Communication Services",
        "Utilities",
        "Real Estate",
        "Others",
    ];
    assert(views(names@) =~= default_sectors_text());
    let mut out: Vec<Json> = Vec::new();
    let mut i: usize = 0;
    while i < names.len()
        invariant
            i <= names.len(),
            views(names@) == default_sectors_text(),
            out@.len() == i,
            forall|j: int|
                0 <= j < i ==> (#[trigger] out@[j]).tree() == JsonTree::Text(
                    default_sectors_text()[j],
                ),
        decreases names.len() - i,
    {
        assert(views(names@)[i as int] == names@[i as int]@);
        out.push(Json::Text(names[i].to_owned()));
        i += 1;
    }
    assert(names@.len() == default_sectors_text().len());
    let r = Json::Array(out);
    assert(r.tree()->Array_0 =~= default_sectors_tree()->Array_0);
    r
}

// ---------------------------------------------------------------------------
// Settings that are kept as JSON
// ---------------------------------------------------------------------------

/// The sectors by what came of parsing the setting, and what is put in the log
/// where that failed.
pub open spec fn sectors_of(parsed: Option<Result<JsonTree, Seq<char>>>) -> (
    JsonTree,
    Option<Seq<char>>,
) {
    match parsed {
        None => (default_sectors_tree(), None),
        Some(Ok(tree)) => (tree, None),
        Some(Err(e)) => (
            default_sectors_tree(),
            Some("Could not parse sectors, falling back to the built-in list: "@ + e),
        ),
    }
}

/// What came of parsing a setting.
pub open spec fn parsed_setting(raw: Option<Seq<char>>) -> Option<Result<JsonTree, Seq<char>>> {
    match raw {
        Some(text) => Some(json_text(text)),
        None => None,
    }
}

/// The view of what came of parsing a setting.
pub open spec fn setting_view(parsed: Option<Result<Json, String>>) -> Option<
    Result<JsonTree, Seq<char>>,
> {
    match parsed {
        Some(Ok(j)) => Some(Ok(j.tree())),
        Some(Err(e)) => Some(Err(e@)),
        None => None,
    }
}

/// The sectors, by what came of parsing the setting.
pub fn judge_sectors(parsed: Option<Result<Json, String>>) -> (r: (Json, Option<String>))
    ensures
        (r.0.tree(), option_view(r.1)) == sectors_of(setting_view(parsed)),
{
    match parsed {
        None => (default_sectors(), None),
        Some(Ok(j)) => (j, None),
        Some(Err(e)) => (
            default_sectors(),
            Some(
                joined(
                    "Could not parse sectors, falling back to the built-in list: ",
                    e.as_str(),
                ),
            ),
        ),
    }
}

/// The sectors: those that are set up, or the built-in ones. Where the setting
/// cannot be read, what is put in the log.
pub fn sectors(raw: Option<&str>) -> (r: (Json, Option<String>))
    ensures
        (r.0.tree(), option_view(r.1)) == sectors_of(parsed_setting(option_slice_view(raw))),
{
    match raw {
        Some(text) => judge_sectors(Some(parse(text))),
        None => judge_sectors(None),
    }
}

/// The items of a setting that is a list, by what came of parsing it; and what is
/// put in the log where it cannot be read. `not_a_list` is what is said of a
/// value that is no list.
pub open spec fn definitions_of(
    key: Seq<char>,
    parsed: Option<Result<JsonTree, Seq<char>>>,
    not_a_list: Seq<char>,
) -> (Seq<JsonTree>, Option<Seq<char>>) {
    match parsed {
        None => (seq![], None),
        Some(Ok(JsonTree::Array(items))) => (items, None),
        Some(Ok(_)) => (
            seq![],
            Some("Could not parse "@ + key + ", falling back to empty: "@ + not_a_list),
        ),
        Some(Err(e)) => (
            seq![],
            Some("Could not parse "@ + key + ", falling back to empty: "@ + e),
        ),
    }
}

/// What some values hold.
pub open spec fn trees(items: Seq<Json>) -> Seq<JsonTree> {
    Seq::new(items.len(), |i: int| items[i].tree())
}

/// The items of a setting that is a list, by what came of parsing it.
pub fn judge_definitions(
    key: &str,
    parsed: Option<Result<Json, String>>,
    not_a_list: &str,
) -> (r: (Vec<Json>, Option<String>))
    ensures
        (trees(r.0@), option_view(r.1)) == definitions_of(
            key@,
            setting_view(parsed),
            not_a_list@,
        ),
{
    match parsed {
        None => {
            let none: Vec<Json> = Vec::new();
            assert(trees(none@) =~= seq![]);
            (none, None)
        },
        Some(Ok(Json::Array(items))) => {
            let ghost tree = Json::Array(items).tree();
            assert(trees(items@) =~= tree->Array_0);
            (items, None)
        },
        Some(Ok(_)) => {
            let none: Vec<Json> = Vec::new();
            assert(trees(none@) =~= seq![]);
            let said = joined(
                joined3("Could not parse ", key, ", falling back to empty: ").as_str(),
                not_a_list,
            );
            (none, Some(said))
        },
        Some(Err(e)) => {
            let none: Vec<Json> = Vec::new();
            assert(trees(none@) =~= seq![]);
            let said = joined(
                joined3("Could not parse ", key, ", falling back to empty: ").as_str(),
                e.as_str(),
            );
            (none, Some(said))
        },
    }
}

/// The items of a setting that is a list. A setting that cannot be read counts
/// as empty, and what is put in the log says so.
pub fn config_json(key: &str, raw: Option<&str>, not_a_list: &str) -> (r: (
    Vec<Json>,
    Option<String>,
))
    ensures
        (trees(r.0@), option_view(r.1)) == definitions_of(
            key@,
            parsed_setting(option_slice_view(raw)),
            not_a_list@,
        ),
{
    match raw {
        Some(text) => judge_definitions(key, Some(parse(text)), not_a_list),
        None => judge_definitions(key, None, not_a_list),
    }
}

/// A broken setting never takes the service down: it counts as empty and leaves
/// a trail.
pub proof fn a_broken_setting_counts_as_empty(key: Seq<char>, e: Seq<char>, not_a_list: Seq<char>)
    ensures
        definitions_of(key, Some(Err(e)), not_a_list).0.len() == 0,
        definitions_of(key, Some(Err(e)), not_a_list).1 is Some,
{
}

/// The sectors are those of the setting where it can be read, and the built-in ones
/// otherwise; only a setting that cannot be read is complained of.
pub proof fn sectors_come_from_the_setting(tree: JsonTree, e: Seq<char>)
    ensures
        sectors_of(Some(Ok(tree))).0 == tree,
        sectors_of(Some(Ok(tree))).1 is None,
        sectors_of(None).0 == default_sectors_tree(),
        sectors_of(None).1 is None,
        sectors_of(Some(Err(e))).0 == default_sectors_tree(),
        sectors_of(Some(Err(e))).1 is Some,
{
}

/// A list of definitions is that of the setting, each in its place.
pub proof fn definitions_come_from_the_setting(
    key: Seq<char>,
    items: Seq<JsonTree>,
    not_a_list: Seq<char>,
)
    ensures
        definitions_of(key, Some(Ok(JsonTree::Array(items))), not_a_list).0 == items,
        definitions_of(key, Some(Ok(JsonTree::Array(items))), not_a_list).1 is None,
        definitions_of(key, None, not_a_list).0.len() == 0,
        definitions_of(key, None, not_a_list).1 is None,
{
}

} // verus!
