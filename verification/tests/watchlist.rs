use stocks_api::number::Number;
use stocks_api::reply::Reason;
use stocks_api::rename::{
    rename_holding_symbol, rename_holdings_symbol, symbol_keyed_tables, KeyedRow, SymbolTable,
};
use stocks_api::textmap::TextMap;
use stocks_api::watchlist::{
    insert_watchlist_symbol, load_watchlist_lists, load_watchlist_symbols, remove_from_all_lists,
    remove_watchlist_symbol, rename_watchlist_list, requested_addition,
    update_watchlist_symbol_lists, update_watchlist_symbol_notes, Watchlist,
};

fn n(x: f64) -> Number {
    Number { bits: x.to_bits() }
}

fn empty() -> Watchlist {
    Watchlist { symbols: TextMap::new(), memberships: vec![] }
}

fn add(w: &mut Watchlist, symbol: &str, list: &str) {
    let id = w.memberships.iter().map(|m| m.id).max().unwrap_or(0) + 1;
    insert_watchlist_symbol(w, symbol, list, None, None, None, "2026-01-01T00:00:00Z", id);
}

fn seeded(lists: &[&str]) -> Watchlist {
    let mut w = empty();
    for list in lists {
        add(&mut w, "TST.AX", list);
    }
    w
}

/// How many memberships a symbol has, and whether anything is kept of it.
fn rows(w: &Watchlist, symbol: &str) -> (usize, usize) {
    (
        w.memberships.iter().filter(|m| m.symbol == symbol).count(),
        usize::from(w.symbols.contains_key(symbol)),
    )
}

fn ids(w: &Watchlist) -> Vec<i64> {
    w.memberships.iter().map(|m| m.id).collect()
}

#[test]
fn the_symbol_row_follows_its_last_membership() {
    let mut w = seeded(&["BuyList", "Watching"]);
    let all = ids(&w);
    assert!(remove_watchlist_symbol(&mut w, all[0]));
    assert_eq!(rows(&w, "TST.AX"), (1, 1), "one list left, so the symbol stays");
    assert!(remove_watchlist_symbol(&mut w, all[1]));
    assert_eq!(rows(&w, "TST.AX"), (0, 0), "last one gone, so the symbol goes too");
}

#[test]
fn from_watchlist_records_transaction_and_removes_memberships() {
    let mut w = seeded(&["Default", "Growth"]);
    add(&mut w, "OTH.AX", "Default");
    assert_eq!(remove_from_all_lists(&mut w, "TST.AX"), 2);
    assert_eq!(rows(&w, "TST.AX"), (0, 0), "both cleaned up");
    assert_eq!(rows(&w, "OTH.AX"), (1, 1));
}

#[test]
fn deleting_last_membership_removes_symbol_row() {
    let mut w = empty();
    insert_watchlist_symbol(&mut w, "TST.AX", "Default", Some("keep"), None, None, "now", 1);
    insert_watchlist_symbol(&mut w, "TST.AX", "Growth", None, None, None, "now", 2);
    assert_eq!(rows(&w, "TST.AX"), (2, 1));
    assert!(remove_watchlist_symbol(&mut w, 1));
    assert_eq!(rows(&w, "TST.AX"), (1, 1), "symbol row survives while a membership remains");
    assert!(remove_watchlist_symbol(&mut w, 2));
    assert_eq!(rows(&w, "TST.AX"), (0, 0));
    assert!(!remove_watchlist_symbol(&mut w, 99999));
}

#[test]
fn adding_to_second_list_preserves_symbol_data() {
    let mut w = empty();
    insert_watchlist_symbol(&mut w, "TST.AX", "Default", Some("watch me"), Some(n(5.0)), Some(n(4.0)), "now", 1);
    insert_watchlist_symbol(&mut w, "TST.AX", "Growth", None, None, None, "later", 2);
    let row = w.symbols.get("TST.AX").unwrap();
    assert_eq!(row.notes.as_deref(), Some("watch me"));
    assert_eq!(row.breakthrough_price, Some(n(5.0)));
    assert_eq!(row.stop_loss_price, Some(n(4.0)));
    assert_eq!(row.updated_at, "later");
    assert_eq!(rows(&w, "TST.AX"), (2, 1), "one symbol row, two memberships");
}

#[test]
fn duplicate_membership_is_idempotent() {
    let w = seeded(&["Default", "Default"]);
    assert_eq!(rows(&w, "TST.AX"), (1, 1), "same symbol+list twice must not duplicate");
}

#[test]
fn update_by_membership_id_has_partial_semantics() {
    let mut w = empty();
    insert_watchlist_symbol(&mut w, "TST.AX", "Default", Some("original"), Some(n(5.0)), Some(n(4.0)), "now", 1);
    update_watchlist_symbol_notes(&mut w, 1, Some(Some("edited".to_string())), None, Some(None)).unwrap();
    let updated = w.symbols.get("TST.AX").unwrap();
    assert_eq!(updated.notes.as_deref(), Some("edited"));
    assert_eq!(updated.breakthrough_price, Some(n(5.0)), "absent field keeps its value");
    assert_eq!(updated.stop_loss_price, None, "explicit null clears the value");
    let err = update_watchlist_symbol_notes(&mut w, 99999, None, None, None).unwrap_err();
    assert_eq!(err, "Membership id 99999 not found");
}

fn set_lists(w: &mut Watchlist, symbol: &str, lists: &[&str]) -> Result<(), stocks_api::reply::Refusal> {
    let lists: Vec<String> = lists.iter().map(|l| l.to_string()).collect();
    update_watchlist_symbol_lists(w, symbol, &lists, Some("rewritten".to_string()), Some(n(6.5)), None, "now", 10)
}

#[test]
fn symbol_lists_update_replaces_memberships_transactionally() {
    let mut w = seeded(&["Default", "Growth"]);
    set_lists(&mut w, "tst.ax", &["Growth", "Value"]).unwrap();
    let lists: Vec<&str> = w.memberships.iter().map(|m| m.list_name.as_str()).collect();
    assert_eq!(lists, vec!["Growth", "Value"]);
    assert_eq!(ids(&w), vec![2, 10], "a membership that stays keeps its number");
    let data = w.symbols.get("TST.AX").unwrap();
    assert_eq!(data.notes.as_deref(), Some("rewritten"));
    assert_eq!(data.breakthrough_price, Some(n(6.5)));
    assert_eq!(data.stop_loss_price, None);
}

#[test]
fn symbol_lists_update_requires_at_least_one_list() {
    let mut w = seeded(&["Default"]);
    let refusal = set_lists(&mut w, "TST.AX", &["  "]).unwrap_err();
    assert_eq!(refusal.reason, Reason::BadRequest);
    assert_eq!(refusal.reason.code(), "bad_request");
    assert_eq!(rows(&w, "TST.AX"), (1, 1), "rejected update must change nothing");
}

#[test]
fn renaming_a_list_onto_another_joins_the_two() {
    let mut w = seeded(&["Old", "New"]);
    add(&mut w, "OTH.AX", "Old");
    assert_eq!(rename_watchlist_list(&mut w, " Old ", "New").unwrap(), true);
    assert_eq!(load_watchlist_lists(&w), vec!["New"]);
    assert_eq!(rows(&w, "TST.AX"), (1, 1));
    assert_eq!(rows(&w, "OTH.AX"), (1, 1));
    let refusal = rename_watchlist_list(&mut w, "Old", "Else").unwrap_err();
    assert_eq!((refusal.reason, refusal.message.as_str()), (Reason::NotFound, "List 'Old' not found"));
    assert_eq!(rename_watchlist_list(&mut w, "", "x").unwrap_err().reason, Reason::BadRequest);
    assert_eq!(rename_watchlist_list(&mut w, "New", " New").unwrap(), false);
}

#[test]
fn lines_come_by_list_and_symbol() {
    let mut w = empty();
    add(&mut w, "B", "Two");
    add(&mut w, "Z", "One");
    add(&mut w, "A", "Two");
    let all: Vec<(String, String)> =
        load_watchlist_symbols(&w, None).into_iter().map(|r| (r.list_name, r.symbol)).collect();
    assert_eq!(
        all,
        vec![("One", "Z"), ("Two", "A"), ("Two", "B")]
            .into_iter()
            .map(|(l, s)| (l.to_string(), s.to_string()))
            .collect::<Vec<_>>()
    );
    assert_eq!(load_watchlist_symbols(&w, Some("Two")).len(), 2);
    assert_eq!(load_watchlist_lists(&w), vec!["One", "Two"]);
}

#[test]
fn an_addition_needs_a_symbol() {
    assert_eq!(requested_addition(" bhp.ax ", None).unwrap(), ("BHP.AX".to_string(), "Default".to_string()));
    assert_eq!(requested_addition("a", Some("Mine")).unwrap().1, "Mine");
    let refusal = requested_addition("  ", None).unwrap_err();
    assert_eq!((refusal.reason, refusal.message.as_str()), (Reason::BadRequest, "Symbol is required"));
}

fn keyed(symbol: &str, key: Option<&str>, row: i64) -> KeyedRow {
    KeyedRow { symbol: symbol.to_string(), key: key.map(|k| k.to_string()), row }
}

fn table(name: &str, rows: Vec<KeyedRow>) -> SymbolTable {
    SymbolTable { name: name.to_string(), rows }
}

fn under<'a>(tables: &'a [SymbolTable], name: &str, symbol: &str) -> Vec<&'a KeyedRow> {
    let t = tables.iter().find(|t| t.name == name).unwrap();
    t.rows.iter().filter(|r| r.symbol == symbol).collect()
}

#[test]
fn every_symbol_keyed_table_is_either_migrated_or_excluded() {
    let tables = symbol_keyed_tables();
    assert_eq!(tables.len(), 13);
    assert!(!tables.contains(&"event_log"));
    for name in ["holdings_transactions", "prices", "watchlist_prices", "stock_analysis_messages"] {
        assert!(tables.contains(&name));
    }
}

#[test]
fn renaming_a_symbol_moves_rows_in_every_table() {
    let names = [
        "holdings_transactions",
        "symbol_info",
        "prices",
        "dividend_events",
        "cached_current_prices",
        "watchlist_symbols",
        "watchlist_memberships",
    ];
    let mut tables: Vec<SymbolTable> =
        names.iter().map(|name| table(name, vec![keyed("OLD.AX", None, 1)])).collect();
    tables.push(table("event_log", vec![keyed("OLD.AX", None, 5)]));
    let moved = rename_holdings_symbol(&mut tables, "OLD.AX", "NEW.AX");
    assert_eq!(moved, 1, "should report the holdings transactions moved");
    for name in names {
        assert!(under(&tables, name, "OLD.AX").is_empty());
        assert_eq!(under(&tables, name, "NEW.AX").len(), 1);
    }
    assert_eq!(under(&tables, "event_log", "OLD.AX").len(), 1, "the log keeps its names");
}

#[test]
fn renaming_onto_an_existing_symbol_keeps_the_targets_rows() {
    let mut tables = vec![table(
        "prices",
        vec![
            keyed("OLD.AX", Some("2026-01-05"), 1),
            keyed("OLD.AX", Some("2026-01-06"), 2),
            keyed("NEW.AX", Some("2026-01-05"), 3),
        ],
    )];
    rename_holdings_symbol(&mut tables, "OLD.AX", "NEW.AX");
    let kept: Vec<(Option<&str>, i64)> =
        under(&tables, "prices", "NEW.AX").iter().map(|r| (r.key.as_deref(), r.row)).collect();
    assert_eq!(kept, vec![(Some("2026-01-06"), 2), (Some("2026-01-05"), 3)]);
    assert!(under(&tables, "prices", "OLD.AX").is_empty(), "nothing is stranded under the old symbol");
}

#[test]
fn renaming_a_symbol_carries_the_whole_row() {
    let mut tables = vec![
        table("holdings_transactions", vec![keyed("OLD.AX", None, 1)]),
        table("symbol_info", vec![keyed("OLD.AX", Some(""), 77)]),
    ];
    assert_eq!(rename_holding_symbol(&mut tables, "old.ax", " new.ax ").unwrap(), 1);
    assert_eq!(under(&tables, "symbol_info", "NEW.AX")[0].row, 77);
}

#[test]
fn a_rename_is_refused_without_a_target_or_a_holding() {
    let mut tables = vec![table("holdings_transactions", vec![keyed("A", None, 1)])];
    assert_eq!(rename_holding_symbol(&mut tables, "A", " ").unwrap_err().message, "New symbol is required");
    assert_eq!(rename_holding_symbol(&mut tables, "A", "a").unwrap(), 0);
    assert_eq!(under(&tables, "holdings_transactions", "A").len(), 1);
    let refusal = rename_holding_symbol(&mut tables, "b", "C").unwrap_err();
    assert_eq!((refusal.reason, refusal.message.as_str()), (Reason::NotFound, "No holdings found for 'B'"));
}
