//! Renaming a symbol: every row that is kept under the old one moves to the new
//! one.
use vstd::prelude::*;
use crate::reply::{bad_request, not_found, refused, Reason, Refusal};
use crate::symbols::{normal_symbol, normalize_symbol};
use crate::text::{joined3, one_of, option_view, same, views};

verus! {

broadcast use vstd::string::group_string_axioms;

/// A row of a table that is keyed by symbol.
#[derive(Debug)]
pub struct KeyedRow {
    pub symbol: String,
    /// What no two rows of one symbol share, where the table has such a key.
    pub key: Option<String>,
    /// The number of the row, under which the rest of it stands.
    pub row: i64,
}

/// A row of a table that is keyed by symbol.
pub struct RowView {
    pub symbol: Seq<char>,
    pub key: Option<Seq<char>>,
    pub row: i64,
}

impl View for KeyedRow {
    type V = RowView;

    open spec fn view(&self) -> RowView {
        RowView { symbol: self.symbol@, key: option_view(self.key), row: self.row }
    }
}

/// The views of some rows.
pub open spec fn row_views(rows: Seq<KeyedRow>) -> Seq<RowView> {
    Seq::new(rows.len(), |i: int| rows[i]@)
}

/// A table whose rows are keyed by symbol.
#[derive(Debug)]
pub struct SymbolTable {
    pub name: String,
    pub rows: Vec<KeyedRow>,
}

impl View for SymbolTable {
    type V = (Seq<char>, Seq<RowView>);

    open spec fn view(&self) -> (Seq<char>, Seq<RowView>) {
        (self.name@, row_views(self.rows@))
    }
}

/// The views of some tables.
pub open spec fn table_views(tables: Seq<SymbolTable>) -> Seq<(Seq<char>, Seq<RowView>)> {
    Seq::new(tables.len(), |i: int| tables[i]@)
}

/// The tables that follow a symbol when it is renamed. The event log is not
/// among them: it records what happened under the name in use at the time.
pub open spec fn follows_a_rename(table: Seq<char>) -> bool {
    ||| table == "holdings_transactions"@
    ||| table == "holdings_symbol_fields"@
    ||| table == "symbol_info"@
    ||| table == "prices"@
    ||| table == "dividend_events"@
    ||| table == "dividend_exclusions"@
    ||| table == "chart_drawings"@
    ||| table == "cached_current_prices"@
    ||| table == "watchlist_symbols"@
    ||| table == "watchlist_memberships"@
    ||| table == "watchlist_prices"@
    ||| table == "watchlist_symbol_fields"@
    ||| table == "stock_analysis_messages"@
}

/// The tables that follow a symbol when it is renamed.
pub fn symbol_keyed_tables() -> (r: [&'static str; 13])
    ensures
        forall|t: Seq<char>| #[trigger] views(r@).contains(t) <==> follows_a_rename(t),
{
    let r: [&'static str; 13] = [
        "holdings_transactions",
        "holdings_symbol_fields",
        "symbol_info",
        "prices",
        "dividend_events",
        "dividend_exclusions",
        "chart_drawings",
        "cached_current_prices",
        "watchlist_symbols",
        "watchlist_memberships",
        "watchlist_prices",
        "watchlist_symbol_fields",
        "stock_analysis_messages",
    ];
    assert forall|t: Seq<char>| #[trigger] views(r@).contains(t) <==> follows_a_rename(t) by {
        let v = views(r@);
        assert(v[0] == "holdings_transactions"@);
        assert(v[1] == "holdings_symbol_fields"@);
        assert(v[2] == "symbol_info"@);
        assert(v[3] == "prices"@);
        assert(v[4] == "dividend_events"@);
        assert(v[5] == "dividend_exclusions"@);
        assert(v[6] == "chart_drawings"@);
        assert(v[7] == "cached_current_prices"@);
        assert(v[8] == "watchlist_symbols"@);
        assert(v[9] == "watchlist_memberships"@);
        assert(v[10] == "watchlist_prices"@);
        assert(v[11] == "watchlist_symbol_fields"@);
        assert(v[12] == "stock_analysis_messages"@);
    }
    r
}

// ---------------------------------------------------------------------------
// One table
// ---------------------------------------------------------------------------

/// Whether the table holds a row of the symbol under that key.
pub open spec fn key_taken(rows: Seq<RowView>, symbol: Seq<char>, key: Option<Seq<char>>) -> bool {
    key is Some && exists|i: int|
        0 <= i < rows.len() && (#[trigger] rows[i]).symbol == symbol && rows[i].key == key
}

/// The rows once the symbol has been renamed. Where the target holds a row under
/// the same key its own row stays and the old one goes.
pub open spec fn renamed_rows(
    rows: Seq<RowView>,
    all: Seq<RowView>,
    old_symbol: Seq<char>,
    new_symbol: Seq<char>,
) -> Seq<RowView>
    decreases rows.len(),
{
    if rows.len() == 0 {
        seq![]
    } else {
        let r = rows.last();
        let earlier = renamed_rows(rows.drop_last(), all, old_symbol, new_symbol);
        if r.symbol != old_symbol {
            earlier.push(r)
        } else if key_taken(all, new_symbol, r.key) {
            earlier
        } else {
            earlier.push(RowView { symbol: new_symbol, ..r })
        }
    }
}

/// How many rows move when the symbol is renamed.
pub open spec fn rows_moved(
    rows: Seq<RowView>,
    all: Seq<RowView>,
    old_symbol: Seq<char>,
    new_symbol: Seq<char>,
) -> nat
    decreases rows.len(),
{
    if rows.len() == 0 {
        0
    } else {
        let r = rows.last();
        let earlier = rows_moved(rows.drop_last(), all, old_symbol, new_symbol);
        if r.symbol == old_symbol && !key_taken(all, new_symbol, r.key) {
            earlier + 1
        } else {
            earlier
        }
    }
}

fn same_key(a: &Option<String>, b: &Option<String>) -> (r: bool)
    ensures
        r == (option_view(*a) == option_view(*b)),
{
    match (a, b) {
        (Some(x), Some(y)) => same(x.as_str(), y.as_str()),
        (None, None) => true,
        _ => false,
    }
}

fn is_taken(rows: &Vec<KeyedRow>, symbol: &str, key: &Option<String>) -> (r: bool)
    ensures
        r == key_taken(row_views(rows@), symbol@, option_view(*key)),
{
    if key.is_none() {
        return false;
    }
    let ghost all = row_views(rows@);
    let mut i: usize = 0;
    while i < rows.len()
        invariant
            i <= rows.len(),
            all == row_views(rows@),
            *key is Some,
            forall|j: int|
                0 <= j < i ==> !((#[trigger] all[j]).symbol == symbol@ && all[j].key
                    == option_view(*key)),
        decreases rows.len() - i,
    {
        assert(all[i as int] == rows@[i as int]@);
        if same(rows[i].symbol.as_str(), symbol) && same_key(&rows[i].key, key) {
            return true;
        }
        i += 1;
    }
    false
}

fn copy_key(key: &Option<String>) -> (r: Option<String>)
    ensures
        option_view(r) == option_view(*key),
{
    match key {
        Some(k) => Some(k.clone()),
        None => None,
    }
}

/// Renames the symbol in the rows of one table, and how many rows moved.
fn rename_in_table(rows: &Vec<KeyedRow>, old_symbol: &str, new_symbol: &str) -> (r: (
    Vec<KeyedRow>,
    usize,
))
    ensures
        row_views(r.0@) == renamed_rows(
            row_views(rows@),
            row_views(rows@),
            old_symbol@,
            new_symbol@,
        ),
        r.1 == rows_moved(row_views(rows@), row_views(rows@), old_symbol@, new_symbol@),
{
    let ghost all = row_views(rows@);
    let mut out: Vec<KeyedRow> = Vec::new();
    let mut moved: usize = 0;
    let mut i: usize = 0;
    assert(row_views(out@) =~= seq![]);
    while i < rows.len()
        invariant
            i <= rows.len(),
            all == row_views(rows@),
            moved <= i,
            row_views(out@) == renamed_rows(all.take(i as int), all, old_symbol@, new_symbol@),
            moved == rows_moved(all.take(i as int), all, old_symbol@, new_symbol@),
        decreases rows.len() - i,
    {
        let ghost before = row_views(out@);
        proof {
            assert(all.take(i + 1).drop_last() =~= all.take(i as int));
            assert(all.take(i + 1).last() == rows@[i as int]@);
        }
        let row = &rows[i];
        let is_old = same(row.symbol.as_str(), old_symbol);
        if !is_old || !is_taken(rows, new_symbol, &row.key) {
            let symbol = if is_old {
                new_symbol.to_owned()
            } else {
                row.symbol.clone()
            };
            let next = KeyedRow { symbol, key: copy_key(&row.key), row: row.row };
            let ghost v = next@;
            out.push(next);
            assert(row_views(out@) =~= before.push(v));
            if is_old {
                moved += 1;
            }
        }
        i += 1;
    }
    assert(all.take(rows.len() as int) =~= all);
    (out, moved)
}

// ---------------------------------------------------------------------------
// All tables
// ---------------------------------------------------------------------------

/// The table once the symbol has been renamed.
pub open spec fn renamed_table(
    table: (Seq<char>, Seq<RowView>),
    old_symbol: Seq<char>,
    new_symbol: Seq<char>,
) -> (Seq<char>, Seq<RowView>) {
    if follows_a_rename(table.0) {
        (table.0, renamed_rows(table.1, table.1, old_symbol, new_symbol))
    } else {
        table
    }
}

/// The tables once the symbol has been renamed.
pub open spec fn renamed_tables(
    tables: Seq<(Seq<char>, Seq<RowView>)>,
    old_symbol: Seq<char>,
    new_symbol: Seq<char>,
) -> Seq<(Seq<char>, Seq<RowView>)> {
    Seq::new(tables.len(), |i: int| renamed_table(tables[i], old_symbol, new_symbol))
}

/// How many transactions move when the symbol is renamed.
pub open spec fn transactions_moved(
    tables: Seq<(Seq<char>, Seq<RowView>)>,
    old_symbol: Seq<char>,
    new_symbol: Seq<char>,
) -> nat
    decreases tables.len(),
{
    if tables.len() == 0 {
        0
    } else if tables.last().0 == "holdings_transactions"@ {
        rows_moved(tables.last().1, tables.last().1, old_symbol, new_symbol)
    } else {
        transactions_moved(tables.drop_last(), old_symbol, new_symbol)
    }
}

/// Moves every row kept under the old symbol to the new one, and how many
/// transactions moved. The two symbols are not the same.
pub fn rename_holdings_symbol(
    tables: &mut Vec<SymbolTable>,
    old_symbol: &str,
    new_symbol: &str,
) -> (r: usize)
    requires
        old_symbol@ != new_symbol@,
    ensures
        table_views(final(tables)@) == renamed_tables(
            table_views(old(tables)@),
            old_symbol@,
            new_symbol@,
        ),
        r == transactions_moved(table_views(old(tables)@), old_symbol@, new_symbol@),
{
    let followers = symbol_keyed_tables();
    let ghost all = table_views(tables@);
    let mut out: Vec<SymbolTable> = Vec::new();
    let mut transactions: usize = 0;
    let mut i: usize = 0;
    while i < tables.len()
        invariant
            i <= tables.len(),
            all == table_views(tables@),
            all == table_views(old(tables)@),
            forall|t: Seq<char>|
                #[trigger] views(followers@).contains(t) <==> follows_a_rename(t),
            out@.len() == i,
            forall|j: int|
                0 <= j < i ==> (#[trigger] out@[j])@ == renamed_table(
                    all[j],
                    old_symbol@,
                    new_symbol@,
                ),
            transactions == transactions_moved(all.take(i as int), old_symbol@, new_symbol@),
        decreases tables.len() - i,
    {
        let t = &tables[i];
        proof {
            assert(all.take(i + 1).drop_last() =~= all.take(i as int));
            assert(all.take(i + 1).last() == t@);
            assert(all[i as int] == t@);
        }
        let (rows, moved) = rename_in_table(&t.rows, old_symbol, new_symbol);
        let follows = one_of(t.name.as_str(), followers.as_slice());
        if same(t.name.as_str(), "holdings_transactions") {
            transactions = moved;
        }
        let rows = if follows {
            rows
        } else {
            copy_rows(&t.rows)
        };
        out.push(SymbolTable { name: t.name.clone(), rows });
        i += 1;
    }
    assert(all.take(tables.len() as int) =~= all);
    *tables = out;
    assert(table_views(tables@) =~= renamed_tables(all, old_symbol@, new_symbol@));
    transactions
}

fn copy_rows(rows: &Vec<KeyedRow>) -> (r: Vec<KeyedRow>)
    ensures
        row_views(r@) == row_views(rows@),
{
    let mut out: Vec<KeyedRow> = Vec::new();
    let mut i: usize = 0;
    while i < rows.len()
        invariant
            i <= rows.len(),
            out@.len() == i,
            forall|j: int| 0 <= j < i ==> (#[trigger] out@[j])@ == rows@[j]@,
        decreases rows.len() - i,
    {
        out.push(
            KeyedRow {
                symbol: rows[i].symbol.clone(),
                key: copy_key(&rows[i].key),
                row: rows[i].row,
            },
        );
        i += 1;
    }
    assert(row_views(out@) =~= row_views(rows@));
    out
}

/// What a request to rename a symbol is answered, `moved` being how many
/// transactions move.
pub open spec fn rename_answer(old_symbol: Seq<char>, new_symbol: Seq<char>, moved: nat) -> Result<
    usize,
    (Reason, Seq<char>),
> {
    let from = normal_symbol(old_symbol);
    let to = normal_symbol(new_symbol);
    if to.len() == 0 {
        Err((Reason::BadRequest, "New symbol is required"@))
    } else if from == to {
        Ok(0)
    } else if moved > 0 {
        Ok(moved as usize)
    } else {
        Err((Reason::NotFound, "No holdings found for '"@ + from + "'"@))
    }
}

/// Renames a symbol as a request asks, and how many transactions moved. Where
/// none did the request is refused, though rows of other tables have moved.
pub fn rename_holding_symbol(
    tables: &mut Vec<SymbolTable>,
    old_symbol: &str,
    new_symbol: &str,
) -> (r: Result<usize, Refusal>)
    ensures
        refused(r) == rename_answer(
            old_symbol@,
            new_symbol@,
            transactions_moved(
                table_views(old(tables)@),
                normal_symbol(old_symbol@),
                normal_symbol(new_symbol@),
            ),
        ),
        table_views(final(tables)@) == (if normal_symbol(new_symbol@).len() == 0 || normal_symbol(
            old_symbol@,
        ) == normal_symbol(new_symbol@) {
            table_views(old(tables)@)
        } else {
            renamed_tables(
                table_views(old(tables)@),
                normal_symbol(old_symbol@),
                normal_symbol(new_symbol@),
            )
        }),
{
    let from = normalize_symbol(old_symbol);
    let to = normalize_symbol(new_symbol);
    if to.as_str().is_empty() {
        return Err(bad_request("New symbol is required"));
    }
    if same(from.as_str(), to.as_str()) {
        return Ok(0);
    }
    let moved: usize = rename_holdings_symbol(tables, from.as_str(), to.as_str());
    if moved > 0 {
        Ok(moved)
    } else {
        Err(not_found(joined3("No holdings found for '", from.as_str(), "'").as_str()))
    }
}

// ---------------------------------------------------------------------------
// Laws
// ---------------------------------------------------------------------------

/// Nothing is kept under a symbol once it has been renamed.
pub proof fn nothing_stays_under_the_old_symbol(
    rows: Seq<RowView>,
    all: Seq<RowView>,
    old_symbol: Seq<char>,
    new_symbol: Seq<char>,
    i: int,
)
    requires
        old_symbol != new_symbol,
        0 <= i < renamed_rows(rows, all, old_symbol, new_symbol).len(),
    ensures
        renamed_rows(rows, all, old_symbol, new_symbol)[i].symbol != old_symbol,
    decreases rows.len(),
{
    if rows.len() > 0 {
        let earlier = renamed_rows(rows.drop_last(), all, old_symbol, new_symbol);
        if i < earlier.len() {
            nothing_stays_under_the_old_symbol(
                rows.drop_last(),
                all,
                old_symbol,
                new_symbol,
                i,
            );
        }
    }
}

/// A row of any other symbol stays as it is, those of the target among them.
pub proof fn rows_of_other_symbols_stay(
    rows: Seq<RowView>,
    all: Seq<RowView>,
    old_symbol: Seq<char>,
    new_symbol: Seq<char>,
    k: int,
)
    requires
        0 <= k < rows.len(),
        rows[k].symbol != old_symbol,
    ensures
        renamed_rows(rows, all, old_symbol, new_symbol).contains(rows[k]),
    decreases rows.len(),
{
    let earlier = renamed_rows(rows.drop_last(), all, old_symbol, new_symbol);
    let after = renamed_rows(rows, all, old_symbol, new_symbol);
    if k < rows.len() - 1 {
        rows_of_other_symbols_stay(rows.drop_last(), all, old_symbol, new_symbol, k);
        let i = choose|i: int| 0 <= i < earlier.len() && earlier[i] == rows[k];
        assert(after[i] == rows[k]);
    } else {
        assert(after[earlier.len() as int] == rows[k]);
    }
}

/// A row whose key the target does not hold moves whole: only its symbol
/// changes.
pub proof fn a_free_row_moves_whole(
    rows: Seq<RowView>,
    all: Seq<RowView>,
    old_symbol: Seq<char>,
    new_symbol: Seq<char>,
    k: int,
)
    requires
        0 <= k < rows.len(),
        rows[k].symbol == old_symbol,
        !key_taken(all, new_symbol, rows[k].key),
    ensures
        renamed_rows(rows, all, old_symbol, new_symbol).contains(
            (RowView { symbol: new_symbol, key: rows[k].key, row: rows[k].row }),
        ),
    decreases rows.len(),
{
    let earlier = renamed_rows(rows.drop_last(), all, old_symbol, new_symbol);
    let after = renamed_rows(rows, all, old_symbol, new_symbol);
    let moved = RowView { symbol: new_symbol, key: rows[k].key, row: rows[k].row };
    if k < rows.len() - 1 {
        a_free_row_moves_whole(rows.drop_last(), all, old_symbol, new_symbol, k);
        let i = choose|i: int| 0 <= i < earlier.len() && earlier[i] == moved;
        assert(after[i] == moved);
    } else {
        assert(after[earlier.len() as int] == moved);
    }
}

/// The event log keeps the names that were in use at the time.
pub proof fn the_event_log_keeps_its_names(
    rows: Seq<RowView>,
    old_symbol: Seq<char>,
    new_symbol: Seq<char>,
)
    ensures
        renamed_table(("event_log"@, rows), old_symbol, new_symbol) == ("event_log"@, rows),
{
    reveal_strlit("event_log");
    reveal_strlit("holdings_transactions");
    reveal_strlit("holdings_symbol_fields");
    reveal_strlit("symbol_info");
    reveal_strlit("prices");
    reveal_strlit("dividend_events");
    reveal_strlit("dividend_exclusions");
    reveal_strlit("chart_drawings");
    reveal_strlit("cached_current_prices");
    reveal_strlit("watchlist_symbols");
    reveal_strlit("watchlist_memberships");
    reveal_strlit("watchlist_prices");
    reveal_strlit("watchlist_symbol_fields");
    reveal_strlit("stock_analysis_messages");
    assert("event_log"@.len() == 9);
    assert("holdings_transactions"@.len() == 21);
    assert("holdings_symbol_fields"@.len() == 22);
    assert("symbol_info"@.len() == 11);
    assert("prices"@.len() == 6);
    assert("dividend_events"@.len() == 15);
    assert("dividend_exclusions"@.len() == 19);
    assert("chart_drawings"@.len() == 14);
    assert("cached_current_prices"@.len() == 21);
    assert("watchlist_symbols"@.len() == 17);
    assert("watchlist_memberships"@.len() == 21);
    assert("watchlist_prices"@.len() == 16);
    assert("watchlist_symbol_fields"@.len() == 23);
    assert("stock_analysis_messages"@.len() == 23);
}

/// A row whose key the new symbol has already is dropped, the new symbol's own row
/// stays; a row without a key always moves. As many rows count as moved as do.
pub proof fn the_new_symbols_own_row_wins(
    rows: Seq<RowView>,
    all: Seq<RowView>,
    row: RowView,
    old_symbol: Seq<char>,
    new_symbol: Seq<char>,
)
    requires
        row.symbol == old_symbol,
        old_symbol != new_symbol,
    ensures
        ({
            let taken = row.key is Some && exists|i: int|
                0 <= i < all.len() && (#[trigger] all[i]).symbol == new_symbol && all[i].key
                    == row.key;
            let was = renamed_rows(rows, all, old_symbol, new_symbol);
            let now = renamed_rows(rows.push(row), all, old_symbol, new_symbol);
            &&& taken ==> now == was && rows_moved(rows.push(row), all, old_symbol, new_symbol)
                == rows_moved(rows, all, old_symbol, new_symbol)
            &&& !taken ==> now.len() == was.len() + 1 && now.last().symbol == new_symbol
                && now.last().key == row.key && now.last().row == row.row && rows_moved(
                rows.push(row),
                all,
                old_symbol,
                new_symbol,
            ) == rows_moved(rows, all, old_symbol, new_symbol) + 1
        }),
{
    assert(rows.push(row).drop_last() =~= rows);
}

/// A renaming is answered with how many transactions moved; it needs a new symbol,
/// and one to move, and does nothing where the two are one.
pub proof fn how_a_renaming_is_answered(old_symbol: Seq<char>, new_symbol: Seq<char>, moved: nat)
    requires
        moved <= usize::MAX,
    ensures
        ({
            let from = normal_symbol(old_symbol);
            let to = normal_symbol(new_symbol);
            let answer = rename_answer(old_symbol, new_symbol, moved);
            &&& to.len() == 0 ==> answer == Err::<usize, (Reason, Seq<char>)>(
                (Reason::BadRequest, "New symbol is required"@),
            )
            &&& to.len() > 0 && from == to ==> answer == Ok::<usize, (Reason, Seq<char>)>(0)
            &&& to.len() > 0 && from != to && moved > 0 ==> answer == Ok::<
                usize,
                (Reason, Seq<char>),
            >(moved as usize)
            &&& to.len() > 0 && from != to && moved == 0 ==> answer == Err::<
                usize,
                (Reason, Seq<char>),
            >((Reason::NotFound, "No holdings found for '"@ + from + "'"@))
        }),
{
}

/// What a renaming is said to move are the rows of the transactions, and every
/// table is renamed on its own.
pub proof fn a_renaming_counts_the_transactions(
    tables: Seq<(Seq<char>, Seq<RowView>)>,
    i: int,
    old_symbol: Seq<char>,
    new_symbol: Seq<char>,
)
    requires
        0 <= i < tables.len(),
        tables[i].0 == "holdings_transactions"@,
        forall|j: int| i < j < tables.len() ==> (#[trigger] tables[j]).0 != "holdings_transactions"@,
    ensures
        transactions_moved(tables, old_symbol, new_symbol) == rows_moved(
            tables[i].1,
            tables[i].1,
            old_symbol,
            new_symbol,
        ),
        renamed_tables(tables, old_symbol, new_symbol).len() == tables.len(),
        renamed_tables(tables, old_symbol, new_symbol)[i].0 == tables[i].0,
    decreases tables.len(),
{
    if i < tables.len() - 1 {
        let less = tables.drop_last();
        assert(tables.last() == tables[tables.len() - 1]);
        assert forall|j: int| i < j < less.len() implies (#[trigger] less[j]).0
            != "holdings_transactions"@ by {
            assert(less[j] == tables[j]);
        }
        a_renaming_counts_the_transactions(less, i, old_symbol, new_symbol);
    }
}

} // verus!
