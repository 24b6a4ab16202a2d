//! Values that users attach to symbols.
use vstd::prelude::*;
use crate::number::{is_renderer, write_number, written, Decimals, Number};
use crate::reply::{refused, unprocessable, Reason, Refusal};
use crate::text::{
    is_before, is_blank, joined, joined3, option_slice_view, same, text_before, trim_text, trimmed,
};
use crate::textmap::TextMap;

verus! {

broadcast use vstd::string::group_string_axioms;

/// A stored text, with the number it reads as, where it does.
#[derive(Debug)]
pub struct Field {
    pub text: String,
    /// What the text reads as.
    pub number: Option<Number>,
    /// What it reads as once it is trimmed.
    pub trimmed_number: Option<Number>,
}


// ---------------------------------------------------------------------------
// Loading
// ---------------------------------------------------------------------------

/// One stored field of a symbol.
#[derive(Debug)]
pub struct FieldRow {
    pub symbol: String,
    pub key: String,
    pub field: Field,
}

/// The field that a symbol has under a key.
pub open spec fn field_of(rows: Seq<FieldRow>, symbol: Seq<char>, key: Seq<char>) -> Option<Field>
    decreases rows.len(),
{
    if rows.len() == 0 {
        None
    } else if rows.last().symbol@ == symbol && rows.last().key@ == key {
        Some(rows.last().field)
    } else {
        field_of(rows.drop_last(), symbol, key)
    }
}

/// Whether a symbol has a field.
pub open spec fn has_fields(rows: Seq<FieldRow>, symbol: Seq<char>) -> bool
    decreases rows.len(),
{
    rows.len() > 0 && (rows.last().symbol@ == symbol || has_fields(rows.drop_last(), symbol))
}

/// Whether `map` holds the fields of one symbol.
pub open spec fn holds_symbol(
    map: Map<Seq<char>, Field>,
    rows: Seq<FieldRow>,
    symbol: Seq<char>,
) -> bool {
    forall|k: Seq<char>|
        #![trigger map.contains_key(k)]
        #![trigger field_of(rows, symbol, k)]
        match field_of(rows, symbol, k) {
            Some(f) => map.contains_key(k) && map[k] == f,
            None => !map.contains_key(k),
        }
}

/// Whether `map` holds the fields of all symbols.
pub open spec fn holds_fields(map: Map<Seq<char>, TextMap<Field>>, rows: Seq<FieldRow>) -> bool {
    &&& forall|s: Seq<char>|
        #![trigger map.contains_key(s)]
        #![trigger has_fields(rows, s)]
        map.contains_key(s) == has_fields(rows, s)
    &&& forall|s: Seq<char>|
        map.contains_key(s) ==> holds_symbol((#[trigger] map[s])@, rows, s)
}

proof fn lemma_no_fields(rows: Seq<FieldRow>, symbol: Seq<char>, key: Seq<char>)
    requires
        !has_fields(rows, symbol),
    ensures
        field_of(rows, symbol, key) is None,
    decreases rows.len(),
{
    if rows.len() > 0 {
        lemma_no_fields(rows.drop_last(), symbol, key);
    }
}

proof fn lemma_one_more_field(
    rows: Seq<FieldRow>,
    row: FieldRow,
    before: Map<Seq<char>, TextMap<Field>>,
    now: Map<Seq<char>, TextMap<Field>>,
)
    requires
        holds_fields(before, rows),
        now.dom() == before.dom().insert(row.symbol@),
        forall|s: Seq<char>|
            before.contains_key(s) && s != row.symbol@ ==> #[trigger] now[s] == before[s],
        now[row.symbol@]@ == (if before.contains_key(row.symbol@) {
            before[row.symbol@]@
        } else {
            Map::<Seq<char>, Field>::empty()
        }).insert(row.key@, row.field),
    ensures
        holds_fields(now, rows.push(row)),
{
    let more = rows.push(row);
    assert(more.drop_last() =~= rows);
    assert forall|s: Seq<char>|
        #![trigger now.contains_key(s)]
        #![trigger has_fields(more, s)]
        now.contains_key(s) == has_fields(more, s) by {
        assert(before.contains_key(s) == has_fields(rows, s));
        assert(now.contains_key(s) == now.dom().contains(s));
    }
    assert forall|s: Seq<char>| now.contains_key(s) implies holds_symbol(
        (#[trigger] now[s])@,
        more,
        s,
    ) by {
        assert(before.contains_key(s) == has_fields(rows, s));
        assert(now.dom().contains(s));
        let m = now[s]@;
        assert forall|k: Seq<char>|
            #![trigger m.contains_key(k)]
            #![trigger field_of(more, s, k)]
            match field_of(more, s, k) {
                Some(f) => m.contains_key(k) && m[k] == f,
                None => !m.contains_key(k),
            } by {
            if before.contains_key(s) {
                assert(holds_symbol(before[s]@, rows, s));
                assert(before[s]@.contains_key(k) == field_of(rows, s, k) is Some);
            } else {
                lemma_no_fields(rows, s, k);
            }
        }
    }
}

/// The fields of all symbols, by symbol and key.
pub fn load_holdings_symbol_fields(rows: Vec<FieldRow>) -> (r: TextMap<TextMap<Field>>)
    ensures
        holds_fields(r@, rows@),
{
    let mut out: TextMap<TextMap<Field>> = TextMap::new();
    let ghost all = rows@;
    assert(all.take(0) =~= Seq::<FieldRow>::empty());
    for row in it: rows
        invariant
            it.seq() == all,
            holds_fields(out@, all.take(it.index() as int)),
    {
        let ghost before = out@;
        let ghost n = it.index() as int;
        assert(all.take(n + 1) =~= all.take(n).push(row));
        let mut inner = match out.remove(row.symbol.as_str()) {
            Some(m) => m,
            None => TextMap::new(),
        };
        let ghost sym = row.symbol@;
        inner.insert(row.key, row.field);
        out.insert(row.symbol, inner);
        proof {
            assert(out@.dom() =~= before.dom().insert(sym));
            lemma_one_more_field(all.take(n), row, before, out@);
        }
    }
    assert(all.take(all.len() as int) =~= all);
    out
}

// ---------------------------------------------------------------------------
// Changing
// ---------------------------------------------------------------------------

/// What a map of strings holds.
pub open spec fn texts(m: Map<Seq<char>, String>) -> Map<Seq<char>, Seq<char>> {
    m.map_values(|s: String| s@)
}

/// The texts of some changes.
pub open spec fn change_views(changes: Seq<(String, String)>) -> Seq<(Seq<char>, Seq<char>)> {
    Seq::new(changes.len(), |i: int| (changes[i].0@, changes[i].1@))
}

/// One change: an empty value takes the key out, any other is put in.
pub open spec fn field_changed(
    stored: Map<Seq<char>, Seq<char>>,
    key: Seq<char>,
    value: Seq<char>,
) -> Map<Seq<char>, Seq<char>> {
    if value.len() == 0 {
        stored.remove(key)
    } else {
        stored.insert(key, value)
    }
}

/// Changes one after another. What they do not mention stays.
pub open spec fn fields_changed(
    stored: Map<Seq<char>, Seq<char>>,
    changes: Seq<(Seq<char>, Seq<char>)>,
) -> Map<Seq<char>, Seq<char>>
    decreases changes.len(),
{
    if changes.len() == 0 {
        stored
    } else {
        field_changed(
            fields_changed(stored, changes.drop_last()),
            changes.last().0,
            changes.last().1,
        )
    }
}

/// The changes with their values trimmed.
pub open spec fn trimmed_changes(changes: Seq<(Seq<char>, Seq<char>)>) -> Seq<
    (Seq<char>, Seq<char>),
> {
    changes.map_values(|c: (Seq<char>, Seq<char>)| (c.0, trim_text(c.1)))
}

/// Puts one value in, or takes the key out where the value is empty.
fn change_field(stored: &mut TextMap<String>, key: &str, value: &str)
    ensures
        texts(final(stored)@) == field_changed(texts(old(stored)@), key@, value@),
{
    let ghost before = texts(stored@);
    if value.is_empty() {
        let _ = stored.remove(key);
        assert(texts(stored@) =~= before.remove(key@));
    } else {
        stored.insert(key.to_owned(), value.to_owned());
        assert(texts(stored@) =~= before.insert(key@, value@));
    }
}

/// Changes the fields of a holding: an empty value takes its key out, any other
/// is put in, and a key that is not mentioned stays.
pub fn upsert_holdings_symbol_fields(stored: &mut TextMap<String>, changes: &Vec<(String, String)>)
    ensures
        texts(final(stored)@) == fields_changed(texts(old(stored)@), change_views(changes@)),
{
    let ghost first = texts(stored@);
    let ghost all = change_views(changes@);
    let mut i: usize = 0;
    while i < changes.len()
        invariant
            i <= changes.len(),
            all == change_views(changes@),
            texts(stored@) == fields_changed(first, all.take(i as int)),
        decreases changes.len() - i,
    {
        proof {
            assert(all.take(i + 1).drop_last() =~= all.take(i as int));
        }
        change_field(stored, changes[i].0.as_str(), changes[i].1.as_str());
        i += 1;
    }
    assert(all.take(changes.len() as int) =~= all);
}

/// Changes the fields of a watched symbol: a blank value takes its key out, any
/// other is put in trimmed, and a key that is not mentioned stays. So a caller
/// that sends a part of the fields does not lose the rest.
pub fn save_custom_fields(stored: &mut TextMap<String>, changes: &Vec<(String, String)>)
    ensures
        texts(final(stored)@) == fields_changed(
            texts(old(stored)@),
            trimmed_changes(change_views(changes@)),
        ),
{
    let ghost first = texts(stored@);
    let ghost all = trimmed_changes(change_views(changes@));
    let mut i: usize = 0;
    while i < changes.len()
        invariant
            i <= changes.len(),
            all == trimmed_changes(change_views(changes@)),
            texts(stored@) == fields_changed(first, all.take(i as int)),
        decreases changes.len() - i,
    {
        proof {
            assert(all.take(i + 1).drop_last() =~= all.take(i as int));
            assert(all[i as int] == (
                changes@[i as int].0@,
                trim_text(changes@[i as int].1@),
            ));
        }
        change_field(stored, changes[i].0.as_str(), trimmed(changes[i].1.as_str()));
        i += 1;
    }
    assert(all.take(changes.len() as int) =~= all);
}

/// A key that the changes do not mention keeps what it had.
pub proof fn unmentioned_fields_stay(
    stored: Map<Seq<char>, Seq<char>>,
    changes: Seq<(Seq<char>, Seq<char>)>,
    key: Seq<char>,
)
    requires
        forall|i: int| 0 <= i < changes.len() ==> (#[trigger] changes[i]).0 != key,
    ensures
        fields_changed(stored, changes).contains_key(key) == stored.contains_key(key),
        stored.contains_key(key) ==> fields_changed(stored, changes)[key] == stored[key],
    decreases changes.len(),
{
    if changes.len() > 0 {
        assert(changes.last().0 != key) by {
            assert(changes[changes.len() - 1].0 != key);
        }
        assert forall|i: int| 0 <= i < changes.drop_last().len() implies (
        #[trigger] changes.drop_last()[i]).0 != key by {
            assert(changes[i].0 != key);
        }
        unmentioned_fields_stay(stored, changes.drop_last(), key);
    }
}

/// The last change of a key settles it: a value stays, an empty one is gone.
pub proof fn the_last_change_of_a_field_settles_it(
    stored: Map<Seq<char>, Seq<char>>,
    changes: Seq<(Seq<char>, Seq<char>)>,
    at: int,
)
    requires
        0 <= at < changes.len(),
        forall|i: int| at < i < changes.len() ==> (#[trigger] changes[i]).0 != changes[at].0,
    ensures
        fields_changed(stored, changes).contains_key(changes[at].0) == (changes[at].1.len() > 0),
        changes[at].1.len() > 0 ==> fields_changed(stored, changes)[changes[at].0]
            == changes[at].1,
    decreases changes.len(),
{
    let n = changes.len() - 1;
    if at < n {
        let less = changes.drop_last();
        assert(less[at] == changes[at]);
        assert forall|i: int| at < i < less.len() implies (#[trigger] less[i]).0 != less[at].0 by {
            assert(changes[i].0 != changes[at].0);
        }
        the_last_change_of_a_field_settles_it(stored, less, at);
        assert(changes[n].0 != changes[at].0);
    }
}

// ---------------------------------------------------------------------------
// The baseline of a holding's profit
// ---------------------------------------------------------------------------

/// The key of the day from which a holding's profit is measured.
pub open spec fn pl_basis_date() -> Seq<char> {
    "pl_basis_date"@
}

/// The key of the price on that day.
pub open spec fn pl_basis_price() -> Seq<char> {
    "pl_basis_price"@
}

/// A day and the close of a symbol on it.
#[derive(Debug)]
pub struct DayClose {
    pub date: String,
    pub close: Number,
}

/// The first close on or after `date`, from bar `i` on.
pub open spec fn first_close_from(bars: Seq<DayClose>, date: Seq<char>, i: int) -> Option<Number>
    decreases bars.len() - i,
{
    if i < 0 || i >= bars.len() {
        None
    } else if !text_before(bars[i].date@, date) {
        Some(bars[i].close)
    } else {
        first_close_from(bars, date, i + 1)
    }
}

/// The first close on or after `date`, the bars being in the order of their
/// days. A day is often no trading day, so it is taken forward to the first bar
/// that exists.
pub fn close_on_or_after(bars: &Vec<DayClose>, date: &str) -> (r: Option<Number>)
    ensures
        r == first_close_from(bars@, date@, 0),
{
    let mut i: usize = 0;
    while i < bars.len()
        invariant
            i <= bars.len(),
            first_close_from(bars@, date@, 0) == first_close_from(bars@, date@, i as int),
        decreases bars.len() - i,
    {
        if !is_before(bars[i].date.as_str(), date) {
            return Some(bars[i].close);
        }
        i += 1;
    }
    None
}

/// What becomes of the baseline's price when the fields of a holding change.
#[derive(Clone, Copy, PartialEq, Eq, Structural, Debug)]
pub enum Baseline {
    /// The day is not mentioned, so the price stays.
    Untouched,
    /// The day is cleared, and the price with it.
    Cleared,
    /// The price to keep for the day.
    Priced(Number),
}

/// What becomes of the baseline's price, `date` being the day as it was sent.
pub open spec fn baseline_of(
    date: Option<Seq<char>>,
    symbol: Seq<char>,
    bars: Seq<DayClose>,
) -> Result<Baseline, (Reason, Seq<char>)> {
    match date {
        None => Ok(Baseline::Untouched),
        Some(d) => if is_blank(d) {
            Ok(Baseline::Cleared)
        } else {
            match first_close_from(bars, trim_text(d), 0) {
                Some(close) => Ok(Baseline::Priced(close)),
                None => Err(
                    (
                        Reason::Unprocessable,
                        "No stored price for "@ + symbol + " on or after "@ + trim_text(d),
                    ),
                ),
            }
        },
    }
}

/// What becomes of the baseline's price. It is settled once, when the day is
/// stored: history gets trimmed, and a basis that moves is no record of
/// anything.
pub fn resolve_baseline(date: Option<&str>, symbol: &str, bars: &Vec<DayClose>) -> (r: Result<
    Baseline,
    Refusal,
>)
    ensures
        refused(r) == baseline_of(option_slice_view(date), symbol@, bars@),
{
    match date {
        None => Ok(Baseline::Untouched),
        Some(d) => {
            let t = trimmed(d);
            if t.is_empty() {
                return Ok(Baseline::Cleared);
            }
            match close_on_or_after(bars, t) {
                Some(close) => Ok(Baseline::Priced(close)),
                None => {
                    let head = joined3("No stored price for ", symbol, " on or after ");
                    Err(unprocessable(joined(head.as_str(), t).as_str()))
                },
            }
        },
    }
}

/// The value that the changes give a key, the last one where they give several.
pub open spec fn change_of(changes: Seq<(Seq<char>, Seq<char>)>, key: Seq<char>) -> Option<Seq<char>>
    decreases changes.len(),
{
    if changes.len() == 0 {
        None
    } else if changes.last().0 == key {
        Some(changes.last().1)
    } else {
        change_of(changes.drop_last(), key)
    }
}

/// The value that the changes give a key.
fn changed_to<'a>(changes: &'a Vec<(String, String)>, key: &str) -> (r: Option<&'a str>)
    ensures
        option_slice_view(r) == change_of(change_views(changes@), key@),
{
    let ghost all = change_views(changes@);
    let mut n: usize = changes.len();
    assert(all.take(n as int) =~= all);
    while n > 0
        invariant
            n <= changes.len(),
            all == change_views(changes@),
            change_of(all, key@) == change_of(all.take(n as int), key@),
        decreases n,
    {
        assert(all.take(n as int).drop_last() =~= all.take(n - 1));
        assert(all.take(n as int).last() == all[n - 1]);
        if same(changes[n - 1].0.as_str(), key) {
            return Some(changes[n - 1].1.as_str());
        }
        n -= 1;
    }
    None
}

/// The fields of a holding with what became of the baseline's price.
pub open spec fn with_baseline<R: Fn(Number, Decimals) -> String>(
    render: R,
    fields: Map<Seq<char>, Seq<char>>,
    baseline: Baseline,
) -> Map<Seq<char>, Seq<char>> {
    match baseline {
        Baseline::Untouched => fields,
        Baseline::Cleared => fields.remove(pl_basis_price()),
        Baseline::Priced(p) => fields.insert(
            pl_basis_price(),
            written(render, p, Decimals::Shortest),
        ),
    }
}

/// Stores what became of the baseline's price.
pub fn write_baseline<R: Fn(Number, Decimals) -> String>(
    stored: &mut TextMap<String>,
    baseline: Baseline,
    render: &R,
)
    requires
        is_renderer(*render),
    ensures
        texts(final(stored)@) == with_baseline(*render, texts(old(stored)@), baseline),
{
    let ghost before = texts(stored@);
    match baseline {
        Baseline::Untouched => {},
        Baseline::Cleared => {
            let _ = stored.remove("pl_basis_price");
            assert(texts(stored@) =~= before.remove("pl_basis_price"@));
        },
        Baseline::Priced(p) => {
            let text = write_number(render, p, Decimals::Shortest);
            let ghost t = text@;
            stored.insert("pl_basis_price".to_owned(), text);
            assert(texts(stored@) =~= before.insert("pl_basis_price"@, t));
        },
    }
}

/// The fields of a holding after an update, given what became of the baseline.
/// Where the baseline is refused, so is the whole update: a day without a price
/// would stand beside the price of another day.
pub open spec fn symbol_fields_after<R: Fn(Number, Decimals) -> String>(
    render: R,
    stored: Map<Seq<char>, Seq<char>>,
    notes: Option<Seq<char>>,
    changes: Option<Seq<(Seq<char>, Seq<char>)>>,
    baseline: Result<Baseline, (Reason, Seq<char>)>,
) -> Map<Seq<char>, Seq<char>> {
    let noted = match notes {
        Some(n) => stored.insert("_notes"@, n),
        None => stored,
    };
    let changed = match changes {
        Some(c) => fields_changed(noted, c),
        None => noted,
    };
    match baseline {
        Err(_) => stored,
        Ok(b) => with_baseline(render, changed, b),
    }
}

/// The view of the optional changes.
pub open spec fn option_changes(changes: Option<&Vec<(String, String)>>) -> Option<
    Seq<(Seq<char>, Seq<char>)>,
> {
    match changes {
        Some(c) => Some(change_views(c@)),
        None => None,
    }
}

/// The day that the changes give the baseline.
pub open spec fn sent_basis_date(changes: Option<Seq<(Seq<char>, Seq<char>)>>) -> Option<Seq<char>> {
    match changes {
        Some(c) => change_of(c, pl_basis_date()),
        None => None,
    }
}

/// Updates the notes and the fields of a holding, and settles and stores the
/// price of its baseline where the baseline's day is among them. A day that
/// cannot be priced is refused, and nothing is stored.
pub fn update_holdings_symbol_fields<R: Fn(Number, Decimals) -> String>(
    stored: &mut TextMap<String>,
    notes: Option<&str>,
    changes: Option<&Vec<(String, String)>>,
    symbol: &str,
    bars: &Vec<DayClose>,
    render: &R,
) -> (r: Result<Baseline, Refusal>)
    requires
        is_renderer(*render),
    ensures
        refused(r) == baseline_of(sent_basis_date(option_changes(changes)), symbol@, bars@),
        texts(final(stored)@) == symbol_fields_after(
            *render,
            texts(old(stored)@),
            option_slice_view(notes),
            option_changes(changes),
            refused(r),
        ),
        refused(r) is Err ==> texts(final(stored)@) == texts(old(stored)@),
{
    let sent = match changes {
        Some(c) => changed_to(c, "pl_basis_date"),
        None => None,
    };
    let baseline = match resolve_baseline(sent, symbol, bars) {
        Ok(b) => b,
        Err(refusal) => return Err(refusal),
    };
    if let Some(n) = notes {
        let ghost before = texts(stored@);
        stored.insert("_notes".to_owned(), n.to_owned());
        assert(texts(stored@) =~= before.insert("_notes"@, n@));
    }
    if let Some(c) = changes {
        upsert_holdings_symbol_fields(stored, c);
    }
    write_baseline(stored, baseline, render);
    Ok(baseline)
}

/// A day that cannot be priced leaves the fields of a holding as they were.
pub proof fn a_refused_baseline_changes_nothing<R: Fn(Number, Decimals) -> String>(
    render: R,
    stored: Map<Seq<char>, Seq<char>>,
    notes: Option<Seq<char>>,
    changes: Option<Seq<(Seq<char>, Seq<char>)>>,
    symbol: Seq<char>,
    bars: Seq<DayClose>,
)
    requires
        sent_basis_date(changes) is Some,
        !is_blank(sent_basis_date(changes)->0),
        first_close_from(bars, trim_text(sent_basis_date(changes)->0), 0) is None,
    ensures
        symbol_fields_after(
            render,
            stored,
            notes,
            changes,
            baseline_of(sent_basis_date(changes), symbol, bars),
        ) == stored,
{
}

/// A day that can be priced is stored with its price: the close of the first
/// stored bar on or after it, written out.
pub proof fn a_priced_baseline_is_stored<R: Fn(Number, Decimals) -> String>(
    render: R,
    stored: Map<Seq<char>, Seq<char>>,
    notes: Option<Seq<char>>,
    changes: Option<Seq<(Seq<char>, Seq<char>)>>,
    symbol: Seq<char>,
    bars: Seq<DayClose>,
)
    requires
        sent_basis_date(changes) is Some,
        !is_blank(sent_basis_date(changes)->0),
        first_close_from(bars, trim_text(sent_basis_date(changes)->0), 0) is Some,
    ensures
        ({
            let fields = symbol_fields_after(
                render,
                stored,
                notes,
                changes,
                baseline_of(sent_basis_date(changes), symbol, bars),
            );
            fields.contains_key(pl_basis_price()) && fields[pl_basis_price()] == written(
                render,
                first_close_from(bars, trim_text(sent_basis_date(changes)->0), 0)->0,
                Decimals::Shortest,
            )
        }),
{
}

/// A field that is sent empty is cleared, any other takes its value, and no other
/// field changes.
pub proof fn an_empty_value_clears_a_field(
    stored: Map<Seq<char>, Seq<char>>,
    key: Seq<char>,
    value: Seq<char>,
    other: Seq<char>,
)
    requires
        other != key,
    ensures
        ({
            let now = field_changed(stored, key, value);
            &&& value.len() == 0 ==> !now.contains_key(key)
            &&& value.len() > 0 ==> now.contains_key(key) && now[key] == value
            &&& now.contains_key(other) == stored.contains_key(other)
            &&& stored.contains_key(other) ==> now[other] == stored[other]
        }),
{
}

/// The price of a day is the close of the first stored bar on or after it: every
/// bar before that one is dated before the day.
pub proof fn the_first_close_on_or_after_the_day_counts(
    bars: Seq<DayClose>,
    date: Seq<char>,
    n: int,
)
    requires
        0 <= n <= bars.len(),
        forall|i: int| 0 <= i < n ==> text_before((#[trigger] bars[i]).date@, date),
        n < bars.len() ==> !text_before(bars[n].date@, date),
    ensures
        n < bars.len() ==> first_close_from(bars, date, 0) == Some(bars[n].close),
        n == bars.len() ==> first_close_from(bars, date, 0) is None,
{
    lemma_first_close(bars, date, n, 0);
}

proof fn lemma_first_close(bars: Seq<DayClose>, date: Seq<char>, n: int, from: int)
    requires
        0 <= from <= n <= bars.len(),
        forall|i: int| 0 <= i < n ==> text_before((#[trigger] bars[i]).date@, date),
        n < bars.len() ==> !text_before(bars[n].date@, date),
    ensures
        n < bars.len() ==> first_close_from(bars, date, from) == Some(bars[n].close),
        n == bars.len() ==> first_close_from(bars, date, from) is None,
    decreases n - from,
{
    if from < n {
        lemma_first_close(bars, date, n, from + 1);
    }
}

/// The notes that are sent take the place of those stored, a day that is cleared
/// takes its price with it, and without a day the price stays.
pub proof fn notes_and_the_cleared_day<R: Fn(Number, Decimals) -> String>(
    render: R,
    stored: Map<Seq<char>, Seq<char>>,
    notes: Seq<char>,
    symbol: Seq<char>,
    bars: Seq<DayClose>,
    date: Option<Seq<char>>,
)
    ensures
        ({
            let noted = symbol_fields_after(
                render,
                stored,
                Some(notes),
                None,
                Ok(Baseline::Untouched),
            );
            noted.contains_key("_notes"@) && noted["_notes"@] == notes
        }),
        symbol_fields_after(render, stored, None, None, Ok(Baseline::Untouched)) == stored,
        !symbol_fields_after(render, stored, None, None, Ok(Baseline::Cleared)).contains_key(
            "pl_basis_price"@,
        ),
        date is None ==> baseline_of(date, symbol, bars) == Ok::<Baseline, (Reason, Seq<char>)>(
            Baseline::Untouched,
        ),
        date is Some && trim_text(date->0).len() == 0 ==> baseline_of(date, symbol, bars) == Ok::<
            Baseline,
            (Reason, Seq<char>),
        >(Baseline::Cleared),
{
}

/// The last row of a symbol and key says what the field holds, and a symbol has
/// fields once there is a row of it.
pub proof fn the_last_row_of_a_field_counts(
    rows: Seq<FieldRow>,
    row: FieldRow,
    symbol: Seq<char>,
    key: Seq<char>,
)
    ensures
        row.symbol@ == symbol && row.key@ == key ==> field_of(rows.push(row), symbol, key) == Some(
            row.field,
        ),
        row.symbol@ != symbol || row.key@ != key ==> field_of(rows.push(row), symbol, key)
            == field_of(rows, symbol, key),
        field_of(Seq::empty(), symbol, key) is None,
        has_fields(rows.push(row), symbol) <==> row.symbol@ == symbol || has_fields(rows, symbol),
        !has_fields(Seq::empty(), symbol),
{
    assert(rows.push(row).drop_last() =~= rows);
}

/// What is loaded of a symbol is what the last row of each of its keys holds.
pub proof fn what_is_loaded_is_what_is_stored(
    map: Map<Seq<char>, TextMap<Field>>,
    rows: Seq<FieldRow>,
    row: FieldRow,
    symbol: Seq<char>,
    key: Seq<char>,
)
    requires
        holds_fields(map, rows.push(row)),
    ensures
        map.contains_key(row.symbol@) && map[row.symbol@]@.contains_key(row.key@)
            && map[row.symbol@]@[row.key@] == row.field,
        map.contains_key(symbol) && map[symbol]@.contains_key(key) ==> field_of(
            rows.push(row),
            symbol,
            key,
        ) == Some(map[symbol]@[key]),
        (forall|i: int| 0 <= i < rows.len() ==> (#[trigger] rows[i]).symbol@ != symbol)
            && row.symbol@ != symbol ==> !map.contains_key(symbol),
{
    let all = rows.push(row);
    assert(all.drop_last() =~= rows);
    assert(has_fields(all, row.symbol@));
    assert(field_of(all, row.symbol@, row.key@) == Some(row.field));
    assert(holds_symbol(map[row.symbol@]@, all, row.symbol@));
    if map.contains_key(symbol) {
        assert(holds_symbol(map[symbol]@, all, symbol));
        assert(field_of(all, symbol, key) is Some || field_of(all, symbol, key) is None);
        if (forall|i: int| 0 <= i < rows.len() ==> (#[trigger] rows[i]).symbol@ != symbol)
            && row.symbol@ != symbol {
            lemma_no_row(rows, symbol);
            assert(!has_fields(all, symbol));
        }
    }
}

proof fn lemma_no_row(rows: Seq<FieldRow>, symbol: Seq<char>)
    requires
        forall|i: int| 0 <= i < rows.len() ==> (#[trigger] rows[i]).symbol@ != symbol,
    ensures
        !has_fields(rows, symbol),
    decreases rows.len(),
{
    if rows.len() > 0 {
        let less = rows.drop_last();
        assert(rows.last() == rows[rows.len() - 1]);
        assert forall|i: int| 0 <= i < less.len() implies (#[trigger] less[i]).symbol@ != symbol by {
            assert(less[i] == rows[i]);
        }
        lemma_no_row(less, symbol);
    }
}

} // verus!
