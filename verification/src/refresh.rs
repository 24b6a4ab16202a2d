//! Bringing prices, dividends and rates up to date: when a refresh runs, what
//! it reports and when it counts as done.
use vstd::prelude::*;
use crate::dates::{elapsed_seconds, seconds_between};
use crate::text::{
    decimal, decimal_text, is_before, join, join_text, joined, joined3, option_slice_view,
    option_view, string_views, text_before, views,
};
use crate::textmap::TextMap;

verus! {

broadcast use vstd::string::group_string_axioms;

/// For how many seconds after a full refresh the next one is skipped.
pub const DEBOUNCE_SECS: i64 = 600;

// ---------------------------------------------------------------------------
// Whether to run
// ---------------------------------------------------------------------------

/// Whether a refresh runs.
#[derive(Debug)]
pub enum Gate {
    /// The last one was at that time, a short while ago.
    Debounced(String),
    /// Another one is running.
    InProgress,
    Run,
}

/// Whether a refresh runs.
pub enum GateView {
    Debounced(Seq<char>),
    InProgress,
    Run,
}

impl View for Gate {
    type V = GateView;

    open spec fn view(&self) -> GateView {
        match *self {
            Gate::Debounced(last) => GateView::Debounced(last@),
            Gate::InProgress => GateView::InProgress,
            Gate::Run => GateView::Run,
        }
    }
}

/// Whether a refresh runs, `age` being the seconds since the last one: a forced
/// one is never held back by the last one, and no two run at a time.
pub open spec fn gate(force: bool, last: Option<Seq<char>>, age: Option<int>, in_flight: bool) ->
    GateView {
    if !force && last is Some && age is Some && age->0 < DEBOUNCE_SECS {
        GateView::Debounced(last->0)
    } else if in_flight {
        GateView::InProgress
    } else {
        GateView::Run
    }
}

/// The seconds since the last refresh.
pub open spec fn refresh_age(last: Option<Seq<char>>, now: Seq<char>) -> Option<int> {
    match last {
        Some(l) => elapsed_seconds(l, now),
        None => None,
    }
}

/// Whether a refresh runs, the age of the last one being known.
pub fn judge_gate(force: Option<bool>, last: Option<&str>, age: Option<i64>, in_flight: bool) -> (r:
    Gate)
    ensures
        r@ == gate(
            force == Some(true),
            option_slice_view(last),
            match age {
                Some(a) => Some(a as int),
                None => None,
            },
            in_flight,
        ),
{
    let forced = match force {
        Some(f) => f,
        None => false,
    };
    if !forced {
        if let (Some(l), Some(a)) = (last, age) {
            if a < DEBOUNCE_SECS {
                return Gate::Debounced(l.to_owned());
            }
        }
    }
    if in_flight {
        Gate::InProgress
    } else {
        Gate::Run
    }
}

/// Whether a refresh runs.
pub fn refresh_gate(force: Option<bool>, last: Option<&str>, now: &str, in_flight: bool) -> (r: Gate)
    ensures
        r@ == gate(
            force == Some(true),
            option_slice_view(last),
            refresh_age(option_slice_view(last), now@),
            in_flight,
        ),
{
    let age = match last {
        Some(l) => seconds_between(l, now),
        None => None,
    };
    judge_gate(force, last, age, in_flight)
}

// ---------------------------------------------------------------------------
// What it came to
// ---------------------------------------------------------------------------

/// Whether a refresh counts as done: it achieved something, or there was nothing
/// to do. One that failed throughout does not, so that the next attempt is not
/// held back.
pub fn refresh_should_stamp(attempted_any: bool, did_any_work: bool) -> (r: bool)
    ensures
        r == (did_any_work || !attempted_any),
{
    did_any_work || !attempted_any
}

/// What came of refreshing some prices: for each its error, where it has one, or
/// why none was refreshed.
pub type PriceRun = Result<Vec<Option<String>>, String>;

/// How many prices there are.
pub open spec fn run_count(run: PriceRun) -> nat {
    match run {
        Ok(prices) => prices@.len(),
        Err(_) => 0,
    }
}

/// How many of the prices have no error.
pub open spec fn ok_count(prices: Seq<Option<String>>) -> nat
    decreases prices.len(),
{
    if prices.len() == 0 {
        0
    } else if prices.last() is None {
        ok_count(prices.drop_last()) + 1
    } else {
        ok_count(prices.drop_last())
    }
}

/// The errors of the prices.
pub open spec fn price_errors(prices: Seq<Option<String>>) -> Seq<Seq<char>>
    decreases prices.len(),
{
    if prices.len() == 0 {
        seq![]
    } else {
        match prices.last() {
            Some(e) => price_errors(prices.drop_last()).push(e@),
            None => price_errors(prices.drop_last()),
        }
    }
}

/// How many prices were refreshed.
pub open spec fn run_ok(run: PriceRun) -> nat {
    match run {
        Ok(prices) => ok_count(prices@),
        Err(_) => 0,
    }
}

/// What went wrong, `each` saying whether the prices' own errors are told.
pub open spec fn run_errors(run: PriceRun, each: bool) -> Seq<Seq<char>> {
    match run {
        Ok(prices) => if each {
            price_errors(prices@)
        } else {
            seq![]
        },
        Err(e) => seq![e@],
    }
}

/// What a refresh of dividends came to.
#[derive(Debug)]
pub struct DividendRefreshResult {
    pub updated: usize,
    pub errors: Vec<String>,
}

/// What a full refresh came to.
#[derive(Debug)]
pub struct RefreshReport {
    pub watchlist_prices: usize,
    pub holdings_prices: usize,
    pub sold_prices: usize,
    pub dividends_updated: usize,
    pub errors: Vec<String>,
    /// Whether the time of this refresh is put down.
    pub stamp: bool,
    /// The line for the log.
    pub summary: String,
}

/// What a full refresh has to tell of errors. A symbol that is no longer held
/// may well be delisted and then fails every time, so its errors are not told.
pub open spec fn refresh_errors(
    watchlist: PriceRun,
    holdings: PriceRun,
    sold: PriceRun,
    dividends: DividendRefreshResult,
) -> Seq<Seq<char>> {
    run_errors(watchlist, true) + run_errors(holdings, true) + run_errors(sold, false)
        + string_views(dividends.errors@)
}

/// The line for the log.
pub open spec fn refresh_line(
    watchlist: nat,
    holdings: nat,
    sold: nat,
    dividends: nat,
    errors: nat,
) -> Seq<char> {
    join_text(
        seq![
            "Refreshed "@,
            decimal_text(watchlist),
            " watchlist prices, "@,
            decimal_text(holdings),
            " holdings prices, "@,
            decimal_text(sold),
            " sold prices, dividends for "@,
            decimal_text(dividends),
            " symbols ("@,
            decimal_text(errors),
            " error(s))"@,
        ],
        ""@,
    )
}

/// Whether the time of a full refresh is put down.
pub open spec fn counts_as_done(watchlist: PriceRun, holdings: PriceRun, updated: nat) -> bool {
    run_ok(watchlist) > 0 || run_ok(holdings) > 0 || updated > 0 || (run_count(watchlist) == 0
        && run_count(holdings) == 0)
}

fn count_run(run: &PriceRun) -> (r: (usize, usize))
    ensures
        r.0 == run_count(*run),
        r.1 == run_ok(*run),
{
    match run {
        Ok(prices) => {
            let mut ok: usize = 0;
            let mut i: usize = 0;
            assert(prices@.take(0) =~= seq![]);
            while i < prices.len()
                invariant
                    i <= prices.len(),
                    ok <= i,
                    ok == ok_count(prices@.take(i as int)),
                decreases prices.len() - i,
            {
                assert(prices@.take(i + 1).drop_last() =~= prices@.take(i as int));
                if prices[i].is_none() {
                    ok += 1;
                }
                i += 1;
            }
            assert(prices@.take(prices.len() as int) =~= prices@);
            (prices.len(), ok)
        },
        Err(_) => (0, 0),
    }
}

fn add_errors(errors: &mut Vec<String>, run: &PriceRun, each: bool)
    ensures
        string_views(final(errors)@) == string_views(old(errors)@) + run_errors(*run, each),
{
    let ghost before = string_views(errors@);
    match run {
        Ok(prices) => {
            if each {
                let mut i: usize = 0;
                assert(prices@.take(0) =~= seq![]);
                assert(string_views(errors@) =~= before + price_errors(prices@.take(0)));
                while i < prices.len()
                    invariant
                        i <= prices.len(),
                        string_views(errors@) == before + price_errors(prices@.take(i as int)),
                    decreases prices.len() - i,
                {
                    assert(prices@.take(i + 1).drop_last() =~= prices@.take(i as int));
                    let ghost now = string_views(errors@);
                    if let Some(e) = &prices[i] {
                        errors.push(e.clone());
                        assert(string_views(errors@) =~= now.push(e@));
                        assert(now.push(e@) =~= before + price_errors(
                            prices@.take(i as int),
                        ).push(e@));
                    }
                    i += 1;
                }
                assert(prices@.take(prices.len() as int) =~= prices@);
            } else {
                assert(before + seq![] =~= before);
            }
        },
        Err(e) => {
            errors.push(e.clone());
            assert(string_views(errors@) =~= before + seq![e@]);
        },
    }
}

fn add_strings(errors: &mut Vec<String>, more: &Vec<String>)
    ensures
        string_views(final(errors)@) == string_views(old(errors)@) + string_views(more@),
{
    let ghost before = string_views(errors@);
    let mut i: usize = 0;
    assert(before =~= before + string_views(more@).take(0));
    while i < more.len()
        invariant
            i <= more.len(),
            string_views(errors@) == before + string_views(more@).take(i as int),
        decreases more.len() - i,
    {
        let ghost now = string_views(errors@);
        errors.push(more[i].clone());
        assert(string_views(errors@) =~= now.push(more@[i as int]@));
        assert(string_views(more@).take(i + 1) =~= string_views(more@).take(i as int).push(
            more@[i as int]@,
        ));
        i += 1;
    }
    assert(string_views(more@).take(more.len() as int) =~= string_views(more@));
}

fn count_text(n: usize) -> (r: String)
    ensures
        r@ == decimal_text(n as nat),
{
    decimal(n as u64)
}

/// What a full refresh came to, by what came of its parts.
pub fn refresh_all(
    watchlist: &PriceRun,
    holdings: &PriceRun,
    sold: &PriceRun,
    dividends: &DividendRefreshResult,
) -> (r: RefreshReport)
    ensures
        r.watchlist_prices == run_count(*watchlist),
        r.holdings_prices == run_count(*holdings),
        r.sold_prices == run_count(*sold),
        r.dividends_updated == dividends.updated,
        string_views(r.errors@) == refresh_errors(*watchlist, *holdings, *sold, *dividends),
        r.stamp == counts_as_done(*watchlist, *holdings, dividends.updated as nat),
        r.summary@ == refresh_line(
            run_ok(*watchlist),
            run_ok(*holdings),
            run_ok(*sold),
            dividends.updated as nat,
            r.errors@.len(),
        ),
{
    let mut errors: Vec<String> = Vec::new();
    let (watchlist_prices, watchlist_ok) = count_run(watchlist);
    let (holdings_prices, holdings_ok) = count_run(holdings);
    let (sold_prices, sold_ok) = count_run(sold);
    add_errors(&mut errors, watchlist, true);
    add_errors(&mut errors, holdings, true);
    add_errors(&mut errors, sold, false);
    add_strings(&mut errors, &dividends.errors);
    assert(string_views(errors@) =~= refresh_errors(*watchlist, *holdings, *sold, *dividends));
    let stamp = refresh_should_stamp(
        watchlist_prices > 0 || holdings_prices > 0,
        watchlist_ok > 0 || holdings_ok > 0 || dividends.updated > 0,
    );
    let a = count_text(watchlist_ok);
    let b = count_text(holdings_ok);
    let c = count_text(sold_ok);
    let d = count_text(dividends.updated);
    let e = count_text(errors.len());
    let parts = [
        "Refreshed ",
        a.as_str(),
        " watchlist prices, ",
        b.as_str(),
        " holdings prices, ",
        c.as_str(),
        " sold prices, dividends for ",
        d.as_str(),
        " symbols (",
        e.as_str(),
        " error(s))",
    ];
    assert(views(parts@) =~= seq![
        "Refreshed "@,
        a@,
        " watchlist prices, "@,
        b@,
        " holdings prices, "@,
        c@,
        " sold prices, dividends for "@,
        d@,
        " symbols ("@,
        e@,
        " error(s))"@,
    ]);
    let summary = join(parts.as_slice(), "");
    RefreshReport {
        watchlist_prices,
        holdings_prices,
        sold_prices,
        dividends_updated: dividends.updated,
        errors,
        stamp,
        summary,
    }
}

// ---------------------------------------------------------------------------
// Dividends
// ---------------------------------------------------------------------------

/// How many symbols were updated.
pub open spec fn updated_symbols(outcomes: Seq<(String, Result<(), String>)>) -> nat
    decreases outcomes.len(),
{
    if outcomes.len() == 0 {
        0
    } else if outcomes.last().1 is Ok {
        updated_symbols(outcomes.drop_last()) + 1
    } else {
        updated_symbols(outcomes.drop_last())
    }
}

/// What went wrong, each error under its symbol.
pub open spec fn symbol_errors(outcomes: Seq<(String, Result<(), String>)>) -> Seq<Seq<char>>
    decreases outcomes.len(),
{
    if outcomes.len() == 0 {
        seq![]
    } else {
        let earlier = symbol_errors(outcomes.drop_last());
        match outcomes.last().1 {
            Ok(_) => earlier,
            Err(e) => earlier.push(outcomes.last().0@ + ": "@ + e@),
        }
    }
}

/// The line for the log on a refresh of dividends.
pub open spec fn dividend_line(updated: nat, total: nat, errors: nat) -> Seq<char> {
    join_text(
        seq![
            "Dividend refresh complete: "@,
            decimal_text(updated),
            "/"@,
            decimal_text(total),
            " symbols updated, "@,
            decimal_text(errors),
            " error(s)"@,
        ],
        ""@,
    )
}

/// What a refresh of dividends came to, with the line for the log. `total` is
/// the number of symbols asked for.
pub fn refresh_dividends_for_symbols(
    outcomes: &Vec<(String, Result<(), String>)>,
    total: usize,
) -> (r: (DividendRefreshResult, String))
    ensures
        r.0.updated == updated_symbols(outcomes@),
        string_views(r.0.errors@) == symbol_errors(outcomes@),
        r.1@ == dividend_line(
            updated_symbols(outcomes@),
            total as nat,
            symbol_errors(outcomes@).len(),
        ),
{
    let mut updated: usize = 0;
    let mut errors: Vec<String> = Vec::new();
    let mut i: usize = 0;
    assert(outcomes@.take(0) =~= seq![]);
    assert(string_views(errors@) =~= seq![]);
    while i < outcomes.len()
        invariant
            i <= outcomes.len(),
            updated <= i,
            updated == updated_symbols(outcomes@.take(i as int)),
            string_views(errors@) == symbol_errors(outcomes@.take(i as int)),
        decreases outcomes.len() - i,
    {
        assert(outcomes@.take(i + 1).drop_last() =~= outcomes@.take(i as int));
        let ghost before = string_views(errors@);
        match &outcomes[i].1 {
            Ok(_) => {
                updated += 1;
            },
            Err(e) => {
                let line = joined3(outcomes[i].0.as_str(), ": ", e.as_str());
                errors.push(line);
                assert(string_views(errors@) =~= before.push(line@));
            },
        }
        i += 1;
    }
    assert(outcomes@.take(outcomes.len() as int) =~= outcomes@);
    let a = count_text(updated);
    let b = count_text(total);
    let c = count_text(errors.len());
    let parts = [
        "Dividend refresh complete: ",
        a.as_str(),
        "/",
        b.as_str(),
        " symbols updated, ",
        c.as_str(),
        " error(s)",
    ];
    assert(views(parts@) =~= seq![
        "Dividend refresh complete: "@,
        a@,
        "/"@,
        b@,
        " symbols updated, "@,
        c@,
        " error(s)"@,
    ]);
    let line = join(parts.as_slice(), "");
    (DividendRefreshResult { updated, errors }, line)
}

// ---------------------------------------------------------------------------
// Rates
// ---------------------------------------------------------------------------

/// Whether the stored rates reach as far as a rate can be expected.
pub fn rates_are_current(latest: Option<&str>, expected: &str) -> (r: bool)
    ensures
        r == !text_before(
            match latest {
                Some(l) => l@,
                None => ""@,
            },
            expected@,
        ),
{
    let l = match latest {
        Some(l) => l,
        None => "",
    };
    !is_before(l, expected)
}

/// What came of one currency.
#[derive(Debug)]
pub enum PairOutcome {
    /// Its rates were up to date.
    Skipped,
    /// So many bars were written.
    Fetched(usize),
    /// The rates could not be fetched.
    FetchFailed(String),
    /// The rates could not be stored.
    PersistFailed(String),
}

/// What a run over the currencies came to.
#[derive(Debug)]
pub struct FxSyncReport {
    pub currencies: Vec<String>,
    pub fetched: usize,
    pub skipped: usize,
    pub bars_written: u64,
    pub errors: Vec<String>,
}

/// How many outcomes, and what they come to.
pub struct SyncView {
    pub fetched: nat,
    pub skipped: nat,
    pub bars_written: nat,
    pub errors: Seq<Seq<char>>,
}

/// What the outcomes come to. Each belongs to a pair.
pub open spec fn sync_of(outcomes: Seq<(String, PairOutcome)>) -> SyncView
    decreases outcomes.len(),
{
    if outcomes.len() == 0 {
        SyncView { fetched: 0, skipped: 0, bars_written: 0, errors: seq![] }
    } else {
        let before = sync_of(outcomes.drop_last());
        let pair = outcomes.last().0@;
        match outcomes.last().1 {
            PairOutcome::Skipped => SyncView { skipped: before.skipped + 1, ..before },
            PairOutcome::Fetched(n) => SyncView {
                fetched: before.fetched + 1,
                bars_written: before.bars_written + n as nat,
                ..before
            },
            PairOutcome::FetchFailed(e) => SyncView {
                errors: before.errors.push(
                    "FX rate history fetch failed for "@ + pair + ": "@ + e@,
                ),
                ..before
            },
            PairOutcome::PersistFailed(e) => SyncView {
                errors: before.errors.push(
                    "FX rates for "@ + pair + " could not be persisted: "@ + e@,
                ),
                ..before
            },
        }
    }
}

/// What a run over the currencies came to, by what came of each pair.
pub fn sync_fx_history(currencies: Vec<String>, outcomes: &Vec<(String, PairOutcome)>) -> (r:
    FxSyncReport)
    requires
        sync_of(outcomes@).bars_written <= u64::MAX,
    ensures
        r.currencies == currencies,
        r.fetched == sync_of(outcomes@).fetched,
        r.skipped == sync_of(outcomes@).skipped,
        r.bars_written == sync_of(outcomes@).bars_written,
        string_views(r.errors@) == sync_of(outcomes@).errors,
{
    let mut fetched: usize = 0;
    let mut skipped: usize = 0;
    let mut bars_written: u64 = 0;
    let mut errors: Vec<String> = Vec::new();
    let mut i: usize = 0;
    assert(outcomes@.take(0) =~= seq![]);
    assert(string_views(errors@) =~= seq![]);
    while i < outcomes.len()
        invariant
            i <= outcomes.len(),
            fetched <= i,
            skipped <= i,
            sync_of(outcomes@).bars_written <= u64::MAX,
            fetched == sync_of(outcomes@.take(i as int)).fetched,
            skipped == sync_of(outcomes@.take(i as int)).skipped,
            bars_written == sync_of(outcomes@.take(i as int)).bars_written,
            string_views(errors@) == sync_of(outcomes@.take(i as int)).errors,
        decreases outcomes.len() - i,
    {
        proof {
            assert(outcomes@.take(i + 1).drop_last() =~= outcomes@.take(i as int));
            lemma_bars_grow(outcomes@, i + 1);
        }
        let ghost before = string_views(errors@);
        let pair = outcomes[i].0.as_str();
        match &outcomes[i].1 {
            PairOutcome::Skipped => {
                skipped += 1;
            },
            PairOutcome::Fetched(n) => {
                fetched += 1;
                bars_written += *n as u64;
            },
            PairOutcome::FetchFailed(e) => {
                let line = joined(
                    joined3("FX rate history fetch failed for ", pair, ": ").as_str(),
                    e.as_str(),
                );
                errors.push(line);
                assert(string_views(errors@) =~= before.push(line@));
            },
            PairOutcome::PersistFailed(e) => {
                let line = joined(
                    joined3("FX rates for ", pair, " could not be persisted: ").as_str(),
                    e.as_str(),
                );
                errors.push(line);
                assert(string_views(errors@) =~= before.push(line@));
            },
        }
        i += 1;
    }
    assert(outcomes@.take(outcomes.len() as int) =~= outcomes@);
    FxSyncReport { currencies, fetched, skipped, bars_written, errors }
}

proof fn lemma_bars_grow(outcomes: Seq<(String, PairOutcome)>, n: int)
    requires
        0 <= n <= outcomes.len(),
    ensures
        sync_of(outcomes.take(n)).bars_written <= sync_of(outcomes).bars_written,
    decreases outcomes.len() - n,
{
    if n < outcomes.len() {
        lemma_bars_grow(outcomes, n + 1);
        assert(outcomes.take(n + 1).drop_last() =~= outcomes.take(n));
    } else {
        assert(outcomes.take(n) =~= outcomes);
    }
}

// ---------------------------------------------------------------------------
// When things last changed
// ---------------------------------------------------------------------------

/// The later of two times, where there are any.
pub open spec fn later_of(a: Option<Seq<char>>, b: Option<Seq<char>>) -> Option<Seq<char>> {
    match (a, b) {
        (Some(x), Some(y)) => if text_before(x, y) {
            Some(y)
        } else {
            Some(x)
        },
        (None, _) => b,
        (_, None) => a,
    }
}

/// The time of the last change to any of the tables.
pub open spec fn last_change(stamps: Map<Seq<char>, String>, tables: Seq<Seq<char>>) -> Option<
    Seq<char>,
>
    decreases tables.len(),
{
    if tables.len() == 0 {
        None
    } else {
        later_of(
            last_change(stamps, tables.drop_last()),
            option_view(crate::context::found(stamps, tables.last())),
        )
    }
}

/// The time of the last change to any of the tables.
pub fn latest_change(stamps: &TextMap<String>, tables: &[&str]) -> (r: Option<String>)
    ensures
        option_view(r) == last_change(stamps@, views(tables@)),
{
    let mut latest: Option<String> = None;
    let ghost all = views(tables@);
    let mut i: usize = 0;
    assert(all.take(0) =~= seq![]);
    while i < tables.len()
        invariant
            i <= tables.len(),
            all == views(tables@),
            option_view(latest) == last_change(stamps@, all.take(i as int)),
        decreases tables.len() - i,
    {
        proof {
            assert(all.take(i + 1).drop_last() =~= all.take(i as int));
            assert(all.take(i + 1).last() == tables@[i as int]@);
        }
        if let Some(stamp) = stamps.get(tables[i]) {
            let later = match &latest {
                Some(l) => is_before(l.as_str(), stamp.as_str()),
                None => true,
            };
            if later {
                latest = Some(stamp.clone());
            }
        }
        i += 1;
    }
    assert(all.take(tables.len() as int) =~= all);
    latest
}

/// When each part of what is stored last changed.
#[derive(Debug)]
pub struct SyncState {
    pub holdings: Option<String>,
    pub watchlist: Option<String>,
    pub dividends: Option<String>,
    pub symbol_info: Option<String>,
    pub config: Option<String>,
}

/// When each part of what is stored last changed, by the times at which its
/// tables did. A client fetches a part again only when its time has moved.
pub fn get_sync_state(stamps: &TextMap<String>) -> (r: SyncState)
    ensures
        option_view(r.holdings) == last_change(
            stamps@,
            seq![
                "holdings_transactions"@,
                "holdings_symbol_fields"@,
                "holdings_custom_fields"@,
            ],
        ),
        option_view(r.watchlist) == last_change(
            stamps@,
            seq!["watchlist_symbols"@, "watchlist_memberships"@, "watchlist_symbol_fields"@],
        ),
        option_view(r.dividends) == last_change(stamps@, seq!["dividend_events"@]),
        option_view(r.symbol_info) == last_change(stamps@, seq!["symbol_info"@]),
        option_view(r.config) == last_change(stamps@, seq!["app_config"@]),
{
    let holdings = [
        "holdings_transactions",
        "holdings_symbol_fields",
        "holdings_custom_fields",
    ];
    let watchlist = ["watchlist_symbols", "watchlist_memberships", "watchlist_symbol_fields"];
    let dividends = ["dividend_events"];
    let symbol_info = ["symbol_info"];
    let config = ["app_config"];
    assert(views(holdings@) =~= seq![
        "holdings_transactions"@,
        "holdings_symbol_fields"@,
        "holdings_custom_fields"@,
    ]);
    assert(views(watchlist@) =~= seq![
        "watchlist_symbols"@,
        "watchlist_memberships"@,
        "watchlist_symbol_fields"@,
    ]);
    assert(views(dividends@) =~= seq!["dividend_events"@]);
    assert(views(symbol_info@) =~= seq!["symbol_info"@]);
    assert(views(config@) =~= seq!["app_config"@]);
    SyncState {
        holdings: latest_change(stamps, &holdings),
        watchlist: latest_change(stamps, &watchlist),
        dividends: latest_change(stamps, &dividends),
        symbol_info: latest_change(stamps, &symbol_info),
        config: latest_change(stamps, &config),
    }
}

// ---------------------------------------------------------------------------
// Laws
// ---------------------------------------------------------------------------

/// A forced refresh is held back by nothing but one that is running.
pub proof fn a_forced_refresh_runs(last: Option<Seq<char>>, age: Option<int>)
    ensures
        gate(true, last, age, false) == GateView::Run,
        gate(true, last, age, true) == GateView::InProgress,
{
}

/// A refresh in which every price failed and no dividend was updated leaves the
/// time of the last one as it is, so that the next attempt is not held back.
pub proof fn a_total_failure_is_not_put_down(watchlist: PriceRun, holdings: PriceRun)
    requires
        run_ok(watchlist) == 0,
        run_ok(holdings) == 0,
        run_count(watchlist) > 0 || run_count(holdings) > 0,
    ensures
        !counts_as_done(watchlist, holdings, 0),
{
}

/// A refresh with nothing to do counts as done.
pub proof fn nothing_to_do_is_done(watchlist: PriceRun, holdings: PriceRun, updated: nat)
    requires
        run_count(watchlist) == 0,
        run_count(holdings) == 0,
    ensures
        counts_as_done(watchlist, holdings, updated),
{
}

/// Nothing in the tables changed after the time of their last change.
pub proof fn no_change_is_later(stamps: Map<Seq<char>, String>, tables: Seq<Seq<char>>, i: int)
    requires
        0 <= i < tables.len(),
        stamps.contains_key(tables[i]),
    ensures
        last_change(stamps, tables) is Some,
        !text_before(last_change(stamps, tables)->0, stamps[tables[i]]@),
    decreases tables.len(),
{
    let before = last_change(stamps, tables.drop_last());
    let this = option_view(crate::context::found(stamps, tables.last()));
    crate::order::text_order_is_irreflexive(stamps[tables[i]]@);
    if i < tables.len() - 1 {
        no_change_is_later(stamps, tables.drop_last(), i);
        if this is Some && text_before(before->0, this->0) && text_before(
            this->0,
            stamps[tables[i]]@,
        ) {
            crate::order::text_order_is_transitive(before->0, this->0, stamps[tables[i]]@);
        }
    }
}

/// A refresh that is not forced is put off for ten minutes after the last one; one
/// at a time runs.
pub proof fn when_a_refresh_runs(
    force: bool,
    last: Option<Seq<char>>,
    age: Option<int>,
    in_flight: bool,
)
    ensures
        ({
            let recent = last is Some && age is Some && age->0 < 600;
            &&& !force && recent ==> gate(force, last, age, in_flight) == GateView::Debounced(last->0)
            &&& (force || !recent) && in_flight ==> gate(force, last, age, in_flight)
                == GateView::InProgress
            &&& (force || !recent) && !in_flight ==> gate(force, last, age, in_flight)
                == GateView::Run
        }),
{
}

/// Of some prices those without an error are counted as fetched, and the errors of
/// the others are reported in their order.
pub proof fn a_price_is_fetched_or_reported(prices: Seq<Option<String>>, p: Option<String>)
    ensures
        p is None ==> ok_count(prices.push(p)) == ok_count(prices) + 1 && price_errors(
            prices.push(p),
        ) == price_errors(prices),
        p is Some ==> ok_count(prices.push(p)) == ok_count(prices) && price_errors(prices.push(p))
            == price_errors(prices).push(p->0@),
        ok_count(Seq::empty()) == 0,
        price_errors(Seq::empty()) == Seq::<Seq<char>>::empty(),
{
    assert(prices.push(p).drop_last() =~= prices);
}

/// The errors of a refresh are those of the watchlist, of the holdings and of the
/// dividends; of what was sold only that its run failed is reported.
pub proof fn what_a_refresh_reports(
    watchlist: PriceRun,
    holdings: PriceRun,
    sold: PriceRun,
    dividends: DividendRefreshResult,
)
    ensures
        ({
            let all = refresh_errors(watchlist, holdings, sold, dividends);
            let of_sold: nat = match sold {
                Ok(_) => 0,
                Err(_) => 1,
            };
            all.len() == run_errors(watchlist, true).len() + run_errors(holdings, true).len()
                + of_sold + dividends.errors@.len()
        }),
        watchlist is Ok ==> run_errors(watchlist, true) == price_errors(watchlist->Ok_0@)
            && run_count(watchlist) == watchlist->Ok_0@.len() && run_ok(watchlist) == ok_count(
            watchlist->Ok_0@,
        ),
        watchlist is Err ==> run_errors(watchlist, true) == seq![watchlist->Err_0@] && run_count(
            watchlist,
        ) == 0 && run_ok(watchlist) == 0,
{
}

/// A refresh counts as done where anything was fetched or brought up to date, or
/// where there was nothing to fetch.
pub proof fn when_a_refresh_counts_as_done(watchlist: PriceRun, holdings: PriceRun, updated: nat)
    ensures
        counts_as_done(watchlist, holdings, updated) <==> run_ok(watchlist) > 0 || run_ok(holdings)
            > 0 || updated > 0 || run_count(watchlist) + run_count(holdings) == 0,
{
}

/// One more symbol counts as updated, or its error is reported under its name.
pub proof fn a_symbol_is_updated_or_reported(
    outcomes: Seq<(String, Result<(), String>)>,
    o: (String, Result<(), String>),
)
    ensures
        o.1 is Ok ==> updated_symbols(outcomes.push(o)) == updated_symbols(outcomes) + 1
            && symbol_errors(outcomes.push(o)) == symbol_errors(outcomes),
        o.1 is Err ==> updated_symbols(outcomes.push(o)) == updated_symbols(outcomes)
            && symbol_errors(outcomes.push(o)) == symbol_errors(outcomes).push(
            o.0@ + ": "@ + o.1->Err_0@,
        ),
{
    assert(outcomes.push(o).drop_last() =~= outcomes);
}

/// Every pair whose rates are looked after is skipped, fetched or reported, and the
/// bars written are those of the pairs fetched.
pub proof fn a_pair_is_skipped_fetched_or_reported(
    outcomes: Seq<(String, PairOutcome)>,
    o: (String, PairOutcome),
)
    ensures
        ({
            let was = sync_of(outcomes);
            let now = sync_of(outcomes.push(o));
            &&& now.fetched == was.fetched + (if o.1 is Fetched {
                1nat
            } else {
                0
            })
            &&& now.skipped == was.skipped + (if o.1 is Skipped {
                1nat
            } else {
                0
            })
            &&& now.bars_written == was.bars_written + (match o.1 {
                PairOutcome::Fetched(n) => n as nat,
                _ => 0,
            })
            &&& now.errors.len() == was.errors.len() + (if o.1 is FetchFailed || o.1 is PersistFailed {
                1nat
            } else {
                0
            })
            &&& now.errors.len() == was.errors.len() ==> now.errors == was.errors
        }),
{
    assert(outcomes.push(o).drop_last() =~= outcomes);
}

/// The last change of some tables is that of one of them.
pub proof fn the_last_change_is_one_of_them(stamps: Map<Seq<char>, String>, tables: Seq<Seq<char>>)
    requires
        last_change(stamps, tables) is Some,
    ensures
        exists|i: int|
            0 <= i < tables.len() && stamps.contains_key(#[trigger] tables[i]) && stamps[tables[i]]@
                == last_change(stamps, tables)->0,
    decreases tables.len(),
{
    let less = tables.drop_last();
    let n = less.len() as int;
    assert(tables[n] == tables.last());
    if last_change(stamps, less) is Some {
        the_last_change_is_one_of_them(stamps, less);
        let i = choose|i: int|
            0 <= i < less.len() && stamps.contains_key(#[trigger] less[i]) && stamps[less[i]]@
                == last_change(stamps, less)->0;
        assert(tables[i] == less[i]);
    }
}

/// The line on a refresh tells its counts in the order watchlist, holdings, sold,
/// dividends and errors.
pub proof fn what_the_line_on_a_refresh_says(
    watchlist: nat,
    holdings: nat,
    sold: nat,
    dividends: nat,
    errors: nat,
)
    ensures
        refresh_line(watchlist, holdings, sold, dividends, errors) == "Refreshed "@ + decimal_text(
            watchlist,
        ) + " watchlist prices, "@ + decimal_text(holdings) + " holdings prices, "@ + decimal_text(
            sold,
        ) + " sold prices, dividends for "@ + decimal_text(dividends) + " symbols ("@
            + decimal_text(errors) + " error(s))"@,
        dividend_line(sold, dividends, errors) == "Dividend refresh complete: "@ + decimal_text(sold)
            + "/"@ + decimal_text(dividends) + " symbols updated, "@ + decimal_text(errors)
            + " error(s)"@,
{
    let parts = seq![
        "Refreshed "@,
        decimal_text(watchlist),
        " watchlist prices, "@,
        decimal_text(holdings),
        " holdings prices, "@,
        decimal_text(sold),
        " sold prices, dividends for "@,
        decimal_text(dividends),
        " symbols ("@,
        decimal_text(errors),
        " error(s))"@,
    ];
    lemma_joined_by_nothing(parts, 11);
    let fewer = seq![
        "Dividend refresh complete: "@,
        decimal_text(sold),
        "/"@,
        decimal_text(dividends),
        " symbols updated, "@,
        decimal_text(errors),
        " error(s)"@,
    ];
    lemma_joined_by_nothing(fewer, 7);
    assert(parts.take(11) =~= parts);
    assert(fewer.take(7) =~= fewer);
    reveal_with_fuel(run_together, 12);
    assert(run_together(parts, 11) =~= refresh_line(watchlist, holdings, sold, dividends, errors));
    assert(Seq::<char>::empty() + "Refreshed "@ =~= "Refreshed "@);
    assert(Seq::<char>::empty() + "Dividend refresh complete: "@ =~= "Dividend refresh complete: "@);
}

/// The first pieces of a text one after another.
pub open spec fn run_together(pieces: Seq<Seq<char>>, n: int) -> Seq<char>
    decreases n,
{
    if n <= 0 {
        seq![]
    } else {
        run_together(pieces, n - 1) + pieces[n - 1]
    }
}

proof fn lemma_joined_by_nothing(pieces: Seq<Seq<char>>, n: int)
    requires
        0 <= n <= pieces.len(),
    ensures
        join_text(pieces.take(n), ""@) == run_together(pieces, n),
    decreases n,
{
    reveal_strlit("");
    if n > 0 {
        lemma_joined_by_nothing(pieces, n - 1);
        assert(pieces.take(n).drop_last() =~= pieces.take(n - 1));
        assert(pieces.take(n).last() == pieces[n - 1]);
        assert(join_text(pieces.take(n), ""@) =~= run_together(pieces, n));
    }
}

} // verus!
