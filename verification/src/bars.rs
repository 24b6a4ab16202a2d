//! Daily bars: reading them from a feed's answer, and bringing stored, fetched
//! and live ones together.
use vstd::prelude::*;
use crate::cash::{signed, signed_text};
use crate::dates::{date_text, format_day, local_day, yahoo_local_date};
use crate::indicators::PriceHistoryPoint;
use crate::number::Number;
use crate::text::{
    chars_of, is_before, joined, joined5, same, split, split_text, text_before, trim_text, trimmed,
    views,
};

verus! {

broadcast use vstd::string::group_string_axioms;

// ---------------------------------------------------------------------------
// What a bar holds
// ---------------------------------------------------------------------------

/// What a bar holds.
pub struct BarView {
    pub date: Seq<char>,
    pub open: Option<Number>,
    pub high: Option<Number>,
    pub low: Option<Number>,
    pub close: Option<Number>,
    pub volume: Option<i64>,
}

impl View for PriceHistoryPoint {
    type V = BarView;

    open spec fn view(&self) -> BarView {
        BarView {
            date: self.date@,
            open: self.open,
            high: self.high,
            low: self.low,
            close: self.close,
            volume: self.volume,
        }
    }
}

/// The views of some bars.
pub open spec fn bar_views(bars: Seq<PriceHistoryPoint>) -> Seq<BarView> {
    Seq::new(bars.len(), |i: int| bars[i]@)
}

/// The first of two values.
pub open spec fn known<T>(a: Option<T>, b: Option<T>) -> Option<T> {
    if a is Some {
        a
    } else {
        b
    }
}

fn first_known<T: Copy>(a: Option<T>, b: Option<T>) -> (r: Option<T>)
    ensures
        r == known(a, b),
{
    match a {
        Some(v) => Some(v),
        None => b,
    }
}

/// A stored bar once a fetched one of the same day has come: the close and the
/// volume are replaced, and what is known of open, high and low is kept.
pub open spec fn stored_over(stored: Option<BarView>, new: BarView) -> BarView {
    match stored {
        None => new,
        Some(old) => BarView {
            date: new.date,
            open: known(new.open, old.open),
            high: known(new.high, old.high),
            low: known(new.low, old.low),
            close: new.close,
            volume: new.volume,
        },
    }
}

/// The bar to store once a fetched one has come. A bar that carries only a
/// close never blanks out what an earlier one knew.
pub fn merge_bar(stored: Option<&PriceHistoryPoint>, new: &PriceHistoryPoint) -> (r: PriceHistoryPoint)
    ensures
        r@ == stored_over(
            match stored {
                Some(s) => Some(s@),
                None => None,
            },
            new@,
        ),
{
    match stored {
        None => PriceHistoryPoint {
            date: new.date.clone(),
            open: new.open,
            high: new.high,
            low: new.low,
            close: new.close,
            volume: new.volume,
        },
        Some(old) => PriceHistoryPoint {
            date: new.date.clone(),
            open: first_known(new.open, old.open),
            high: first_known(new.high, old.high),
            low: first_known(new.low, old.low),
            close: new.close,
            volume: new.volume,
        },
    }
}

/// Where the bar of that day stands, from number `i` on; past the end where there
/// is none.
pub open spec fn bar_of(bars: Seq<BarView>, date: Seq<char>, i: int) -> int
    decreases bars.len() - i,
{
    if i < 0 || i >= bars.len() {
        bars.len() as int
    } else if bars[i].date == date {
        i
    } else {
        bar_of(bars, date, i + 1)
    }
}

/// The stored bars once a fetched one has come. One without a close is passed
/// over.
pub open spec fn with_bar(bars: Seq<BarView>, new: BarView) -> Seq<BarView> {
    let at = bar_of(bars, new.date, 0);
    if new.close is None {
        bars
    } else if at < bars.len() {
        bars.update(at, stored_over(Some(bars[at]), new))
    } else {
        bars.push(stored_over(None, new))
    }
}

/// The stored bars once all fetched ones have come.
pub open spec fn with_bars(bars: Seq<BarView>, new: Seq<BarView>) -> Seq<BarView>
    decreases new.len(),
{
    if new.len() == 0 {
        bars
    } else {
        with_bar(with_bars(bars, new.drop_last()), new.last())
    }
}

fn find_bar(bars: &Vec<PriceHistoryPoint>, date: &str) -> (r: usize)
    ensures
        r == bar_of(bar_views(bars@), date@, 0),
        r <= bars.len(),
{
    let ghost all = bar_views(bars@);
    let mut i: usize = 0;
    while i < bars.len()
        invariant
            i <= bars.len(),
            all == bar_views(bars@),
            bar_of(all, date@, 0) == bar_of(all, date@, i as int),
        decreases bars.len() - i,
    {
        assert(all[i as int] == bars@[i as int]@);
        if same(bars[i].date.as_str(), date) {
            return i;
        }
        i += 1;
    }
    i
}

/// Stores fetched bars of a symbol over those on record.
pub fn persist_price_history(stored: &mut Vec<PriceHistoryPoint>, records: &Vec<PriceHistoryPoint>)
    ensures
        bar_views(final(stored)@) == with_bars(bar_views(old(stored)@), bar_views(records@)),
{
    let ghost first = bar_views(stored@);
    let ghost all = bar_views(records@);
    let mut i: usize = 0;
    assert(all.take(0) =~= seq![]);
    while i < records.len()
        invariant
            i <= records.len(),
            all == bar_views(records@),
            bar_views(stored@) == with_bars(first, all.take(i as int)),
        decreases records.len() - i,
    {
        let ghost before = bar_views(stored@);
        let new = &records[i];
        proof {
            assert(all.take(i + 1).drop_last() =~= all.take(i as int));
            assert(all.take(i + 1).last() == new@);
        }
        if new.close.is_some() {
            let at: usize = find_bar(stored, new.date.as_str());
            if at < stored.len() {
                let merged = merge_bar(Some(&stored[at]), new);
                let ghost v = merged@;
                assert(before[at as int] == stored@[at as int]@);
                stored.set(at, merged);
                assert(bar_views(stored@) =~= before.update(at as int, v));
            } else {
                let merged = merge_bar(None, new);
                let ghost v = merged@;
                stored.push(merged);
                assert(bar_views(stored@) =~= before.push(v));
            }
        }
        i += 1;
    }
    assert(all.take(records.len() as int) =~= all);
}

/// Storing bars never takes a close away: whatever day had one still has one.
pub proof fn a_stored_close_is_never_lost(bars: Seq<BarView>, new: Seq<BarView>, k: int)
    requires
        0 <= k < bars.len(),
        bars[k].close is Some,
    ensures
        k < with_bars(bars, new).len(),
        with_bars(bars, new)[k].date == bars[k].date,
        with_bars(bars, new)[k].close is Some,
    decreases new.len(),
{
    if new.len() > 0 {
        a_stored_close_is_never_lost(bars, new.drop_last(), k);
        let before = with_bars(bars, new.drop_last());
        lemma_bar_of(before, new.last().date, 0);
    }
}

proof fn lemma_bar_of(bars: Seq<BarView>, date: Seq<char>, i: int)
    requires
        0 <= i <= bars.len(),
    ensures
        i <= bar_of(bars, date, i) <= bars.len(),
        bar_of(bars, date, i) < bars.len() ==> bars[bar_of(bars, date, i)].date == date,
    decreases bars.len() - i,
{
    if i < bars.len() && bars[i].date != date {
        lemma_bar_of(bars, date, i + 1);
    }
}

/// Storing a bar that carries only a close keeps the open, high and low.
pub proof fn a_close_never_blanks_a_bar(old: BarView, new: BarView)
    requires
        new.open is None,
        new.high is None,
        new.low is None,
    ensures
        stored_over(Some(old), new).open == old.open,
        stored_over(Some(old), new).high == old.high,
        stored_over(Some(old), new).low == old.low,
        stored_over(Some(old), new).close == new.close,
{
}

// ---------------------------------------------------------------------------
// Reading an answer
// ---------------------------------------------------------------------------

/// The series of an answer, each with a value for every bar.
#[derive(Debug)]
pub struct HistoryQuote {
    pub open: Option<Vec<Option<Number>>>,
    pub high: Option<Vec<Option<Number>>>,
    pub low: Option<Vec<Option<Number>>>,
    pub close: Option<Vec<Option<Number>>>,
    pub volume: Option<Vec<Option<i64>>>,
}

/// An answer about the bars of a symbol.
#[derive(Debug)]
pub struct HistoryAnswer {
    /// The exchange's offset from UTC, in seconds.
    pub gmtoffset: Option<i64>,
    pub timestamps: Option<Vec<i64>>,
    pub quote: Option<HistoryQuote>,
}

/// The value of bar `i` in a series.
pub open spec fn value_at<T>(s: Option<Vec<Option<T>>>, i: int) -> Option<T> {
    match s {
        Some(v) => if 0 <= i < v@.len() {
            v@[i]
        } else {
            None
        },
        None => None,
    }
}

fn at<T: Copy>(s: &Option<Vec<Option<T>>>, i: usize) -> (r: Option<T>)
    ensures
        r == value_at(*s, i as int),
{
    match s {
        Some(v) => if i < v.len() {
            v[i]
        } else {
            None
        },
        None => None,
    }
}

/// Whether every timestamp can be shifted by the exchange's offset.
pub open spec fn times_in_range(timestamps: Seq<i64>, gmtoffset: Option<i64>) -> bool {
    forall|i: int|
        0 <= i < timestamps.len() ==> i64::MIN <= #[trigger] timestamps[i] + (if gmtoffset is Some {
            gmtoffset->0 as int
        } else {
            0
        }) <= i64::MAX
}

/// The date of bar `i`.
pub open spec fn bar_date(timestamps: Seq<i64>, gmtoffset: Option<i64>, i: int) -> Option<Seq<char>> {
    match local_day(timestamps[i] as int, gmtoffset) {
        Some(d) => date_text(d),
        None => None,
    }
}

/// The bars of the first `n` timestamps: those that have a close. A timestamp
/// that no calendar holds makes the whole answer faulty.
pub open spec fn bars_read(
    symbol: Seq<char>,
    timestamps: Seq<i64>,
    q: HistoryQuote,
    gmtoffset: Option<i64>,
    n: int,
) -> Result<Seq<BarView>, Seq<char>>
    decreases n,
{
    if n <= 0 {
        Ok(seq![])
    } else {
        match bars_read(symbol, timestamps, q, gmtoffset, n - 1) {
            Err(e) => Err(e),
            Ok(bars) => match bar_date(timestamps, gmtoffset, n - 1) {
                None => Err(
                    "Invalid timestamp "@ + signed_text(timestamps[n - 1] as int) + " for "@
                        + symbol,
                ),
                Some(date) => if value_at(q.close, n - 1) is Some {
                    Ok(
                        bars.push(
                            BarView {
                                date,
                                open: value_at(q.open, n - 1),
                                high: value_at(q.high, n - 1),
                                low: value_at(q.low, n - 1),
                                close: value_at(q.close, n - 1),
                                volume: value_at(q.volume, n - 1),
                            },
                        ),
                    )
                } else {
                    Ok(bars)
                },
            },
        }
    }
}

/// The bars of an answer, or what is wrong with it.
pub open spec fn history_verdict(symbol: Seq<char>, a: HistoryAnswer) -> Result<
    Seq<BarView>,
    Seq<char>,
> {
    match a.timestamps {
        None => Err("No timestamp data in Yahoo response for "@ + symbol),
        Some(ts) => match a.quote {
            None => Err("No quote data in Yahoo response for "@ + symbol),
            Some(q) => match bars_read(symbol, ts@, q, a.gmtoffset, ts@.len() as int) {
                Err(e) => Err(e),
                Ok(bars) => if bars.len() == 0 {
                    Err("Yahoo returned no historical prices for "@ + symbol)
                } else {
                    Ok(bars)
                },
            },
        },
    }
}

/// The bars of an answer, or what is wrong with it.
pub fn read_history(symbol: &str, answer: &HistoryAnswer) -> (r: Result<Vec<PriceHistoryPoint>, String>)
    requires
        answer.timestamps matches Some(ts) ==> times_in_range(ts@, answer.gmtoffset),
    ensures
        match r {
            Ok(bars) => history_verdict(symbol@, *answer) == Ok::<Seq<BarView>, Seq<char>>(
                bar_views(bars@),
            ),
            Err(e) => history_verdict(symbol@, *answer) == Err::<Seq<BarView>, Seq<char>>(e@),
        },
{
    let timestamps = match &answer.timestamps {
        None => return Err(joined("No timestamp data in Yahoo response for ", symbol)),
        Some(ts) => ts,
    };
    let q = match &answer.quote {
        None => return Err(joined("No quote data in Yahoo response for ", symbol)),
        Some(q) => q,
    };
    let mut out: Vec<PriceHistoryPoint> = Vec::new();
    let mut i: usize = 0;
    assert(bar_views(out@) =~= seq![]);
    while i < timestamps.len()
        invariant
            i <= timestamps.len(),
            times_in_range(timestamps@, answer.gmtoffset),
            answer.timestamps == Some(*timestamps),
            answer.quote == Some(*q),
            bars_read(symbol@, timestamps@, *q, answer.gmtoffset, i as int) == Ok::<
                Seq<BarView>,
                Seq<char>,
            >(bar_views(out@)),
        decreases timestamps.len() - i,
    {
        let ts: i64 = timestamps[i];
        let ghost before = bar_views(out@);
        assert(i64::MIN <= timestamps@[i as int] + (if answer.gmtoffset is Some {
            answer.gmtoffset->0 as int
        } else {
            0
        }) <= i64::MAX);
        let date = match yahoo_local_date(ts, answer.gmtoffset) {
            Some(day) => format_day(day),
            None => None,
        };
        match date {
            None => {
                let message = joined5(
                    "Invalid timestamp ",
                    signed(ts).as_str(),
                    " for ",
                    symbol,
                    "",
                );
                proof {
                    reveal_strlit("");
                    assert(message@ =~= "Invalid timestamp "@ + signed_text(ts as int) + " for "@
                        + symbol@);
                    lemma_fault_stays(
                        symbol@,
                        timestamps@,
                        *q,
                        answer.gmtoffset,
                        i + 1,
                        timestamps@.len() as int,
                    );
                }
                return Err(message);
            },
            Some(date) => {
                let close = at(&q.close, i);
                if close.is_some() {
                    let bar = PriceHistoryPoint {
                        date,
                        open: at(&q.open, i),
                        high: at(&q.high, i),
                        low: at(&q.low, i),
                        close,
                        volume: at(&q.volume, i),
                    };
                    let ghost b = bar@;
                    out.push(bar);
                    assert(bar_views(out@) =~= before.push(b));
                }
            },
        }
        i += 1;
    }
    if out.len() == 0 {
        Err(joined("Yahoo returned no historical prices for ", symbol))
    } else {
        Ok(out)
    }
}

/// A fault stays a fault, whatever follows.
proof fn lemma_fault_stays(
    symbol: Seq<char>,
    timestamps: Seq<i64>,
    q: HistoryQuote,
    gmtoffset: Option<i64>,
    n: int,
    m: int,
)
    requires
        0 <= n <= m,
        bars_read(symbol, timestamps, q, gmtoffset, n) is Err,
    ensures
        bars_read(symbol, timestamps, q, gmtoffset, m) == bars_read(
            symbol,
            timestamps,
            q,
            gmtoffset,
            n,
        ),
    decreases m - n,
{
    if n < m {
        lemma_fault_stays(symbol, timestamps, q, gmtoffset, n, m - 1);
    }
}

/// How far back the feed is asked to go.
pub fn history_span(days: i64) -> (r: &'static str)
    ensures
        r@ == (if days <= 365 {
            "1y"@
        } else {
            "2y"@
        }),
{
    if days <= 365 {
        "1y"
    } else {
        "2y"
    }
}

// ---------------------------------------------------------------------------
// Stored and fetched bars
// ---------------------------------------------------------------------------

/// What is done about the stored bars of a symbol.
#[derive(Clone, Copy, PartialEq, Eq, Structural, Debug)]
pub enum FetchPlan {
    /// They are served as they are.
    Serve,
    /// They are too few: all are fetched.
    Refetch,
    /// They end too early: what is missing is fetched.
    Supplement,
}

/// What is done about the stored bars: they are fetched where there are less
/// than half of those asked for, and supplemented where they end before the
/// last expected day; but not again within a while after the feed was asked.
pub open spec fn fetch_plan(
    stored: int,
    last_stored: Seq<char>,
    days: int,
    last_expected: Seq<char>,
    recently_checked: bool,
) -> FetchPlan {
    let too_few = stored == 0 || stored < days / 2;
    if recently_checked {
        FetchPlan::Serve
    } else if too_few {
        FetchPlan::Refetch
    } else if text_before(last_stored, last_expected) {
        FetchPlan::Supplement
    } else {
        FetchPlan::Serve
    }
}

/// The date of the last bar; nothing where there is none.
pub open spec fn last_date(bars: Seq<PriceHistoryPoint>) -> Seq<char> {
    if bars.len() == 0 {
        seq![]
    } else {
        bars.last().date@
    }
}

/// What is done about the stored bars of a symbol.
pub fn plan_fetch(
    stored: &Vec<PriceHistoryPoint>,
    days: i64,
    last_expected: &str,
    recently_checked: bool,
) -> (r: FetchPlan)
    requires
        days > 0,
    ensures
        r == fetch_plan(
            stored@.len() as int,
            last_date(stored@),
            days as int,
            last_expected@,
            recently_checked,
        ),
{
    if recently_checked {
        return FetchPlan::Serve;
    }
    let n: usize = stored.len();
    if n == 0 || (n as u64) < (days as u64) / 2 {
        return FetchPlan::Refetch;
    }
    if is_before(stored[n - 1].date.as_str(), last_expected) {
        FetchPlan::Supplement
    } else {
        FetchPlan::Serve
    }
}

/// Those bars that are after the date.
pub open spec fn newer(bars: Seq<PriceHistoryPoint>, date: Seq<char>) -> Seq<PriceHistoryPoint>
    decreases bars.len(),
{
    if bars.len() == 0 {
        seq![]
    } else if text_before(date, bars.last().date@) {
        newer(bars.drop_last(), date).push(bars.last())
    } else {
        newer(bars.drop_last(), date)
    }
}

/// The bars to serve, and those to store. `stored` are served with what was
/// fetched beyond them; or, where all were fetched and more came than were
/// stored, what was fetched is served and stored.
#[derive(Debug)]
pub struct Supplied {
    pub served: Vec<PriceHistoryPoint>,
    /// Which of the served ones are new: those from this number on.
    pub new_from: usize,
}

/// The bars to serve once the feed has answered.
pub fn supply(plan: FetchPlan, stored: Vec<PriceHistoryPoint>, fetched: Vec<PriceHistoryPoint>) -> (r:
    Supplied)
    ensures
        match plan {
            FetchPlan::Serve => r.served@ == stored@ && r.new_from == stored@.len(),
            FetchPlan::Refetch => if fetched@.len() > stored@.len() {
                r.served@ == fetched@ && r.new_from == 0
            } else {
                r.served@ == stored@ && r.new_from == stored@.len()
            },
            FetchPlan::Supplement => r.served@ == stored@ + newer(fetched@, last_date(stored@))
                && r.new_from == stored@.len(),
        },
{
    let n: usize = stored.len();
    match plan {
        FetchPlan::Serve => Supplied { served: stored, new_from: n },
        FetchPlan::Refetch => if fetched.len() > n {
            Supplied { served: fetched, new_from: 0 }
        } else {
            Supplied { served: stored, new_from: n }
        },
        FetchPlan::Supplement => {
            let last = if n == 0 {
                String::new()
            } else {
                stored[n - 1].date.clone()
            };
            assert(last@ =~= last_date(stored@));
            let ghost old = stored@;
            let ghost all = fetched@;
            let mut served = stored;
            assert(all.take(0) =~= Seq::<PriceHistoryPoint>::empty());
            assert(old + newer(all.take(0), last@) =~= old);
            for bar in it: fetched
                invariant
                    it.seq() == all,
                    last@ == last_date(old),
                    served@ == old + newer(all.take(it.index() as int), last@),
            {
                let ghost k = it.index() as int;
                let ghost before = served@;
                assert(all.take(k + 1).drop_last() =~= all.take(k));
                assert(all.take(k + 1).last() == bar);
                if is_before(last.as_str(), bar.date.as_str()) {
                    served.push(bar);
                    assert(served@ =~= old + newer(all.take(k), last@).push(bar));
                }
            }
            assert(all.take(all.len() as int) =~= all);
            Supplied { served, new_from: n }
        },
    }
}

// ---------------------------------------------------------------------------
// The live bar
// ---------------------------------------------------------------------------

/// The bar of the running session.
#[derive(Debug)]
pub struct LiveBar {
    pub price: Option<Number>,
    pub price_date: Option<String>,
    pub volume: Option<i64>,
    pub open: Option<Number>,
    pub high: Option<Number>,
    pub low: Option<Number>,
}

/// The live bar as one of the history.
pub open spec fn live_bar(live: LiveBar, today: Seq<char>) -> BarView {
    BarView {
        date: match live.price_date {
            Some(d) => d@,
            None => today,
        },
        open: live.open,
        high: live.high,
        low: live.low,
        close: live.price,
        volume: live.volume,
    }
}

/// The bars with the live one: it replaces the last bar where that is of the
/// same day, what it lacks being kept, and follows it where it is of a later
/// one. A live bar of an earlier day, or without a price, is left out.
pub open spec fn with_live(bars: Seq<BarView>, live: Option<LiveBar>, today: Seq<char>) -> Seq<
    BarView,
> {
    match live {
        None => bars,
        Some(l) => if l.price is None {
            bars
        } else {
            let b = live_bar(l, today);
            if bars.len() == 0 || text_before(bars.last().date, b.date) {
                bars.push(b)
            } else if b.date == bars.last().date {
                bars.drop_last().push(
                    BarView {
                        date: b.date,
                        open: known(b.open, bars.last().open),
                        high: known(b.high, bars.last().high),
                        low: known(b.low, bars.last().low),
                        close: b.close,
                        volume: known(b.volume, bars.last().volume),
                    },
                )
            } else {
                bars
            }
        },
    }
}

/// The bars with the live one.
pub fn inject_live(bars: Vec<PriceHistoryPoint>, live: Option<&LiveBar>, today: &str) -> (r: Vec<
    PriceHistoryPoint,
>)
    ensures
        bar_views(r@) == with_live(bar_views(bars@), crate::context::deref(live), today@),
{
    let l = match live {
        None => return bars,
        Some(l) => l,
    };
    if l.price.is_none() {
        return bars;
    }
    let ghost before = bar_views(bars@);
    let mut out = bars;
    let date = match &l.price_date {
        Some(d) => d.clone(),
        None => today.to_owned(),
    };
    let n: usize = out.len();
    if n == 0 || is_before(out[n - 1].date.as_str(), date.as_str()) {
        let bar = PriceHistoryPoint {
            date,
            open: l.open,
            high: l.high,
            low: l.low,
            close: l.price,
            volume: l.volume,
        };
        let ghost b = bar@;
        out.push(bar);
        assert(bar_views(out@) =~= before.push(b));
    } else if same(date.as_str(), out[n - 1].date.as_str()) {
        let bar = PriceHistoryPoint {
            date,
            open: first_known(l.open, out[n - 1].open),
            high: first_known(l.high, out[n - 1].high),
            low: first_known(l.low, out[n - 1].low),
            close: l.price,
            volume: first_known(l.volume, out[n - 1].volume),
        };
        let ghost b = bar@;
        out.set(n - 1, bar);
        assert(bar_views(out@) =~= before.drop_last().push(b));
    }
    out
}

/// A live bar never blanks what the stored bar of its day knew, and never takes
/// the history back to an earlier day.
pub proof fn a_live_bar_keeps_the_candle(bars: Seq<BarView>, live: LiveBar, today: Seq<char>)
    requires
        bars.len() > 0,
        live_bar(live, today).date == bars.last().date,
        live.price is Some,
        !text_before(bars.last().date, bars.last().date),
    ensures
        with_live(bars, Some(live), today).len() == bars.len(),
        bars.last().open is Some ==> with_live(bars, Some(live), today).last().open is Some,
        bars.last().high is Some ==> with_live(bars, Some(live), today).last().high is Some,
        bars.last().low is Some ==> with_live(bars, Some(live), today).last().low is Some,
        with_live(bars, Some(live), today).last().close == live.price,
{
}

// ---------------------------------------------------------------------------
// What is asked for
// ---------------------------------------------------------------------------

/// How many days are asked for: 300 where nothing is said, and never less than
/// one nor more than 2000.
pub fn asked_days(days: Option<i64>) -> (r: i64)
    ensures
        r == (match days {
            None => 300int,
            Some(d) => if d < 1 {
                1
            } else if d > 2000 {
                2000
            } else {
                d as int
            },
        }),
{
    match days {
        None => 300,
        Some(d) => if d < 1 {
            1
        } else if d > 2000 {
            2000
        } else {
            d
        },
    }
}

/// The value of a decimal digit.
pub open spec fn digit_value(c: char) -> Option<nat> {
    if '0' <= c <= '9' {
        Some((c as u32 - '0' as u32) as nat)
    } else {
        None
    }
}

/// The number that some digits write; nothing where one of them is no digit.
pub open spec fn digits_value(s: Seq<char>) -> Option<nat>
    decreases s.len(),
{
    if s.len() == 0 {
        Some(0)
    } else {
        match (digits_value(s.drop_last()), digit_value(s.last())) {
            (Some(a), Some(b)) => Some(a * 10 + b),
            _ => None,
        }
    }
}

/// The number that a text writes: digits, with a plus sign before them or
/// without.
pub open spec fn written_number(s: Seq<char>) -> Option<nat> {
    let digits = if s.len() > 0 && s[0] == '+' {
        s.drop_first()
    } else {
        s
    };
    if digits.len() == 0 {
        None
    } else {
        digits_value(digits)
    }
}

/// The period that a text asks for, where it is one that is computed.
pub open spec fn period_text(s: Seq<char>) -> Option<nat> {
    match written_number(trim_text(s)) {
        Some(n) => if 0 < n <= 500 {
            Some(n)
        } else {
            None
        },
        None => None,
    }
}

fn digit_of(c: char) -> (r: Option<u32>)
    ensures
        match r {
            Some(d) => digit_value(c) == Some(d as nat) && d < 10,
            None => digit_value(c) is None,
        },
{
    match c {
        '0' => Some(0),
        '1' => Some(1),
        '2' => Some(2),
        '3' => Some(3),
        '4' => Some(4),
        '5' => Some(5),
        '6' => Some(6),
        '7' => Some(7),
        '8' => Some(8),
        '9' => Some(9),
        _ => None,
    }
}

/// A longer row of digits writes no smaller number.
proof fn lemma_digits_grow(s: Seq<char>, n: int)
    requires
        0 <= n <= s.len(),
        digits_value(s) is Some,
    ensures
        digits_value(s.take(n)) is Some,
        digits_value(s.take(n))->0 <= digits_value(s)->0,
    decreases s.len() - n,
{
    if n < s.len() {
        lemma_digits_grow(s.drop_last(), n);
        assert(s.drop_last().take(n) =~= s.take(n));
    } else {
        assert(s.take(n) =~= s);
    }
}

/// The period that a text asks for, where it is one that is computed.
fn period_of(s: &str) -> (r: Option<u32>)
    ensures
        match r {
            Some(n) => period_text(s@) == Some(n as nat),
            None => period_text(s@) is None,
        },
{
    let t = trimmed(s);
    let cs = chars_of(t);
    let from: usize = if cs.len() > 0 && cs[0] == '+' {
        1
    } else {
        0
    };
    let ghost digits = if cs@.len() > 0 && cs@[0] == '+' {
        cs@.drop_first()
    } else {
        cs@
    };
    assert(digits =~= cs@.skip(from as int));
    if from == cs.len() {
        return None;
    }
    let mut value: u32 = 0;
    let mut i: usize = from;
    assert(digits.take(0) =~= Seq::<char>::empty());
    while i < cs.len()
        invariant
            from <= i <= cs.len(),
            from < cs.len(),
            digits == cs@.skip(from as int),
            cs@ == trim_text(s@),
            digits == (if cs@.len() > 0 && cs@[0] == '+' {
                cs@.drop_first()
            } else {
                cs@
            }),
            value <= 500,
            digits_value(digits.take(i - from)) == Some(value as nat),
        decreases cs.len() - i,
    {
        proof {
            assert(digits.take(i + 1 - from).drop_last() =~= digits.take(i - from));
            assert(digits.take(i + 1 - from).last() == cs@[i as int]);
        }
        match digit_of(cs[i]) {
            None => {
                proof {
                    if digits_value(digits) is Some {
                        lemma_digits_grow(digits, i + 1 - from);
                    }
                }
                return None;
            },
            Some(d) => {
                let next: u32 = value * 10 + d;
                if next > 500 {
                    proof {
                        if digits_value(digits) is Some {
                            lemma_digits_grow(digits, i + 1 - from);
                        }
                    }
                    return None;
                }
                value = next;
            },
        }
        i += 1;
    }
    assert(digits.take(cs.len() - from) =~= digits);
    if value == 0 {
        None
    } else {
        Some(value)
    }
}

/// The periods that a comma-separated list asks for, each once.
pub open spec fn periods_in(pieces: Seq<Seq<char>>) -> Seq<nat>
    decreases pieces.len(),
{
    if pieces.len() == 0 {
        seq![]
    } else {
        let earlier = periods_in(pieces.drop_last());
        match period_text(pieces.last()) {
            Some(n) => if earlier.contains(n) {
                earlier
            } else {
                earlier.push(n)
            },
            None => earlier,
        }
    }
}

/// The views of some periods.
pub open spec fn period_views(periods: Seq<u32>) -> Seq<nat> {
    Seq::new(periods.len(), |i: int| periods[i] as nat)
}

/// The periods of the averages that a request asks for, each once. What is no
/// number, or one that is not computed, is passed over.
pub fn asked_periods(list: &str) -> (r: Vec<u32>)
    ensures
        period_views(r@) == periods_in(split_text(list@, ',')),
{
    let pieces = split(list, ',');
    let ghost all = views(pieces@);
    let mut out: Vec<u32> = Vec::new();
    let mut i: usize = 0;
    assert(period_views(out@) =~= seq![]);
    while i < pieces.len()
        invariant
            i <= pieces.len(),
            all == views(pieces@),
            period_views(out@) == periods_in(all.take(i as int)),
        decreases pieces.len() - i,
    {
        let ghost before = period_views(out@);
        proof {
            assert(all.take(i + 1).drop_last() =~= all.take(i as int));
            assert(all.take(i + 1).last() == pieces@[i as int]@);
        }
        match period_of(pieces[i]) {
            Some(n) => {
                let mut found = false;
                let mut k: usize = 0;
                while k < out.len()
                    invariant
                        k <= out.len(),
                        before == period_views(out@),
                        found <==> exists|j: int| 0 <= j < k && #[trigger] before[j] == n as nat,
                    decreases out.len() - k,
                {
                    assert(before[k as int] == out@[k as int] as nat);
                    if out[k] == n {
                        found = true;
                    }
                    k += 1;
                }
                assert(found == before.contains(n as nat));
                if !found {
                    out.push(n);
                    assert(period_views(out@) =~= before.push(n as nat));
                }
            },
            None => {},
        }
        i += 1;
    }
    assert(all.take(pieces.len() as int) =~= all);
    out
}

// ---------------------------------------------------------------------------
// What is stored and served
// ---------------------------------------------------------------------------

/// A new bar takes the place of that of its day: its close and volume count, and
/// each of its open, high and low where it has one. A day without a bar gets one;
/// a bar without a close changes nothing. Bars of other days stay.
pub proof fn a_bar_takes_the_place_of_that_of_its_day(bars: Seq<BarView>, new: BarView, k: int)
    requires
        0 <= k < bars.len(),
    ensures
        new.close is None ==> with_bar(bars, new) == bars,
        bars[k].date != new.date ==> with_bar(bars, new)[k] == bars[k],
        new.close is Some && bars[k].date == new.date && (forall|j: int|
            0 <= j < k ==> (#[trigger] bars[j]).date != new.date) ==> ({
            let b = with_bar(bars, new)[k];
            &&& with_bar(bars, new).len() == bars.len()
            &&& b.date == new.date && b.close == new.close && b.volume == new.volume
            &&& new.open is Some ==> b.open == new.open
            &&& new.open is None ==> b.open == bars[k].open
            &&& new.high is Some ==> b.high == new.high
            &&& new.high is None ==> b.high == bars[k].high
            &&& new.low is Some ==> b.low == new.low
            &&& new.low is None ==> b.low == bars[k].low
        }),
        new.close is Some && (forall|j: int|
            0 <= j < bars.len() ==> (#[trigger] bars[j]).date != new.date) ==> with_bar(bars, new)
            == bars.push(new),
{
    lemma_first_bar_of(bars, new.date, 0);
}

proof fn lemma_first_bar_of(bars: Seq<BarView>, date: Seq<char>, i: int)
    requires
        0 <= i <= bars.len(),
    ensures
        i <= bar_of(bars, date, i) <= bars.len(),
        bar_of(bars, date, i) < bars.len() ==> bars[bar_of(bars, date, i)].date == date,
        forall|j: int| i <= j < bar_of(bars, date, i) ==> (#[trigger] bars[j]).date != date,
    decreases bars.len() - i,
{
    if i < bars.len() && bars[i].date != date {
        lemma_first_bar_of(bars, date, i + 1);
    }
}

/// Bars are fetched only where they were not looked for a while ago: all of them
/// where there are none, or fewer than half as many as days were asked for; those
/// missing where they end before the day expected.
pub proof fn when_bars_are_fetched(
    stored: int,
    last_stored: Seq<char>,
    days: int,
    last_expected: Seq<char>,
    recently_checked: bool,
)
    requires
        stored >= 0,
        days > 0,
    ensures
        ({
            let plan = fetch_plan(stored, last_stored, days, last_expected, recently_checked);
            let few = stored == 0 || stored < days / 2;
            &&& recently_checked ==> plan == FetchPlan::Serve
            &&& !recently_checked && few ==> plan == FetchPlan::Refetch
            &&& !recently_checked && !few && text_before(last_stored, last_expected) ==> plan
                == FetchPlan::Supplement
            &&& !recently_checked && !few && !text_before(last_stored, last_expected) ==> plan
                == FetchPlan::Serve
        }),
{
}

/// What is missing of some bars are those after the last day, in their order.
pub proof fn what_is_missing_comes_after(
    bars: Seq<PriceHistoryPoint>,
    bar: PriceHistoryPoint,
    date: Seq<char>,
)
    ensures
        text_before(date, bar.date@) ==> newer(bars.push(bar), date) == newer(bars, date).push(bar),
        !text_before(date, bar.date@) ==> newer(bars.push(bar), date) == newer(bars, date),
        newer(Seq::empty(), date) == Seq::<PriceHistoryPoint>::empty(),
{
    assert(bars.push(bar).drop_last() =~= bars);
}

/// A live bar of a day after the last one comes behind it; one of the last day
/// takes its place, keeping what the live one does not know; one of an earlier
/// day, or without a price, changes nothing. Without a day it is of today.
pub proof fn a_live_bar_is_the_last(bars: Seq<BarView>, live: LiveBar, today: Seq<char>)
    ensures
        ({
            let date = match live.price_date {
                Some(d) => d@,
                None => today,
            };
            let now = with_live(bars, Some(live), today);
            &&& live.price is None ==> now == bars
            &&& live.price is Some && (bars.len() == 0 || text_before(bars.last().date, date))
                ==> now.len() == bars.len() + 1 && now.drop_last() == bars && now.last().date
                == date && now.last().close == live.price && now.last().open == live.open
                && now.last().high == live.high && now.last().low == live.low && now.last().volume
                == live.volume
            &&& live.price is Some && bars.len() > 0 && date == bars.last().date && !text_before(
                date,
                date,
            ) ==> now.len() == bars.len() && now.drop_last() == bars.drop_last()
                && now.last().date == date && now.last().close == live.price && (
            live.open is Some ==> now.last().open == live.open) && (live.open is None
                ==> now.last().open == bars.last().open) && (live.high is Some ==> now.last().high
                == live.high) && (live.high is None ==> now.last().high == bars.last().high) && (
            live.low is Some ==> now.last().low == live.low) && (live.low is None
                ==> now.last().low == bars.last().low) && (live.volume is Some
                ==> now.last().volume == live.volume) && (live.volume is None
                ==> now.last().volume == bars.last().volume)
            &&& live.price is Some && bars.len() > 0 && date != bars.last().date && !text_before(
                bars.last().date,
                date,
            ) ==> now == bars
        }),
        with_live(bars, None, today) == bars,
{
    let now = with_live(bars, Some(live), today);
    if now.len() > bars.len() {
        assert(now.drop_last() =~= bars);
    } else if now.len() > 0 && now != bars {
        assert(now.drop_last() =~= bars.drop_last());
    }
}

/// One more time of an answer is one more bar, of the day the exchange had then,
/// where it has a close; one without a close is none.
pub proof fn a_time_with_a_close_is_a_bar(
    symbol: Seq<char>,
    timestamps: Seq<i64>,
    q: HistoryQuote,
    gmtoffset: Option<i64>,
    n: int,
    before: Seq<BarView>,
)
    requires
        0 <= n < timestamps.len(),
        bars_read(symbol, timestamps, q, gmtoffset, n) == Ok::<Seq<BarView>, Seq<char>>(before),
    ensures
        ({
            let read = bars_read(symbol, timestamps, q, gmtoffset, n + 1);
            let day = local_day(timestamps[n] as int, gmtoffset);
            let date = match day {
                Some(d) => date_text(d),
                None => None,
            };
            let has_close = q.close is Some && n < q.close->0@.len() && q.close->0@[n] is Some;
            &&& date is None ==> read is Err
            &&& date is Some && !has_close ==> read == Ok::<Seq<BarView>, Seq<char>>(before)
            &&& date is Some && has_close ==> (read matches Ok(bars) && bars.len() == before.len()
                + 1 && bars.drop_last() == before && bars.last().date == date->0
                && bars.last().close == q.close->0@[n] && (q.open is Some && n < q.open->0@.len()
                ==> bars.last().open == q.open->0@[n]) && (q.high is Some && n < q.high->0@.len()
                ==> bars.last().high == q.high->0@[n]) && (q.low is Some && n < q.low->0@.len()
                ==> bars.last().low == q.low->0@[n]) && (q.volume is Some && n
                < q.volume->0@.len() ==> bars.last().volume == q.volume->0@[n]))
        }),
{
    if let Ok(bars) = bars_read(symbol, timestamps, q, gmtoffset, n + 1) {
        if bars.len() > before.len() {
            assert(bars.drop_last() =~= before);
        }
    }
}

/// One more piece of a list of periods names one where it is a whole number from 1
/// to 500 that is not named yet.
pub proof fn a_piece_names_a_period(pieces: Seq<Seq<char>>, piece: Seq<char>)
    ensures
        ({
            let was = periods_in(pieces);
            let now = periods_in(pieces.push(piece));
            let n = written_number(trim_text(piece));
            &&& n is Some && 1 <= n->0 <= 500 && !was.contains(n->0) ==> now == was.push(n->0)
            &&& !(n is Some && 1 <= n->0 <= 500 && !was.contains(n->0)) ==> now == was
        }),
{
    assert(pieces.push(piece).drop_last() =~= pieces);
}

/// A digit behind others makes the number ten times as large, and adds itself.
pub proof fn digits_are_read_by_tens(s: Seq<char>, c: char)
    ensures
        digits_value(Seq::empty()) == Some(0nat),
        digits_value(s) is Some && '0' <= c <= '9' ==> digits_value(s.push(c)) == Some(
            (digits_value(s)->0 * 10 + (c as u32 - 48)) as nat,
        ),
        digits_value(s) is None || !('0' <= c <= '9') ==> digits_value(s.push(c)) is None,
{
    assert(s.push(c).drop_last() =~= s);
}

/// An answer without times, without quotes or without a bar is refused, and the
/// bars read are those of the answer.
pub proof fn which_histories_are_refused(symbol: Seq<char>, a: HistoryAnswer)
    ensures
        a.timestamps is None || a.quote is None ==> history_verdict(symbol, a) is Err,
        history_verdict(symbol, a) is Ok ==> (history_verdict(symbol, a)->Ok_0).len() > 0,
        a.timestamps is Some && a.quote is Some ==> ({
            let read = bars_read(
                symbol,
                a.timestamps->0@,
                a.quote->0,
                a.gmtoffset,
                a.timestamps->0@.len() as int,
            );
            &&& read is Ok && (read->Ok_0).len() > 0 ==> history_verdict(symbol, a) == read
            &&& read is Ok && (read->Ok_0).len() == 0 ==> history_verdict(symbol, a) is Err
            &&& read is Err ==> history_verdict(symbol, a) == read
        }),
{
}

/// A number is written in digits, with a plus before them or without, and nothing
/// is no number.
pub proof fn how_a_number_is_written(s: Seq<char>)
    ensures
        written_number(Seq::empty()) is None,
        written_number(seq!['+']) is None,
        s.len() > 0 && s[0] != '+' ==> written_number(s) == digits_value(s),
        s.len() > 0 ==> written_number(seq!['+'] + s) == digits_value(s),
{
    assert(seq!['+'].drop_first() =~= Seq::<char>::empty());
    assert((seq!['+'] + s).drop_first() =~= s);
}

} // verus!
