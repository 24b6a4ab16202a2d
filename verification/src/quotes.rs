//! Live quotes: what a feed's answer says, and what of it is kept.
use vstd::prelude::*;
use crate::dates::{date_text, format_day, local_day, yahoo_local_date};
use crate::exact::{exact, is_exact, lemma_exact, lemma_sign, unrounded, Reading};
use crate::number::{
    difference, evaluate, is_calculator, is_renderer, larger, larger_of, num, number, percentage,
    smaller, smaller_of, worth, write_number, written, Decimals, Formula, Number, ZERO_BITS,
};
use crate::stops::nonzero;
use crate::text::{contains_text, joined, joined3, joined5, option_view, same, string_views};
use crate::textmap::TextMap;

verus! {

broadcast use vstd::string::group_string_axioms;

// ---------------------------------------------------------------------------
// The range of a session
// ---------------------------------------------------------------------------

/// The higher of a price and one that may be missing or no price.
pub open spec fn raised(a: Option<Number>, b: Option<Number>) -> Option<Number> {
    if b is Some && b->0.usable() {
        match a {
            Some(x) => Some(larger_of(x, b->0)),
            None => b,
        }
    } else {
        a
    }
}

/// The lower of a price and one that may be missing or no price.
pub open spec fn lowered(a: Option<Number>, b: Option<Number>) -> Option<Number> {
    if b is Some && b->0.usable() {
        match a {
            Some(x) => Some(smaller_of(x, b->0)),
            None => b,
        }
    } else {
        a
    }
}

/// The high of a session: the highest of the reported highs, and of the trades
/// where there is such a high. Trades alone are no range.
pub open spec fn session_high(highs: Seq<Option<Number>>, trades: Seq<Option<Number>>) -> Option<
    Number,
> {
    let top = raised(raised(None, highs[0]), highs[1]);
    if top is Some {
        raised(raised(top, trades[0]), trades[1])
    } else {
        None
    }
}

/// The low of a session, likewise. Zero is no low.
pub open spec fn session_low(lows: Seq<Option<Number>>, trades: Seq<Option<Number>>) -> Option<
    Number,
> {
    let bottom = lowered(lowered(None, lows[0]), lows[1]);
    if bottom is Some {
        lowered(lowered(bottom, trades[0]), trades[1])
    } else {
        None
    }
}

fn raise(a: Option<Number>, b: Option<Number>) -> (r: Option<Number>)
    ensures
        r == raised(a, b),
{
    match b {
        Some(y) => if y.is_usable() {
            match a {
                Some(x) => Some(larger(x, y)),
                None => Some(y),
            }
        } else {
            a
        },
        None => a,
    }
}

fn lower(a: Option<Number>, b: Option<Number>) -> (r: Option<Number>)
    ensures
        r == lowered(a, b),
{
    match b {
        Some(y) => if y.is_usable() {
            match a {
                Some(x) => Some(smaller(x, y)),
                None => Some(y),
            }
        } else {
            a
        },
        None => a,
    }
}

/// The high and the low of a session, from what is reported of each and from
/// the trades that are known.
///
/// A feed's summary can miss the opening print, and its bar can lag behind the
/// last price: the range holds every trade that is known, and so does not end
/// short of its own open. Without a reported high or low nothing is made up.
pub fn session_range(
    highs: [Option<Number>; 2],
    lows: [Option<Number>; 2],
    trades: [Option<Number>; 2],
) -> (r: (Option<Number>, Option<Number>))
    ensures
        r.0 == session_high(highs@, trades@),
        r.1 == session_low(lows@, trades@),
{
    let top = raise(raise(None, highs[0]), highs[1]);
    let high = if top.is_some() {
        raise(raise(top, trades[0]), trades[1])
    } else {
        None
    };
    let bottom = lower(lower(None, lows[0]), lows[1]);
    let low = if bottom.is_some() {
        lower(lower(bottom, trades[0]), trades[1])
    } else {
        None
    };
    (high, low)
}

/// Every trade that is known lies within the range of the session, and so does
/// every reported high and low: no bar is stored with an open above its high.
pub proof fn the_range_holds_every_trade(
    highs: Seq<Option<Number>>,
    lows: Seq<Option<Number>>,
    trades: Seq<Option<Number>>,
    i: int,
)
    requires
        highs.len() == 2,
        lows.len() == 2,
        trades.len() == 2,
        0 <= i < 2,
        trades[i] is Some,
        trades[i]->0.usable(),
    ensures
        session_high(highs, trades) is Some ==> trades[i]->0.at_most(
            session_high(highs, trades)->0,
        ),
        session_low(lows, trades) is Some ==> session_low(lows, trades)->0.at_most(trades[i]->0),
{
}

/// A range is only ever made of prices.
pub proof fn a_range_is_made_of_prices(
    highs: Seq<Option<Number>>,
    lows: Seq<Option<Number>>,
    trades: Seq<Option<Number>>,
)
    requires
        highs.len() == 2,
        lows.len() == 2,
        trades.len() == 2,
    ensures
        session_high(highs, trades) is Some ==> session_high(highs, trades)->0.usable(),
        session_low(lows, trades) is Some ==> session_low(lows, trades)->0.usable(),
{
}

// ---------------------------------------------------------------------------
// The answer of a feed
// ---------------------------------------------------------------------------

/// What the feed says of a symbol's session.
#[derive(Debug)]
pub struct YahooMeta {
    pub regular_market_price: Option<Number>,
    pub regular_market_change: Option<Number>,
    pub regular_market_change_percent: Option<Number>,
    pub regular_market_volume: Option<i64>,
    pub chart_previous_close: Option<Number>,
    pub regular_market_day_high: Option<Number>,
    pub regular_market_day_low: Option<Number>,
    pub day_open: Option<Number>,
    pub instrument_type: Option<String>,
    pub long_name: Option<String>,
    pub currency: Option<String>,
    pub regular_market_time: Option<i64>,
    pub gmtoffset: Option<i64>,
}

/// The bars that come with it.
#[derive(Debug)]
pub struct DayQuote {
    pub open: Option<Vec<Option<Number>>>,
    pub high: Option<Vec<Option<Number>>>,
    pub low: Option<Vec<Option<Number>>>,
    pub volume: Option<Vec<Option<i64>>>,
}

/// The first value that is there.
pub open spec fn first_value<T>(s: Seq<Option<T>>) -> Option<T>
    decreases s.len(),
{
    if s.len() == 0 {
        None
    } else if s.first() is Some {
        s.first()
    } else {
        first_value(s.drop_first())
    }
}

/// The last value that is there.
pub open spec fn last_value<T>(s: Seq<Option<T>>) -> Option<T>
    decreases s.len(),
{
    if s.len() == 0 {
        None
    } else if s.last() is Some {
        s.last()
    } else {
        last_value(s.drop_last())
    }
}

/// The largest value that is there.
pub open spec fn largest_value(s: Seq<Option<Number>>) -> Option<Number>
    decreases s.len(),
{
    if s.len() == 0 {
        None
    } else {
        match (largest_value(s.drop_last()), s.last()) {
            (Some(a), Some(b)) => Some(larger_of(a, b)),
            (None, b) => b,
            (a, None) => a,
        }
    }
}

/// The smallest value that is there.
pub open spec fn smallest_value(s: Seq<Option<Number>>) -> Option<Number>
    decreases s.len(),
{
    if s.len() == 0 {
        None
    } else {
        match (smallest_value(s.drop_last()), s.last()) {
            (Some(a), Some(b)) => Some(smaller_of(a, b)),
            (None, b) => b,
            (a, None) => a,
        }
    }
}

/// The values of a series, none where it is missing.
pub open spec fn values_of<T>(s: Option<Vec<Option<T>>>) -> Seq<Option<T>> {
    match s {
        Some(v) => v@,
        None => seq![],
    }
}

fn first_of(s: &Option<Vec<Option<Number>>>) -> (r: Option<Number>)
    ensures
        r == first_value(values_of(*s)),
{
    match s {
        None => None,
        Some(v) => {
            let mut i: usize = 0;
            assert(v@.skip(0) =~= v@);
            while i < v.len()
                invariant
                    i <= v.len(),
                    values_of(*s) == v@,
                    first_value(v@) == first_value(v@.skip(i as int)),
                decreases v.len() - i,
            {
                assert(v@.skip(i as int).first() == v@[i as int]);
                assert(v@.skip(i as int).drop_first() =~= v@.skip(i + 1));
                match v[i] {
                    Some(x) => {
                        return Some(x);
                    },
                    None => {},
                }
                i += 1;
            }
            None
        },
    }
}

fn last_of(s: &Option<Vec<Option<i64>>>) -> (r: Option<i64>)
    ensures
        r == last_value(values_of(*s)),
{
    match s {
        None => None,
        Some(v) => {
            let mut n: usize = v.len();
            assert(v@.take(n as int) =~= v@);
            while n > 0
                invariant
                    n <= v.len(),
                    values_of(*s) == v@,
                    last_value(v@) == last_value(v@.take(n as int)),
                decreases n,
            {
                assert(v@.take(n as int).last() == v@[n - 1]);
                assert(v@.take(n as int).drop_last() =~= v@.take(n - 1));
                match v[n - 1] {
                    Some(x) => {
                        return Some(x);
                    },
                    None => {},
                }
                n -= 1;
            }
            None
        },
    }
}

fn largest_of(s: &Option<Vec<Option<Number>>>) -> (r: Option<Number>)
    ensures
        r == largest_value(values_of(*s)),
{
    match s {
        None => None,
        Some(v) => {
            let mut out: Option<Number> = None;
            let mut i: usize = 0;
            while i < v.len()
                invariant
                    i <= v.len(),
                    out == largest_value(v@.take(i as int)),
                decreases v.len() - i,
            {
                assert(v@.take(i + 1).drop_last() =~= v@.take(i as int));
                out = match (out, v[i]) {
                    (Some(a), Some(b)) => Some(larger(a, b)),
                    (None, b) => b,
                    (a, None) => a,
                };
                i += 1;
            }
            assert(v@.take(v.len() as int) =~= v@);
            out
        },
    }
}

fn smallest_of(s: &Option<Vec<Option<Number>>>) -> (r: Option<Number>)
    ensures
        r == smallest_value(values_of(*s)),
{
    match s {
        None => None,
        Some(v) => {
            let mut out: Option<Number> = None;
            let mut i: usize = 0;
            while i < v.len()
                invariant
                    i <= v.len(),
                    out == smallest_value(v@.take(i as int)),
                decreases v.len() - i,
            {
                assert(v@.take(i + 1).drop_last() =~= v@.take(i as int));
                out = match (out, v[i]) {
                    (Some(a), Some(b)) => Some(smaller(a, b)),
                    (None, b) => b,
                    (a, None) => a,
                };
                i += 1;
            }
            assert(v@.take(v.len() as int) =~= v@);
            out
        },
    }
}

/// What the session is once its bar has been read: the bar gives the open, the
/// volume where the summary has none, and widens the range.
pub open spec fn completed(meta: YahooMeta, bar: Option<DayQuote>) -> YahooMeta {
    match bar {
        None => meta,
        Some(q) => {
            let open = first_value(values_of(q.open));
            let trades = seq![open, meta.regular_market_price];
            YahooMeta {
                regular_market_volume: if meta.regular_market_volume is Some {
                    meta.regular_market_volume
                } else {
                    last_value(values_of(q.volume))
                },
                day_open: open,
                regular_market_day_high: session_high(
                    seq![largest_value(values_of(q.high)), meta.regular_market_day_high],
                    trades,
                ),
                regular_market_day_low: session_low(
                    seq![smallest_value(values_of(q.low)), meta.regular_market_day_low],
                    trades,
                ),
                ..meta
            }
        },
    }
}

/// Completes what the feed says of a session by its bar, where one came.
pub fn complete_session(meta: YahooMeta, bar: Option<&DayQuote>) -> (r: YahooMeta)
    ensures
        r == completed(meta, crate::context::deref(bar)),
{
    match bar {
        None => meta,
        Some(q) => {
            let mut out = meta;
            if out.regular_market_volume.is_none() {
                out.regular_market_volume = last_of(&q.volume);
            }
            let open = first_of(&q.open);
            let highs = [largest_of(&q.high), out.regular_market_day_high];
            let lows = [smallest_of(&q.low), out.regular_market_day_low];
            let trades = [open, out.regular_market_price];
            let (high, low) = session_range(highs, lows, trades);
            proof {
                assert(highs@ =~= seq![
                    largest_value(values_of(q.high)),
                    meta.regular_market_day_high,
                ]);
                assert(lows@ =~= seq![
                    smallest_value(values_of(q.low)),
                    meta.regular_market_day_low,
                ]);
                assert(trades@ =~= seq![open, meta.regular_market_price]);
            }
            out.day_open = open;
            out.regular_market_day_high = high;
            out.regular_market_day_low = low;
            out
        },
    }
}


// ---------------------------------------------------------------------------
// Which symbols are asked for
// ---------------------------------------------------------------------------

/// The symbols, each once, as they first come.
pub open spec fn unique_symbols(symbols: Seq<Seq<char>>) -> Seq<Seq<char>>
    decreases symbols.len(),
{
    if symbols.len() == 0 {
        seq![]
    } else {
        let earlier = unique_symbols(symbols.drop_last());
        if earlier.contains(symbols.last()) {
            earlier
        } else {
            earlier.push(symbols.last())
        }
    }
}

/// Those symbols that are not marked as trading no more.
pub open spec fn live_symbols(symbols: Seq<Seq<char>>, dead: Set<Seq<char>>) -> Seq<Seq<char>> {
    symbols.filter(|s: Seq<char>| !dead.contains(s))
}

/// The symbols, each once, as they first come.
pub fn dedupe(symbols: &Vec<String>) -> (r: Vec<String>)
    ensures
        string_views(r@) == unique_symbols(string_views(symbols@)),
{
    let ghost all = string_views(symbols@);
    let mut out: Vec<String> = Vec::new();
    let mut i: usize = 0;
    assert(string_views(out@) =~= seq![]);
    while i < symbols.len()
        invariant
            i <= symbols.len(),
            all == string_views(symbols@),
            string_views(out@) == unique_symbols(all.take(i as int)),
        decreases symbols.len() - i,
    {
        let ghost before = string_views(out@);
        proof {
            assert(all.take(i + 1).drop_last() =~= all.take(i as int));
            assert(all.take(i + 1).last() == symbols@[i as int]@);
        }
        if !contains_text(&out, symbols[i].as_str()) {
            out.push(symbols[i].clone());
            assert(string_views(out@) =~= before.push(symbols@[i as int]@));
        }
        i += 1;
    }
    assert(all.take(symbols.len() as int) =~= all);
    out
}

/// The symbols to ask the feed for: each once, and none that is marked as
/// trading no more. The feed has answered for those that it knows nothing.
pub fn symbols_to_fetch(symbols: &Vec<String>, dead: &TextMap<String>) -> (r: Vec<String>)
    ensures
        string_views(r@) == live_symbols(
            unique_symbols(string_views(symbols@)),
            dead@.dom(),
        ),
{
    let unique = dedupe(symbols);
    let ghost all = string_views(unique@);
    let ghost keep = |s: Seq<char>| !dead@.dom().contains(s);
    let mut out: Vec<String> = Vec::new();
    let mut i: usize = 0;
    assert(string_views(out@) =~= all.take(0).filter(keep)) by {
        reveal(Seq::filter);
    }
    while i < unique.len()
        invariant
            i <= unique.len(),
            all == string_views(unique@),
            keep == (|s: Seq<char>| !dead@.dom().contains(s)),
            string_views(out@) == all.take(i as int).filter(keep),
        decreases unique.len() - i,
    {
        let ghost before = string_views(out@);
        let ghost this = unique@[i as int]@;
        proof {
            assert(all.take(i + 1) =~= all.take(i as int).push(this));
            crate::settings::lemma_filter_push(all.take(i as int), this, keep);
        }
        if !dead.contains_key(unique[i].as_str()) {
            out.push(unique[i].clone());
            assert(string_views(out@) =~= before.push(this));
        }
        i += 1;
    }
    assert(all.take(unique.len() as int) =~= all);
    out
}

/// A symbol marked as trading no more is never asked for.
pub proof fn a_dead_symbol_is_never_asked_for(
    symbols: Seq<Seq<char>>,
    dead: Set<Seq<char>>,
    i: int,
)
    requires
        0 <= i < live_symbols(unique_symbols(symbols), dead).len(),
    ensures
        !dead.contains(live_symbols(unique_symbols(symbols), dead)[i]),
{
    broadcast use vstd::seq_lib::group_filter_ensures;

    let keep = |s: Seq<char>| !dead.contains(s);
    assert(keep(unique_symbols(symbols).filter(keep)[i]));
}

/// No symbol is asked for twice.
pub proof fn no_symbol_is_asked_for_twice(symbols: Seq<Seq<char>>)
    ensures
        unique_symbols(symbols).no_duplicates(),
    decreases symbols.len(),
{
    if symbols.len() > 0 {
        no_symbol_is_asked_for_twice(symbols.drop_last());
    }
}

// ---------------------------------------------------------------------------
// A quote
// ---------------------------------------------------------------------------

/// A quote as it is kept and shown.
#[derive(Debug)]
pub struct CurrentPrice {
    pub symbol: String,
    pub price: Option<Number>,
    pub change: Option<Number>,
    pub change_percent: Option<Number>,
    pub volume: Option<i64>,
    pub day_open: Option<Number>,
    pub day_high: Option<Number>,
    pub day_low: Option<Number>,
    pub last_updated: String,
    pub price_date: Option<String>,
    pub error: Option<String>,
}

/// What a quote holds.
pub struct QuoteView {
    pub symbol: Seq<char>,
    pub price: Option<Number>,
    pub change: Option<Number>,
    pub change_percent: Option<Number>,
    pub volume: Option<i64>,
    pub day_open: Option<Number>,
    pub day_high: Option<Number>,
    pub day_low: Option<Number>,
    pub last_updated: Seq<char>,
    pub price_date: Option<Seq<char>>,
    pub error: Option<Seq<char>>,
}

impl View for CurrentPrice {
    type V = QuoteView;

    open spec fn view(&self) -> QuoteView {
        QuoteView {
            symbol: self.symbol@,
            price: self.price,
            change: self.change,
            change_percent: self.change_percent,
            volume: self.volume,
            day_open: self.day_open,
            day_high: self.day_high,
            day_low: self.day_low,
            last_updated: self.last_updated@,
            price_date: option_view(self.price_date),
            error: option_view(self.error),
        }
    }
}

/// A quote with nothing in it.
pub open spec fn no_quote(symbol: Seq<char>, now: Seq<char>) -> QuoteView {
    QuoteView {
        symbol,
        price: None,
        change: None,
        change_percent: None,
        volume: None,
        day_open: None,
        day_high: None,
        day_low: None,
        last_updated: now,
        price_date: None,
        error: None,
    }
}

/// The change of the day: the one reported, else the price less the close of
/// the day before.
pub open spec fn quote_change<F: Fn(Formula) -> Number>(calc: F, meta: YahooMeta) -> Option<Number> {
    if meta.regular_market_change is Some {
        meta.regular_market_change
    } else {
        match (meta.regular_market_price, meta.chart_previous_close) {
            (Some(p), Some(prev)) => Some(worth(calc, difference(num(p), num(prev)))),
            _ => None,
        }
    }
}

/// The change of the day in per cent: the one reported, else that of the change.
pub open spec fn quote_change_percent<F: Fn(Formula) -> Number>(
    calc: F,
    meta: YahooMeta,
) -> Option<Number> {
    if meta.regular_market_change_percent is Some {
        meta.regular_market_change_percent
    } else if quote_change(calc, meta) is Some && nonzero(meta.chart_previous_close) {
        Some(
            worth(
                calc,
                percentage(num(quote_change(calc, meta)->0), num(meta.chart_previous_close->0)),
            ),
        )
    } else {
        None
    }
}

/// The exchange's day of the quote, where the feed gives its time.
pub open spec fn quote_day(meta: YahooMeta) -> Option<int> {
    match meta.regular_market_time {
        Some(ts) => local_day(ts as int, meta.gmtoffset),
        None => None,
    }
}

/// The date of the quote.
pub open spec fn quote_date(meta: YahooMeta) -> Option<Seq<char>> {
    match quote_day(meta) {
        Some(d) => date_text(d),
        None => None,
    }
}

/// The quote that an answer of the feed gives.
pub open spec fn quote_from<F: Fn(Formula) -> Number>(
    calc: F,
    symbol: Seq<char>,
    meta: YahooMeta,
    now: Seq<char>,
) -> QuoteView {
    QuoteView {
        symbol,
        price: meta.regular_market_price,
        change: quote_change(calc, meta),
        change_percent: quote_change_percent(calc, meta),
        volume: meta.regular_market_volume,
        day_open: meta.day_open,
        day_high: meta.regular_market_day_high,
        day_low: meta.regular_market_day_low,
        last_updated: now,
        price_date: quote_date(meta),
        error: None,
    }
}

/// What is said where the feed did not answer.
pub open spec fn fetch_error<R: Fn(Number, Decimals) -> String>(
    render: R,
    symbol: Seq<char>,
    fallback: Option<Number>,
    error: Seq<char>,
) -> Seq<char> {
    match fallback {
        Some(p) => "Yahoo fetch failed for "@ + symbol + ". Returning latest close price "@
            + written(render, p, Decimals::Shortest) + ". Error: "@ + error,
        None => "Yahoo fetch failed for "@ + symbol + ": "@ + error,
    }
}

/// The quote where the feed did not answer: the last stored close, and why.
pub open spec fn fallback_quote<R: Fn(Number, Decimals) -> String>(
    render: R,
    symbol: Seq<char>,
    fallback: Option<Number>,
    error: Seq<char>,
    now: Seq<char>,
) -> QuoteView {
    QuoteView {
        price: fallback,
        error: Some(fetch_error(render, symbol, fallback, error)),
        ..no_quote(symbol, now)
    }
}

/// The answer of the feed, or why there is none.
#[derive(Debug)]
pub enum Fetched {
    Answer(YahooMeta),
    Failed(String),
    /// The request was given up.
    Missing,
}

/// What a request that was given up is said to have come to.
pub open spec fn failure_text(f: Fetched) -> Seq<char> {
    match f {
        Fetched::Failed(e) => e@,
        _ => "fetch task did not complete"@,
    }
}

/// The quote that comes of an answer, or of none.
pub open spec fn quote_of<F: Fn(Formula) -> Number, R: Fn(Number, Decimals) -> String>(
    calc: F,
    render: R,
    symbol: Seq<char>,
    fetched: Fetched,
    last_close: Option<Number>,
    now: Seq<char>,
) -> QuoteView {
    match fetched {
        Fetched::Answer(meta) => quote_from(calc, symbol, meta, now),
        _ => fallback_quote(render, symbol, last_close, failure_text(fetched), now),
    }
}

/// Whether the time of a quote can be shifted by the exchange's offset.
pub open spec fn time_in_range(meta: YahooMeta) -> bool {
    match meta.regular_market_time {
        Some(ts) => i64::MIN <= ts + (if meta.gmtoffset is Some {
            meta.gmtoffset->0 as int
        } else {
            0
        }) <= i64::MAX,
        None => true,
    }
}

/// The quote that an answer of the feed gives.
pub fn answered_quote<F: Fn(Formula) -> Number>(
    symbol: &str,
    meta: &YahooMeta,
    now: &str,
    calc: &F,
) -> (r: CurrentPrice)
    requires
        is_calculator(*calc),
        time_in_range(*meta),
    ensures
        r@ == quote_from(*calc, symbol@, *meta, now@),
{
    let change = match meta.regular_market_change {
        Some(c) => Some(c),
        None => match (meta.regular_market_price, meta.chart_previous_close) {
            (Some(p), Some(prev)) => Some(
                evaluate(calc, Formula::of(p).minus(Formula::of(prev))),
            ),
            _ => None,
        },
    };
    let change_percent = match meta.regular_market_change_percent {
        Some(c) => Some(c),
        None => match (change, meta.chart_previous_close) {
            (Some(c), Some(prev)) => if prev.same_value(Number { bits: ZERO_BITS }) {
                None
            } else {
                Some(evaluate(calc, Formula::of(c).percent_of(Formula::of(prev))))
            },
            _ => None,
        },
    };
    let price_date = match meta.regular_market_time {
        Some(ts) => match yahoo_local_date(ts, meta.gmtoffset) {
            Some(day) => format_day(day),
            None => None,
        },
        None => None,
    };
    CurrentPrice {
        symbol: symbol.to_owned(),
        price: meta.regular_market_price,
        change,
        change_percent,
        volume: meta.regular_market_volume,
        day_open: meta.day_open,
        day_high: meta.regular_market_day_high,
        day_low: meta.regular_market_day_low,
        last_updated: now.to_owned(),
        price_date,
        error: None,
    }
}

/// The quote that comes of an answer, or of none. `last_close` is the latest
/// stored close of the symbol.
pub fn resolve_quote<F: Fn(Formula) -> Number, R: Fn(Number, Decimals) -> String>(
    symbol: &str,
    fetched: &Fetched,
    last_close: Option<Number>,
    now: &str,
    calc: &F,
    render: &R,
) -> (r: CurrentPrice)
    requires
        is_calculator(*calc),
        is_renderer(*render),
        *fetched matches Fetched::Answer(meta) ==> time_in_range(meta),
    ensures
        r@ == quote_of(*calc, *render, symbol@, *fetched, last_close, now@),
{
    let error = match fetched {
        Fetched::Answer(meta) => return answered_quote(symbol, meta, now, calc),
        Fetched::Failed(e) => e.as_str(),
        Fetched::Missing => "fetch task did not complete",
    };
    let message = match last_close {
        Some(p) => {
            let price = write_number(render, p, Decimals::Shortest);
            let head = joined5(
                "Yahoo fetch failed for ",
                symbol,
                ". Returning latest close price ",
                price.as_str(),
                ". Error: ",
            );
            joined(head.as_str(), error)
        },
        None => {
            let head = joined3("Yahoo fetch failed for ", symbol, ": ");
            joined(head.as_str(), error)
        },
    };
    CurrentPrice {
        symbol: symbol.to_owned(),
        price: last_close,
        change: None,
        change_percent: None,
        volume: None,
        day_open: None,
        day_high: None,
        day_low: None,
        last_updated: now.to_owned(),
        price_date: None,
        error: Some(message),
    }
}

/// What the feed gave for each symbol.
#[derive(Debug)]
pub struct FetchedSymbol {
    pub symbol: String,
    pub fetched: Fetched,
    /// The latest stored close.
    pub last_close: Option<Number>,
}

/// What becomes of a quote.
#[derive(Clone, Copy, PartialEq, Eq, Structural, Debug)]
pub enum Keeping {
    /// It is cached, and stored as the bar of its day.
    CachedAndStored,
    /// It is cached; it has no day to be stored under.
    Cached,
    /// The last good price stays.
    Refused,
}

/// What becomes of a quote: only a price is kept. What is no price never
/// replaces one.
pub open spec fn keeping(price: Option<Number>, has_date: bool) -> Keeping {
    if price is Some && price->0.usable() {
        if has_date {
            Keeping::CachedAndStored
        } else {
            Keeping::Cached
        }
    } else {
        Keeping::Refused
    }
}

/// What becomes of a quote.
pub fn keep_quote(price: &CurrentPrice) -> (r: Keeping)
    ensures
        r == keeping(price.price, price.price_date is Some),
{
    if crate::number::is_usable_quote(price.price) {
        if price.price_date.is_some() {
            Keeping::CachedAndStored
        } else {
            Keeping::Cached
        }
    } else {
        Keeping::Refused
    }
}

/// The quotes of the symbols that were asked for, in their order, each with
/// what becomes of it.
pub fn fetch_and_cache_current_prices<
    F: Fn(Formula) -> Number,
    R: Fn(Number, Decimals) -> String,
>(fetched: &Vec<FetchedSymbol>, now: &str, calc: &F, render: &R) -> (r: Vec<
    (CurrentPrice, Keeping),
>)
    requires
        is_calculator(*calc),
        is_renderer(*render),
        forall|i: int|
            0 <= i < fetched.len() ==> ((#[trigger] fetched@[i]).fetched matches Fetched::Answer(
                meta,
            ) ==> time_in_range(meta)),
    ensures
        r@.len() == fetched@.len(),
        forall|i: int|
            0 <= i < r@.len() ==> {
                &&& (#[trigger] r@[i]).0@ == quote_of(
                    *calc,
                    *render,
                    fetched@[i].symbol@,
                    fetched@[i].fetched,
                    fetched@[i].last_close,
                    now@,
                )
                &&& r@[i].1 == keeping(r@[i].0.price, r@[i].0.price_date is Some)
            },
{
    let mut out: Vec<(CurrentPrice, Keeping)> = Vec::new();
    let mut i: usize = 0;
    while i < fetched.len()
        invariant
            i <= fetched.len(),
            is_calculator(*calc),
            is_renderer(*render),
            forall|i: int|
                0 <= i < fetched.len() ==> (
                (#[trigger] fetched@[i]).fetched matches Fetched::Answer(meta) ==> time_in_range(
                    meta,
                )),
            out@.len() == i,
            forall|j: int|
                0 <= j < i ==> {
                    &&& (#[trigger] out@[j]).0@ == quote_of(
                        *calc,
                        *render,
                        fetched@[j].symbol@,
                        fetched@[j].fetched,
                        fetched@[j].last_close,
                        now@,
                    )
                    &&& out@[j].1 == keeping(out@[j].0.price, out@[j].0.price_date is Some)
                },
        decreases fetched.len() - i,
    {
        let f = &fetched[i];
        let quote = resolve_quote(
            f.symbol.as_str(),
            &f.fetched,
            f.last_close,
            now,
            calc,
            render,
        );
        let what = keep_quote(&quote);
        out.push((quote, what));
        i += 1;
    }
    out
}

/// A quote of zero, under zero or of no number never replaces a price.
pub proof fn a_zero_quote_never_replaces_a_price(price: Number, has_date: bool)
    requires
        !price.usable(),
    ensures
        keeping(Some(price), has_date) == Keeping::Refused,
{
}

// ---------------------------------------------------------------------------
// Cached quotes
// ---------------------------------------------------------------------------

/// The views of some quotes.
pub open spec fn quote_views(quotes: Seq<CurrentPrice>) -> Seq<QuoteView> {
    Seq::new(quotes.len(), |i: int| quotes[i]@)
}

/// Whether a symbol has a quote among them.
pub open spec fn has_quote(quotes: Seq<QuoteView>, symbol: Seq<char>) -> bool {
    exists|i: int| 0 <= i < quotes.len() && (#[trigger] quotes[i]).symbol == symbol
}

/// Empty quotes for those symbols that have none.
pub open spec fn blanks(cached: Seq<QuoteView>, symbols: Seq<Seq<char>>) -> Seq<QuoteView>
    decreases symbols.len(),
{
    if symbols.len() == 0 {
        seq![]
    } else if has_quote(cached, symbols.last()) {
        blanks(cached, symbols.drop_last())
    } else {
        blanks(cached, symbols.drop_last()).push(no_quote(symbols.last(), seq![]))
    }
}

fn quoted(quotes: &Vec<CurrentPrice>, n: usize, symbol: &str) -> (r: bool)
    requires
        n <= quotes.len(),
    ensures
        r == has_quote(quote_views(quotes@.take(n as int)), symbol@),
{
    let ghost all = quote_views(quotes@.take(n as int));
    let mut i: usize = 0;
    while i < n
        invariant
            i <= n <= quotes.len(),
            all == quote_views(quotes@.take(n as int)),
            forall|j: int| 0 <= j < i ==> (#[trigger] all[j]).symbol != symbol@,
        decreases n - i,
    {
        assert(all[i as int].symbol == quotes@[i as int].symbol@);
        if same(quotes[i].symbol.as_str(), symbol) {
            return true;
        }
        i += 1;
    }
    false
}

/// The cached quotes, followed by an empty one for each symbol without.
pub fn load_cached_prices_with_fallback(cached: Vec<CurrentPrice>, symbols: &Vec<String>) -> (r: Vec<
    CurrentPrice,
>)
    ensures
        quote_views(r@) == quote_views(cached@) + blanks(
            quote_views(cached@),
            string_views(symbols@),
        ),
{
    let ghost first = quote_views(cached@);
    let ghost all = string_views(symbols@);
    let n: usize = cached.len();
    let mut out = cached;
    let mut i: usize = 0;
    assert(first + blanks(first, all.take(0)) =~= first);
    while i < symbols.len()
        invariant
            i <= symbols.len(),
            all == string_views(symbols@),
            n == first.len(),
            n <= out@.len(),
            quote_views(out@.take(n as int)) == first,
            quote_views(out@) == first + blanks(first, all.take(i as int)),
        decreases symbols.len() - i,
    {
        let ghost before = quote_views(out@);
        let ghost held = out@;
        proof {
            assert(all.take(i + 1).drop_last() =~= all.take(i as int));
            assert(all.take(i + 1).last() == symbols@[i as int]@);
        }
        if !quoted(&out, n, symbols[i].as_str()) {
            let blank = CurrentPrice {
                symbol: symbols[i].clone(),
                price: None,
                change: None,
                change_percent: None,
                volume: None,
                day_open: None,
                day_high: None,
                day_low: None,
                last_updated: String::new(),
                price_date: None,
                error: None,
            };
            let ghost b = blank@;
            assert(b == no_quote(symbols@[i as int]@, seq![])) by {
                assert(b.last_updated =~= seq![]);
            }
            out.push(blank);
            proof {
                assert(out@.take(n as int) =~= held.take(n as int));
                assert(quote_views(out@) =~= before.push(b));
                assert(before.push(b) =~= first + blanks(first, all.take(i as int)).push(b));
            }
        }
        i += 1;
    }
    assert(all.take(symbols.len() as int) =~= all);
    out
}

// ---------------------------------------------------------------------------
// What a quote says
// ---------------------------------------------------------------------------

/// The change of a quote is the one reported, or else the price less the previous
/// close; in per cent, the one reported, or else the change in per cent of the
/// previous close.
pub proof fn a_change_is_from_the_previous_close<F: Fn(Formula) -> Number>(
    calc: F,
    r: Reading,
    meta: YahooMeta,
    price: Number,
    previous: Number,
)
    requires
        is_exact(calc, r),
        meta.regular_market_price == Some(price),
        meta.chart_previous_close == Some(previous),
        meta.regular_market_change is None,
        r.is_plain(price) && r.is_plain(previous),
        r.of(previous) != 0 as real,
        r.can(r.of(price) - r.of(previous)),
        r.can((r.of(price) - r.of(previous)) / r.of(previous)),
        r.can((r.of(price) - r.of(previous)) / r.of(previous) * 100 as real),
    ensures
        quote_change(calc, meta) is Some && r.of(quote_change(calc, meta)->0) == r.of(price) - r.of(
            previous,
        ),
        meta.regular_market_change_percent is None ==> quote_change_percent(calc, meta) is Some
            && r.of(quote_change_percent(calc, meta)->0) == (r.of(price) - r.of(previous)) / r.of(
            previous,
        ) * 100 as real,
        meta.regular_market_change_percent is Some ==> quote_change_percent(calc, meta)
            == meta.regular_market_change_percent,
{
    reveal_with_fuel(exact, 5);
    reveal_with_fuel(unrounded, 5);
    lemma_sign(calc, r, previous);
    let f = difference(num(price), num(previous));
    lemma_exact(calc, r, f);
    lemma_exact(calc, r, percentage(num(worth(calc, f)), num(previous)));
}

/// A quote says what the feed reports: the price, the volume, the session's
/// range, and the day it is of where the exchange is. A reported change stays.
pub proof fn a_quote_says_what_is_reported<F: Fn(Formula) -> Number>(
    calc: F,
    symbol: Seq<char>,
    meta: YahooMeta,
    now: Seq<char>,
)
    ensures
        ({
            let q = quote_from(calc, symbol, meta, now);
            &&& q.symbol == symbol && q.price == meta.regular_market_price && q.volume
                == meta.regular_market_volume
            &&& q.day_open == meta.day_open && q.day_high == meta.regular_market_day_high
                && q.day_low == meta.regular_market_day_low
            &&& q.last_updated == now && q.error is None
            &&& meta.regular_market_change is Some ==> q.change == meta.regular_market_change
            &&& meta.regular_market_time is None ==> q.price_date is None
            &&& meta.regular_market_time is Some ==> q.price_date == (match local_day(
                meta.regular_market_time->0 as int,
                meta.gmtoffset,
            ) {
                Some(d) => date_text(d),
                None => None,
            })
        }),
{
}

/// Where the feed fails, the last close stands in for the price, and the quote says
/// why; it has neither a day nor a change.
pub proof fn a_failed_quote_falls_back_to_the_last_close<
    F: Fn(Formula) -> Number,
    R: Fn(Number, Decimals) -> String,
>(
    calc: F,
    render: R,
    symbol: Seq<char>,
    fetched: Fetched,
    last_close: Option<Number>,
    now: Seq<char>,
)
    requires
        !(fetched is Answer),
    ensures
        ({
            let q = quote_of(calc, render, symbol, fetched, last_close, now);
            &&& q.symbol == symbol && q.price == last_close && q.last_updated == now
            &&& q.error is Some && q.price_date is None && q.change is None
                && q.change_percent is None && q.volume is None && q.day_open is None
                && q.day_high is None && q.day_low is None
        }),
{
}

/// A quote is cached where its price is positive and finite, and stored as a bar
/// where it also has a day; otherwise the last good price stays.
pub proof fn only_a_price_is_kept(price: Option<Number>, has_date: bool)
    ensures
        price is Some && price->0.is_finite() && price->0.key() > 0 && has_date ==> keeping(
            price,
            has_date,
        ) == Keeping::CachedAndStored,
        price is Some && price->0.is_finite() && price->0.key() > 0 && !has_date ==> keeping(
            price,
            has_date,
        ) == Keeping::Cached,
        !(price is Some && price->0.is_finite() && price->0.key() > 0) ==> keeping(price, has_date)
            == Keeping::Refused,
{
}

/// The range of a session is widened by what is reported and by what was traded:
/// where a high is known, the session's is the highest of the highs, the open and
/// the price; likewise for the low. Without a high there is none.
pub proof fn a_range_is_the_widest(
    highs: Seq<Option<Number>>,
    lows: Seq<Option<Number>>,
    trades: Seq<Option<Number>>,
)
    requires
        highs.len() == 2,
        lows.len() == 2,
        trades.len() == 2,
    ensures
        ({
            let known = (highs[0] is Some && highs[0]->0.usable()) || (highs[1] is Some
                && highs[1]->0.usable());
            let top = session_high(highs, trades);
            &&& top is Some <==> known
            &&& top is Some ==> top == highs[0] || top == highs[1] || top == trades[0] || top
                == trades[1]
            &&& forall|i: int|
                0 <= i < 2 && top is Some && (#[trigger] highs[i]) is Some && highs[i]->0.usable()
                    ==> !top->0.below(highs[i]->0)
            &&& forall|i: int|
                0 <= i < 2 && top is Some && (#[trigger] trades[i]) is Some && trades[i]->0.usable()
                    ==> !top->0.below(trades[i]->0)
        }),
        ({
            let known = (lows[0] is Some && lows[0]->0.usable()) || (lows[1] is Some
                && lows[1]->0.usable());
            let bottom = session_low(lows, trades);
            &&& bottom is Some <==> known
            &&& bottom is Some ==> bottom == lows[0] || bottom == lows[1] || bottom == trades[0]
                || bottom == trades[1]
            &&& forall|i: int|
                0 <= i < 2 && bottom is Some && (#[trigger] lows[i]) is Some && lows[i]->0.usable()
                    ==> !lows[i]->0.below(bottom->0)
            &&& forall|i: int|
                0 <= i < 2 && bottom is Some && (#[trigger] trades[i]) is Some && trades[i]->0.usable()
                    ==> !trades[i]->0.below(bottom->0)
        }),
{
}

/// The largest of some values is one of them and under none; the smallest is one
/// of them and over none. What is missing does not count.
pub proof fn the_largest_and_the_smallest_value(s: Seq<Option<Number>>)
    requires
        forall|i: int| 0 <= i < s.len() && (#[trigger] s[i]) is Some ==> !s[i]->0.is_nan(),
    ensures
        largest_value(s) is Some ==> s.contains(largest_value(s)) && !largest_value(s)->0.is_nan(),
        smallest_value(s) is Some ==> s.contains(smallest_value(s))
            && !smallest_value(s)->0.is_nan(),
        forall|i: int|
            0 <= i < s.len() && (#[trigger] s[i]) is Some ==> largest_value(s) is Some
                && smallest_value(s) is Some && s[i]->0.at_most(largest_value(s)->0)
                && smallest_value(s)->0.at_most(s[i]->0),
    decreases s.len(),
{
    if s.len() > 0 {
        let less = s.drop_last();
        let n = less.len() as int;
        assert forall|i: int| 0 <= i < less.len() && (#[trigger] less[i]) is Some implies !less[i]->0.is_nan() by {
            assert(s[i] == less[i]);
        }
        the_largest_and_the_smallest_value(less);
        assert(s[n] == s.last());
        if largest_value(s) is Some && largest_value(s) != s.last() {
            let k = choose|k: int| 0 <= k < less.len() && less[k] == largest_value(less);
            assert(s[k] == largest_value(s));
        }
        if smallest_value(s) is Some && smallest_value(s) != s.last() {
            let k = choose|k: int| 0 <= k < less.len() && less[k] == smallest_value(less);
            assert(s[k] == smallest_value(s));
        }
        assert forall|i: int| 0 <= i < s.len() && (#[trigger] s[i]) is Some implies largest_value(
            s,
        ) is Some && smallest_value(s) is Some && s[i]->0.at_most(largest_value(s)->0)
            && smallest_value(s)->0.at_most(s[i]->0) by {
            if i < n {
                assert(less[i] == s[i]);
            }
        }
    }
}

/// A session is completed from its bar: the open is the bar's first, the volume
/// the reported one or else the bar's last, and the range that of the bar and of
/// the report. Without a bar nothing changes, and what the bar does not hold stays.
pub proof fn a_session_is_completed_from_its_bar(meta: YahooMeta, q: DayQuote)
    ensures
        completed(meta, None) == meta,
        ({
            let c = completed(meta, Some(q));
            &&& c.day_open == first_value(values_of(q.open))
            &&& meta.regular_market_volume is Some ==> c.regular_market_volume
                == meta.regular_market_volume
            &&& meta.regular_market_volume is None ==> c.regular_market_volume == last_value(
                values_of(q.volume),
            )
            &&& c.regular_market_day_high == session_high(
                seq![largest_value(values_of(q.high)), meta.regular_market_day_high],
                seq![c.day_open, meta.regular_market_price],
            )
            &&& c.regular_market_day_low == session_low(
                seq![smallest_value(values_of(q.low)), meta.regular_market_day_low],
                seq![c.day_open, meta.regular_market_price],
            )
            &&& c.regular_market_price == meta.regular_market_price && c.regular_market_change
                == meta.regular_market_change && c.regular_market_change_percent
                == meta.regular_market_change_percent && c.chart_previous_close
                == meta.chart_previous_close && c.regular_market_time == meta.regular_market_time
                && c.gmtoffset == meta.gmtoffset
        }),
{
}

/// The first value is that before which there is none, the last that after which
/// there is none.
pub proof fn the_first_and_the_last_value<T>(s: Seq<Option<T>>, i: int)
    requires
        0 <= i < s.len(),
        s[i] is Some,
    ensures
        (forall|j: int| 0 <= j < i ==> (#[trigger] s[j]) is None) ==> first_value(s) == s[i],
        (forall|j: int| i < j < s.len() ==> (#[trigger] s[j]) is None) ==> last_value(s) == s[i],
    decreases s.len(),
{
    if (forall|j: int| 0 <= j < i ==> (#[trigger] s[j]) is None) && i > 0 {
        let rest = s.drop_first();
        assert(s[0] is None);
        assert(rest[i - 1] == s[i]);
        assert forall|j: int| 0 <= j < i - 1 implies (#[trigger] rest[j]) is None by {
            assert(s[j + 1] is None);
        }
        the_first_and_the_last_value(rest, i - 1);
    }
    if (forall|j: int| i < j < s.len() ==> (#[trigger] s[j]) is None) && i < s.len() - 1 {
        let rest = s.drop_last();
        assert(s[s.len() - 1] is None);
        assert(rest[i] == s[i]);
        assert forall|j: int| i < j < rest.len() implies (#[trigger] rest[j]) is None by {
            assert(s[j] is None);
        }
        the_first_and_the_last_value(rest, i);
    }
}

/// Every symbol that is not dead is asked for.
pub proof fn every_live_symbol_is_asked_for(
    symbols: Seq<Seq<char>>,
    dead: Set<Seq<char>>,
    i: int,
)
    requires
        0 <= i < symbols.len(),
        !dead.contains(symbols[i]),
    ensures
        live_symbols(unique_symbols(symbols), dead).contains(symbols[i]),
{
    lemma_unique_holds_all(symbols, i);
    let keep = |s: Seq<char>| !dead.contains(s);
    crate::settings::lemma_filter_members(unique_symbols(symbols), keep);
    assert(unique_symbols(symbols).filter(keep).contains(symbols[i]));
}

proof fn lemma_unique_holds_all(symbols: Seq<Seq<char>>, i: int)
    requires
        0 <= i < symbols.len(),
    ensures
        unique_symbols(symbols).contains(symbols[i]),
    decreases symbols.len(),
{
    let less = symbols.drop_last();
    let was = unique_symbols(less);
    let now = unique_symbols(symbols);
    if i < less.len() {
        assert(less[i] == symbols[i]);
        lemma_unique_holds_all(less, i);
        let k = choose|k: int| 0 <= k < was.len() && was[k] == symbols[i];
        assert(now[k] == symbols[i]);
    } else if !was.contains(symbols.last()) {
        assert(now[was.len() as int] == symbols[i]);
    }
}

/// A symbol without a quote gets an empty one, after those before it, and one that
/// has a quote gets none.
pub proof fn what_has_no_quote_gets_an_empty_one(
    cached: Seq<QuoteView>,
    symbols: Seq<Seq<char>>,
    symbol: Seq<char>,
)
    ensures
        blanks(cached, Seq::empty()) == Seq::<QuoteView>::empty(),
        (exists|i: int| 0 <= i < cached.len() && (#[trigger] cached[i]).symbol == symbol) ==> blanks(
            cached,
            symbols.push(symbol),
        ) == blanks(cached, symbols),
        (forall|i: int| 0 <= i < cached.len() ==> (#[trigger] cached[i]).symbol != symbol) ==> ({
            let all = blanks(cached, symbols.push(symbol));
            &&& all.drop_last() == blanks(cached, symbols)
            &&& all.len() == blanks(cached, symbols).len() + 1
            &&& all.last().symbol == symbol
            &&& all.last().price is None
        }),
{
    assert(symbols.push(symbol).drop_last() =~= symbols);
    if !has_quote(cached, symbol) {
        assert(blanks(cached, symbols.push(symbol)).drop_last() =~= blanks(cached, symbols));
    }
}

} // verus!
