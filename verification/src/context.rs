//! What the valuation of a portfolio rests on: how each symbol is classed, in
//! which currency it is quoted and what it is worth.
use vstd::prelude::*;
use crate::fields::{DayClose, Field};
use crate::number::{is_calculator, Formula, Number};
use crate::order::{distinct_sorted, strictly_ascending};
use crate::stops::{convert, converted, nonzero};
use crate::text::{joined, option_view, same, string_views, to_upper, upper_case};
use crate::textmap::TextMap;

verus! {

broadcast use vstd::string::group_string_axioms;

/// What is known of a symbol.
#[derive(Debug)]
pub struct SymbolInfo {
    pub instrument_type: Option<String>,
    pub long_name: Option<String>,
    pub currency: Option<String>,
}

/// The currency a symbol is quoted in, in upper case, where it is known.
pub open spec fn quoted_in(info: Map<Seq<char>, SymbolInfo>, symbol: Seq<char>) -> Option<Seq<char>> {
    if info.contains_key(symbol) && info[symbol].currency is Some {
        Some(upper_case(info[symbol].currency->0@))
    } else {
        None
    }
}

/// The currency of a symbol; the base currency where none is known.
pub open spec fn currency_text(info: Map<Seq<char>, SymbolInfo>, symbol: Seq<char>) -> Seq<char> {
    match quoted_in(info, symbol) {
        Some(c) => c,
        None => "AUD"@,
    }
}

fn quote_currency(info: &TextMap<SymbolInfo>, symbol: &str) -> (r: Option<String>)
    ensures
        option_view(r) == quoted_in(info@, symbol@),
{
    match info.get(symbol) {
        Some(i) => match &i.currency {
            Some(c) => Some(to_upper(c.as_str())),
            None => None,
        },
        None => None,
    }
}

/// The currency of a symbol; the base currency where none is known.
pub fn currency_of(info: &TextMap<SymbolInfo>, symbol: &str) -> (r: String)
    ensures
        r@ == currency_text(info@, symbol@),
{
    match quote_currency(info, symbol) {
        Some(c) => c,
        None => "AUD".to_owned(),
    }
}

/// The rate of a currency, where one is known and is not zero.
pub open spec fn known_rate(rates: Map<Seq<char>, Option<Number>>, currency: Seq<char>) -> Option<
    Number,
> {
    if rates.contains_key(currency) && nonzero(rates[currency]) {
        rates[currency]
    } else {
        None
    }
}

/// The rate of a currency, where one is known and is not zero.
pub fn rate_of(rates: &TextMap<Option<Number>>, currency: &str) -> (r: Option<Number>)
    ensures
        r == known_rate(rates@, currency@),
{
    match rates.get(currency) {
        Some(Some(rate)) => if rate.same_value(Number { bits: 0 }) {
            None
        } else {
            Some(*rate)
        },
        _ => None,
    }
}

/// The rate that takes amounts of a currency to the base currency. Without a
/// rate an amount is left as it is.
pub open spec fn base_rate(rates: Map<Seq<char>, Option<Number>>, currency: Seq<char>) -> Option<
    Number,
> {
    if currency == "AUD"@ {
        None
    } else {
        known_rate(rates, currency)
    }
}

/// The rate that takes amounts of a currency to the base currency.
pub fn rate_to_base(rates: &TextMap<Option<Number>>, currency: &str) -> (r: Option<Number>)
    ensures
        r == base_rate(rates@, currency@),
{
    if same(currency, "AUD") {
        None
    } else {
        rate_of(rates, currency)
    }
}

/// An amount of a symbol's currency in the base currency.
pub fn to_aud<F: Fn(Formula) -> Number>(
    info: &TextMap<SymbolInfo>,
    rates: &TextMap<Option<Number>>,
    symbol: &str,
    value: Number,
    calc: &F,
) -> (r: Number)
    requires
        is_calculator(*calc),
    ensures
        r == converted(*calc, value, base_rate(rates@, currency_text(info@, symbol@))),
{
    let currency = currency_of(info, symbol);
    convert(value, rate_to_base(rates, currency.as_str()), calc)
}

/// The sector a symbol was put in, where it was.
pub open spec fn sector_text(
    fields: Map<Seq<char>, TextMap<Field>>,
    symbol: Seq<char>,
) -> Option<Seq<char>> {
    if fields.contains_key(symbol) && fields[symbol]@.contains_key("sector"@)
        && fields[symbol]@["sector"@].text@.len() > 0 {
        Some(fields[symbol]@["sector"@].text@)
    } else {
        None
    }
}

/// The sector a symbol was put in, where it was.
pub fn sector_of(fields: &TextMap<TextMap<Field>>, symbol: &str) -> (r: Option<String>)
    ensures
        option_view(r) == sector_text(fields@, symbol@),
{
    match fields.get(symbol) {
        Some(m) => match m.get("sector") {
            Some(f) => if f.text.as_str().is_empty() {
                None
            } else {
                Some(f.text.clone())
            },
            None => None,
        },
        None => None,
    }
}

// ---------------------------------------------------------------------------
// Classing
// ---------------------------------------------------------------------------

/// The currency in which a trade was recorded.
#[derive(Debug)]
pub struct TradeCurrency {
    pub symbol: String,
    pub transaction_type: String,
    pub currency: String,
}

/// Whether a trade is a purchase of the symbol.
pub open spec fn is_purchase_of(t: TradeCurrency, symbol: Seq<char>) -> bool {
    t.symbol@ == symbol && t.transaction_type@ == "purchase"@
}

/// Whether the symbol was bought, and always in the base currency. Such a
/// holding is shown in the base currency wherever it trades.
pub open spec fn bought_in_base(trades: Seq<TradeCurrency>, symbol: Seq<char>) -> bool {
    &&& exists|i: int| 0 <= i < trades.len() && is_purchase_of(#[trigger] trades[i], symbol)
    &&& forall|i: int|
        0 <= i < trades.len() && is_purchase_of(#[trigger] trades[i], symbol)
            ==> trades[i].currency@ == "AUD"@
}

/// Whether the symbol was bought, and always in the base currency.
pub fn all_bought_in_base(trades: &Vec<TradeCurrency>, symbol: &str) -> (r: bool)
    ensures
        r == bought_in_base(trades@, symbol@),
{
    let mut any = false;
    let mut i: usize = 0;
    while i < trades.len()
        invariant
            i <= trades.len(),
            any <==> exists|j: int| 0 <= j < i && is_purchase_of(#[trigger] trades@[j], symbol@),
            forall|j: int|
                0 <= j < i && is_purchase_of(#[trigger] trades@[j], symbol@)
                    ==> trades@[j].currency@ == "AUD"@,
        decreases trades.len() - i,
    {
        let t = &trades[i];
        if same(t.symbol.as_str(), symbol) && same(t.transaction_type.as_str(), "purchase") {
            assert(is_purchase_of(trades@[i as int], symbol@));
            if !same(t.currency.as_str(), "AUD") {
                return false;
            }
            any = true;
        }
        i += 1;
    }
    any
}

/// Whether a symbol counts as foreign: it is quoted in another currency than
/// the base and was not always bought in the base currency.
pub open spec fn is_international(
    trades: Seq<TradeCurrency>,
    info: Map<Seq<char>, SymbolInfo>,
    symbol: Seq<char>,
) -> bool {
    &&& !bought_in_base(trades, symbol)
    &&& quoted_in(info, symbol) is Some
    &&& quoted_in(info, symbol)->0 != "AUD"@
}

/// The instrument type of a symbol: the one set by hand, or the one that came
/// with its quotes.
pub open spec fn instrument_type(
    config: Map<Seq<char>, Field>,
    info: Map<Seq<char>, SymbolInfo>,
    symbol: Seq<char>,
) -> Seq<char> {
    let key = "instrument_type_"@ + symbol;
    if config.contains_key(key) && config[key].text@.len() > 0 {
        config[key].text@
    } else if info.contains_key(symbol) && info[symbol].instrument_type is Some {
        info[symbol].instrument_type->0@
    } else {
        seq![]
    }
}

/// Whether a symbol counts as a fund.
pub open spec fn is_fund(kind: Seq<char>) -> bool {
    kind == "ETF"@ || kind == "MUTUALFUND"@
}

fn fund(config: &TextMap<Field>, info: &TextMap<SymbolInfo>, symbol: &str) -> (r: bool)
    ensures
        r == is_fund(instrument_type(config@, info@, symbol@)),
{
    let key = joined("instrument_type_", symbol);
    proof {
        reveal_strlit("ETF");
        reveal_strlit("MUTUALFUND");
        assert("ETF"@.len() == 3 && "MUTUALFUND"@.len() == 10);
    }
    match config.get(key.as_str()) {
        Some(f) => if !f.text.as_str().is_empty() {
            return same(f.text.as_str(), "ETF") || same(f.text.as_str(), "MUTUALFUND");
        },
        None => {},
    }
    match info.get(symbol) {
        Some(i) => match &i.instrument_type {
            Some(t) => same(t.as_str(), "ETF") || same(t.as_str(), "MUTUALFUND"),
            None => false,
        },
        None => false,
    }
}

/// Whether a rate is wanted for `currency`: one of the symbols is quoted in it
/// and it is not the base currency.
pub open spec fn rate_wanted(
    symbols: Seq<Seq<char>>,
    info: Map<Seq<char>, SymbolInfo>,
    currency: Seq<char>,
) -> bool {
    &&& currency != "AUD"@
    &&& exists|i: int| 0 <= i < symbols.len() && quoted_in(info, #[trigger] symbols[i]) == Some(currency)
}

/// The currencies whose rates the symbols need, in order.
pub fn currencies_of(symbols: &Vec<String>, info: &TextMap<SymbolInfo>) -> (r: Vec<String>)
    ensures
        strictly_ascending(string_views(r@)),
        forall|c: Seq<char>| #[trigger]
            string_views(r@).contains(c) <==> rate_wanted(string_views(symbols@), info@, c),
{
    let ghost all = string_views(symbols@);
    let mut found: Vec<String> = Vec::new();
    let mut i: usize = 0;
    while i < symbols.len()
        invariant
            i <= symbols.len(),
            all == string_views(symbols@),
            forall|j: int|
                0 <= j < found@.len() ==> rate_wanted(all, info@, (#[trigger] found@[j])@),
            forall|j: int|
                0 <= j < i ==> (#[trigger] quoted_in(info@, all[j]) matches Some(c) ==> c == "AUD"@
                    || string_views(found@).contains(c)),
        decreases symbols.len() - i,
    {
        let ghost before = found@;
        assert(all[i as int] == symbols@[i as int]@);
        match quote_currency(info, symbols[i].as_str()) {
            Some(c) => {
                if !same(c.as_str(), "AUD") {
                    let ghost t = c@;
                    assert(quoted_in(info@, all[i as int]) == Some(t));
                    found.push(c);
                    proof {
                        assert forall|x: Seq<char>| string_views(before).contains(x) implies
                            string_views(found@).contains(x) by {
                            let k = choose|k: int|
                                0 <= k < string_views(before).len() && string_views(before)[k] == x;
                            assert(string_views(found@)[k] == x);
                        }
                        assert(string_views(found@)[before.len() as int] == t);
                    }
                }
            },
            None => {},
        }
        i += 1;
    }
    let r = distinct_sorted(&found);
    proof {
        assert forall|c: Seq<char>| #[trigger]
            string_views(r@).contains(c) <==> rate_wanted(all, info@, c) by {
            assert(string_views(r@).contains(c) <==> string_views(r@).to_set().contains(c));
            assert(string_views(found@).contains(c) <==> string_views(found@).to_set().contains(
                c,
            ));
            if string_views(found@).contains(c) {
                let k = choose|k: int|
                    0 <= k < string_views(found@).len() && string_views(found@)[k] == c;
                assert(found@[k]@ == c);
            }
            if rate_wanted(all, info@, c) {
                let j = choose|j: int|
                    0 <= j < all.len() && quoted_in(info@, #[trigger] all[j]) == Some(c);
                assert(quoted_in(info@, all[j]) == Some(c));
            }
        }
    }
    r
}

// ---------------------------------------------------------------------------
// Prices
// ---------------------------------------------------------------------------

/// A quote as it is cached.
#[derive(Debug)]
pub struct CachedQuote {
    pub price: Option<Number>,
    pub price_date: Option<String>,
    pub change: Option<Number>,
    pub change_percent: Option<Number>,
    pub volume: Option<i64>,
}

/// Where the price of a symbol comes from.
#[derive(Clone, Copy, PartialEq, Eq, Structural, Debug)]
pub enum PriceSource {
    Cache,
    Manual,
    LastClose,
    Unpriced,
}

impl PriceSource {
    /// The name under which clients see it.
    pub open spec fn text(self) -> Seq<char> {
        match self {
            PriceSource::Cache => "cache"@,
            PriceSource::Manual => "manual"@,
            PriceSource::LastClose => "last_close"@,
            PriceSource::Unpriced => "none"@,
        }
    }

    /// The name under which clients see it.
    pub fn name(self) -> (r: &'static str)
        ensures
            r@ == self.text(),
    {
        match self {
            PriceSource::Cache => "cache",
            PriceSource::Manual => "manual",
            PriceSource::LastClose => "last_close",
            PriceSource::Unpriced => "none",
        }
    }
}

/// What a symbol is worth, and how it is known.
#[derive(Debug)]
pub struct EffectivePrice {
    /// In the symbol's own currency.
    pub native: Option<Number>,
    /// In the base currency.
    pub aud: Option<Number>,
    pub source: PriceSource,
    pub price_date: Option<String>,
    pub change: Option<Number>,
    pub change_percent: Option<Number>,
    pub volume: Option<i64>,
}

/// The price that a cached quote gives: a zero is no price.
pub open spec fn cached_price(quote: Option<CachedQuote>) -> Option<Number> {
    match quote {
        Some(q) => if q.price is Some && q.price->0.positive() {
            q.price
        } else {
            None
        },
        None => None,
    }
}

/// The price of a symbol, where it comes from and of which day it is: the live
/// quote, else the price entered by hand, else the last close. A symbol that no
/// longer trades has no quote; its last close is the only honest figure.
pub open spec fn chosen_price(
    quote: Option<CachedQuote>,
    manual: Option<Number>,
    last_close: Option<DayClose>,
) -> (Option<Number>, PriceSource, Option<Seq<char>>) {
    let quote_date = match quote {
        Some(q) => option_view(q.price_date),
        None => None,
    };
    if cached_price(quote) is Some {
        (cached_price(quote), PriceSource::Cache, quote_date)
    } else if manual is Some {
        (manual, PriceSource::Manual, quote_date)
    } else {
        match last_close {
            Some(c) => (Some(c.close), PriceSource::LastClose, Some(c.date@)),
            None => (None, PriceSource::Unpriced, quote_date),
        }
    }
}

/// Whether `p` is the price that these sources give.
pub open spec fn is_effective_price<F: Fn(Formula) -> Number>(
    calc: F,
    p: EffectivePrice,
    quote: Option<CachedQuote>,
    manual: Option<Number>,
    last_close: Option<DayClose>,
    rate: Option<Number>,
) -> bool {
    &&& (p.native, p.source, option_view(p.price_date)) == chosen_price(quote, manual, last_close)
    &&& p.aud == (match p.native {
        Some(n) => Some(converted(calc, n, rate)),
        None => None,
    })
    &&& p.change == (match quote {
        Some(q) => q.change,
        None => None,
    })
    &&& p.change_percent == (match quote {
        Some(q) => q.change_percent,
        None => None,
    })
    &&& p.volume == (match quote {
        Some(q) => q.volume,
        None => None,
    })
}

/// The value behind an optional reference.
pub open spec fn deref<T>(r: Option<&T>) -> Option<T> {
    match r {
        Some(v) => Some(*v),
        None => None,
    }
}

fn clone_text(s: &Option<String>) -> (r: Option<String>)
    ensures
        option_view(r) == option_view(*s),
{
    match s {
        Some(t) => Some(t.clone()),
        None => None,
    }
}

/// The price of a symbol: `rate` takes it to the base currency.
pub fn effective_price<F: Fn(Formula) -> Number>(
    quote: Option<&CachedQuote>,
    manual: Option<Number>,
    last_close: Option<&DayClose>,
    rate: Option<Number>,
    calc: &F,
) -> (r: EffectivePrice)
    requires
        is_calculator(*calc),
    ensures
        is_effective_price(*calc, r, deref(quote), manual, deref(last_close), rate),
{
    let mut native: Option<Number> = None;
    let mut source = PriceSource::Unpriced;
    let mut price_date: Option<String> = None;
    let mut change: Option<Number> = None;
    let mut change_percent: Option<Number> = None;
    let mut volume: Option<i64> = None;
    match quote {
        Some(q) => {
            price_date = clone_text(&q.price_date);
            change = q.change;
            change_percent = q.change_percent;
            volume = q.volume;
            match q.price {
                Some(p) => {
                    if p.is_positive() {
                        native = Some(p);
                        source = PriceSource::Cache;
                    }
                },
                None => {},
            }
        },
        None => {},
    }
    if native.is_none() {
        match manual {
            Some(m) => {
                native = Some(m);
                source = PriceSource::Manual;
            },
            None => {
                match last_close {
                    Some(c) => {
                        native = Some(c.close);
                        source = PriceSource::LastClose;
                        price_date = Some(c.date.clone());
                    },
                    None => {},
                }
            },
        }
    }
    let aud = match native {
        Some(n) => Some(convert(n, rate, calc)),
        None => None,
    };
    EffectivePrice { native, aud, source, price_date, change, change_percent, volume }
}

// ---------------------------------------------------------------------------
// The whole portfolio
// ---------------------------------------------------------------------------

/// What the valuation needs to know of a symbol.
#[derive(Debug)]
pub struct SymbolContext {
    pub symbol: String,
    pub international: bool,
    pub etf: bool,
    /// Whether every purchase was recorded in the base currency.
    pub all_aud: bool,
    pub price: EffectivePrice,
}

/// What is stored about the portfolio's symbols.
#[derive(Debug)]
pub struct PortfolioInputs {
    pub trades: Vec<TradeCurrency>,
    pub config: TextMap<Field>,
    pub info: TextMap<SymbolInfo>,
    pub rates: TextMap<Option<Number>>,
    pub quotes: TextMap<CachedQuote>,
    pub last_closes: TextMap<DayClose>,
}

/// What a map maps a key to.
pub open spec fn found<V>(map: Map<Seq<char>, V>, key: Seq<char>) -> Option<V> {
    if map.contains_key(key) {
        Some(map[key])
    } else {
        None
    }
}

/// The price entered by hand for a symbol.
pub open spec fn entered_price(config: Map<Seq<char>, Field>, symbol: Seq<char>) -> Option<Number> {
    match found(config, "manual_price_"@ + symbol) {
        Some(f) => f.number,
        None => None,
    }
}

/// Whether `c` is what the inputs say of `symbol`.
pub open spec fn is_context_of<F: Fn(Formula) -> Number>(
    calc: F,
    c: SymbolContext,
    symbol: Seq<char>,
    inputs: PortfolioInputs,
) -> bool {
    &&& c.symbol@ == symbol
    &&& c.all_aud == bought_in_base(inputs.trades@, symbol)
    &&& c.international == is_international(inputs.trades@, inputs.info@, symbol)
    &&& c.etf == is_fund(instrument_type(inputs.config@, inputs.info@, symbol))
    &&& is_effective_price(
        calc,
        c.price,
        found(inputs.quotes@, symbol),
        entered_price(inputs.config@, symbol),
        found(inputs.last_closes@, symbol),
        base_rate(inputs.rates@, currency_text(inputs.info@, symbol)),
    )
}

/// What the valuation needs to know of one symbol.
pub fn symbol_context<F: Fn(Formula) -> Number>(
    symbol: &str,
    inputs: &PortfolioInputs,
    calc: &F,
) -> (r: SymbolContext)
    requires
        is_calculator(*calc),
    ensures
        is_context_of(*calc, r, symbol@, *inputs),
{
    let all_aud = all_bought_in_base(&inputs.trades, symbol);
    let quoted = quote_currency(&inputs.info, symbol);
    let foreign = match &quoted {
        Some(c) => !same(c.as_str(), "AUD"),
        None => false,
    };
    let etf = fund(&inputs.config, &inputs.info, symbol);
    let manual_key = joined("manual_price_", symbol);
    let manual = match inputs.config.get(manual_key.as_str()) {
        Some(f) => f.number,
        None => None,
    };
    let currency = currency_of(&inputs.info, symbol);
    let rate = rate_to_base(&inputs.rates, currency.as_str());
    let price = effective_price(
        inputs.quotes.get(symbol),
        manual,
        inputs.last_closes.get(symbol),
        rate,
        calc,
    );
    SymbolContext {
        symbol: symbol.to_owned(),
        international: !all_aud && foreign,
        etf,
        all_aud,
        price,
    }
}

/// What the valuation needs to know of each symbol, in the given order.
pub fn build_portfolio_context<F: Fn(Formula) -> Number>(
    symbols: &Vec<String>,
    inputs: &PortfolioInputs,
    calc: &F,
) -> (r: Vec<SymbolContext>)
    requires
        is_calculator(*calc),
    ensures
        r@.len() == symbols@.len(),
        forall|i: int|
            0 <= i < r@.len() ==> is_context_of(
                *calc,
                #[trigger] r@[i],
                symbols@[i]@,
                *inputs,
            ),
{
    let mut out: Vec<SymbolContext> = Vec::new();
    let mut i: usize = 0;
    while i < symbols.len()
        invariant
            i <= symbols.len(),
            is_calculator(*calc),
            out@.len() == i,
            forall|j: int|
                0 <= j < i ==> is_context_of(*calc, #[trigger] out@[j], symbols@[j]@, *inputs),
        decreases symbols.len() - i,
    {
        out.push(symbol_context(symbols[i].as_str(), inputs, calc));
        i += 1;
    }
    out
}

// ---------------------------------------------------------------------------
// Laws
// ---------------------------------------------------------------------------

/// A zero quote never makes a holding worthless: it falls back to the price
/// entered by hand or to the last close.
pub proof fn a_zero_quote_is_never_a_price(
    quote: CachedQuote,
    manual: Option<Number>,
    last_close: Option<DayClose>,
)
    requires
        quote.price is Some,
        !quote.price->0.positive(),
    ensures
        chosen_price(Some(quote), manual, last_close).1 != PriceSource::Cache,
        chosen_price(Some(quote), manual, last_close).0 == (if manual is Some {
            manual
        } else {
            match last_close {
                Some(c) => Some(c.close),
                None => None,
            }
        }),
{
}

/// A symbol that was always bought in the base currency is never foreign.
pub proof fn a_holding_bought_at_home_is_not_international(
    trades: Seq<TradeCurrency>,
    info: Map<Seq<char>, SymbolInfo>,
    symbol: Seq<char>,
)
    requires
        bought_in_base(trades, symbol),
    ensures
        !is_international(trades, info, symbol),
{
}


// ---------------------------------------------------------------------------
// Keeping what is known of an instrument
// ---------------------------------------------------------------------------

/// The first of two texts that is there.
pub open spec fn known(new: Option<Seq<char>>, old: Option<Seq<char>>) -> Option<Seq<char>> {
    if new is Some {
        new
    } else {
        old
    }
}

fn keep_known(new: Option<String>, old: Option<String>) -> (r: Option<String>)
    ensures
        option_view(r) == known(option_view(new), option_view(old)),
{
    match new {
        Some(n) => Some(n),
        None => old,
    }
}

/// What is known of an instrument after a new report: what the report leaves
/// out stays.
pub fn store_symbol_info(before: Option<SymbolInfo>, report: SymbolInfo) -> (r: SymbolInfo)
    ensures
        option_view(r.instrument_type) == known(
            option_view(report.instrument_type),
            match before {
                Some(b) => option_view(b.instrument_type),
                None => None,
            },
        ),
        option_view(r.long_name) == known(
            option_view(report.long_name),
            match before {
                Some(b) => option_view(b.long_name),
                None => None,
            },
        ),
        option_view(r.currency) == known(
            option_view(report.currency),
            match before {
                Some(b) => option_view(b.currency),
                None => None,
            },
        ),
{
    match before {
        None => report,
        Some(b) => SymbolInfo {
            instrument_type: keep_known(report.instrument_type, b.instrument_type),
            long_name: keep_known(report.long_name, b.long_name),
            currency: keep_known(report.currency, b.currency),
        },
    }
}

/// The price of a symbol is the quote, where it is positive; otherwise the price
/// entered by hand; otherwise the last close, with its day; otherwise there is
/// none. In the base currency it is converted at the rate.
pub proof fn where_a_price_comes_from<F: Fn(Formula) -> Number>(
    calc: F,
    p: EffectivePrice,
    quote: Option<CachedQuote>,
    manual: Option<Number>,
    last_close: Option<DayClose>,
    rate: Option<Number>,
)
    requires
        is_effective_price(calc, p, quote, manual, last_close, rate),
    ensures
        ({
            let quoted = quote is Some && quote->0.price is Some && !quote->0.price->0.is_nan()
                && quote->0.price->0.key() > 0;
            &&& quoted ==> p.native == quote->0.price && p.source.text() == "cache"@
            &&& !quoted && manual is Some ==> p.native == manual && p.source.text() == "manual"@
            &&& !quoted && manual is None && last_close is Some ==> p.native == Some(
                last_close->0.close,
            ) && p.source.text() == "last_close"@ && p.price_date is Some && p.price_date->0@
                == last_close->0.date@
            &&& !quoted && manual is None && last_close is None ==> p.native is None
                && p.source.text() == "none"@
            &&& p.native is Some <==> p.aud is Some
            &&& p.native is Some ==> p.aud == Some(converted(calc, p.native->0, rate))
            &&& quote is Some ==> p.change == quote->0.change && p.change_percent
                == quote->0.change_percent && p.volume == quote->0.volume
            &&& quote is None ==> p.change is None && p.change_percent is None && p.volume is None
        }),
{
}

/// A rate counts where it is known and not zero; what is quoted in the base
/// currency, or in none, is not converted.
pub proof fn what_is_quoted_at_home_is_not_converted(
    info: Map<Seq<char>, SymbolInfo>,
    rates: Map<Seq<char>, Option<Number>>,
    symbol: Seq<char>,
)
    ensures
        !info.contains_key(symbol) || info[symbol].currency is None ==> base_rate(
            rates,
            currency_text(info, symbol),
        ) is None && currency_text(info, symbol) == "AUD"@,
        info.contains_key(symbol) && info[symbol].currency is Some ==> currency_text(info, symbol)
            == upper_case(info[symbol].currency->0@),
        currency_text(info, symbol) == "AUD"@ ==> base_rate(rates, currency_text(info, symbol)) is None,
        ({
            let c = currency_text(info, symbol);
            c != "AUD"@ ==> base_rate(rates, c) == (if rates.contains_key(c) && rates[c] is Some
                && !rates[c]->0.equals(crate::number::number(0)) {
                rates[c]
            } else {
                None
            })
        }),
{
}

/// A symbol was bought at home where it was bought, and never in another currency
/// than the base; only what is quoted in another one, and was not, is
/// international. An instrument is a fund where its type says so; one entered by
/// hand counts before the reported one.
pub proof fn what_kind_of_holding_it_is<F: Fn(Formula) -> Number>(
    calc: F,
    c: SymbolContext,
    symbol: Seq<char>,
    inputs: PortfolioInputs,
)
    requires
        is_context_of(calc, c, symbol, inputs),
    ensures
        c.all_aud <==> (exists|i: int|
            0 <= i < inputs.trades@.len() && (#[trigger] inputs.trades@[i]).symbol@ == symbol
                && inputs.trades@[i].transaction_type@ == "purchase"@) && (forall|i: int|
            0 <= i < inputs.trades@.len() && (#[trigger] inputs.trades@[i]).symbol@ == symbol
                && inputs.trades@[i].transaction_type@ == "purchase"@
                ==> inputs.trades@[i].currency@ == "AUD"@),
        c.international <==> !c.all_aud && inputs.info@.contains_key(symbol)
            && inputs.info@[symbol].currency is Some && upper_case(
            inputs.info@[symbol].currency->0@,
        ) != "AUD"@,
        ({
            let key = "instrument_type_"@ + symbol;
            let by_hand = inputs.config@.contains_key(key) && inputs.config@[key].text@.len() > 0;
            &&& by_hand ==> (c.etf <==> inputs.config@[key].text@ == "ETF"@
                || inputs.config@[key].text@ == "MUTUALFUND"@)
            &&& !by_hand && inputs.info@.contains_key(symbol)
                && inputs.info@[symbol].instrument_type is Some ==> (c.etf
                <==> inputs.info@[symbol].instrument_type->0@ == "ETF"@
                || inputs.info@[symbol].instrument_type->0@ == "MUTUALFUND"@)
        }),
{
    let trades = inputs.trades@;
    if bought_in_base(trades, symbol) {
        let i = choose|i: int| 0 <= i < trades.len() && is_purchase_of(#[trigger] trades[i], symbol);
        assert(trades[i].symbol@ == symbol && trades[i].transaction_type@ == "purchase"@);
        assert forall|j: int|
            0 <= j < trades.len() && (#[trigger] trades[j]).symbol@ == symbol
                && trades[j].transaction_type@ == "purchase"@ implies trades[j].currency@
            == "AUD"@ by {
            assert(is_purchase_of(trades[j], symbol));
        }
    }
    if (exists|i: int|
        0 <= i < trades.len() && (#[trigger] trades[i]).symbol@ == symbol
            && trades[i].transaction_type@ == "purchase"@) {
        let i = choose|i: int|
            0 <= i < trades.len() && (#[trigger] trades[i]).symbol@ == symbol
                && trades[i].transaction_type@ == "purchase"@;
        assert(is_purchase_of(trades[i], symbol));
    }
}

/// A sector counts where it is not empty.
pub proof fn a_sector_is_one_that_is_named(fields: Map<Seq<char>, TextMap<Field>>, symbol: Seq<char>)
    ensures
        ({
            let named = fields.contains_key(symbol) && fields[symbol]@.contains_key("sector"@)
                && fields[symbol]@["sector"@].text@.len() > 0;
            &&& named ==> sector_text(fields, symbol) == Some(fields[symbol]@["sector"@].text@)
            &&& !named ==> sector_text(fields, symbol) is None
        }),
{
}

/// A rate is wanted for each currency that a symbol is quoted in, and never for the
/// base currency.
pub proof fn which_rates_are_wanted(
    symbols: Seq<Seq<char>>,
    info: Map<Seq<char>, SymbolInfo>,
    i: int,
    currency: Seq<char>,
)
    requires
        0 <= i < symbols.len(),
    ensures
        !rate_wanted(symbols, info, "AUD"@),
        currency != "AUD"@ && info.contains_key(symbols[i]) && info[symbols[i]].currency is Some
            && upper_case(info[symbols[i]].currency->0@) == currency ==> rate_wanted(
            symbols,
            info,
            currency,
        ),
        !rate_wanted(Seq::empty(), info, currency),
{
    assert(info.contains_key(symbols[i]) && info[symbols[i]].currency is Some ==> quoted_in(
        info,
        symbols[i],
    ) == Some(upper_case(info[symbols[i]].currency->0@)));
}

/// The price entered by hand for a symbol is the number stored under its name.
pub proof fn a_price_by_hand_is_stored_under_the_symbol(
    config: Map<Seq<char>, Field>,
    symbol: Seq<char>,
)
    ensures
        ({
            let key = "manual_price_"@ + symbol;
            &&& config.contains_key(key) ==> entered_price(config, symbol) == config[key].number
            &&& !config.contains_key(key) ==> entered_price(config, symbol) is None
        }),
{
}

} // verus!
