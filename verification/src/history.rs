//! What the portfolio was worth, day by day.
use vstd::prelude::*;
use crate::exact::{exact, is_exact, lemma_exact, lemma_sign, unrounded, Reading};
use crate::dates::{date_number, date_text, format_day, option_day, parse_day, MAX_DAY, MIN_DAY};
use crate::fields::DayClose;
use crate::number::{
    difference, evaluate, is_calculator, num, number, opposite, product, sum, worth, Formula,
    Number, HUNDRED_BITS, ONE_BITS, ZERO_BITS,
};
use crate::order::{
    distinct_sorted, strictly_ascending, text_order_is_irreflexive, text_order_is_transitive,
};
use crate::symbols::{fx_pair, fx_pair_symbol};
use crate::text::{
    is_before, is_blank, option_slice_view, option_view, same, string_views, text_before, trim_text,
    trimmed,
};
use crate::textmap::TextMap;

verus! {

broadcast use vstd::string::group_string_axioms;

// ---------------------------------------------------------------------------
// Series that are read day by day
// ---------------------------------------------------------------------------

/// How many entries have been passed once `day` is, `i` having been passed
/// before: all up to the first one dated after it.
pub open spec fn advance(dates: Seq<Seq<char>>, i: int, day: Seq<char>) -> int
    decreases dates.len() - i,
{
    if 0 <= i < dates.len() && !text_before(day, dates[i]) {
        advance(dates, i + 1, day)
    } else {
        i
    }
}

/// How many entries have been passed once the days up to number `k` are.
pub open spec fn reached(dates: Seq<Seq<char>>, days: Seq<Seq<char>>, k: int) -> int
    decreases k + 1,
{
    if k < 0 {
        0
    } else {
        advance(dates, reached(dates, days, k - 1), days[k])
    }
}

proof fn lemma_advance_bounds(dates: Seq<Seq<char>>, i: int, day: Seq<char>)
    requires
        0 <= i <= dates.len(),
    ensures
        i <= advance(dates, i, day) <= dates.len(),
    decreases dates.len() - i,
{
    if i < dates.len() && !text_before(day, dates[i]) {
        lemma_advance_bounds(dates, i + 1, day);
    }
}

/// What has been passed only grows.
pub proof fn lemma_reached_bounds(dates: Seq<Seq<char>>, days: Seq<Seq<char>>, k: int)
    ensures
        0 <= reached(dates, days, k) <= dates.len(),
        k >= 0 ==> reached(dates, days, k - 1) <= reached(dates, days, k),
    decreases k + 1,
{
    if k >= 0 {
        lemma_reached_bounds(dates, days, k - 1);
        lemma_advance_bounds(dates, reached(dates, days, k - 1), days[k]);
    }
}

/// The dates of some closes.
pub open spec fn close_dates(points: Seq<DayClose>) -> Seq<Seq<char>> {
    Seq::new(points.len(), |i: int| points[i].date@)
}

/// The last of the closes that have been passed.
pub open spec fn last_passed(points: Seq<DayClose>, passed: int) -> Option<Number> {
    if 0 < passed <= points.len() {
        Some(points[passed - 1].close)
    } else {
        None
    }
}

/// Whether `day` is after the last close.
pub open spec fn past_end(points: Seq<DayClose>, day: Seq<char>) -> bool {
    points.len() == 0 || text_before(points.last().date@, day)
}

/// The closes of a symbol or the rates of a currency, with how far they have
/// been read.
#[derive(Debug)]
pub struct SeriesCursor<'a> {
    points: &'a Vec<DayClose>,
    index: usize,
}

impl<'a> SeriesCursor<'a> {
    /// The closes.
    pub closed spec fn points(self) -> Seq<DayClose> {
        self.points@
    }

    /// How many of them have been passed.
    pub closed spec fn passed(self) -> int {
        self.index as int
    }

    /// No more have been passed than there are.
    pub closed spec fn well_formed(self) -> bool {
        self.index <= self.points@.len()
    }

    /// The closes, none passed yet.
    pub fn new(points: &'a Vec<DayClose>) -> (r: SeriesCursor<'a>)
        ensures
            r.well_formed(),
            r.points() == points@,
            r.passed() == 0,
    {
        SeriesCursor { points, index: 0 }
    }

    /// Goes on to `day` and gives the latest close on or before it. A close
    /// carries forward, so that a holding keeps its value over weekends,
    /// holidays and missing bars.
    pub fn value_on(&mut self, day: &str) -> (r: Option<Number>)
        requires
            old(self).well_formed(),
        ensures
            final(self).well_formed(),
            final(self).points() == old(self).points(),
            final(self).passed() == advance(
                close_dates(old(self).points()),
                old(self).passed(),
                day@,
            ),
            r == last_passed(final(self).points(), final(self).passed()),
    {
        let ghost dates = close_dates(self.points@);
        let ghost first = self.index as int;
        while self.index < self.points.len() && !is_before(
            day,
            self.points[self.index].date.as_str(),
        )
            invariant
                self.index <= self.points@.len(),
                self.points@ == old(self).points@,
                dates == close_dates(self.points@),
                advance(dates, first, day@) == advance(dates, self.index as int, day@),
            decreases self.points@.len() - self.index,
        {
            self.index = self.index + 1;
        }
        if self.index == 0 {
            None
        } else {
            Some(self.points[self.index - 1].close)
        }
    }

    /// Whether `day` is after the last close: where what is no longer traded
    /// has no real price any more.
    pub fn is_past_end(&self, day: &str) -> (r: bool)
        ensures
            r == past_end(self.points(), day@),
    {
        let n: usize = self.points.len();
        if n == 0 {
            true
        } else {
            is_before(self.points[n - 1].date.as_str(), day)
        }
    }
}

/// Read on days that follow one another, a series gives on each day the last
/// entry that is not after it: as many are passed as there are leading entries
/// dated on or before the day.
pub proof fn a_series_is_read_as_of_the_day(
    dates: Seq<Seq<char>>,
    days: Seq<Seq<char>>,
    k: int,
)
    requires
        0 <= k < days.len(),
        strictly_ascending(days),
    ensures
        reached(dates, days, k) == advance(dates, 0, days[k]),
    decreases k,
{
    if k > 0 {
        a_series_is_read_as_of_the_day(dates, days, k - 1);
        assert(text_before(days[k - 1], days[k]));
        lemma_advance_twice(dates, 0, days[k - 1], days[k]);
    } else {
        assert(reached(dates, days, k - 1) == 0);
    }
}

/// Going on to one day and then to a later one is going on to the later one.
proof fn lemma_advance_twice(dates: Seq<Seq<char>>, i: int, a: Seq<char>, b: Seq<char>)
    requires
        text_before(a, b),
        0 <= i,
    ensures
        advance(dates, advance(dates, i, a), b) == advance(dates, i, b),
    decreases dates.len() - i,
{
    if i < dates.len() && !text_before(a, dates[i]) {
        lemma_advance_twice(dates, i + 1, a, b);
        if text_before(b, dates[i]) {
            text_order_is_transitive(a, b, dates[i]);
        }
    }
}

// ---------------------------------------------------------------------------
// What is recorded
// ---------------------------------------------------------------------------

/// A recorded trade.
#[derive(Debug)]
pub struct HistoryTrade {
    pub date: String,
    pub symbol: String,
    pub transaction_type: String,
    pub quantity: Number,
    /// In the base currency.
    pub price: Number,
    /// In the base currency.
    pub brokerage: Number,
    /// Whether a cash account paid for it.
    pub has_cash_leg: bool,
}

/// A movement of a cash account.
#[derive(Debug)]
pub struct HistoryCash {
    pub date: String,
    pub account_id: i64,
    pub amount: Number,
    pub kind: String,
}

/// A cash account that counts towards the portfolio.
#[derive(Debug)]
pub struct HistoryAccount {
    pub id: i64,
    pub currency: String,
}

/// What the history is made from. Trades and movements are in the order of
/// their dates.
#[derive(Debug)]
pub struct HistoryInputs {
    pub trades: Vec<HistoryTrade>,
    pub cash: Vec<HistoryCash>,
    pub accounts: Vec<HistoryAccount>,
    /// The currency each symbol trades in, where it is known.
    pub currencies: TextMap<String>,
    /// The stored closes of each symbol and of each rate.
    pub closes: TextMap<Vec<DayClose>>,
    /// The live quotes of symbols and rates.
    pub quotes: TextMap<Number>,
    /// The prices entered by hand.
    pub manual: TextMap<Number>,
}

/// The dates of some trades.
pub open spec fn trade_dates(trades: Seq<HistoryTrade>) -> Seq<Seq<char>> {
    Seq::new(trades.len(), |i: int| trades[i].date@)
}

/// The dates of some movements.
pub open spec fn cash_dates(cash: Seq<HistoryCash>) -> Seq<Seq<char>> {
    Seq::new(cash.len(), |i: int| cash[i].date@)
}

/// What a trade adds to the shares of its symbol.
pub open spec fn share_change(t: HistoryTrade) -> Formula {
    if t.transaction_type@ == "purchase"@ {
        num(t.quantity)
    } else if t.transaction_type@ == "sale"@ {
        opposite(num(t.quantity))
    } else {
        num(number(ZERO_BITS))
    }
}

/// The shares of a symbol after some trades.
pub open spec fn shares_after<F: Fn(Formula) -> Number>(
    calc: F,
    trades: Seq<HistoryTrade>,
    symbol: Seq<char>,
) -> Number
    decreases trades.len(),
{
    if trades.len() == 0 {
        number(ZERO_BITS)
    } else {
        let before = shares_after(calc, trades.drop_last(), symbol);
        if trades.last().symbol@ == symbol {
            worth(calc, sum(num(before), share_change(trades.last())))
        } else {
            before
        }
    }
}

/// The balance of an account after some movements, once it has had one.
pub open spec fn balance_after<F: Fn(Formula) -> Number>(
    calc: F,
    cash: Seq<HistoryCash>,
    id: i64,
) -> Option<Number>
    decreases cash.len(),
{
    if cash.len() == 0 {
        None
    } else {
        let before = balance_after(calc, cash.drop_last(), id);
        if cash.last().account_id == id {
            Some(
                worth(
                    calc,
                    sum(
                        num(
                            match before {
                                Some(b) => b,
                                None => number(ZERO_BITS),
                            },
                        ),
                        num(cash.last().amount),
                    ),
                ),
            )
        } else {
            before
        }
    }
}

/// The money that a trade of the day brings in from outside or takes out,
/// added to `flow`. A trade that no cash account paid for is funded from
/// outside; its shares would otherwise look like value from nowhere.
pub open spec fn trade_flow<F: Fn(Formula) -> Number>(
    calc: F,
    flow: Number,
    t: HistoryTrade,
    day: Seq<char>,
) -> Number {
    if t.has_cash_leg || t.date@ != day {
        flow
    } else if t.transaction_type@ == "purchase"@ {
        worth(
            calc,
            sum(
                num(flow),
                sum(product(num(t.quantity), num(t.price)), num(t.brokerage)),
            ),
        )
    } else if t.transaction_type@ == "sale"@ {
        worth(
            calc,
            difference(
                num(flow),
                difference(product(num(t.quantity), num(t.price)), num(t.brokerage)),
            ),
        )
    } else {
        flow
    }
}

/// The flows of some trades added to `flow`.
pub open spec fn trade_flows<F: Fn(Formula) -> Number>(
    calc: F,
    flow: Number,
    trades: Seq<HistoryTrade>,
    day: Seq<char>,
) -> Number
    decreases trades.len(),
{
    if trades.len() == 0 {
        flow
    } else {
        trade_flow(calc, trade_flows(calc, flow, trades.drop_last(), day), trades.last(), day)
    }
}

/// Whether a movement comes from or goes to outside the portfolio. An opening
/// balance does not: it is what the first return is measured from.
pub open spec fn is_external(kind: Seq<char>) -> bool {
    kind == "deposit"@ || kind == "withdrawal"@
}

/// The closes under a key; none where there is no such key.
pub open spec fn series_of(closes: Map<Seq<char>, Vec<DayClose>>, key: Seq<char>) -> Seq<DayClose> {
    if closes.contains_key(key) {
        closes[key]@
    } else {
        seq![]
    }
}

/// The stored rate of a currency once the days up to number `k` have passed.
/// The base currency's is one.
pub open spec fn stored_rate(
    h: HistoryInputs,
    currency: Seq<char>,
    days: Seq<Seq<char>>,
    k: int,
) -> Option<Number> {
    if currency == "AUD"@ {
        Some(number(ONE_BITS))
    } else {
        let points = series_of(h.closes@, fx_pair(currency));
        last_passed(points, reached(close_dates(points), days, k))
    }
}

/// The currency of an account; the base currency where it is unknown.
pub open spec fn account_currency(accounts: Seq<HistoryAccount>, id: i64, i: int) -> Seq<char>
    decreases accounts.len() - i,
{
    if i < 0 || i >= accounts.len() {
        "AUD"@
    } else if accounts[i].id == id {
        accounts[i].currency@
    } else {
        account_currency(accounts, id, i + 1)
    }
}

/// The flow of a movement of day number `k`, added to `flow`.
pub open spec fn cash_flow<F: Fn(Formula) -> Number>(
    calc: F,
    h: HistoryInputs,
    flow: Number,
    c: HistoryCash,
    days: Seq<Seq<char>>,
    k: int,
) -> Number {
    if c.date@ == days[k] && is_external(c.kind@) {
        let rate = match stored_rate(
            h,
            account_currency(h.accounts@, c.account_id, 0),
            days,
            k,
        ) {
            Some(r) => r,
            None => number(ZERO_BITS),
        };
        worth(calc, sum(num(flow), product(num(c.amount), num(rate))))
    } else {
        flow
    }
}

/// The flows of some movements added to `flow`.
pub open spec fn cash_flows<F: Fn(Formula) -> Number>(
    calc: F,
    h: HistoryInputs,
    flow: Number,
    cash: Seq<HistoryCash>,
    days: Seq<Seq<char>>,
    k: int,
) -> Number
    decreases cash.len(),
{
    if cash.len() == 0 {
        flow
    } else {
        cash_flow(
            calc,
            h,
            cash_flows(calc, h, flow, cash.drop_last(), days, k),
            cash.last(),
            days,
            k,
        )
    }
}

/// The money that came in from outside on day number `k`, less what went out.
pub open spec fn flow_on<F: Fn(Formula) -> Number>(
    calc: F,
    h: HistoryInputs,
    days: Seq<Seq<char>>,
    k: int,
) -> Number {
    let td = trade_dates(h.trades@);
    let cd = cash_dates(h.cash@);
    cash_flows(
        calc,
        h,
        trade_flows(
            calc,
            number(ZERO_BITS),
            h.trades@.subrange(reached(td, days, k - 1), reached(td, days, k)),
            days[k],
        ),
        h.cash@.subrange(reached(cd, days, k - 1), reached(cd, days, k)),
        days,
        k,
    )
}

// ---------------------------------------------------------------------------
// What a symbol is worth on a day
// ---------------------------------------------------------------------------

/// The value under a key.
pub open spec fn quoted(map: Map<Seq<char>, Number>, key: Seq<char>) -> Option<Number> {
    if map.contains_key(key) {
        Some(map[key])
    } else {
        None
    }
}

/// The first of two values.
pub open spec fn either(a: Option<Number>, b: Option<Number>) -> Option<Number> {
    if a is Some {
        a
    } else {
        b
    }
}

/// The value of a series on a day: the stored one, and today or past the last
/// stored day the live one, where there is one. So the last point agrees with
/// what the other screens show.
pub open spec fn day_value(
    points: Seq<DayClose>,
    passed: int,
    live: Option<Number>,
    day: Seq<char>,
    today: Seq<char>,
) -> Option<Number> {
    let stored = last_passed(points, passed);
    if day == today || past_end(points, day) {
        either(live, stored)
    } else {
        stored
    }
}

/// The currency a symbol trades in; the base currency where it is unknown.
pub open spec fn trading_currency(h: HistoryInputs, symbol: Seq<char>) -> Seq<char> {
    if h.currencies@.contains_key(symbol) {
        h.currencies@[symbol]@
    } else {
        "AUD"@
    }
}

/// The close of a symbol on day number `k`.
pub open spec fn close_on(
    h: HistoryInputs,
    symbol: Seq<char>,
    days: Seq<Seq<char>>,
    k: int,
    today: Seq<char>,
) -> Option<Number> {
    let points = series_of(h.closes@, symbol);
    day_value(
        points,
        reached(close_dates(points), days, k),
        either(quoted(h.quotes@, symbol), quoted(h.manual@, symbol)),
        days[k],
        today,
    )
}

/// The rate of a symbol's currency on day number `k`.
pub open spec fn rate_on(
    h: HistoryInputs,
    symbol: Seq<char>,
    days: Seq<Seq<char>>,
    k: int,
    today: Seq<char>,
) -> Option<Number> {
    let currency = trading_currency(h, symbol);
    if currency == "AUD"@ {
        Some(number(ONE_BITS))
    } else {
        let points = series_of(h.closes@, fx_pair(currency));
        day_value(
            points,
            reached(close_dates(points), days, k),
            quoted(h.quotes@, fx_pair(currency)),
            days[k],
            today,
        )
    }
}

/// The value of what is held of a symbol on day number `k`, added to `stocks`.
pub open spec fn with_stock<F: Fn(Formula) -> Number>(
    calc: F,
    h: HistoryInputs,
    stocks: Number,
    symbol: Seq<char>,
    days: Seq<Seq<char>>,
    k: int,
    today: Seq<char>,
) -> Number {
    let held = shares_after(
        calc,
        h.trades@.take(reached(trade_dates(h.trades@), days, k)),
        symbol,
    );
    match (close_on(h, symbol, days, k, today), rate_on(h, symbol, days, k, today)) {
        (Some(close), Some(rate)) => if held.at_most(number(ZERO_BITS)) {
            stocks
        } else {
            worth(
                calc,
                sum(num(stocks), product(product(num(held), num(close)), num(rate))),
            )
        },
        _ => stocks,
    }
}

/// The value of what is held of some symbols on day number `k`.
pub open spec fn stocks_on<F: Fn(Formula) -> Number>(
    calc: F,
    h: HistoryInputs,
    symbols: Seq<Seq<char>>,
    days: Seq<Seq<char>>,
    k: int,
    today: Seq<char>,
) -> Number
    decreases symbols.len(),
{
    if symbols.len() == 0 {
        number(ZERO_BITS)
    } else {
        with_stock(
            calc,
            h,
            stocks_on(calc, h, symbols.drop_last(), days, k, today),
            symbols.last(),
            days,
            k,
            today,
        )
    }
}

/// The balance of an account on day number `k`, added to `total`.
pub open spec fn with_account<F: Fn(Formula) -> Number>(
    calc: F,
    h: HistoryInputs,
    total: Number,
    account: HistoryAccount,
    days: Seq<Seq<char>>,
    k: int,
) -> Number {
    let balance = balance_after(
        calc,
        h.cash@.take(reached(cash_dates(h.cash@), days, k)),
        account.id,
    );
    match (balance, stored_rate(h, account.currency@, days, k)) {
        (Some(b), Some(rate)) => worth(calc, sum(num(total), product(num(b), num(rate)))),
        _ => total,
    }
}

/// The cash of some accounts on day number `k`.
pub open spec fn cash_on<F: Fn(Formula) -> Number>(
    calc: F,
    h: HistoryInputs,
    accounts: Seq<HistoryAccount>,
    days: Seq<Seq<char>>,
    k: int,
) -> Number
    decreases accounts.len(),
{
    if accounts.len() == 0 {
        number(ZERO_BITS)
    } else {
        with_account(
            calc,
            h,
            cash_on(calc, h, accounts.drop_last(), days, k),
            accounts.last(),
            days,
            k,
        )
    }
}

/// The portfolio on one day, in the base currency.
#[derive(Debug)]
pub struct DailyValue {
    pub date: String,
    pub stocks: Number,
    pub cash: Number,
    /// What came in from outside, less what went out.
    pub flow: Number,
}

/// Whether `v` is the portfolio on day number `k`. `symbols` are the symbols
/// that were traded.
pub open spec fn is_value_on<F: Fn(Formula) -> Number>(
    calc: F,
    v: DailyValue,
    h: HistoryInputs,
    symbols: Seq<Seq<char>>,
    days: Seq<Seq<char>>,
    k: int,
    today: Seq<char>,
) -> bool {
    &&& v.date@ == days[k]
    &&& v.stocks == stocks_on(calc, h, symbols, days, k, today)
    &&& v.cash == cash_on(calc, h, h.accounts@, days, k)
    &&& v.flow == flow_on(calc, h, days, k)
}


// ---------------------------------------------------------------------------
// Sweeping over the days
// ---------------------------------------------------------------------------

fn change_formula(t: &HistoryTrade) -> (r: Formula)
    ensures
        r == share_change(*t),
{
    if same(t.transaction_type.as_str(), "purchase") {
        Formula::of(t.quantity)
    } else if same(t.transaction_type.as_str(), "sale") {
        Formula::of(t.quantity).negated()
    } else {
        Formula::of_bits(ZERO_BITS)
    }
}

fn add_trade_flow<F: Fn(Formula) -> Number>(flow: Number, t: &HistoryTrade, day: &str, calc: &F) -> (r:
    Number)
    requires
        is_calculator(*calc),
    ensures
        r == trade_flow(*calc, flow, *t, day@),
{
    if t.has_cash_leg || !same(t.date.as_str(), day) {
        return flow;
    }
    let gross = Formula::of(t.quantity).times(Formula::of(t.price));
    if same(t.transaction_type.as_str(), "purchase") {
        evaluate(calc, Formula::of(flow).plus(gross.plus(Formula::of(t.brokerage))))
    } else if same(t.transaction_type.as_str(), "sale") {
        evaluate(calc, Formula::of(flow).minus(gross.minus(Formula::of(t.brokerage))))
    } else {
        flow
    }
}

/// Applies one trade to the shares of all symbols.
fn apply_trade<F: Fn(Formula) -> Number>(
    shares: &mut Vec<Number>,
    symbols: &Vec<String>,
    trades: &Vec<HistoryTrade>,
    i: usize,
    calc: &F,
)
    requires
        is_calculator(*calc),
        i < trades.len(),
        old(shares).len() == symbols.len(),
        forall|j: int|
            0 <= j < symbols.len() ==> #[trigger] old(shares)@[j] == shares_after(
                *calc,
                trades@.take(i as int),
                symbols@[j]@,
            ),
    ensures
        final(shares).len() == symbols.len(),
        forall|j: int|
            0 <= j < symbols.len() ==> #[trigger] final(shares)@[j] == shares_after(
                *calc,
                trades@.take(i + 1),
                symbols@[j]@,
            ),
{
    proof {
        assert(trades@.take(i + 1).drop_last() =~= trades@.take(i as int));
        assert(trades@.take(i + 1).last() == trades@[i as int]);
    }
    let t = &trades[i];
    let mut n: usize = 0;
    while n < symbols.len()
        invariant
            n <= symbols.len(),
            is_calculator(*calc),
            i < trades.len(),
            *t == trades@[i as int],
            trades@.take(i + 1).drop_last() == trades@.take(i as int),
            trades@.take(i + 1).last() == *t,
            shares.len() == symbols.len(),
            forall|j: int|
                0 <= j < n ==> #[trigger] shares@[j] == shares_after(
                    *calc,
                    trades@.take(i + 1),
                    symbols@[j]@,
                ),
            forall|j: int|
                n <= j < symbols.len() ==> #[trigger] shares@[j] == shares_after(
                    *calc,
                    trades@.take(i as int),
                    symbols@[j]@,
                ),
        decreases symbols.len() - n,
    {
        if same(t.symbol.as_str(), symbols[n].as_str()) {
            let now = evaluate(calc, Formula::of(shares[n]).plus(change_formula(t)));
            shares.set(n, now);
        }
        n += 1;
    }
}

/// Applies one movement to the balances of all accounts.
fn apply_cash<F: Fn(Formula) -> Number>(
    balances: &mut Vec<Option<Number>>,
    accounts: &Vec<HistoryAccount>,
    cash: &Vec<HistoryCash>,
    i: usize,
    calc: &F,
)
    requires
        is_calculator(*calc),
        i < cash.len(),
        old(balances).len() == accounts.len(),
        forall|j: int|
            0 <= j < accounts.len() ==> #[trigger] old(balances)@[j] == balance_after(
                *calc,
                cash@.take(i as int),
                accounts@[j].id,
            ),
    ensures
        final(balances).len() == accounts.len(),
        forall|j: int|
            0 <= j < accounts.len() ==> #[trigger] final(balances)@[j] == balance_after(
                *calc,
                cash@.take(i + 1),
                accounts@[j].id,
            ),
{
    proof {
        assert(cash@.take(i + 1).drop_last() =~= cash@.take(i as int));
        assert(cash@.take(i + 1).last() == cash@[i as int]);
    }
    let c = &cash[i];
    let mut n: usize = 0;
    while n < accounts.len()
        invariant
            n <= accounts.len(),
            is_calculator(*calc),
            i < cash.len(),
            *c == cash@[i as int],
            cash@.take(i + 1).drop_last() == cash@.take(i as int),
            cash@.take(i + 1).last() == *c,
            balances.len() == accounts.len(),
            forall|j: int|
                0 <= j < n ==> #[trigger] balances@[j] == balance_after(
                    *calc,
                    cash@.take(i + 1),
                    accounts@[j].id,
                ),
            forall|j: int|
                n <= j < accounts.len() ==> #[trigger] balances@[j] == balance_after(
                    *calc,
                    cash@.take(i as int),
                    accounts@[j].id,
                ),
        decreases accounts.len() - n,
    {
        if c.account_id == accounts[n].id {
            let before = match balances[n] {
                Some(b) => b,
                None => Number { bits: ZERO_BITS },
            };
            let now = evaluate(calc, Formula::of(before).plus(Formula::of(c.amount)));
            balances.set(n, Some(now));
        }
        n += 1;
    }
}

fn lookup(map: &TextMap<Number>, key: &str) -> (r: Option<Number>)
    ensures
        r == quoted(map@, key@),
{
    match map.get(key) {
        Some(v) => Some(*v),
        None => None,
    }
}

fn first_known(a: Option<Number>, b: Option<Number>) -> (r: Option<Number>)
    ensures
        r == either(a, b),
{
    match a {
        Some(v) => Some(v),
        None => b,
    }
}

fn currency_for<'a>(h: &'a HistoryInputs, symbol: &str) -> (r: &'a str)
    ensures
        r@ == trading_currency(*h, symbol@),
{
    match h.currencies.get(symbol) {
        Some(c) => c.as_str(),
        None => "AUD",
    }
}

/// Whether the cursors read the closes under these keys and have passed the
/// days up to number `k`.
spec fn cursors_at(
    cursors: Seq<SeriesCursor>,
    closes: Map<Seq<char>, Vec<DayClose>>,
    keys: Seq<Seq<char>>,
    days: Seq<Seq<char>>,
    k: int,
) -> bool {
    &&& cursors.len() == keys.len()
    &&& forall|j: int|
        0 <= j < cursors.len() ==> {
            &&& (#[trigger] cursors[j]).well_formed()
            &&& cursors[j].points() == series_of(closes, keys[j])
            &&& cursors[j].passed() == reached(
                close_dates(series_of(closes, keys[j])),
                days,
                k,
            )
        }
}

/// Cursors over the closes under some keys, none passed yet.
fn cursors_over<'a>(
    closes: &'a TextMap<Vec<DayClose>>,
    keys: &Vec<String>,
    none: &'a Vec<DayClose>,
    Ghost(days): Ghost<Seq<Seq<char>>>,
) -> (r: Vec<SeriesCursor<'a>>)
    requires
        none@.len() == 0,
    ensures
        cursors_at(r@, closes@, string_views(keys@), days, -1),
{
    let mut out: Vec<SeriesCursor<'a>> = Vec::new();
    let mut i: usize = 0;
    while i < keys.len()
        invariant
            i <= keys.len(),
            none@.len() == 0,
            out@.len() == i,
            forall|j: int|
                0 <= j < i ==> {
                    &&& (#[trigger] out@[j]).well_formed()
                    &&& out@[j].points() == series_of(closes@, keys@[j]@)
                    &&& out@[j].passed() == 0
                },
        decreases keys.len() - i,
    {
        let cursor = match closes.get(keys[i].as_str()) {
            Some(points) => SeriesCursor::new(points),
            None => {
                assert(none@ =~= seq![]);
                SeriesCursor::new(none)
            },
        };
        out.push(cursor);
        i += 1;
    }
    assert(forall|j: int| 0 <= j < keys@.len() ==> string_views(keys@)[j] == keys@[j]@);
    out
}

/// The values that the closes under some keys have on day number `k`.
spec fn values_at(
    values: Seq<Option<Number>>,
    closes: Map<Seq<char>, Vec<DayClose>>,
    keys: Seq<Seq<char>>,
    days: Seq<Seq<char>>,
    k: int,
) -> bool {
    &&& values.len() == keys.len()
    &&& forall|j: int|
        0 <= j < values.len() ==> #[trigger] values[j] == last_passed(
            series_of(closes, keys[j]),
            reached(close_dates(series_of(closes, keys[j])), days, k),
        )
}

/// Goes on to day number `k` with all cursors.
fn go_on<'a>(
    cursors: &mut Vec<SeriesCursor<'a>>,
    day: &str,
    Ghost(closes): Ghost<Map<Seq<char>, Vec<DayClose>>>,
    Ghost(keys): Ghost<Seq<Seq<char>>>,
    Ghost(days): Ghost<Seq<Seq<char>>>,
    Ghost(k): Ghost<int>,
) -> (r: Vec<Option<Number>>)
    requires
        0 <= k < days.len(),
        day@ == days[k],
        cursors_at(old(cursors)@, closes, keys, days, k - 1),
    ensures
        cursors_at(final(cursors)@, closes, keys, days, k),
        values_at(r@, closes, keys, days, k),
{
    let mut values: Vec<Option<Number>> = Vec::new();
    let n: usize = cursors.len();
    let mut i: usize = 0;
    while i < n
        invariant
            0 <= k < days.len(),
            day@ == days[k],
            i <= n,
            n == cursors@.len(),
            n == keys.len(),
            values@.len() == i,
            forall|j: int|
                0 <= j < n ==> {
                    &&& (#[trigger] cursors@[j]).well_formed()
                    &&& cursors@[j].points() == series_of(closes, keys[j])
                    &&& cursors@[j].passed() == reached(
                        close_dates(series_of(closes, keys[j])),
                        days,
                        if j < i {
                            k
                        } else {
                            k - 1
                        },
                    )
                },
            forall|j: int|
                0 <= j < i ==> #[trigger] values@[j] == last_passed(
                    series_of(closes, keys[j]),
                    reached(close_dates(series_of(closes, keys[j])), days, k),
                ),
        decreases n - i,
    {
        let value = cursors[i].value_on(day);
        values.push(value);
        i += 1;
    }
    values
}


/// The rate that a currency has on day number `k`, `value` being what its
/// stored rates give.
fn rate_or_one(currency: &str, value: Option<Number>) -> (r: Option<Number>)
    ensures
        r == (if currency@ == "AUD"@ {
            Some(number(ONE_BITS))
        } else {
            value
        }),
{
    if same(currency, "AUD") {
        Some(Number { bits: ONE_BITS })
    } else {
        value
    }
}

/// The keys of the rates of some accounts.
spec fn account_pairs(accounts: Seq<HistoryAccount>) -> Seq<Seq<char>> {
    Seq::new(accounts.len(), |i: int| fx_pair(accounts[i].currency@))
}

/// The keys of the rates of some symbols.
spec fn symbol_pairs(h: HistoryInputs, symbols: Seq<Seq<char>>) -> Seq<Seq<char>> {
    Seq::new(symbols.len(), |i: int| fx_pair(trading_currency(h, symbols[i])))
}

/// Where an account stands, and with it its currency.
fn account_position(accounts: &Vec<HistoryAccount>, id: i64) -> (r: Option<usize>)
    ensures
        match r {
            Some(i) => i < accounts.len() && account_currency(accounts@, id, 0)
                == accounts@[i as int].currency@,
            None => account_currency(accounts@, id, 0) == "AUD"@,
        },
{
    let mut i: usize = 0;
    while i < accounts.len()
        invariant
            i <= accounts.len(),
            account_currency(accounts@, id, 0) == account_currency(accounts@, id, i as int),
        decreases accounts.len() - i,
    {
        if accounts[i].id == id {
            return Some(i);
        }
        i += 1;
    }
    None
}

/// Whether the shares are those after the trades so far.
spec fn shares_match<F: Fn(Formula) -> Number>(
    calc: F,
    shares: Seq<Number>,
    symbols: Seq<String>,
    trades: Seq<HistoryTrade>,
) -> bool {
    &&& shares.len() == symbols.len()
    &&& forall|j: int|
        0 <= j < symbols.len() ==> #[trigger] shares[j] == shares_after(
            calc,
            trades,
            symbols[j]@,
        )
}

/// Whether the balances are those after the movements so far.
spec fn balances_match<F: Fn(Formula) -> Number>(
    calc: F,
    balances: Seq<Option<Number>>,
    accounts: Seq<HistoryAccount>,
    cash: Seq<HistoryCash>,
) -> bool {
    &&& balances.len() == accounts.len()
    &&& forall|j: int|
        0 <= j < accounts.len() ==> #[trigger] balances[j] == balance_after(
            calc,
            cash,
            accounts[j].id,
        )
}

/// Applies the trades of day number `k` and gives their flow.
fn trades_of_day<F: Fn(Formula) -> Number>(
    h: &HistoryInputs,
    symbols: &Vec<String>,
    shares: &mut Vec<Number>,
    from: usize,
    day: &str,
    calc: &F,
    Ghost(days): Ghost<Seq<Seq<char>>>,
    Ghost(k): Ghost<int>,
) -> (r: (usize, Number))
    requires
        is_calculator(*calc),
        0 <= k < days.len(),
        day@ == days[k],
        from == reached(trade_dates(h.trades@), days, k - 1),
        shares_match(*calc, old(shares)@, symbols@, h.trades@.take(from as int)),
    ensures
        r.0 == reached(trade_dates(h.trades@), days, k),
        from <= r.0 <= h.trades@.len(),
        shares_match(*calc, final(shares)@, symbols@, h.trades@.take(r.0 as int)),
        r.1 == trade_flows(
            *calc,
            number(ZERO_BITS),
            h.trades@.subrange(from as int, r.0 as int),
            day@,
        ),
{
    let ghost dates = trade_dates(h.trades@);
    proof {
        lemma_reached_bounds(dates, days, k - 1);
    }
    let mut i: usize = from;
    let mut flow = Number { bits: ZERO_BITS };
    assert(h.trades@.subrange(from as int, from as int) =~= Seq::<HistoryTrade>::empty());
    while i < h.trades.len() && !is_before(day, h.trades[i].date.as_str())
        invariant
            is_calculator(*calc),
            dates == trade_dates(h.trades@),
            from <= i <= h.trades@.len(),
            advance(dates, from as int, day@) == advance(dates, i as int, day@),
            shares_match(*calc, shares@, symbols@, h.trades@.take(i as int)),
            flow == trade_flows(
                *calc,
                number(ZERO_BITS),
                h.trades@.subrange(from as int, i as int),
                day@,
            ),
        decreases h.trades.len() - i,
    {
        proof {
            let s = h.trades@.subrange(from as int, i + 1);
            assert(s.drop_last() =~= h.trades@.subrange(from as int, i as int));
            assert(s.last() == h.trades@[i as int]);
        }
        apply_trade(shares, symbols, &h.trades, i, calc);
        flow = add_trade_flow(flow, &h.trades[i], day, calc);
        i += 1;
    }
    (i, flow)
}

/// Applies the movements of day number `k` and adds their flow to `flow`.
fn cash_of_day<F: Fn(Formula) -> Number>(
    h: &HistoryInputs,
    balances: &mut Vec<Option<Number>>,
    rates: &Vec<Option<Number>>,
    from: usize,
    day: &str,
    flow: Number,
    calc: &F,
    Ghost(days): Ghost<Seq<Seq<char>>>,
    Ghost(k): Ghost<int>,
) -> (r: (usize, Number))
    requires
        is_calculator(*calc),
        0 <= k < days.len(),
        day@ == days[k],
        from == reached(cash_dates(h.cash@), days, k - 1),
        balances_match(*calc, old(balances)@, h.accounts@, h.cash@.take(from as int)),
        rates@.len() == h.accounts@.len(),
        forall|a: int|
            0 <= a < rates@.len() ==> #[trigger] rates@[a] == stored_rate(
                *h,
                h.accounts@[a].currency@,
                days,
                k,
            ),
    ensures
        r.0 == reached(cash_dates(h.cash@), days, k),
        from <= r.0 <= h.cash@.len(),
        balances_match(*calc, final(balances)@, h.accounts@, h.cash@.take(r.0 as int)),
        r.1 == cash_flows(
            *calc,
            *h,
            flow,
            h.cash@.subrange(from as int, r.0 as int),
            days,
            k,
        ),
{
    let ghost dates = cash_dates(h.cash@);
    proof {
        lemma_reached_bounds(dates, days, k - 1);
    }
    let mut i: usize = from;
    let mut total = flow;
    assert(h.cash@.subrange(from as int, from as int) =~= Seq::<HistoryCash>::empty());
    while i < h.cash.len() && !is_before(day, h.cash[i].date.as_str())
        invariant
            is_calculator(*calc),
            0 <= k < days.len(),
            day@ == days[k],
            dates == cash_dates(h.cash@),
            from <= i <= h.cash@.len(),
            advance(dates, from as int, day@) == advance(dates, i as int, day@),
            balances_match(*calc, balances@, h.accounts@, h.cash@.take(i as int)),
            rates@.len() == h.accounts@.len(),
            forall|a: int|
                0 <= a < rates@.len() ==> #[trigger] rates@[a] == stored_rate(
                    *h,
                    h.accounts@[a].currency@,
                    days,
                    k,
                ),
            total == cash_flows(
                *calc,
                *h,
                flow,
                h.cash@.subrange(from as int, i as int),
                days,
                k,
            ),
        decreases h.cash.len() - i,
    {
        proof {
            let s = h.cash@.subrange(from as int, i + 1);
            assert(s.drop_last() =~= h.cash@.subrange(from as int, i as int));
            assert(s.last() == h.cash@[i as int]);
        }
        apply_cash(balances, &h.accounts, &h.cash, i, calc);
        let c = &h.cash[i];
        let external = same(c.kind.as_str(), "deposit") || same(c.kind.as_str(), "withdrawal");
        if external && same(c.date.as_str(), day) {
            let rate = match account_position(&h.accounts, c.account_id) {
                Some(a) => rates[a],
                None => Some(Number { bits: ONE_BITS }),
            };
            let factor = match rate {
                Some(r) => r,
                None => Number { bits: ZERO_BITS },
            };
            total = evaluate(
                calc,
                Formula::of(total).plus(Formula::of(c.amount).times(Formula::of(factor))),
            );
        }
        i += 1;
    }
    (i, total)
}

/// The value of a series on a day.
fn value_of_day(
    cursor: &SeriesCursor,
    stored: Option<Number>,
    live: Option<Number>,
    day: &str,
    is_today: bool,
    Ghost(today): Ghost<Seq<char>>,
) -> (r: Option<Number>)
    requires
        cursor.well_formed(),
        stored == last_passed(cursor.points(), cursor.passed()),
        is_today == (day@ == today),
    ensures
        r == day_value(cursor.points(), cursor.passed(), live, day@, today),
{
    if is_today || cursor.is_past_end(day) {
        first_known(live, stored)
    } else {
        stored
    }
}

/// The portfolio on each of the given days, in their order. `symbols` are the
/// symbols that were traded, and `today` is the current day.
///
/// What was recorded up to a day has been applied on it, so that whatever
/// precedes the first day makes the position that the first day opens with.
pub fn sweep_days<F: Fn(Formula) -> Number>(
    h: &HistoryInputs,
    symbols: &Vec<String>,
    days: &Vec<String>,
    today: &str,
    calc: &F,
) -> (r: Vec<DailyValue>)
    requires
        is_calculator(*calc),
    ensures
        r@.len() == days@.len(),
        forall|k: int|
            0 <= k < r@.len() ==> is_value_on(
                *calc,
                #[trigger] r@[k],
                *h,
                string_views(symbols@),
                string_views(days@),
                k,
                today@,
            ),
{
    let ghost views = string_views(days@);
    let ghost names = string_views(symbols@);
    let none: Vec<DayClose> = Vec::new();
    let mut pairs: Vec<String> = Vec::new();
    let mut shares: Vec<Number> = Vec::new();
    let mut i: usize = 0;
    while i < symbols.len()
        invariant
            i <= symbols.len(),
            names == string_views(symbols@),
            pairs@.len() == i,
            shares@.len() == i,
            forall|j: int| 0 <= j < i ==> #[trigger] shares@[j] == number(ZERO_BITS),
            forall|j: int|
                0 <= j < i ==> (#[trigger] pairs@[j])@ == fx_pair(
                    trading_currency(*h, names[j]),
                ),
        decreases symbols.len() - i,
    {
        assert(names[i as int] == symbols@[i as int]@);
        pairs.push(fx_pair_symbol(currency_for(h, symbols[i].as_str())));
        shares.push(Number { bits: ZERO_BITS });
        i += 1;
    }
    let mut account_keys: Vec<String> = Vec::new();
    let mut balances: Vec<Option<Number>> = Vec::new();
    let mut a: usize = 0;
    while a < h.accounts.len()
        invariant
            a <= h.accounts.len(),
            account_keys@.len() == a,
            balances@.len() == a,
            forall|j: int| 0 <= j < a ==> #[trigger] balances@[j] is None,
            forall|j: int|
                0 <= j < a ==> (#[trigger] account_keys@[j])@ == fx_pair(
                    h.accounts@[j].currency@,
                ),
        decreases h.accounts.len() - a,
    {
        account_keys.push(fx_pair_symbol(h.accounts[a].currency.as_str()));
        balances.push(None);
        a += 1;
    }
    let ghost pair_keys = symbol_pairs(*h, names);
    let ghost acct_keys = account_pairs(h.accounts@);
    proof {
        assert(string_views(pairs@) =~= pair_keys);
        assert(string_views(account_keys@) =~= acct_keys);
        assert(h.trades@.take(0) =~= Seq::<HistoryTrade>::empty());
        assert(h.cash@.take(0) =~= Seq::<HistoryCash>::empty());
        assert(reached(trade_dates(h.trades@), views, -1) == 0);
        assert(reached(cash_dates(h.cash@), views, -1) == 0);
    }
    let mut prices = cursors_over(&h.closes, symbols, &none, Ghost(views));
    let mut rates = cursors_over(&h.closes, &pairs, &none, Ghost(views));
    let mut account_rates = cursors_over(&h.closes, &account_keys, &none, Ghost(views));
    let mut trade_index: usize = 0;
    let mut cash_index: usize = 0;
    let mut out: Vec<DailyValue> = Vec::new();
    let mut k: usize = 0;
    while k < days.len()
        invariant
            k <= days.len(),
            is_calculator(*calc),
            views == string_views(days@),
            names == string_views(symbols@),
            pair_keys == symbol_pairs(*h, names),
            acct_keys == account_pairs(h.accounts@),
            pairs@.len() == symbols@.len(),
            string_views(pairs@) == pair_keys,
            cursors_at(prices@, h.closes@, names, views, k - 1),
            cursors_at(rates@, h.closes@, pair_keys, views, k - 1),
            cursors_at(account_rates@, h.closes@, acct_keys, views, k - 1),
            trade_index == reached(trade_dates(h.trades@), views, k - 1),
            cash_index == reached(cash_dates(h.cash@), views, k - 1),
            shares_match(*calc, shares@, symbols@, h.trades@.take(trade_index as int)),
            balances_match(*calc, balances@, h.accounts@, h.cash@.take(cash_index as int)),
            out@.len() == k,
            forall|j: int|
                0 <= j < k ==> is_value_on(
                    *calc,
                    #[trigger] out@[j],
                    *h,
                    names,
                    views,
                    j,
                    today@,
                ),
        decreases days.len() - k,
    {
        let day = days[k].as_str();
        assert(views[k as int] == day@);
        let is_today = same(day, today);
        let price_values = go_on(
            &mut prices,
            day,
            Ghost(h.closes@),
            Ghost(names),
            Ghost(views),
            Ghost(k as int),
        );
        let rate_values = go_on(
            &mut rates,
            day,
            Ghost(h.closes@),
            Ghost(pair_keys),
            Ghost(views),
            Ghost(k as int),
        );
        let account_values = go_on(
            &mut account_rates,
            day,
            Ghost(h.closes@),
            Ghost(acct_keys),
            Ghost(views),
            Ghost(k as int),
        );
        // The stored rate of each account's currency today.
        let mut cash_rates: Vec<Option<Number>> = Vec::new();
        let mut n: usize = 0;
        while n < h.accounts.len()
            invariant
                n <= h.accounts.len(),
                k < views.len(),
                acct_keys == account_pairs(h.accounts@),
                values_at(account_values@, h.closes@, acct_keys, views, k as int),
                cash_rates@.len() == n,
                forall|j: int|
                    0 <= j < n ==> #[trigger] cash_rates@[j] == stored_rate(
                        *h,
                        h.accounts@[j].currency@,
                        views,
                        k as int,
                    ),
            decreases h.accounts.len() - n,
        {
            assert(acct_keys[n as int] == fx_pair(h.accounts@[n as int].currency@));
            let rate = rate_or_one(h.accounts[n].currency.as_str(), account_values[n]);
            cash_rates.push(rate);
            n += 1;
        }
        let (trades_done, traded) = trades_of_day(
            h,
            symbols,
            &mut shares,
            trade_index,
            day,
            calc,
            Ghost(views),
            Ghost(k as int),
        );
        let (cash_done, flow) = cash_of_day(
            h,
            &mut balances,
            &cash_rates,
            cash_index,
            day,
            traded,
            calc,
            Ghost(views),
            Ghost(k as int),
        );
        trade_index = trades_done;
        cash_index = cash_done;
        let mut stocks = Number { bits: ZERO_BITS };
        let mut s: usize = 0;
        while s < symbols.len()
            invariant
                s <= symbols.len(),
                is_calculator(*calc),
                k < views.len(),
                views[k as int] == day@,
                is_today == (day@ == today@),
                names == string_views(symbols@),
                pair_keys == symbol_pairs(*h, names),
                pairs@.len() == symbols@.len(),
                string_views(pairs@) == pair_keys,
                cursors_at(prices@, h.closes@, names, views, k as int),
                cursors_at(rates@, h.closes@, pair_keys, views, k as int),
                values_at(price_values@, h.closes@, names, views, k as int),
                values_at(rate_values@, h.closes@, pair_keys, views, k as int),
                trade_index == reached(trade_dates(h.trades@), views, k as int),
                shares_match(*calc, shares@, symbols@, h.trades@.take(trade_index as int)),
                stocks == stocks_on(
                    *calc,
                    *h,
                    names.take(s as int),
                    views,
                    k as int,
                    today@,
                ),
            decreases symbols.len() - s,
        {
            let symbol = symbols[s].as_str();
            proof {
                assert(names.take(s + 1).drop_last() =~= names.take(s as int));
                assert(names.take(s + 1).last() == symbol@);
                assert(names[s as int] == symbol@);
                assert(pair_keys[s as int] == fx_pair(trading_currency(*h, symbol@)));
                assert(string_views(pairs@)[s as int] == pairs@[s as int]@);
            }
            let held = shares[s];
            let live = first_known(lookup(&h.quotes, symbol), lookup(&h.manual, symbol));
            let close = value_of_day(
                &prices[s],
                price_values[s],
                live,
                day,
                is_today,
                Ghost(today@),
            );
            let currency = currency_for(h, symbol);
            let rate = if same(currency, "AUD") {
                Some(Number { bits: ONE_BITS })
            } else {
                value_of_day(
                    &rates[s],
                    rate_values[s],
                    lookup(&h.quotes, pairs[s].as_str()),
                    day,
                    is_today,
                    Ghost(today@),
                )
            };
            assert(close == close_on(*h, symbol@, views, k as int, today@));
            assert(rate == rate_on(*h, symbol@, views, k as int, today@));
            if !held.no_more_than(Number { bits: ZERO_BITS }) {
                match (close, rate) {
                    (Some(c), Some(r)) => {
                        stocks = evaluate(
                            calc,
                            Formula::of(stocks).plus(
                                Formula::of(held).times(Formula::of(c)).times(Formula::of(r)),
                            ),
                        );
                    },
                    _ => {},
                }
            }
            s += 1;
        }
        assert(names.take(symbols.len() as int) =~= names);
        let mut cash = Number { bits: ZERO_BITS };
        let mut m: usize = 0;
        while m < h.accounts.len()
            invariant
                m <= h.accounts.len(),
                is_calculator(*calc),
                cash_index == reached(cash_dates(h.cash@), views, k as int),
                balances_match(*calc, balances@, h.accounts@, h.cash@.take(cash_index as int)),
                cash_rates@.len() == h.accounts@.len(),
                forall|j: int|
                    0 <= j < cash_rates@.len() ==> #[trigger] cash_rates@[j] == stored_rate(
                        *h,
                        h.accounts@[j].currency@,
                        views,
                        k as int,
                    ),
                cash == cash_on(*calc, *h, h.accounts@.take(m as int), views, k as int),
            decreases h.accounts.len() - m,
        {
            proof {
                assert(h.accounts@.take(m + 1).drop_last() =~= h.accounts@.take(m as int));
                assert(h.accounts@.take(m + 1).last() == h.accounts@[m as int]);
            }
            match (balances[m], cash_rates[m]) {
                (Some(b), Some(r)) => {
                    cash = evaluate(
                        calc,
                        Formula::of(cash).plus(Formula::of(b).times(Formula::of(r))),
                    );
                },
                _ => {},
            }
            m += 1;
        }
        assert(h.accounts@.take(h.accounts.len() as int) =~= h.accounts@);
        let value = DailyValue { date: days[k].clone(), stocks, cash, flow };
        assert(is_value_on(*calc, value, *h, names, views, k as int, today@));
        out.push(value);
        k += 1;
    }
    out
}


// ---------------------------------------------------------------------------
// From the records to the days
// ---------------------------------------------------------------------------

/// Whether an account counts towards the portfolio.
pub open spec fn counts(accounts: Seq<HistoryAccount>, id: i64) -> bool {
    exists|i: int| 0 <= i < accounts.len() && (#[trigger] accounts[i]).id == id
}

/// The movements of those accounts that count towards the portfolio. An
/// everyday account can be kept without being invested capital.
pub open spec fn counted_cash(cash: Seq<HistoryCash>, accounts: Seq<HistoryAccount>) -> Seq<
    HistoryCash,
>
    decreases cash.len(),
{
    if cash.len() == 0 {
        seq![]
    } else if counts(accounts, cash.last().account_id) {
        counted_cash(cash.drop_last(), accounts).push(cash.last())
    } else {
        counted_cash(cash.drop_last(), accounts)
    }
}

fn account_counts(accounts: &Vec<HistoryAccount>, id: i64) -> (r: bool)
    ensures
        r == counts(accounts@, id),
{
    let mut i: usize = 0;
    while i < accounts.len()
        invariant
            i <= accounts.len(),
            forall|j: int| 0 <= j < i ==> (#[trigger] accounts@[j]).id != id,
        decreases accounts.len() - i,
    {
        if accounts[i].id == id {
            return true;
        }
        i += 1;
    }
    false
}

/// The movements of those accounts that count towards the portfolio.
fn keep_counted_cash(cash: Vec<HistoryCash>, accounts: &Vec<HistoryAccount>) -> (r: Vec<
    HistoryCash,
>)
    ensures
        r@ == counted_cash(cash@, accounts@),
{
    let mut out: Vec<HistoryCash> = Vec::new();
    let ghost all = cash@;
    assert(all.take(0) =~= Seq::<HistoryCash>::empty());
    for c in it: cash
        invariant
            it.seq() == all,
            out@ == counted_cash(all.take(it.index() as int), accounts@),
    {
        let ghost n = it.index() as int;
        assert(all.take(n + 1).drop_last() =~= all.take(n));
        assert(all.take(n + 1).last() == c);
        if account_counts(accounts, c.account_id) {
            out.push(c);
        }
    }
    assert(all.take(all.len() as int) =~= all);
    out
}

/// The earlier of two dates, of which the first may be missing.
pub open spec fn earlier_of(a: Option<Seq<char>>, b: Seq<char>) -> Option<Seq<char>> {
    match a {
        Some(x) => if text_before(b, x) {
            Some(b)
        } else {
            Some(x)
        },
        None => Some(b),
    }
}

/// The earliest of some dates.
pub open spec fn earliest(dates: Seq<Seq<char>>) -> Option<Seq<char>>
    decreases dates.len(),
{
    if dates.len() == 0 {
        None
    } else {
        earlier_of(earliest(dates.drop_last()), dates.last())
    }
}

/// The first day that anything is recorded on.
pub open spec fn first_record(h: HistoryInputs) -> Option<Seq<char>> {
    earliest(trade_dates(h.trades@) + cash_dates(h.cash@))
}

/// The first day that anything is recorded on.
fn first_recorded(h: &HistoryInputs) -> (r: Option<String>)
    ensures
        option_view(r) == first_record(*h),
{
    let ghost all = trade_dates(h.trades@) + cash_dates(h.cash@);
    let mut out: Option<String> = None;
    let mut i: usize = 0;
    assert(all.take(0) =~= Seq::<Seq<char>>::empty());
    while i < h.trades.len()
        invariant
            i <= h.trades.len(),
            all == trade_dates(h.trades@) + cash_dates(h.cash@),
            option_view(out) == earliest(all.take(i as int)),
        decreases h.trades.len() - i,
    {
        assert(all.take(i + 1).drop_last() =~= all.take(i as int));
        assert(all.take(i + 1).last() == h.trades@[i as int].date@);
        out = keep_earlier(out, h.trades[i].date.as_str());
        i += 1;
    }
    let mut j: usize = 0;
    while j < h.cash.len()
        invariant
            j <= h.cash.len(),
            all == trade_dates(h.trades@) + cash_dates(h.cash@),
            option_view(out) == earliest(all.take(h.trades@.len() + j)),
        decreases h.cash.len() - j,
    {
        let ghost n = h.trades@.len() + j;
        assert(all.take(n + 1).drop_last() =~= all.take(n));
        assert(all.take(n + 1).last() == h.cash@[j as int].date@);
        out = keep_earlier(out, h.cash[j].date.as_str());
        j += 1;
    }
    assert(all.take(all.len() as int) =~= all);
    out
}

fn keep_earlier(a: Option<String>, b: &str) -> (r: Option<String>)
    ensures
        option_view(r) == earlier_of(option_view(a), b@),
{
    match a {
        Some(x) => if is_before(b, x.as_str()) {
            Some(b.to_owned())
        } else {
            Some(x)
        },
        None => Some(b.to_owned()),
    }
}

/// The days a history covers, `first` and `last` being the days it was asked
/// for, where they can be read.
pub open spec fn day_range(first: Option<int>, last: Option<int>) -> Result<(int, int), Seq<char>> {
    match (first, last) {
        (Some(a), Some(b)) => if b < a {
            Err("`to` must not be before `from`"@)
        } else if a > MIN_DAY {
            Ok((a - 1, b))
        } else {
            Ok((a, b))
        },
        _ => Err("Invalid date range. Use YYYY-MM-DD."@),
    }
}

/// The days a history covers. It starts a day early: the first day is the
/// anchor that carries the value which the window opens with.
pub fn history_range(first: Option<i32>, last: Option<i32>) -> (r: Result<(i32, i32), String>)
    requires
        first is Some ==> MIN_DAY <= first->0 <= MAX_DAY,
        last is Some ==> MIN_DAY <= last->0 <= MAX_DAY,
    ensures
        match r {
            Ok(p) => day_range(option_day(first), option_day(last)) == Ok::<
                (int, int),
                Seq<char>,
            >((p.0 as int, p.1 as int)) && MIN_DAY <= p.0 <= p.1 <= MAX_DAY,
            Err(e) => day_range(option_day(first), option_day(last)) == Err::<
                (int, int),
                Seq<char>,
            >(e@),
        },
{
    match (first, last) {
        (Some(a), Some(b)) => if b < a {
            Err("`to` must not be before `from`".to_owned())
        } else if a > MIN_DAY {
            Ok((a - 1, b))
        } else {
            Ok((a, b))
        },
        _ => Err("Invalid date range. Use YYYY-MM-DD.".to_owned()),
    }
}

/// The texts of the days from `first` to `last`.
pub open spec fn day_texts(first: int, last: int) -> Seq<Seq<char>> {
    Seq::new(
        if last < first {
            0
        } else {
            (last - first + 1) as nat
        },
        |i: int| date_text(first + i)->0,
    )
}

/// The texts of the days from `first` to `last`.
pub fn days_between(first: i32, last: i32) -> (r: Vec<String>)
    requires
        MIN_DAY <= first,
        last <= MAX_DAY,
    ensures
        string_views(r@) == day_texts(first as int, last as int),
{
    let mut out: Vec<String> = Vec::new();
    let mut d: i32 = first;
    while d <= last
        invariant
            MIN_DAY <= first <= d,
            last <= MAX_DAY,
            d <= last + 1 || d == first,
            out@.len() == d - first,
            forall|j: int| 0 <= j < out@.len() ==> Some((#[trigger] out@[j])@) == date_text(first + j),
        decreases last - d + 1,
    {
        match format_day(d) {
            Some(t) => {
                out.push(t);
            },
            None => {
                assert(false);
            },
        }
        d += 1;
    }
    assert(string_views(out@) =~= day_texts(first as int, last as int));
    out
}

/// The symbols that were traded, in order.
pub open spec fn are_traded_symbols(symbols: Seq<Seq<char>>, trades: Seq<HistoryTrade>) -> bool {
    &&& strictly_ascending(symbols)
    &&& symbols.to_set() == Seq::new(trades.len(), |i: int| trades[i].symbol@).to_set()
}

/// The symbols that were traded, in order.
fn traded_symbols(trades: &Vec<HistoryTrade>) -> (r: Vec<String>)
    ensures
        are_traded_symbols(string_views(r@), trades@),
{
    let mut all: Vec<String> = Vec::new();
    let mut i: usize = 0;
    while i < trades.len()
        invariant
            i <= trades.len(),
            all@.len() == i,
            forall|j: int| 0 <= j < i ==> (#[trigger] all@[j])@ == trades@[j].symbol@,
        decreases trades.len() - i,
    {
        all.push(trades[i].symbol.clone());
        i += 1;
    }
    assert(string_views(all@) =~= Seq::new(trades@.len(), |i: int| trades@[i].symbol@));
    distinct_sorted(&all)
}

/// The day from which a history was asked for, as text.
pub open spec fn asked_start(h: HistoryInputs, from: Option<Seq<char>>) -> Seq<char> {
    match from {
        Some(d) => d,
        None => first_record(h)->0,
    }
}

/// The day up to which a history was asked for, as text.
pub open spec fn asked_end(to: Option<Seq<char>>, today: Seq<char>) -> Seq<char> {
    match to {
        Some(d) => d,
        None => today,
    }
}

/// Whether `r` is the history of the portfolio.
pub open spec fn is_history<F: Fn(Formula) -> Number>(
    calc: F,
    r: Result<Vec<DailyValue>, String>,
    h: HistoryInputs,
    from: Option<Seq<char>>,
    to: Option<Seq<char>>,
    today: Seq<char>,
) -> bool {
    let range = day_range(
        date_number(asked_start(h, from)),
        date_number(asked_end(to, today)),
    );
    if h.trades@.len() == 0 && h.cash@.len() == 0 {
        r is Ok && r->Ok_0@.len() == 0
    } else {
        match range {
            Err(e) => r is Err && r->Err_0@ == e,
            Ok(p) => r is Ok && exists|symbols: Seq<Seq<char>>| #[trigger]
                are_traded_symbols(symbols, h.trades@) && {
                    let days = day_texts(p.0, p.1);
                    &&& r->Ok_0@.len() == days.len()
                    &&& forall|k: int|
                        0 <= k < days.len() ==> is_value_on(
                            calc,
                            #[trigger] r->Ok_0@[k],
                            h,
                            symbols,
                            days,
                            k,
                            today,
                        )
                },
        }
    }
}

fn history_of<F: Fn(Formula) -> Number>(
    h: &HistoryInputs,
    from: Option<&str>,
    to: Option<&str>,
    today: &str,
    calc: &F,
) -> (r: Result<Vec<DailyValue>, String>)
    requires
        is_calculator(*calc),
    ensures
        is_history(*calc, r, *h, option_slice_view(from), option_slice_view(to), today@),
{
    if h.trades.len() == 0 && h.cash.len() == 0 {
        return Ok(Vec::new());
    }
    let earliest_day = first_recorded(h);
    proof {
        lemma_earliest_exists(trade_dates(h.trades@) + cash_dates(h.cash@));
    }
    let first = match from {
        Some(d) => parse_day(d),
        None => match &earliest_day {
            Some(d) => parse_day(d.as_str()),
            None => None,
        },
    };
    let last = match to {
        Some(d) => parse_day(d),
        None => parse_day(today),
    };
    match history_range(first, last) {
        Err(e) => Err(e),
        Ok((a, b)) => {
            let days = days_between(a, b);
            let symbols = traded_symbols(&h.trades);
            let values = sweep_days(h, &symbols, &days, today, calc);
            assert(are_traded_symbols(string_views(symbols@), h.trades@));
            Ok(values)
        },
    }
}

/// Whether `kept` is `h` with the movements of the portfolio's own accounts only.
pub open spec fn is_counted(kept: HistoryInputs, h: HistoryInputs) -> bool {
    &&& kept.cash@ == counted_cash(h.cash@, h.accounts@)
    &&& kept.trades == h.trades
    &&& kept.accounts == h.accounts
    &&& kept.currencies == h.currencies
    &&& kept.closes == h.closes
    &&& kept.quotes == h.quotes
    &&& kept.manual == h.manual
}

/// The value of the portfolio day by day, with the money that came in from
/// outside or went out. Movements of accounts that are not part of the
/// portfolio are left out.
///
/// The first day is an anchor: the day before the window, which carries the
/// value that the window opens with. Nothing is recorded, nothing is returned;
/// `from` and `to` default to the first day with a record and to `today`.
pub fn build_portfolio_history<F: Fn(Formula) -> Number>(
    h: HistoryInputs,
    from: Option<&str>,
    to: Option<&str>,
    today: &str,
    calc: &F,
) -> (r: Result<Vec<DailyValue>, String>)
    requires
        is_calculator(*calc),
    ensures
        exists|kept: HistoryInputs| #[trigger]
            is_counted(kept, h) && is_history(
                *calc,
                r,
                kept,
                option_slice_view(from),
                option_slice_view(to),
                today@,
            ),
{
    let cash = keep_counted_cash(h.cash, &h.accounts);
    let kept = HistoryInputs {
        trades: h.trades,
        cash,
        accounts: h.accounts,
        currencies: h.currencies,
        closes: h.closes,
        quotes: h.quotes,
        manual: h.manual,
    };
    assert(is_counted(kept, h));
    history_of(&kept, from, to, today, calc)
}

proof fn lemma_earliest_exists(dates: Seq<Seq<char>>)
    requires
        dates.len() > 0,
    ensures
        earliest(dates) is Some,
{
}

/// The day a history starts at: the one asked for, but never before the floor.
pub open spec fn floored_start(from: Option<Seq<char>>, floor: Option<Seq<char>>) -> Option<
    Seq<char>,
> {
    match (from, floor) {
        (Some(a), Some(b)) => if text_before(a, b) {
            Some(b)
        } else {
            Some(a)
        },
        (None, b) => b,
        (a, None) => a,
    }
}

/// The floor that is stored, where it is not blank.
pub open spec fn stored_floor(value: Option<Seq<char>>) -> Option<Seq<char>> {
    match value {
        Some(v) => if is_blank(v) {
            None
        } else {
            Some(trim_text(v))
        },
        None => None,
    }
}

/// The floor that is stored, where it is not blank.
pub fn history_floor<'a>(value: Option<&'a str>) -> (r: Option<&'a str>)
    ensures
        option_slice_view(r) == stored_floor(option_slice_view(value)),
{
    match value {
        Some(v) => {
            let t = trimmed(v);
            if t.is_empty() {
                None
            } else {
                Some(t)
            }
        },
        None => None,
    }
}

/// The day a history starts at. The floor holds for every range: one of five
/// years reaches as far into the years without prices as an unbounded one.
pub fn history_start<'a>(from: Option<&'a str>, floor: Option<&'a str>) -> (r: Option<&'a str>)
    ensures
        option_slice_view(r) == floored_start(option_slice_view(from), option_slice_view(floor)),
{
    match (from, floor) {
        (Some(a), Some(b)) => if is_before(a, b) {
            Some(b)
        } else {
            Some(a)
        },
        (None, b) => b,
        (a, None) => a,
    }
}

// ---------------------------------------------------------------------------
// Laws
// ---------------------------------------------------------------------------

/// A floor never widens a range: the start is never before the one asked for,
/// nor before the floor.
pub proof fn a_floor_only_narrows(from: Option<Seq<char>>, floor: Option<Seq<char>>)
    ensures
        from is Some ==> !text_before(floored_start(from, floor)->0, from->0),
        floor is Some ==> !text_before(floored_start(from, floor)->0, floor->0),
        floor is None ==> floored_start(from, floor) == from,
{
    if from is Some {
        text_order_is_irreflexive(from->0);
    }
    if floor is Some {
        text_order_is_irreflexive(floor->0);
    }
    if from is Some && floor is Some && text_before(from->0, floor->0) && text_before(
        floor->0,
        from->0,
    ) {
        text_order_is_transitive(from->0, floor->0, from->0);
        text_order_is_irreflexive(from->0);
    }
}

/// A trade that a cash account paid for is no money from outside, whatever its
/// size: only its cash movement is recorded, inside the portfolio.
pub proof fn a_settled_trade_is_no_flow<F: Fn(Formula) -> Number>(
    calc: F,
    flow: Number,
    t: HistoryTrade,
    day: Seq<char>,
)
    requires
        t.has_cash_leg,
    ensures
        trade_flow(calc, flow, t, day) == flow,
{
}

/// Only deposits and withdrawals are flows: income, costs, trades, conversions,
/// opening balances and adjustments leave the flow of a day as it is.
pub proof fn other_movements_are_no_flow<F: Fn(Formula) -> Number>(
    calc: F,
    h: HistoryInputs,
    flow: Number,
    c: HistoryCash,
    days: Seq<Seq<char>>,
    k: int,
)
    requires
        c.kind@ != "deposit"@,
        c.kind@ != "withdrawal"@,
    ensures
        cash_flow(calc, h, flow, c, days, k) == flow,
{
}

/// Prices are no flow: what came in and went out does not depend on the closes
/// of the symbols, only on what was recorded and on the rates of the accounts.
pub proof fn a_price_rise_is_no_flow<F: Fn(Formula) -> Number>(
    calc: F,
    flow: Number,
    trades: Seq<HistoryTrade>,
    day: Seq<char>,
)
    requires
        forall|i: int|
            0 <= i < trades.len() ==> (#[trigger] trades[i]).date@ != day,
    ensures
        trade_flows(calc, flow, trades, day) == flow,
    decreases trades.len(),
{
    if trades.len() > 0 {
        assert(trades[trades.len() - 1].date@ != day);
        assert forall|i: int| 0 <= i < trades.drop_last().len() implies (
        #[trigger] trades.drop_last()[i]).date@ != day by {
            assert(trades[i].date@ != day);
        }
        a_price_rise_is_no_flow(calc, flow, trades.drop_last(), day);
    }
}

/// An account that is not part of the portfolio brings neither value nor flow:
/// none of its movements is kept.
pub proof fn an_account_outside_the_portfolio_is_left_out(
    cash: Seq<HistoryCash>,
    accounts: Seq<HistoryAccount>,
    i: int,
)
    requires
        0 <= i < counted_cash(cash, accounts).len(),
    ensures
        counts(accounts, counted_cash(cash, accounts)[i].account_id),
    decreases cash.len(),
{
    if cash.len() > 0 {
        let less = counted_cash(cash.drop_last(), accounts);
        if i < less.len() {
            an_account_outside_the_portfolio_is_left_out(cash.drop_last(), accounts, i);
        }
    }
}

/// Past the last stored close the live price counts before the stored one; on
/// a day with later closes the stored one does.
pub proof fn history_stays_real(
    points: Seq<DayClose>,
    passed: int,
    live: Option<Number>,
    day: Seq<char>,
    today: Seq<char>,
)
    requires
        day != today,
        !past_end(points, day),
    ensures
        day_value(points, passed, live, day, today) == last_passed(points, passed),
{
}

/// What was bought of a symbol, or sold of it: the quantities of the trades of
/// that type, added up.
pub open spec fn quantity_of(
    r: Reading,
    trades: Seq<HistoryTrade>,
    symbol: Seq<char>,
    transaction_type: Seq<char>,
) -> real
    decreases trades.len(),
{
    if trades.len() == 0 {
        0 as real
    } else {
        quantity_of(r, trades.drop_last(), symbol, transaction_type) + (if trades.last().symbol@
            == symbol && trades.last().transaction_type@ == transaction_type {
            r.of(trades.last().quantity)
        } else {
            0 as real
        })
    }
}

/// Whether the shares of a symbol can be counted without rounding.
pub open spec fn countable(r: Reading, trades: Seq<HistoryTrade>, symbol: Seq<char>) -> bool {
    &&& forall|i: int|
        0 <= i < trades.len() ==> r.is_plain((#[trigger] trades[i]).quantity) && r.can(
            0 as real - r.of(trades[i].quantity),
        )
    &&& forall|n: int|
        0 <= n <= trades.len() ==> r.can(
            quantity_of(r, #[trigger] trades.take(n), symbol, "purchase"@) - quantity_of(
                r,
                trades.take(n),
                symbol,
                "sale"@,
            ),
        )
}

/// What is held of a symbol is what was bought of it less what was sold.
pub proof fn shares_are_what_was_bought_less_what_was_sold<F: Fn(Formula) -> Number>(
    calc: F,
    r: Reading,
    trades: Seq<HistoryTrade>,
    symbol: Seq<char>,
)
    requires
        is_exact(calc, r),
        countable(r, trades, symbol),
    ensures
        r.of(shares_after(calc, trades, symbol)) == quantity_of(r, trades, symbol, "purchase"@)
            - quantity_of(r, trades, symbol, "sale"@),
        r.is_plain(shares_after(calc, trades, symbol)),
    decreases trades.len(),
{
    reveal_strlit("purchase");
    reveal_strlit("sale");
    reveal_with_fuel(exact, 4);
    reveal_with_fuel(unrounded, 4);
    assert("purchase"@.len() != "sale"@.len());
    if trades.len() > 0 {
        let less = trades.drop_last();
        let t = trades.last();
        let n = less.len() as int;
        assert forall|i: int| 0 <= i < less.len() implies r.is_plain((#[trigger] less[i]).quantity)
            && r.can(0 as real - r.of(less[i].quantity)) by {
            assert(trades[i] == less[i]);
        }
        assert forall|m: int| 0 <= m <= less.len() implies r.can(
            quantity_of(r, #[trigger] less.take(m), symbol, "purchase"@) - quantity_of(
                r,
                less.take(m),
                symbol,
                "sale"@,
            ),
        ) by {
            assert(trades.take(m) =~= less.take(m));
        }
        shares_are_what_was_bought_less_what_was_sold(calc, r, less, symbol);
        assert(trades[n] == t);
        assert(trades.take(n + 1) =~= trades);
        if t.symbol@ == symbol {
            lemma_exact(
                calc,
                r,
                sum(num(shares_after(calc, less, symbol)), share_change(t)),
            );
        }
    }
}

/// On a day by which as much of a symbol was sold as was bought, the symbol adds
/// nothing to what the portfolio is worth.
pub proof fn what_is_sold_out_adds_nothing<F: Fn(Formula) -> Number>(
    calc: F,
    r: Reading,
    h: HistoryInputs,
    stocks: Number,
    symbol: Seq<char>,
    days: Seq<Seq<char>>,
    k: int,
    today: Seq<char>,
)
    requires
        is_exact(calc, r),
        0 <= k < days.len(),
        ({
            let done = h.trades@.take(reached(trade_dates(h.trades@), days, k));
            &&& countable(r, done, symbol)
            &&& quantity_of(r, done, symbol, "purchase"@) <= quantity_of(
                r,
                done,
                symbol,
                "sale"@,
            )
        }),
    ensures
        with_stock(calc, h, stocks, symbol, days, k, today) == stocks,
{
    let done = h.trades@.take(reached(trade_dates(h.trades@), days, k));
    shares_are_what_was_bought_less_what_was_sold(calc, r, done, symbol);
    lemma_sign(calc, r, shares_after(calc, done, symbol));
}

/// What is held of a symbol adds the shares times the close times the rate of
/// its currency to what the portfolio is worth on a day; a symbol of the base
/// currency, the shares times the close.
pub proof fn a_holding_adds_its_shares_at_the_close<F: Fn(Formula) -> Number>(
    calc: F,
    r: Reading,
    h: HistoryInputs,
    stocks: Number,
    symbol: Seq<char>,
    days: Seq<Seq<char>>,
    k: int,
    today: Seq<char>,
)
    requires
        is_exact(calc, r),
        0 <= k < days.len(),
        close_on(h, symbol, days, k, today) is Some,
        rate_on(h, symbol, days, k, today) is Some,
        r.is_plain(stocks),
        r.is_plain(close_on(h, symbol, days, k, today)->0),
        r.is_plain(rate_on(h, symbol, days, k, today)->0),
        ({
            let done = h.trades@.take(reached(trade_dates(h.trades@), days, k));
            let held = quantity_of(r, done, symbol, "purchase"@) - quantity_of(
                r,
                done,
                symbol,
                "sale"@,
            );
            let close = r.of(close_on(h, symbol, days, k, today)->0);
            let rate = r.of(rate_on(h, symbol, days, k, today)->0);
            &&& countable(r, done, symbol)
            &&& held > 0 as real
            &&& r.can(held * close)
            &&& r.can((held * close) * rate)
            &&& r.can(r.of(stocks) + (held * close) * rate)
        }),
    ensures
        ({
            let done = h.trades@.take(reached(trade_dates(h.trades@), days, k));
            let held = quantity_of(r, done, symbol, "purchase"@) - quantity_of(
                r,
                done,
                symbol,
                "sale"@,
            );
            let close = r.of(close_on(h, symbol, days, k, today)->0);
            let rate = r.of(rate_on(h, symbol, days, k, today)->0);
            &&& r.of(with_stock(calc, h, stocks, symbol, days, k, today)) == r.of(stocks) + (held
                * close) * rate
            &&& !h.currencies@.contains_key(symbol) ==> r.of(
                with_stock(calc, h, stocks, symbol, days, k, today),
            ) == r.of(stocks) + held * close
        }),
{
    reveal_with_fuel(exact, 6);
    reveal_with_fuel(unrounded, 6);
    let done = h.trades@.take(reached(trade_dates(h.trades@), days, k));
    let held = shares_after(calc, done, symbol);
    let close = close_on(h, symbol, days, k, today)->0;
    let rate = rate_on(h, symbol, days, k, today)->0;
    shares_are_what_was_bought_less_what_was_sold(calc, r, done, symbol);
    lemma_sign(calc, r, held);
    lemma_exact(calc, r, sum(num(stocks), product(product(num(held), num(close)), num(rate))));
    if !h.currencies@.contains_key(symbol) {
        assert(r.of(rate) == 1 as real);
        let v = r.of(held) * r.of(close);
        assert(v * (1 as real) == v) by (nonlinear_arith);
    }
}

/// A trade of the day that no cash account paid for is money from outside: a
/// purchase brings in its price and the brokerage, a sale takes out its price
/// less the brokerage.
pub proof fn an_outside_trade_is_a_flow<F: Fn(Formula) -> Number>(
    calc: F,
    r: Reading,
    flow: Number,
    t: HistoryTrade,
)
    requires
        is_exact(calc, r),
        !t.has_cash_leg,
        r.is_plain(flow) && r.is_plain(t.quantity) && r.is_plain(t.price) && r.is_plain(
            t.brokerage,
        ),
        ({
            let traded = r.of(t.quantity) * r.of(t.price);
            &&& r.can(traded)
            &&& r.can(traded + r.of(t.brokerage))
            &&& r.can(traded - r.of(t.brokerage))
            &&& r.can(r.of(flow) + (traded + r.of(t.brokerage)))
            &&& r.can(r.of(flow) - (traded - r.of(t.brokerage)))
        }),
    ensures
        t.transaction_type@ == "purchase"@ ==> r.of(trade_flow(calc, flow, t, t.date@)) == r.of(flow)
            + r.of(t.quantity) * r.of(t.price) + r.of(t.brokerage),
        t.transaction_type@ == "sale"@ ==> r.of(trade_flow(calc, flow, t, t.date@)) == r.of(flow)
            - r.of(t.quantity) * r.of(t.price) + r.of(t.brokerage),
        t.transaction_type@ != "purchase"@ && t.transaction_type@ != "sale"@ ==> trade_flow(
            calc,
            flow,
            t,
            t.date@,
        ) == flow,
{
    reveal_with_fuel(exact, 6);
    reveal_with_fuel(unrounded, 6);
    reveal_strlit("purchase");
    reveal_strlit("sale");
    assert("purchase"@.len() != "sale"@.len());
    let traded = product(num(t.quantity), num(t.price));
    lemma_exact(calc, r, sum(num(flow), sum(traded, num(t.brokerage))));
    lemma_exact(calc, r, difference(num(flow), difference(traded, num(t.brokerage))));
}

/// A deposit or a withdrawal of the day is money from outside: its amount at the
/// stored rate of its account's currency; in the base currency, its amount.
pub proof fn a_deposit_is_a_flow<F: Fn(Formula) -> Number>(
    calc: F,
    r: Reading,
    h: HistoryInputs,
    flow: Number,
    c: HistoryCash,
    days: Seq<Seq<char>>,
    k: int,
)
    requires
        is_exact(calc, r),
        0 <= k < days.len(),
        c.date@ == days[k],
        c.kind@ == "deposit"@ || c.kind@ == "withdrawal"@,
        r.is_plain(flow) && r.is_plain(c.amount),
        ({
            let rate = stored_rate(h, account_currency(h.accounts@, c.account_id, 0), days, k);
            &&& rate is Some
            &&& r.is_plain(rate->0)
            &&& r.can(r.of(c.amount) * r.of(rate->0))
            &&& r.can(r.of(flow) + r.of(c.amount) * r.of(rate->0))
        }),
    ensures
        ({
            let currency = account_currency(h.accounts@, c.account_id, 0);
            &&& r.of(cash_flow(calc, h, flow, c, days, k)) == r.of(flow) + r.of(c.amount) * r.of(
                stored_rate(h, currency, days, k)->0,
            )
            &&& currency == "AUD"@ ==> r.of(cash_flow(calc, h, flow, c, days, k)) == r.of(flow)
                + r.of(c.amount)
        }),
{
    reveal_with_fuel(exact, 6);
    reveal_with_fuel(unrounded, 6);
    let currency = account_currency(h.accounts@, c.account_id, 0);
    let rate = stored_rate(h, currency, days, k)->0;
    lemma_exact(calc, r, sum(num(flow), product(num(c.amount), num(rate))));
    if currency == "AUD"@ {
        assert(r.of(rate) == 1 as real);
        let v = r.of(c.amount);
        assert(v * (1 as real) == v) by (nonlinear_arith);
    }
}

/// The movements of an account added up.
pub open spec fn moved(r: Reading, cash: Seq<HistoryCash>, id: i64) -> real
    decreases cash.len(),
{
    if cash.len() == 0 {
        0 as real
    } else {
        moved(r, cash.drop_last(), id) + (if cash.last().account_id == id {
            r.of(cash.last().amount)
        } else {
            0 as real
        })
    }
}

/// The balance of an account is the sum of its movements, whatever their kind;
/// an account without a movement has none.
pub proof fn a_balance_is_the_sum_of_its_movements<F: Fn(Formula) -> Number>(
    calc: F,
    r: Reading,
    cash: Seq<HistoryCash>,
    id: i64,
)
    requires
        is_exact(calc, r),
        forall|i: int| 0 <= i < cash.len() ==> r.is_plain((#[trigger] cash[i]).amount),
        forall|n: int| 0 <= n <= cash.len() ==> r.can(moved(r, #[trigger] cash.take(n), id)),
    ensures
        match balance_after(calc, cash, id) {
            Some(b) => r.of(b) == moved(r, cash, id) && r.is_plain(b) && exists|i: int|
                0 <= i < cash.len() && (#[trigger] cash[i]).account_id == id,
            None => forall|i: int|
                0 <= i < cash.len() ==> (#[trigger] cash[i]).account_id != id,
        },
    decreases cash.len(),
{
    reveal_with_fuel(exact, 4);
    reveal_with_fuel(unrounded, 4);
    if cash.len() > 0 {
        let less = cash.drop_last();
        let n = less.len() as int;
        assert forall|i: int| 0 <= i < less.len() implies r.is_plain(
            (#[trigger] less[i]).amount,
        ) by {
            assert(cash[i] == less[i]);
        }
        assert forall|m: int| 0 <= m <= less.len() implies r.can(
            moved(r, #[trigger] less.take(m), id),
        ) by {
            assert(cash.take(m) =~= less.take(m));
        }
        a_balance_is_the_sum_of_its_movements(calc, r, less, id);
        lemma_moved_nothing(r, less, id);
        assert(cash[n] == cash.last());
        assert(cash.take(n + 1) =~= cash);
        let before = match balance_after(calc, less, id) {
            Some(b) => b,
            None => number(ZERO_BITS),
        };
        if cash.last().account_id == id {
            lemma_exact(calc, r, sum(num(before), num(cash.last().amount)));
        } else if balance_after(calc, less, id) is Some {
            let i = choose|i: int| 0 <= i < less.len() && (#[trigger] less[i]).account_id == id;
            assert(cash[i].account_id == id);
        } else {
            assert forall|i: int| 0 <= i < cash.len() implies (#[trigger] cash[i]).account_id
                != id by {
                if i < n {
                    assert(less[i] == cash[i]);
                }
            }
        }
    }
}

proof fn lemma_moved_nothing(r: Reading, cash: Seq<HistoryCash>, id: i64)
    ensures
        (forall|i: int| 0 <= i < cash.len() ==> (#[trigger] cash[i]).account_id != id) ==> moved(
            r,
            cash,
            id,
        ) == 0 as real,
    decreases cash.len(),
{
    if cash.len() > 0 {
        let less = cash.drop_last();
        lemma_moved_nothing(r, less, id);
        if forall|i: int| 0 <= i < cash.len() ==> (#[trigger] cash[i]).account_id != id {
            assert forall|i: int| 0 <= i < less.len() implies (#[trigger] less[i]).account_id
                != id by {
                assert(cash[i] == less[i]);
            }
            assert(cash[cash.len() - 1].account_id != id);
        }
    }
}

/// An account adds its balance at the stored rate of its currency to the cash of
/// a day; in the base currency, its balance.
pub proof fn an_account_adds_its_balance<F: Fn(Formula) -> Number>(
    calc: F,
    r: Reading,
    h: HistoryInputs,
    total: Number,
    account: HistoryAccount,
    days: Seq<Seq<char>>,
    k: int,
)
    requires
        is_exact(calc, r),
        0 <= k < days.len(),
        stored_rate(h, account.currency@, days, k) is Some,
        r.is_plain(total),
        r.is_plain(stored_rate(h, account.currency@, days, k)->0),
        ({
            let done = h.cash@.take(reached(cash_dates(h.cash@), days, k));
            let rate = r.of(stored_rate(h, account.currency@, days, k)->0);
            &&& forall|i: int| 0 <= i < done.len() ==> r.is_plain((#[trigger] done[i]).amount)
            &&& forall|n: int|
                0 <= n <= done.len() ==> r.can(moved(r, #[trigger] done.take(n), account.id))
            &&& r.can(moved(r, done, account.id) * rate)
            &&& r.can(r.of(total) + moved(r, done, account.id) * rate)
        }),
    ensures
        ({
            let done = h.cash@.take(reached(cash_dates(h.cash@), days, k));
            let rate = r.of(stored_rate(h, account.currency@, days, k)->0);
            &&& r.of(with_account(calc, h, total, account, days, k)) == r.of(total) + moved(
                r,
                done,
                account.id,
            ) * rate
            &&& account.currency@ == "AUD"@ ==> r.of(
                with_account(calc, h, total, account, days, k),
            ) == r.of(total) + moved(r, done, account.id)
        }),
{
    reveal_with_fuel(exact, 6);
    reveal_with_fuel(unrounded, 6);
    let done = h.cash@.take(reached(cash_dates(h.cash@), days, k));
    let rate = stored_rate(h, account.currency@, days, k)->0;
    a_balance_is_the_sum_of_its_movements(calc, r, done, account.id);
    lemma_moved_nothing(r, done, account.id);
    let v = moved(r, done, account.id);
    assert(done.take(done.len() as int) =~= done);
    assert(0 as real * r.of(rate) == 0 as real) by (nonlinear_arith);
    if account.currency@ == "AUD"@ {
        assert(r.of(rate) == 1 as real);
        assert(v * (1 as real) == v) by (nonlinear_arith);
    }
    match balance_after(calc, done, account.id) {
        Some(b) => {
            lemma_exact(calc, r, sum(num(total), product(num(b), num(rate))));
        },
        None => {},
    }
}

/// On a day the closes are read as of it: of closes in the order of their days,
/// the one that counts is dated on or before the day, and the next one after it;
/// there is none where every close is dated after the day.
pub proof fn the_last_close_on_or_before_the_day_counts(
    points: Seq<DayClose>,
    days: Seq<Seq<char>>,
    k: int,
)
    requires
        0 <= k < days.len(),
        strictly_ascending(days),
    ensures
        ({
            let n = reached(close_dates(points), days, k);
            &&& 0 <= n <= points.len()
            &&& forall|i: int|
                0 <= i < n ==> !text_before(days[k], (#[trigger] points[i]).date@)
            &&& n < points.len() ==> text_before(days[k], points[n].date@)
            &&& n > 0 ==> last_passed(points, n) == Some(points[n - 1].close)
            &&& n == 0 ==> last_passed(points, n) is None
        }),
{
    a_series_is_read_as_of_the_day(close_dates(points), days, k);
    lemma_reached_bounds(close_dates(points), days, k);
    lemma_advance_passes(close_dates(points), 0, days[k]);
    let n = reached(close_dates(points), days, k);
    assert forall|i: int| 0 <= i < n implies !text_before(
        days[k],
        (#[trigger] points[i]).date@,
    ) by {
        assert(close_dates(points)[i] == points[i].date@);
    }
}

proof fn lemma_advance_passes(dates: Seq<Seq<char>>, i: int, day: Seq<char>)
    requires
        0 <= i <= dates.len(),
    ensures
        forall|j: int|
            i <= j < advance(dates, i, day) ==> !text_before(day, #[trigger] dates[j]),
        advance(dates, i, day) < dates.len() ==> text_before(day, dates[advance(dates, i, day)]),
    decreases dates.len() - i,
{
    if i < dates.len() && !text_before(day, dates[i]) {
        lemma_advance_passes(dates, i + 1, day);
    }
}

/// Today, and on a day past the last close, the live value counts before the
/// stored one; a price entered by hand stands in where nothing is quoted.
pub proof fn the_live_price_counts_last(
    h: HistoryInputs,
    symbol: Seq<char>,
    days: Seq<Seq<char>>,
    k: int,
    today: Seq<char>,
)
    requires
        days[k] == today || past_end(series_of(h.closes@, symbol), days[k]),
    ensures
        h.quotes@.contains_key(symbol) ==> close_on(h, symbol, days, k, today) == Some(
            h.quotes@[symbol],
        ),
        !h.quotes@.contains_key(symbol) && h.manual@.contains_key(symbol) ==> close_on(
            h,
            symbol,
            days,
            k,
            today,
        ) == Some(h.manual@[symbol]),
        !h.quotes@.contains_key(symbol) && !h.manual@.contains_key(symbol) ==> close_on(
            h,
            symbol,
            days,
            k,
            today,
        ) == last_passed(
            series_of(h.closes@, symbol),
            reached(close_dates(series_of(h.closes@, symbol)), days, k),
        ),
{
}

/// A foreign symbol is converted at the rate of its own currency's pair: the live
/// one today and past the last stored rate, and otherwise the stored one. One of
/// the base currency, or of none, is converted at one.
pub proof fn a_symbol_is_converted_from_its_own_currency(
    h: HistoryInputs,
    symbol: Seq<char>,
    days: Seq<Seq<char>>,
    k: int,
    today: Seq<char>,
)
    ensures
        !h.currencies@.contains_key(symbol) ==> rate_on(h, symbol, days, k, today) == Some(
            Number { bits: 0x3FF0_0000_0000_0000 },
        ),
        h.currencies@.contains_key(symbol) && h.currencies@[symbol]@ == "AUD"@ ==> rate_on(
            h,
            symbol,
            days,
            k,
            today,
        ) == Some(Number { bits: 0x3FF0_0000_0000_0000 }),
        h.currencies@.contains_key(symbol) && h.currencies@[symbol]@ != "AUD"@ ==> ({
            let pair = fx_pair(h.currencies@[symbol]@);
            let points = series_of(h.closes@, pair);
            let live = days[k] == today || past_end(points, days[k]);
            &&& live && h.quotes@.contains_key(pair) ==> rate_on(h, symbol, days, k, today) == Some(
                h.quotes@[pair],
            )
            &&& !(live && h.quotes@.contains_key(pair)) ==> rate_on(h, symbol, days, k, today)
                == last_passed(points, reached(close_dates(points), days, k))
        }),
{
}

/// A history without a start begins on the first day that anything is recorded
/// on: no trade and no movement is dated before it, and one of them on it.
pub proof fn a_history_begins_with_the_first_record(h: HistoryInputs)
    requires
        h.trades@.len() + h.cash@.len() > 0,
    ensures
        ({
            let start = asked_start(h, None);
            &&& forall|i: int|
                0 <= i < h.trades@.len() ==> !text_before((#[trigger] h.trades@[i]).date@, start)
            &&& forall|i: int|
                0 <= i < h.cash@.len() ==> !text_before((#[trigger] h.cash@[i]).date@, start)
            &&& (exists|i: int| 0 <= i < h.trades@.len() && (#[trigger] h.trades@[i]).date@ == start)
                || (exists|i: int| 0 <= i < h.cash@.len() && (#[trigger] h.cash@[i]).date@ == start)
        }),
{
    let all = trade_dates(h.trades@) + cash_dates(h.cash@);
    lemma_earliest(all);
    let start = asked_start(h, None);
    let n = h.trades@.len() as int;
    assert forall|i: int| 0 <= i < h.trades@.len() implies !text_before(
        (#[trigger] h.trades@[i]).date@,
        start,
    ) by {
        assert(all[i] == h.trades@[i].date@);
    }
    assert forall|i: int| 0 <= i < h.cash@.len() implies !text_before(
        (#[trigger] h.cash@[i]).date@,
        start,
    ) by {
        assert(all[n + i] == h.cash@[i].date@);
    }
    let i = choose|i: int| 0 <= i < all.len() && all[i] == start;
    if i < n {
        assert(h.trades@[i].date@ == start);
    } else {
        assert(h.cash@[i - n].date@ == start);
    }
}

proof fn lemma_earliest(dates: Seq<Seq<char>>)
    requires
        dates.len() > 0,
    ensures
        earliest(dates) is Some,
        dates.contains(earliest(dates)->0),
        forall|i: int|
            0 <= i < dates.len() ==> !text_before(#[trigger] dates[i], earliest(dates)->0),
    decreases dates.len(),
{
    let less = dates.drop_last();
    let e = earliest(dates)->0;
    text_order_is_irreflexive(dates.last());
    assert(dates[dates.len() - 1] == dates.last());
    if less.len() > 0 {
        lemma_earliest(less);
        let x = earliest(less)->0;
        let k = choose|k: int| 0 <= k < less.len() && less[k] == x;
        assert(dates[k] == x);
        assert forall|i: int| 0 <= i < dates.len() implies !text_before(#[trigger] dates[i], e) by {
            if i < less.len() {
                assert(less[i] == dates[i]);
                if e == dates.last() && text_before(dates[i], e) {
                    text_order_is_transitive(dates[i], e, x);
                }
            }
        }
    }
}

/// A history covers the day before its start, which is the anchor, and every day
/// from its start to its end, one after another.
pub proof fn a_history_covers_the_day_before_and_every_day(first: int, last: int, i: int)
    requires
        MIN_DAY < first <= last <= MAX_DAY,
        0 <= i <= last - first + 1,
    ensures
        day_range(Some(first), Some(last)) is Ok,
        ({
            let p = day_range(Some(first), Some(last))->Ok_0;
            &&& p.0 == first - 1
            &&& p.1 == last
            &&& day_texts(p.0, p.1).len() == last - first + 2
            &&& day_texts(p.0, p.1)[i] == date_text(first - 1 + i)->0
        }),
{
}

/// A history that ends before it starts, or whose ends name no day, is refused.
pub proof fn a_range_without_days_is_refused(first: Option<int>, last: Option<int>)
    ensures
        first is None || last is None ==> day_range(first, last) == Err::<(int, int), Seq<char>>(
            "Invalid date range. Use YYYY-MM-DD."@,
        ),
        first is Some && last is Some && last->0 < first->0 ==> day_range(first, last) == Err::<
            (int, int),
            Seq<char>,
        >("`to` must not be before `from`"@),
        first is Some && last is Some && first->0 <= last->0 ==> day_range(first, last) is Ok,
{
}

/// Every movement of an account of the portfolio counts.
pub proof fn no_movement_of_the_portfolio_is_left_out(
    cash: Seq<HistoryCash>,
    accounts: Seq<HistoryAccount>,
    i: int,
    a: int,
)
    requires
        0 <= i < cash.len(),
        0 <= a < accounts.len(),
        accounts[a].id == cash[i].account_id,
    ensures
        counted_cash(cash, accounts).contains(cash[i]),
    decreases cash.len(),
{
    let less = cash.drop_last();
    let now = counted_cash(cash, accounts);
    if i < less.len() {
        assert(less[i] == cash[i]);
        no_movement_of_the_portfolio_is_left_out(less, accounts, i, a);
        let k = choose|k: int|
            0 <= k < counted_cash(less, accounts).len() && counted_cash(less, accounts)[k]
                == cash[i];
        assert(now[k] == cash[i]);
    } else {
        assert(counts(accounts, cash.last().account_id));
        assert(now[now.len() - 1] == cash[i]);
    }
}

/// The books balance: what the portfolio opened with, what came in from outside
/// and what it gained are what it ends with.
pub proof fn the_books_balance<F: Fn(Formula) -> Number>(
    calc: F,
    r: Reading,
    s: HistorySummary,
    series: Seq<DailyValue>,
    contributions: Number,
    twr: Option<Number>,
)
    requires
        is_exact(calc, r),
        is_summary(calc, s, series, contributions, twr),
        series.len() > 1,
        r.is_plain(series[0].stocks) && r.is_plain(series[0].cash),
        r.is_plain(series.last().stocks) && r.is_plain(series.last().cash),
        r.is_plain(contributions),
        ({
            let opening = r.of(series[0].stocks) + r.of(series[0].cash);
            let end = r.of(series.last().stocks) + r.of(series.last().cash);
            &&& r.can(opening)
            &&& r.can(end)
            &&& r.can(end - opening)
            &&& r.can(end - opening - r.of(contributions))
        }),
        twr is Some ==> r.is_plain(twr->0) && r.can(r.of(twr->0) * 100 as real),
    ensures
        r.of(s.opening_value) == r.of(series[0].stocks) + r.of(series[0].cash),
        r.of(s.end_value) == r.of(series.last().stocks) + r.of(series.last().cash),
        r.of(s.opening_value) + r.of(contributions) + r.of(s.gain) == r.of(s.end_value),
        s.twr_pct is Some <==> twr is Some,
        twr is Some ==> r.of(s.twr_pct->0) == r.of(twr->0) * 100 as real,
        option_view(s.start_date) == Some(series[1].date@),
        option_view(s.end_date) == Some(series.last().date@),
{
    reveal_with_fuel(exact, 6);
    reveal_with_fuel(unrounded, 6);
    lemma_exact(calc, r, sum(num(series[0].stocks), num(series[0].cash)));
    lemma_exact(calc, r, sum(num(series.last().stocks), num(series.last().cash)));
    lemma_exact(
        calc,
        r,
        difference(difference(num(s.end_value), num(s.opening_value)), num(contributions)),
    );
    if twr is Some {
        lemma_exact(calc, r, product(num(twr->0), num(number(HUNDRED_BITS))));
    }
}


// ---------------------------------------------------------------------------
// Summary
// ---------------------------------------------------------------------------

/// What the portfolio is worth on a day.
pub open spec fn total_value<F: Fn(Formula) -> Number>(calc: F, day: DailyValue) -> Number {
    worth(calc, sum(num(day.stocks), num(day.cash)))
}

/// A history in a few figures. The first day of the series is the anchor: what
/// was carried into the window, and not part of it.
#[derive(Debug)]
pub struct HistorySummary {
    pub start_date: Option<String>,
    pub end_date: Option<String>,
    pub opening_value: Number,
    pub end_value: Number,
    pub net_contributions: Number,
    /// What the portfolio earned: the change in value that contributions do not
    /// account for.
    pub gain: Number,
    /// The time-weighted return in per cent.
    pub twr_pct: Option<Number>,
}

/// Whether `s` sums up the series. `contributions` and `twr` are what came in
/// over the window and the time-weighted return over the series.
pub open spec fn is_summary<F: Fn(Formula) -> Number>(
    calc: F,
    s: HistorySummary,
    series: Seq<DailyValue>,
    contributions: Number,
    twr: Option<Number>,
) -> bool {
    &&& option_view(s.start_date) == (if series.len() > 1 {
        Some(series[1].date@)
    } else {
        None
    })
    &&& option_view(s.end_date) == (if series.len() > 1 {
        Some(series.last().date@)
    } else {
        None
    })
    &&& s.opening_value == (if series.len() == 0 {
        number(ZERO_BITS)
    } else {
        total_value(calc, series[0])
    })
    &&& s.end_value == (if series.len() > 1 {
        total_value(calc, series.last())
    } else {
        s.opening_value
    })
    &&& s.net_contributions == contributions
    &&& s.gain == worth(
        calc,
        difference(difference(num(s.end_value), num(s.opening_value)), num(contributions)),
    )
    &&& s.twr_pct == (match twr {
        Some(r) => Some(worth(calc, product(num(r), num(number(HUNDRED_BITS))))),
        None => None,
    })
}

/// A history in a few figures.
pub fn history_summary<F: Fn(Formula) -> Number>(
    series: &Vec<DailyValue>,
    contributions: Number,
    twr: Option<Number>,
    calc: &F,
) -> (r: HistorySummary)
    requires
        is_calculator(*calc),
    ensures
        is_summary(*calc, r, series@, contributions, twr),
{
    let n: usize = series.len();
    let opening_value = if n == 0 {
        Number { bits: ZERO_BITS }
    } else {
        evaluate(calc, Formula::of(series[0].stocks).plus(Formula::of(series[0].cash)))
    };
    let end_value = if n > 1 {
        evaluate(calc, Formula::of(series[n - 1].stocks).plus(Formula::of(series[n - 1].cash)))
    } else {
        opening_value
    };
    let gain = evaluate(
        calc,
        Formula::of(end_value).minus(Formula::of(opening_value)).minus(Formula::of(contributions)),
    );
    let twr_pct = match twr {
        Some(r) => Some(
            evaluate(calc, Formula::of(r).times(Formula::of(Number { bits: HUNDRED_BITS }))),
        ),
        None => None,
    };
    HistorySummary {
        start_date: if n > 1 {
            Some(series[1].date.clone())
        } else {
            None
        },
        end_date: if n > 1 {
            Some(series[n - 1].date.clone())
        } else {
            None
        },
        opening_value,
        end_value,
        net_contributions: contributions,
        gain,
        twr_pct,
    }
}

// ---------------------------------------------------------------------------
// What a day adds up to
// ---------------------------------------------------------------------------

/// What has no close, or no rate, adds nothing to what a day is worth; nor does an
/// account without a movement, or without a rate, to its cash; and a deposit
/// without a rate is no flow.
pub proof fn what_has_no_price_adds_nothing<F: Fn(Formula) -> Number>(
    calc: F,
    r: Reading,
    h: HistoryInputs,
    total: Number,
    symbol: Seq<char>,
    account: HistoryAccount,
    c: HistoryCash,
    days: Seq<Seq<char>>,
    k: int,
    today: Seq<char>,
)
    requires
        is_exact(calc, r),
        r.is_plain(total) && r.is_plain(c.amount),
    ensures
        close_on(h, symbol, days, k, today) is None || rate_on(h, symbol, days, k, today) is None
            ==> with_stock(calc, h, total, symbol, days, k, today) == total,
        stored_rate(h, account.currency@, days, k) is None ==> with_account(
            calc,
            h,
            total,
            account,
            days,
            k,
        ) == total,
        stored_rate(h, account_currency(h.accounts@, c.account_id, 0), days, k) is None ==> r.of(
            cash_flow(calc, h, total, c, days, k),
        ) == r.of(total),
{
    reveal_with_fuel(exact, 5);
    reveal_with_fuel(unrounded, 5);
    let v = r.of(c.amount);
    assert(v * (0 as real) == 0 as real) by (nonlinear_arith);
    lemma_exact(calc, r, sum(num(total), product(num(c.amount), num(number(ZERO_BITS)))));
}

/// What the shares held of a symbol are worth on a day, as a value: the shares
/// bought less those sold, times the close, times the rate; nothing where none are
/// left, or there is no close or rate.
pub open spec fn stock_value(
    r: Reading,
    h: HistoryInputs,
    symbol: Seq<char>,
    days: Seq<Seq<char>>,
    k: int,
    today: Seq<char>,
) -> real {
    let done = h.trades@.take(reached(trade_dates(h.trades@), days, k));
    let held = quantity_of(r, done, symbol, "purchase"@) - quantity_of(r, done, symbol, "sale"@);
    match (close_on(h, symbol, days, k, today), rate_on(h, symbol, days, k, today)) {
        (Some(close), Some(rate)) => if held > 0 as real {
            (held * r.of(close)) * r.of(rate)
        } else {
            0 as real
        },
        _ => 0 as real,
    }
}

/// What some symbols are worth on a day, added up.
pub open spec fn stock_values(
    r: Reading,
    h: HistoryInputs,
    symbols: Seq<Seq<char>>,
    days: Seq<Seq<char>>,
    k: int,
    today: Seq<char>,
) -> real
    decreases symbols.len(),
{
    if symbols.len() == 0 {
        0 as real
    } else {
        stock_values(r, h, symbols.drop_last(), days, k, today) + stock_value(
            r,
            h,
            symbols.last(),
            days,
            k,
            today,
        )
    }
}

/// Whether what a symbol is worth on a day can be worked out without rounding.
pub open spec fn values_plainly(
    r: Reading,
    h: HistoryInputs,
    symbol: Seq<char>,
    days: Seq<Seq<char>>,
    k: int,
    today: Seq<char>,
) -> bool {
    let done = h.trades@.take(reached(trade_dates(h.trades@), days, k));
    let held = quantity_of(r, done, symbol, "purchase"@) - quantity_of(r, done, symbol, "sale"@);
    let close = close_on(h, symbol, days, k, today);
    let rate = rate_on(h, symbol, days, k, today);
    &&& countable(r, done, symbol)
    &&& close is Some && rate is Some ==> r.is_plain(close->0) && r.is_plain(rate->0) && r.can(
        held * r.of(close->0),
    ) && r.can((held * r.of(close->0)) * r.of(rate->0))
}

/// The stocks of a day are worth the sum of what is held of each symbol, at its
/// close and rate.
pub proof fn the_stocks_of_a_day_are_the_sum_of_the_holdings<F: Fn(Formula) -> Number>(
    calc: F,
    r: Reading,
    h: HistoryInputs,
    symbols: Seq<Seq<char>>,
    days: Seq<Seq<char>>,
    k: int,
    today: Seq<char>,
)
    requires
        is_exact(calc, r),
        0 <= k < days.len(),
        forall|i: int|
            0 <= i < symbols.len() ==> values_plainly(r, h, #[trigger] symbols[i], days, k, today),
        forall|n: int|
            0 <= n <= symbols.len() ==> r.can(
                stock_values(r, h, #[trigger] symbols.take(n), days, k, today),
            ),
    ensures
        r.of(stocks_on(calc, h, symbols, days, k, today)) == stock_values(
            r,
            h,
            symbols,
            days,
            k,
            today,
        ),
        r.is_plain(stocks_on(calc, h, symbols, days, k, today)),
    decreases symbols.len(),
{
    if symbols.len() > 0 {
        let less = symbols.drop_last();
        let n = less.len() as int;
        let symbol = symbols.last();
        assert forall|i: int| 0 <= i < less.len() implies values_plainly(
            r,
            h,
            #[trigger] less[i],
            days,
            k,
            today,
        ) by {
            assert(symbols[i] == less[i]);
        }
        assert forall|m: int| 0 <= m <= less.len() implies r.can(
            stock_values(r, h, #[trigger] less.take(m), days, k, today),
        ) by {
            assert(symbols.take(m) =~= less.take(m));
        }
        the_stocks_of_a_day_are_the_sum_of_the_holdings(calc, r, h, less, days, k, today);
        assert(symbols[n] == symbol);
        assert(symbols.take(n + 1) =~= symbols);
        let before = stocks_on(calc, h, less, days, k, today);
        let done = h.trades@.take(reached(trade_dates(h.trades@), days, k));
        let held = quantity_of(r, done, symbol, "purchase"@) - quantity_of(
            r,
            done,
            symbol,
            "sale"@,
        );
        let close = close_on(h, symbol, days, k, today);
        let rate = rate_on(h, symbol, days, k, today);
        if close is Some && rate is Some {
            if held > 0 as real {
                a_holding_adds_its_shares_at_the_close(
                    calc,
                    r,
                    h,
                    before,
                    symbol,
                    days,
                    k,
                    today,
                );
            } else {
                what_is_sold_out_adds_nothing(calc, r, h, before, symbol, days, k, today);
            }
        }
    }
}

/// What a trade of the day that no cash account paid for brings in from outside, as
/// a value.
pub open spec fn outside_value(r: Reading, t: HistoryTrade, day: Seq<char>) -> real {
    if t.has_cash_leg || t.date@ != day {
        0 as real
    } else if t.transaction_type@ == "purchase"@ {
        r.of(t.quantity) * r.of(t.price) + r.of(t.brokerage)
    } else if t.transaction_type@ == "sale"@ {
        0 as real - (r.of(t.quantity) * r.of(t.price) - r.of(t.brokerage))
    } else {
        0 as real
    }
}

/// What some trades bring in, added up.
pub open spec fn outside_values(r: Reading, trades: Seq<HistoryTrade>, day: Seq<char>) -> real
    decreases trades.len(),
{
    if trades.len() == 0 {
        0 as real
    } else {
        outside_values(r, trades.drop_last(), day) + outside_value(r, trades.last(), day)
    }
}

/// The flow of some trades is the sum of what each of them brings in.
pub proof fn the_flow_of_trades_is_the_sum_of_each<F: Fn(Formula) -> Number>(
    calc: F,
    r: Reading,
    flow: Number,
    trades: Seq<HistoryTrade>,
    day: Seq<char>,
)
    requires
        is_exact(calc, r),
        r.is_plain(flow),
        forall|i: int|
            0 <= i < trades.len() ==> ({
                let t = #[trigger] trades[i];
                let traded = r.of(t.quantity) * r.of(t.price);
                r.is_plain(t.quantity) && r.is_plain(t.price) && r.is_plain(t.brokerage) && r.can(
                    traded,
                ) && r.can(traded + r.of(t.brokerage)) && r.can(traded - r.of(t.brokerage))
            }),
        forall|n: int|
            0 <= n <= trades.len() ==> r.can(
                r.of(flow) + outside_values(r, #[trigger] trades.take(n), day),
            ),
    ensures
        r.of(trade_flows(calc, flow, trades, day)) == r.of(flow) + outside_values(r, trades, day),
        r.is_plain(trade_flows(calc, flow, trades, day)),
    decreases trades.len(),
{
    reveal_with_fuel(exact, 6);
    reveal_with_fuel(unrounded, 6);
    reveal_strlit("purchase");
    reveal_strlit("sale");
    assert("purchase"@.len() != "sale"@.len());
    if trades.len() > 0 {
        let less = trades.drop_last();
        let n = less.len() as int;
        let t = trades.last();
        assert forall|i: int| 0 <= i < less.len() implies ({
            let t = #[trigger] less[i];
            let traded = r.of(t.quantity) * r.of(t.price);
            r.is_plain(t.quantity) && r.is_plain(t.price) && r.is_plain(t.brokerage) && r.can(traded)
                && r.can(traded + r.of(t.brokerage)) && r.can(traded - r.of(t.brokerage))
        }) by {
            assert(trades[i] == less[i]);
        }
        assert forall|m: int| 0 <= m <= less.len() implies r.can(
            r.of(flow) + outside_values(r, #[trigger] less.take(m), day),
        ) by {
            assert(trades.take(m) =~= less.take(m));
        }
        the_flow_of_trades_is_the_sum_of_each(calc, r, flow, less, day);
        assert(trades[n] == t);
        assert(trades.take(n + 1) =~= trades);
        let before = trade_flows(calc, flow, less, day);
        let traded = product(num(t.quantity), num(t.price));
        if !t.has_cash_leg && t.date@ == day {
            if t.transaction_type@ == "purchase"@ {
                lemma_exact(calc, r, sum(num(before), sum(traded, num(t.brokerage))));
            } else if t.transaction_type@ == "sale"@ {
                lemma_exact(calc, r, difference(num(before), difference(traded, num(t.brokerage))));
            }
        }
    }
}

/// The flow of a day is made of the trades and movements of that day: of those in
/// the order of their dates, everything dated on the day is passed between it and
/// the day before.
pub proof fn what_is_dated_on_a_day_counts_on_it(
    dates: Seq<Seq<char>>,
    days: Seq<Seq<char>>,
    k: int,
    i: int,
)
    requires
        0 < k < days.len(),
        strictly_ascending(days),
        0 <= i < dates.len(),
        dates[i] == days[k],
        forall|j: int| 0 <= j < i ==> !text_before(dates[i], #[trigger] dates[j]),
    ensures
        reached(dates, days, k - 1) <= i < reached(dates, days, k),
{
    a_series_is_read_as_of_the_day(dates, days, k);
    a_series_is_read_as_of_the_day(dates, days, k - 1);
    lemma_reached_bounds(dates, days, k);
    lemma_reached_bounds(dates, days, k - 1);
    lemma_advance_passes(dates, 0, days[k]);
    lemma_advance_passes(dates, 0, days[k - 1]);
    text_order_is_irreflexive(days[k]);
    let n = reached(dates, days, k);
    if n <= i {
        assert(text_before(days[k], dates[n]));
    }
    if i < reached(dates, days, k - 1) {
        assert(!text_before(days[k - 1], dates[i]));
        assert(text_before(days[k - 1], days[k]));
    }
}

/// The flow of a day is that of its trades and then that of its movements, from
/// nothing on; its cash is that of its accounts one after another.
pub proof fn a_day_is_made_of_its_records<F: Fn(Formula) -> Number>(
    calc: F,
    h: HistoryInputs,
    flow: Number,
    cash: Seq<HistoryCash>,
    c: HistoryCash,
    accounts: Seq<HistoryAccount>,
    a: HistoryAccount,
    days: Seq<Seq<char>>,
    k: int,
)
    ensures
        cash_flows(calc, h, flow, Seq::empty(), days, k) == flow,
        cash_flows(calc, h, flow, cash.push(c), days, k) == cash_flow(
            calc,
            h,
            cash_flows(calc, h, flow, cash, days, k),
            c,
            days,
            k,
        ),
        c.date@ != days[k] ==> cash_flow(calc, h, flow, c, days, k) == flow,
        cash_on(calc, h, Seq::empty(), days, k) == number(0),
        cash_on(calc, h, accounts.push(a), days, k) == with_account(
            calc,
            h,
            cash_on(calc, h, accounts, days, k),
            a,
            days,
            k,
        ),
{
    assert(cash.push(c).drop_last() =~= cash);
    assert(accounts.push(a).drop_last() =~= accounts);
}

/// The currency of an account is that of the first one with its number, and the
/// base currency where there is none.
pub proof fn an_account_has_its_own_currency(accounts: Seq<HistoryAccount>, id: i64, i: int)
    requires
        0 <= i <= accounts.len(),
        forall|j: int| 0 <= j < i ==> (#[trigger] accounts[j]).id != id,
        i < accounts.len() ==> accounts[i].id == id,
    ensures
        i < accounts.len() ==> account_currency(accounts, id, 0) == accounts[i].currency@,
        i == accounts.len() ==> account_currency(accounts, id, 0) == "AUD"@,
{
    lemma_account_from(accounts, id, i, 0);
}

proof fn lemma_account_from(accounts: Seq<HistoryAccount>, id: i64, i: int, from: int)
    requires
        0 <= from <= i <= accounts.len(),
        forall|j: int| 0 <= j < i ==> (#[trigger] accounts[j]).id != id,
        i < accounts.len() ==> accounts[i].id == id,
    ensures
        i < accounts.len() ==> account_currency(accounts, id, from) == accounts[i].currency@,
        i == accounts.len() ==> account_currency(accounts, id, from) == "AUD"@,
    decreases i - from,
{
    if from < i {
        lemma_account_from(accounts, id, i, from + 1);
    }
}

/// What a movement of the day brings in from outside, as a value: a deposit or a
/// withdrawal at the rate of its account, and nothing without a rate.
pub open spec fn deposit_value(
    r: Reading,
    h: HistoryInputs,
    c: HistoryCash,
    days: Seq<Seq<char>>,
    k: int,
) -> real {
    if c.date@ != days[k] || (c.kind@ != "deposit"@ && c.kind@ != "withdrawal"@) {
        0 as real
    } else {
        match stored_rate(h, account_currency(h.accounts@, c.account_id, 0), days, k) {
            Some(rate) => r.of(c.amount) * r.of(rate),
            None => 0 as real,
        }
    }
}

/// What some movements bring in, added up.
pub open spec fn deposit_values(
    r: Reading,
    h: HistoryInputs,
    cash: Seq<HistoryCash>,
    days: Seq<Seq<char>>,
    k: int,
) -> real
    decreases cash.len(),
{
    if cash.len() == 0 {
        0 as real
    } else {
        deposit_values(r, h, cash.drop_last(), days, k) + deposit_value(
            r,
            h,
            cash.last(),
            days,
            k,
        )
    }
}

/// Whether what a movement brings in can be worked out without rounding.
pub open spec fn converts_plainly(
    r: Reading,
    h: HistoryInputs,
    c: HistoryCash,
    days: Seq<Seq<char>>,
    k: int,
) -> bool {
    r.is_plain(c.amount) && match stored_rate(
        h,
        account_currency(h.accounts@, c.account_id, 0),
        days,
        k,
    ) {
        Some(rate) => r.is_plain(rate) && r.can(r.of(c.amount) * r.of(rate)),
        None => true,
    }
}

/// The flow of some movements is the sum of what each of them brings in.
pub proof fn the_flow_of_movements_is_the_sum_of_each<F: Fn(Formula) -> Number>(
    calc: F,
    r: Reading,
    h: HistoryInputs,
    flow: Number,
    cash: Seq<HistoryCash>,
    days: Seq<Seq<char>>,
    k: int,
)
    requires
        is_exact(calc, r),
        r.is_plain(flow),
        forall|i: int|
            0 <= i < cash.len() ==> converts_plainly(r, h, #[trigger] cash[i], days, k),
        forall|n: int|
            0 <= n <= cash.len() ==> r.can(
                r.of(flow) + deposit_values(r, h, #[trigger] cash.take(n), days, k),
            ),
    ensures
        r.of(cash_flows(calc, h, flow, cash, days, k)) == r.of(flow) + deposit_values(
            r,
            h,
            cash,
            days,
            k,
        ),
        r.is_plain(cash_flows(calc, h, flow, cash, days, k)),
    decreases cash.len(),
{
    reveal_with_fuel(exact, 5);
    reveal_with_fuel(unrounded, 5);
    if cash.len() > 0 {
        let less = cash.drop_last();
        let n = less.len() as int;
        let c = cash.last();
        assert forall|i: int| 0 <= i < less.len() implies converts_plainly(
            r,
            h,
            #[trigger] less[i],
            days,
            k,
        ) by {
            assert(cash[i] == less[i]);
        }
        assert forall|m: int| 0 <= m <= less.len() implies r.can(
            r.of(flow) + deposit_values(r, h, #[trigger] less.take(m), days, k),
        ) by {
            assert(cash.take(m) =~= less.take(m));
        }
        the_flow_of_movements_is_the_sum_of_each(calc, r, h, flow, less, days, k);
        assert(cash[n] == c);
        assert(cash.take(n + 1) =~= cash);
        let before = cash_flows(calc, h, flow, less, days, k);
        let rate = stored_rate(h, account_currency(h.accounts@, c.account_id, 0), days, k);
        let v = r.of(c.amount);
        assert(v * (0 as real) == 0 as real) by (nonlinear_arith);
        if c.date@ == days[k] && is_external(c.kind@) {
            match rate {
                Some(x) => {
                    lemma_exact(calc, r, sum(num(before), product(num(c.amount), num(x))));
                },
                None => {
                    lemma_exact(
                        calc,
                        r,
                        sum(num(before), product(num(c.amount), num(number(ZERO_BITS)))),
                    );
                },
            }
        }
    }
}

/// Whether some dates come one after another, the same one as often as it likes.
pub open spec fn in_order_of_date(dates: Seq<Seq<char>>) -> bool {
    forall|i: int, j: int|
        0 <= i < j < dates.len() ==> !text_before(#[trigger] dates[j], #[trigger] dates[i])
}

/// The flow of a day is what all trades and all movements dated on that day bring
/// in from outside, whatever else is on record.
pub proof fn the_flow_of_a_day_is_what_came_in_on_it<F: Fn(Formula) -> Number>(
    calc: F,
    r: Reading,
    h: HistoryInputs,
    days: Seq<Seq<char>>,
    k: int,
)
    requires
        is_exact(calc, r),
        0 < k < days.len(),
        strictly_ascending(days),
        in_order_of_date(trade_dates(h.trades@)),
        in_order_of_date(cash_dates(h.cash@)),
        forall|i: int|
            0 <= i < h.trades@.len() ==> ({
                let t = #[trigger] h.trades@[i];
                let traded = r.of(t.quantity) * r.of(t.price);
                r.is_plain(t.quantity) && r.is_plain(t.price) && r.is_plain(t.brokerage) && r.can(
                    traded,
                ) && r.can(traded + r.of(t.brokerage)) && r.can(traded - r.of(t.brokerage))
            }),
        forall|i: int|
            0 <= i < h.cash@.len() ==> converts_plainly(r, h, #[trigger] h.cash@[i], days, k),
        forall|n: int|
            0 <= n <= h.trades@.len() ==> r.can(
                outside_values(r, #[trigger] h.trades@.take(n), days[k]),
            ),
        forall|n: int|
            0 <= n <= h.cash@.len() ==> r.can(
                outside_values(r, h.trades@, days[k]) + deposit_values(
                    r,
                    h,
                    #[trigger] h.cash@.take(n),
                    days,
                    k,
                ),
            ),
    ensures
        r.of(flow_on(calc, h, days, k)) == outside_values(r, h.trades@, days[k]) + deposit_values(
            r,
            h,
            h.cash@,
            days,
            k,
        ),
{
    let td = trade_dates(h.trades@);
    let cd = cash_dates(h.cash@);
    let trades = h.trades@.subrange(reached(td, days, k - 1), reached(td, days, k));
    let cash = h.cash@.subrange(reached(cd, days, k - 1), reached(cd, days, k));
    let traded = trade_flows(calc, number(ZERO_BITS), trades, days[k]);
    lemma_traded_on_the_day(calc, r, h, days, k);
    lemma_moved_on_the_day(calc, r, h, traded, days, k);
}

proof fn lemma_traded_on_the_day<F: Fn(Formula) -> Number>(
    calc: F,
    r: Reading,
    h: HistoryInputs,
    days: Seq<Seq<char>>,
    k: int,
)
    requires
        is_exact(calc, r),
        0 < k < days.len(),
        strictly_ascending(days),
        in_order_of_date(trade_dates(h.trades@)),
        forall|i: int|
            0 <= i < h.trades@.len() ==> ({
                let t = #[trigger] h.trades@[i];
                let traded = r.of(t.quantity) * r.of(t.price);
                r.is_plain(t.quantity) && r.is_plain(t.price) && r.is_plain(t.brokerage) && r.can(
                    traded,
                ) && r.can(traded + r.of(t.brokerage)) && r.can(traded - r.of(t.brokerage))
            }),
        forall|n: int|
            0 <= n <= h.trades@.len() ==> r.can(
                outside_values(r, #[trigger] h.trades@.take(n), days[k]),
            ),
    ensures
        ({
            let td = trade_dates(h.trades@);
            let trades = h.trades@.subrange(reached(td, days, k - 1), reached(td, days, k));
            let flow = trade_flows(calc, number(ZERO_BITS), trades, days[k]);
            r.of(flow) == outside_values(r, h.trades@, days[k]) && r.is_plain(flow)
        }),
{
    let td = trade_dates(h.trades@);
    let (a, b) = (reached(td, days, k - 1), reached(td, days, k));
    lemma_on_the_day(td, days, k);
    assert forall|i: int|
        0 <= i < h.trades@.len() && !(a <= i < b) implies (#[trigger] h.trades@[i]).date@
        != days[k] by {
        assert(td[i] == h.trades@[i].date@);
    }
    let trades = h.trades@.subrange(a, b);
    let zero = number(ZERO_BITS);
    assert(r.of(zero) == 0 as real && r.is_plain(zero));
    assert(h.trades@.take(h.trades@.len() as int) =~= h.trades@);
    assert forall|n: int| 0 <= n <= trades.len() implies r.can(
        r.of(zero) + outside_values(r, #[trigger] trades.take(n), days[k]),
    ) by {
        lemma_trades_of_the_day(r, h.trades@, a, b, days[k], a + n);
        assert(trades.take(n) =~= h.trades@.subrange(a, a + n));
        assert(r.can(outside_values(r, h.trades@.take(a + n), days[k])));
    }
    lemma_trades_of_the_day(r, h.trades@, a, b, days[k], h.trades@.len() as int);
    the_flow_of_trades_is_the_sum_of_each(calc, r, zero, trades, days[k]);
}

proof fn lemma_moved_on_the_day<F: Fn(Formula) -> Number>(
    calc: F,
    r: Reading,
    h: HistoryInputs,
    flow: Number,
    days: Seq<Seq<char>>,
    k: int,
)
    requires
        is_exact(calc, r),
        r.is_plain(flow),
        0 < k < days.len(),
        strictly_ascending(days),
        in_order_of_date(cash_dates(h.cash@)),
        forall|i: int|
            0 <= i < h.cash@.len() ==> converts_plainly(r, h, #[trigger] h.cash@[i], days, k),
        forall|n: int|
            0 <= n <= h.cash@.len() ==> r.can(
                r.of(flow) + deposit_values(r, h, #[trigger] h.cash@.take(n), days, k),
            ),
    ensures
        ({
            let cd = cash_dates(h.cash@);
            let cash = h.cash@.subrange(reached(cd, days, k - 1), reached(cd, days, k));
            r.of(cash_flows(calc, h, flow, cash, days, k)) == r.of(flow) + deposit_values(
                r,
                h,
                h.cash@,
                days,
                k,
            )
        }),
{
    let cd = cash_dates(h.cash@);
    let (c, d) = (reached(cd, days, k - 1), reached(cd, days, k));
    lemma_on_the_day(cd, days, k);
    assert forall|i: int|
        0 <= i < h.cash@.len() && !(c <= i < d) implies (#[trigger] h.cash@[i]).date@ != days[k] by {
        assert(cd[i] == h.cash@[i].date@);
    }
    let cash = h.cash@.subrange(c, d);
    assert(h.cash@.take(h.cash@.len() as int) =~= h.cash@);
    assert forall|n: int| 0 <= n <= cash.len() implies r.can(
        r.of(flow) + deposit_values(r, h, #[trigger] cash.take(n), days, k),
    ) by {
        lemma_cash_of_the_day(r, h, h.cash@, c, d, days, k, c + n);
        assert(cash.take(n) =~= h.cash@.subrange(c, c + n));
        assert(r.can(r.of(flow) + deposit_values(r, h, h.cash@.take(c + n), days, k)));
    }
    lemma_cash_of_the_day(r, h, h.cash@, c, d, days, k, h.cash@.len() as int);
    the_flow_of_movements_is_the_sum_of_each(calc, r, h, flow, cash, days, k);
}

proof fn lemma_on_the_day(dates: Seq<Seq<char>>, days: Seq<Seq<char>>, k: int)
    requires
        0 < k < days.len(),
        strictly_ascending(days),
        in_order_of_date(dates),
    ensures
        0 <= reached(dates, days, k - 1) <= reached(dates, days, k) <= dates.len(),
        forall|i: int|
            0 <= i < dates.len() && !(reached(dates, days, k - 1) <= i < reached(dates, days, k))
                ==> #[trigger] dates[i] != days[k],
{
    lemma_reached_bounds(dates, days, k);
    lemma_reached_bounds(dates, days, k - 1);
    assert forall|i: int|
        0 <= i < dates.len() && !(reached(dates, days, k - 1) <= i < reached(dates, days, k))
        implies #[trigger] dates[i] != days[k] by {
        if dates[i] == days[k] {
            what_is_dated_on_a_day_counts_on_it(dates, days, k, i);
        }
    }
}

proof fn lemma_trades_of_the_day(
    r: Reading,
    trades: Seq<HistoryTrade>,
    lo: int,
    hi: int,
    day: Seq<char>,
    n: int,
)
    requires
        0 <= lo <= hi <= trades.len(),
        0 <= n <= trades.len(),
        forall|i: int|
            0 <= i < trades.len() && !(lo <= i < hi) ==> (#[trigger] trades[i]).date@ != day,
    ensures
        n <= lo ==> outside_values(r, trades.take(n), day) == 0 as real,
        lo <= n <= hi ==> outside_values(r, trades.take(n), day) == outside_values(
            r,
            trades.subrange(lo, n),
            day,
        ),
        hi <= n ==> outside_values(r, trades.take(n), day) == outside_values(
            r,
            trades.subrange(lo, hi),
            day,
        ),
    decreases n,
{
    if n > 0 {
        lemma_trades_of_the_day(r, trades, lo, hi, day, n - 1);
        assert(trades.take(n).drop_last() =~= trades.take(n - 1));
        assert(trades.take(n).last() == trades[n - 1]);
        if lo < n <= hi {
            assert(trades.subrange(lo, n).drop_last() =~= trades.subrange(lo, n - 1));
            assert(trades.subrange(lo, n).last() == trades[n - 1]);
        }
    }
}

proof fn lemma_cash_of_the_day(
    r: Reading,
    h: HistoryInputs,
    cash: Seq<HistoryCash>,
    lo: int,
    hi: int,
    days: Seq<Seq<char>>,
    k: int,
    n: int,
)
    requires
        0 <= lo <= hi <= cash.len(),
        0 <= n <= cash.len(),
        forall|i: int|
            0 <= i < cash.len() && !(lo <= i < hi) ==> (#[trigger] cash[i]).date@ != days[k],
    ensures
        n <= lo ==> deposit_values(r, h, cash.take(n), days, k) == 0 as real,
        lo <= n <= hi ==> deposit_values(r, h, cash.take(n), days, k) == deposit_values(
            r,
            h,
            cash.subrange(lo, n),
            days,
            k,
        ),
        hi <= n ==> deposit_values(r, h, cash.take(n), days, k) == deposit_values(
            r,
            h,
            cash.subrange(lo, hi),
            days,
            k,
        ),
    decreases n,
{
    if n > 0 {
        lemma_cash_of_the_day(r, h, cash, lo, hi, days, k, n - 1);
        assert(cash.take(n).drop_last() =~= cash.take(n - 1));
        assert(cash.take(n).last() == cash[n - 1]);
        if lo < n <= hi {
            assert(cash.subrange(lo, n).drop_last() =~= cash.subrange(lo, n - 1));
            assert(cash.subrange(lo, n).last() == cash[n - 1]);
        }
    }
}

/// Without an end of its own a history goes on to today; the first day stored
/// counts where it is not blank, without the space around it.
pub proof fn where_a_history_ends(to: Option<Seq<char>>, today: Seq<char>, stored: Seq<char>)
    ensures
        to is None ==> asked_end(to, today) == today,
        to is Some ==> Some(asked_end(to, today)) == to,
        is_blank(stored) ==> stored_floor(Some(stored)) is None,
        !is_blank(stored) ==> stored_floor(Some(stored)) == Some(trim_text(stored)),
        stored_floor(None) is None,
{
}

/// A day of a history shows the day itself, and the stocks, the cash and the flow
/// of that day and no other.
pub proof fn a_day_shows_its_stocks_its_cash_and_its_flow<F: Fn(Formula) -> Number>(
    calc: F,
    r: Reading,
    v: DailyValue,
    h: HistoryInputs,
    symbols: Seq<Seq<char>>,
    days: Seq<Seq<char>>,
    k: int,
    today: Seq<char>,
)
    requires
        is_exact(calc, r),
        is_value_on(calc, v, h, symbols, days, k, today),
        0 <= k < days.len(),
        forall|i: int|
            0 <= i < symbols.len() ==> values_plainly(r, h, #[trigger] symbols[i], days, k, today),
        forall|n: int|
            0 <= n <= symbols.len() ==> r.can(
                stock_values(r, h, #[trigger] symbols.take(n), days, k, today),
            ),
    ensures
        v.date@ == days[k],
        r.of(v.stocks) == stock_values(r, h, symbols, days, k, today),
        v.cash == cash_on(calc, h, h.accounts@, days, k),
        v.flow == flow_on(calc, h, days, k),
{
    the_stocks_of_a_day_are_the_sum_of_the_holdings(calc, r, h, symbols, days, k, today);
}

/// The symbols of a history are those traded, each of them once.
pub proof fn every_symbol_traded_is_valued(
    symbols: Seq<Seq<char>>,
    trades: Seq<HistoryTrade>,
    i: int,
    j: int,
)
    requires
        are_traded_symbols(symbols, trades),
        0 <= i < trades.len(),
        0 <= j < symbols.len(),
    ensures
        symbols.contains(trades[i].symbol@),
        exists|t: int| 0 <= t < trades.len() && (#[trigger] trades[t]).symbol@ == symbols[j],
        forall|m: int| 0 <= m < symbols.len() && m != j ==> #[trigger] symbols[m] != symbols[j],
{
    let named = Seq::new(trades.len(), |t: int| trades[t].symbol@);
    assert(named[i] == trades[i].symbol@);
    assert(named.to_set().contains(trades[i].symbol@));
    assert(symbols.to_set().contains(symbols[j]));
    let t = choose|t: int| 0 <= t < named.len() && named[t] == symbols[j];
    assert(trades[t].symbol@ == symbols[j]);
    assert forall|m: int| 0 <= m < symbols.len() && m != j implies #[trigger] symbols[m]
        != symbols[j] by {
        text_order_is_irreflexive(symbols[j]);
    }
}

/// A history is made of all that is on record but the movements of accounts that
/// do not count: the trades, the closes and the prices are as they are stored.
pub proof fn a_history_uses_what_is_stored(
    kept: HistoryInputs,
    h: HistoryInputs,
    closes: Map<Seq<char>, Vec<DayClose>>,
    key: Seq<char>,
)
    requires
        is_counted(kept, h),
    ensures
        kept.trades@ == h.trades@ && kept.accounts@ == h.accounts@,
        kept.closes@ == h.closes@ && kept.quotes@ == h.quotes@ && kept.manual@ == h.manual@,
        kept.currencies@ == h.currencies@,
        closes.contains_key(key) ==> series_of(closes, key) == closes[key]@,
        !closes.contains_key(key) ==> series_of(closes, key).len() == 0,
{
}

/// Where nothing is on record the history is empty. Otherwise a range of days that
/// can be read has a value for each of them and for the day before, and one that
/// cannot be read is refused.
pub proof fn a_history_has_a_value_for_each_day<F: Fn(Formula) -> Number>(
    calc: F,
    r: Result<Vec<DailyValue>, String>,
    h: HistoryInputs,
    from: Seq<char>,
    to: Seq<char>,
    today: Seq<char>,
    first: int,
    last: int,
)
    requires
        is_history(calc, r, h, Some(from), Some(to), today),
        date_number(from) == Some(first),
        date_number(to) == Some(last),
        MIN_DAY < first,
    ensures
        h.trades@.len() == 0 && h.cash@.len() == 0 ==> r is Ok && r->Ok_0@.len() == 0,
        h.trades@.len() + h.cash@.len() > 0 && first <= last ==> r is Ok && r->Ok_0@.len() == last
            - first + 2,
        h.trades@.len() + h.cash@.len() > 0 && last < first ==> r is Err,
        h.trades@.len() + h.cash@.len() > 0 && first <= last ==> forall|k: int|
            0 <= k < r->Ok_0@.len() ==> (#[trigger] r->Ok_0@[k]).date@ == date_text(
                first - 1 + k,
            )->0,
{
}

} // verus!
