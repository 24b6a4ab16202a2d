//! Figures derived from stored daily closes.
use vstd::prelude::*;
use crate::exact::{exact, is_exact, lemma_exact, unrounded, Reading};
use crate::dates::{date_number, monday_of, option_day, parse_day, weekday};
use crate::number::{
    difference, evaluate, is_calculator, num, number, product, quotient, sum, whole, worth, Formula,
    Number, ONE_BITS, TWO_BITS,
};
use crate::text::same;

verus! {

broadcast use vstd::string::group_string_axioms;

/// One trading day of a symbol.
#[derive(Debug)]
pub struct PriceHistoryPoint {
    pub date: String,
    pub open: Option<Number>,
    pub high: Option<Number>,
    pub low: Option<Number>,
    pub close: Option<Number>,
    pub volume: Option<i64>,
}

/// How many bars with a close a weekly average looks back on. An exponential average needs
/// history well beyond its period to settle.
pub const LOOKBACK_DAYS: usize = 3000;

// ---------------------------------------------------------------------------
// Simple average
// ---------------------------------------------------------------------------

/// The numbers added up from the first to the last.
pub open spec fn total(s: Seq<Number>) -> Formula
    decreases s.len(),
{
    if s.len() <= 1 {
        num(s.first())
    } else {
        sum(total(s.drop_last()), num(s.last()))
    }
}

/// The mean of some numbers.
pub open spec fn mean(s: Seq<Number>) -> Formula {
    quotient(total(s), whole(s.len() as int))
}

/// The numbers added up from the first to the last.
fn total_of(s: &Vec<Number>, n: usize) -> (r: Formula)
    requires
        0 < n <= s.len(),
    ensures
        r == total(s@.take(n as int)),
{
    let mut out = Formula::of(s[0]);
    let mut i: usize = 1;
    assert(s@.take(1).first() == s@[0]);
    while i < n
        invariant
            1 <= i <= n <= s.len(),
            out == total(s@.take(i as int)),
        decreases n - i,
    {
        assert(s@.take(i + 1).drop_last() =~= s@.take(i as int));
        out = out.plus(Formula::of(s[i]));
        i += 1;
    }
    out
}

/// The last `period` closes, the newest first.
pub open spec fn newest_first(closes: Seq<Number>, period: int) -> Seq<Number> {
    closes.subrange(closes.len() - period, closes.len() as int).reverse()
}

/// The simple average of the last `period` closes, the closes being in the
/// order of their days.
pub open spec fn sma_value<F: Fn(Formula) -> Number>(
    calc: F,
    closes: Seq<Number>,
    period: int,
) -> Option<Number> {
    if closes.len() < period {
        None
    } else {
        Some(worth(calc, mean(newest_first(closes, period))))
    }
}

/// The simple average of the last `period` closes, the closes being in the
/// order of their days; nothing where there are fewer.
pub fn stored_sma<F: Fn(Formula) -> Number>(closes: &Vec<Number>, period: u32, calc: &F) -> (r: Option<
    Number,
>)
    requires
        is_calculator(*calc),
        period > 0,
    ensures
        r == sma_value(*calc, closes@, period as int),
{
    if closes.len() < period as usize {
        return None;
    }
    let mut newest: Vec<Number> = Vec::new();
    let mut k: usize = 0;
    while k < period as usize
        invariant
            k <= period <= closes.len(),
            newest@ == newest_first(closes@, period as int).take(k as int),
        decreases period - k,
    {
        newest.push(closes[closes.len() - 1 - k]);
        assert(newest@ =~= newest_first(closes@, period as int).take(k + 1));
        k += 1;
    }
    assert(newest@ =~= newest_first(closes@, period as int));
    assert(newest@.take(newest@.len() as int) =~= newest@);
    let f = total_of(&newest, newest.len()).over(Formula::of_whole(period as i64));
    Some(evaluate(calc, f))
}

// ---------------------------------------------------------------------------
// Weeks
// ---------------------------------------------------------------------------

/// Daily bars collapsed to weeks.
pub struct WeeksView {
    /// The Monday of each week that has a bar.
    pub mondays: Seq<int>,
    /// The last close of each of these weeks.
    pub closes: Seq<Number>,
    /// For each daily bar the week it is in, where its date can be read and it
    /// has a close.
    pub bar_week: Seq<Option<int>>,
}

/// Weeks start on Monday and take their last close.
pub open spec fn weeks_of(days: Seq<Option<int>>, closes: Seq<Option<Number>>) -> WeeksView
    decreases days.len(),
{
    if days.len() == 0 || closes.len() != days.len() {
        WeeksView { mondays: seq![], closes: seq![], bar_week: seq![] }
    } else {
        let w = weeks_of(days.drop_last(), closes.drop_last());
        match (days.last(), closes.last()) {
            (Some(day), Some(close)) => if w.mondays.len() > 0 && w.mondays.last() == monday_of(
                day,
            ) {
                WeeksView {
                    mondays: w.mondays,
                    closes: w.closes.drop_last().push(close),
                    bar_week: w.bar_week.push(Some(w.mondays.len() - 1)),
                }
            } else {
                WeeksView {
                    mondays: w.mondays.push(monday_of(day)),
                    closes: w.closes.push(close),
                    bar_week: w.bar_week.push(Some(w.mondays.len() as int)),
                }
            },
            _ => WeeksView {
                mondays: w.mondays,
                closes: w.closes,
                bar_week: w.bar_week.push(None),
            },
        }
    }
}

/// The days of some bars.
pub open spec fn day_views(days: Seq<Option<i32>>) -> Seq<Option<int>> {
    Seq::new(days.len(), |i: int| option_day(days[i]))
}

/// Daily bars collapsed to weeks.
#[derive(Debug)]
pub struct Weeks {
    pub mondays: Vec<i32>,
    pub closes: Vec<Number>,
    pub bar_week: Vec<Option<usize>>,
}

impl View for Weeks {
    type V = WeeksView;

    open spec fn view(&self) -> WeeksView {
        WeeksView {
            mondays: Seq::new(self.mondays@.len(), |i: int| self.mondays@[i] as int),
            closes: self.closes@,
            bar_week: Seq::new(
                self.bar_week@.len(),
                |i: int|
                    match self.bar_week@[i] {
                        Some(w) => Some(w as int),
                        None => None,
                    },
            ),
        }
    }
}

/// Each bar lies in a week that is there.
pub proof fn bars_lie_in_weeks(days: Seq<Option<int>>, closes: Seq<Option<Number>>)
    requires
        days.len() == closes.len(),
    ensures
        weeks_of(days, closes).mondays.len() == weeks_of(days, closes).closes.len(),
        weeks_of(days, closes).bar_week.len() == days.len(),
        weeks_of(days, closes).mondays.len() <= days.len(),
        forall|i: int|
            0 <= i < days.len() ==> (#[trigger] weeks_of(days, closes).bar_week[i] matches Some(w)
                ==> 0 <= w < weeks_of(days, closes).closes.len()),
    decreases days.len(),
{
    if days.len() > 0 {
        bars_lie_in_weeks(days.drop_last(), closes.drop_last());
    }
}

/// Weeks start on Monday and take their last close. `days` are the days of the
/// bars, in order.
pub fn collapse_to_weeks(days: &Vec<Option<i32>>, closes: &Vec<Option<Number>>) -> (r: Weeks)
    requires
        days.len() == closes.len(),
        forall|i: int|
            0 <= i < days.len() ==> (#[trigger] days@[i] matches Some(d) ==> crate::dates::MIN_DAY
                <= d <= crate::dates::MAX_DAY),
    ensures
        r@ == weeks_of(day_views(days@), closes@),
{
    let mut out = Weeks { mondays: Vec::new(), closes: Vec::new(), bar_week: Vec::new() };
    let ghost views = day_views(days@);
    let mut i: usize = 0;
    proof {
        assert(out@.mondays =~= seq![]);
        assert(out@.closes =~= seq![]);
        assert(out@.bar_week =~= seq![]);
    }
    while i < days.len()
        invariant
            i <= days.len(),
            days.len() == closes.len(),
            views == day_views(days@),
            forall|i: int|
                0 <= i < days.len() ==> (#[trigger] days@[i] matches Some(d)
                    ==> crate::dates::MIN_DAY <= d <= crate::dates::MAX_DAY),
            out@ == weeks_of(views.take(i as int), closes@.take(i as int)),
        decreases days.len() - i,
    {
        let ghost before = out@;
        proof {
            assert(views.take(i + 1).drop_last() =~= views.take(i as int));
            assert(closes@.take(i + 1).drop_last() =~= closes@.take(i as int));
            bars_lie_in_weeks(views.take(i as int), closes@.take(i as int));
        }
        match (days[i], closes[i]) {
            (Some(day), Some(close)) => {
                let monday: i32 = day - weekday(day);
                let weeks: usize = out.mondays.len();
                if weeks > 0 && out.mondays[weeks - 1] == monday {
                    out.closes.set(weeks - 1, close);
                    out.bar_week.push(Some(weeks - 1));
                    assert(out@.closes =~= before.closes.drop_last().push(close));
                    assert(out@.bar_week =~= before.bar_week.push(Some(weeks - 1)));
                } else {
                    out.mondays.push(monday);
                    out.closes.push(close);
                    out.bar_week.push(Some(weeks));
                    assert(out@.mondays =~= before.mondays.push(monday as int));
                    assert(out@.bar_week =~= before.bar_week.push(Some(weeks as int)));
                }
            },
            _ => {
                out.bar_week.push(None);
                assert(out@.bar_week =~= before.bar_week.push(None));
            },
        }
        assert(out@ == weeks_of(views.take(i + 1), closes@.take(i + 1)));
        i += 1;
    }
    assert(views.take(days.len() as int) =~= views);
    assert(closes@.take(days.len() as int) =~= closes@);
    out
}

// ---------------------------------------------------------------------------
// Exponential average over weeks
// ---------------------------------------------------------------------------

/// The weight of the newest close in an exponential average.
pub open spec fn ema_weight(period: int) -> Formula {
    quotient(num(number(TWO_BITS)), sum(whole(period), num(number(ONE_BITS))))
}

/// The average once `close` has come after `previous`, `k` being its weight.
pub open spec fn ema_next(previous: Number, close: Number, k: Number) -> Formula {
    sum(
        product(num(close), num(k)),
        product(num(previous), difference(num(number(ONE_BITS)), num(k))),
    )
}

/// The average after the first `n` closes, `n` being at least the period. It
/// starts from the mean of the first `period` closes.
pub open spec fn ema_after<F: Fn(Formula) -> Number>(
    calc: F,
    closes: Seq<Number>,
    period: int,
    n: int,
) -> Number
    decreases n,
{
    if n <= period || n <= 0 {
        worth(calc, mean(closes.take(period)))
    } else {
        worth(
            calc,
            ema_next(
                ema_after(calc, closes, period, n - 1),
                closes[n - 1],
                worth(calc, ema_weight(period)),
            ),
        )
    }
}

/// The averages after each close from the `period`-th on.
fn ema_series<F: Fn(Formula) -> Number>(closes: &Vec<Number>, period: u32, calc: &F) -> (r: Vec<
    Number,
>)
    requires
        is_calculator(*calc),
        0 < period <= closes.len(),
    ensures
        r@.len() == closes@.len() - period + 1,
        forall|i: int|
            0 <= i < r@.len() ==> #[trigger] r@[i] == ema_after(
                *calc,
                closes@,
                period as int,
                period + i,
            ),
{
    let k = evaluate(
        calc,
        Formula::of_bits(TWO_BITS).over(
            Formula::of_whole(period as i64).plus(Formula::of_bits(ONE_BITS)),
        ),
    );
    let seed = total_of(closes, period as usize).over(Formula::of_whole(period as i64));
    let mut ema = evaluate(calc, seed);
    let mut out: Vec<Number> = Vec::new();
    out.push(ema);
    let mut n: usize = period as usize;
    while n < closes.len()
        invariant
            is_calculator(*calc),
            0 < period <= n <= closes.len(),
            k == worth(*calc, ema_weight(period as int)),
            ema == ema_after(*calc, closes@, period as int, n as int),
            out@.len() == n - period + 1,
            forall|i: int|
                0 <= i < out@.len() ==> #[trigger] out@[i] == ema_after(
                    *calc,
                    closes@,
                    period as int,
                    period + i,
                ),
        decreases closes.len() - n,
    {
        let f = Formula::of(closes[n]).times(Formula::of(k)).plus(
            Formula::of(ema).times(Formula::of_bits(ONE_BITS).minus(Formula::of(k))),
        );
        ema = evaluate(calc, f);
        out.push(ema);
        n += 1;
    }
    out
}

/// The weekly average of a symbol after its last week.
pub open spec fn weekly_ema_value<F: Fn(Formula) -> Number>(
    calc: F,
    weeks: WeeksView,
    period: int,
) -> Option<Number> {
    if period == 0 || weeks.closes.len() < period {
        None
    } else {
        Some(ema_after(calc, weeks.closes, period, weeks.closes.len() as int))
    }
}

/// The weekly average that each daily bar is held against: that of the last
/// completed week before it. The running week's own average holds the bar's own
/// close, and would move the bar's past as the week went on.
pub open spec fn weekly_ema_at<F: Fn(Formula) -> Number>(
    calc: F,
    weeks: WeeksView,
    period: int,
    bar: int,
) -> Option<Number> {
    match weeks.bar_week[bar] {
        Some(w) => if w < period {
            None
        } else {
            Some(ema_after(calc, weeks.closes, period, w))
        },
        None => None,
    }
}

/// The weekly averages that the daily bars are held against.
pub open spec fn weekly_ema_bars<F: Fn(Formula) -> Number>(
    calc: F,
    weeks: WeeksView,
    period: int,
) -> Option<Seq<Option<Number>>> {
    if period == 0 || weeks.closes.len() < period {
        None
    } else {
        Some(Seq::new(weeks.bar_week.len(), |i: int| weekly_ema_at(calc, weeks, period, i)))
    }
}

/// The weekly average of a symbol after its last week.
pub fn weekly_ema<F: Fn(Formula) -> Number>(weeks: &Weeks, period: u32, calc: &F) -> (r: Option<
    Number,
>)
    requires
        is_calculator(*calc),
    ensures
        r == weekly_ema_value(*calc, weeks@, period as int),
{
    if period == 0 || weeks.closes.len() < period as usize {
        return None;
    }
    let series = ema_series(&weeks.closes, period, calc);
    Some(series[series.len() - 1])
}

/// The weekly averages that the daily bars are held against.
pub fn spread_weekly_ema<F: Fn(Formula) -> Number>(weeks: &Weeks, period: u32, calc: &F) -> (r:
    Option<Vec<Option<Number>>>)
    requires
        is_calculator(*calc),
        forall|i: int|
            0 <= i < weeks.bar_week.len() ==> (#[trigger] weeks.bar_week@[i] matches Some(w) ==> w
                < weeks.closes.len()),
    ensures
        match r {
            Some(v) => weekly_ema_bars(*calc, weeks@, period as int) == Some(v@),
            None => weekly_ema_bars(*calc, weeks@, period as int) is None,
        },
{
    if period == 0 || weeks.closes.len() < period as usize {
        return None;
    }
    let series = ema_series(&weeks.closes, period, calc);
    let mut out: Vec<Option<Number>> = Vec::new();
    let mut i: usize = 0;
    while i < weeks.bar_week.len()
        invariant
            i <= weeks.bar_week.len(),
            0 < period <= weeks.closes.len(),
            series@.len() == weeks.closes@.len() - period + 1,
            forall|i: int|
                0 <= i < series@.len() ==> #[trigger] series@[i] == ema_after(
                    *calc,
                    weeks.closes@,
                    period as int,
                    period + i,
                ),
            forall|i: int|
                0 <= i < weeks.bar_week.len() ==> (#[trigger] weeks.bar_week@[i] matches Some(w)
                    ==> w < weeks.closes.len()),
            out@.len() == i,
            forall|j: int|
                0 <= j < i ==> #[trigger] out@[j] == weekly_ema_at(
                    *calc,
                    weeks@,
                    period as int,
                    j,
                ),
        decreases weeks.bar_week.len() - i,
    {
        let ghost at = weeks@.bar_week[i as int];
        match weeks.bar_week[i] {
            Some(w) => {
                if w < period as usize {
                    out.push(None);
                } else {
                    proof {
                        assert(series@[w - period] == ema_after(
                            *calc,
                            weeks.closes@,
                            period as int,
                            period + (w - period),
                        ));
                    }
                    out.push(Some(series[w - period as usize]));
                }
            },
            None => {
                out.push(None);
            },
        }
        i += 1;
    }
    assert(out@ =~= weekly_ema_bars(*calc, weeks@, period as int)->0);
    Some(out)
}


// ---------------------------------------------------------------------------
// From stored bars
// ---------------------------------------------------------------------------

/// The days that the dates of some bars name.
pub open spec fn bar_days(history: Seq<PriceHistoryPoint>) -> Seq<Option<int>> {
    Seq::new(history.len(), |i: int| date_number(history[i].date@))
}

/// The closes of some bars.
pub open spec fn bar_closes(history: Seq<PriceHistoryPoint>) -> Seq<Option<Number>> {
    Seq::new(history.len(), |i: int| history[i].close)
}

/// The bars from number `from` on, collapsed to weeks.
pub fn weeks_of_bars(history: &Vec<PriceHistoryPoint>, from: usize) -> (r: Weeks)
    requires
        from <= history.len(),
    ensures
        r@ == weeks_of(
            bar_days(history@.skip(from as int)),
            bar_closes(history@.skip(from as int)),
        ),
{
    let ghost bars = history@.skip(from as int);
    let mut days: Vec<Option<i32>> = Vec::new();
    let mut closes: Vec<Option<Number>> = Vec::new();
    let mut i: usize = from;
    while i < history.len()
        invariant
            from <= i <= history.len(),
            bars == history@.skip(from as int),
            days@.len() == i - from,
            closes@.len() == i - from,
            forall|j: int|
                0 <= j < i - from ==> option_day(#[trigger] days@[j]) == date_number(bars[j].date@),
            forall|j: int| 0 <= j < i - from ==> #[trigger] closes@[j] == bars[j].close,
            forall|j: int|
                0 <= j < days@.len() ==> (#[trigger] days@[j] matches Some(d)
                    ==> crate::dates::MIN_DAY <= d <= crate::dates::MAX_DAY),
        decreases history.len() - i,
    {
        assert(bars[i - from] == history@[i as int]);
        days.push(parse_day(history[i].date.as_str()));
        closes.push(history[i].close);
        i += 1;
    }
    assert(day_views(days@) =~= bar_days(bars));
    assert(closes@ =~= bar_closes(bars));
    collapse_to_weeks(&days, &closes)
}

/// A weekly average spread over the daily bars it covers, so that a weekly
/// figure can be crossed in days.
pub fn weekly_ema_series<F: Fn(Formula) -> Number>(
    history: &Vec<PriceHistoryPoint>,
    period: u32,
    calc: &F,
) -> (r: Option<Vec<Option<Number>>>)
    requires
        is_calculator(*calc),
    ensures
        match r {
            Some(v) => weekly_ema_bars(
                *calc,
                weeks_of(bar_days(history@), bar_closes(history@)),
                period as int,
            ) == Some(v@) && v@.len() == history@.len(),
            None => weekly_ema_bars(
                *calc,
                weeks_of(bar_days(history@), bar_closes(history@)),
                period as int,
            ) is None,
        },
{
    let weeks = weeks_of_bars(history, 0);
    proof {
        assert(history@.skip(0) =~= history@);
        bars_lie_in_weeks(bar_days(history@), bar_closes(history@));
        assert forall|i: int| 0 <= i < weeks.bar_week.len() implies (
        #[trigger] weeks.bar_week@[i] matches Some(w) ==> w < weeks.closes.len()) by {
            assert(weeks@.bar_week[i] == weeks_of(
                bar_days(history@),
                bar_closes(history@),
            ).bar_week[i]);
        }
    }
    spread_weekly_ema(&weeks, period, calc)
}

/// Where the last `n` bars with a close begin.
pub open spec fn start_of_closed(history: Seq<PriceHistoryPoint>, n: int) -> int
    decreases history.len(),
{
    if history.len() == 0 || n <= 0 {
        history.len() as int
    } else if history.last().close is Some {
        start_of_closed(history.drop_last(), n - 1)
    } else {
        start_of_closed(history.drop_last(), n)
    }
}

/// The last `n` bars with a close, and those without one that come between.
pub open spec fn last_closed(history: Seq<PriceHistoryPoint>, n: int) -> Seq<PriceHistoryPoint> {
    history.skip(start_of_closed(history, n))
}

/// Where the last `n` bars with a close begin.
pub fn closed_from(history: &Vec<PriceHistoryPoint>, n: usize) -> (r: usize)
    ensures
        r == start_of_closed(history@, n as int),
        r <= history@.len(),
{
    let mut from: usize = history.len();
    let mut left: usize = n;
    assert(history@.take(from as int) =~= history@);
    while from > 0 && left > 0
        invariant
            from <= history.len(),
            start_of_closed(history@, n as int) == start_of_closed(
                history@.take(from as int),
                left as int,
            ),
        decreases from,
    {
        assert(history@.take(from as int).drop_last() =~= history@.take(from - 1));
        assert(history@.take(from as int).last() == history@[from - 1]);
        if history[from - 1].close.is_some() {
            left -= 1;
        }
        from -= 1;
    }
    from
}

/// The bars that a weekly average looks back on.
pub open spec fn looked_back(history: Seq<PriceHistoryPoint>) -> Seq<PriceHistoryPoint> {
    last_closed(history, LOOKBACK_DAYS as int)
}

/// The weekly average of a symbol whose stored bars, in the order of their
/// days, are `history`.
pub fn stored_weekly_ema<F: Fn(Formula) -> Number>(
    history: &Vec<PriceHistoryPoint>,
    period: u32,
    calc: &F,
) -> (r: Option<Number>)
    requires
        is_calculator(*calc),
    ensures
        r == weekly_ema_value(
            *calc,
            weeks_of(bar_days(looked_back(history@)), bar_closes(looked_back(history@))),
            period as int,
        ),
{
    let from: usize = closed_from(history, LOOKBACK_DAYS);
    let weeks = weeks_of_bars(history, from);
    weekly_ema(&weeks, period, calc)
}

/// The closes of those bars that have one.
pub open spec fn known_closes(history: Seq<PriceHistoryPoint>) -> Seq<Number>
    decreases history.len(),
{
    if history.len() == 0 {
        seq![]
    } else {
        match history.last().close {
            Some(c) => known_closes(history.drop_last()).push(c),
            None => known_closes(history.drop_last()),
        }
    }
}

/// The closes of those bars that have one.
fn closes_of(history: &Vec<PriceHistoryPoint>) -> (r: Vec<Number>)
    ensures
        r@ == known_closes(history@),
{
    let mut out: Vec<Number> = Vec::new();
    let mut i: usize = 0;
    while i < history.len()
        invariant
            i <= history.len(),
            out@ == known_closes(history@.take(i as int)),
        decreases history.len() - i,
    {
        assert(history@.take(i + 1).drop_last() =~= history@.take(i as int));
        match history[i].close {
            Some(c) => {
                out.push(c);
            },
            None => {},
        }
        i += 1;
    }
    assert(history@.take(history.len() as int) =~= history@);
    out
}

/// The latest value of a derived figure, in the symbol's own currency.
pub open spec fn indicator_of<F: Fn(Formula) -> Number>(
    calc: F,
    history: Seq<PriceHistoryPoint>,
    key: Seq<char>,
) -> Option<Number> {
    if key == "sma50"@ {
        sma_value(calc, known_closes(history), 50)
    } else if key == "sma150"@ {
        sma_value(calc, known_closes(history), 150)
    } else if key == "ema40w"@ {
        weekly_ema_value(
            calc,
            weeks_of(bar_days(looked_back(history)), bar_closes(looked_back(history))),
            40,
        )
    } else {
        None
    }
}

/// The latest value of a derived figure, in the symbol's own currency. A key is
/// matched as it stands: an unknown one is no period to guess at.
pub fn indicator_value<F: Fn(Formula) -> Number>(
    history: &Vec<PriceHistoryPoint>,
    key: &str,
    calc: &F,
) -> (r: Option<Number>)
    requires
        is_calculator(*calc),
    ensures
        r == indicator_of(*calc, history@, key@),
{
    if same(key, "sma50") {
        stored_sma(&closes_of(history), 50, calc)
    } else if same(key, "sma150") {
        stored_sma(&closes_of(history), 150, calc)
    } else if same(key, "ema40w") {
        stored_weekly_ema(history, 40, calc)
    } else {
        None
    }
}

/// What a crossing is measured against, one value for each bar.
#[derive(Debug)]
pub enum Reference {
    /// The simple average of so many closes, bar by bar.
    SimpleAverage(u32),
    /// These values.
    Series(Vec<Option<Number>>),
}

/// What a crossing is measured against: a derived figure moves with the bars,
/// a stored level stands still.
pub fn crossover_reference<F: Fn(Formula) -> Number>(
    history: &Vec<PriceHistoryPoint>,
    field_key: &str,
    constant: Option<Number>,
    calc: &F,
) -> (r: Option<Reference>)
    requires
        is_calculator(*calc),
    ensures
        if field_key@ == "sma50"@ {
            r == Some(Reference::SimpleAverage(50))
        } else if field_key@ == "sma150"@ {
            r == Some(Reference::SimpleAverage(150))
        } else if field_key@ == "ema40w"@ {
            match weekly_ema_bars(
                *calc,
                weeks_of(bar_days(history@), bar_closes(history@)),
                40,
            ) {
                Some(s) => r is Some && r->0 is Series && r->0->Series_0@ == s,
                None => r is None,
            }
        } else {
            match constant {
                Some(c) => r is Some && r->0 is Series && r->0->Series_0@ == Seq::new(
                    history@.len(),
                    |i: int| Some(c),
                ),
                None => r is None,
            }
        },
{
    proof {
        reveal_strlit("sma50");
        reveal_strlit("sma150");
        reveal_strlit("ema40w");
    }
    if same(field_key, "sma50") {
        Some(Reference::SimpleAverage(50))
    } else if same(field_key, "sma150") {
        Some(Reference::SimpleAverage(150))
    } else if same(field_key, "ema40w") {
        match weekly_ema_series(history, 40, calc) {
            Some(s) => Some(Reference::Series(s)),
            None => None,
        }
    } else {
        match constant {
            Some(c) => {
                let mut out: Vec<Option<Number>> = Vec::new();
                let mut i: usize = 0;
                while i < history.len()
                    invariant
                        i <= history.len(),
                        out@ == Seq::new(i as nat, |i: int| Some(c)),
                    decreases history.len() - i,
                {
                    out.push(Some(c));
                    i += 1;
                    assert(out@ =~= Seq::new(i as nat, |i: int| Some(c)));
                }
                assert(out@ =~= Seq::new(history@.len(), |i: int| Some(c)));
                Some(Reference::Series(out))
            },
            None => None,
        }
    }
}

// ---------------------------------------------------------------------------
// Laws
// ---------------------------------------------------------------------------

/// Whether bar `i` lies in an earlier week than bar `j`.
pub open spec fn in_earlier_week(weeks: WeeksView, i: int, j: int) -> bool {
    &&& weeks.bar_week[i] is Some
    &&& weeks.bar_week[j] is Some
    &&& weeks.bar_week[i]->0 < weeks.bar_week[j]->0
}

/// A bar's weekly reference depends neither on the closes of the bar's own week
/// nor on anything after the bar: two histories whose bars up to this one are of
/// the same days, and have the same closes in the weeks before, give it the same
/// reference, whatever its own week closed at and however they go on.
pub proof fn weekly_reference_never_looks_ahead<F: Fn(Formula) -> Number>(
    calc: F,
    days_a: Seq<Option<int>>,
    closes_a: Seq<Option<Number>>,
    days_b: Seq<Option<int>>,
    closes_b: Seq<Option<Number>>,
    period: int,
    bar: int,
)
    requires
        days_a.len() == closes_a.len(),
        days_b.len() == closes_b.len(),
        period > 0,
        0 <= bar < days_a.len(),
        bar < days_b.len(),
        forall|i: int|
            0 <= i <= bar ==> #[trigger] days_a[i] == days_b[i] && (closes_a[i] is Some)
                == (closes_b[i] is Some),
        forall|i: int|
            0 <= i < bar && in_earlier_week(weeks_of(days_a, closes_a), i, bar)
                ==> #[trigger] closes_a[i] == closes_b[i],
    ensures
        weekly_ema_at(calc, weeks_of(days_a, closes_a), period, bar) == weekly_ema_at(
            calc,
            weeks_of(days_b, closes_b),
            period,
            bar,
        ),
{
    let n = bar + 1;
    let da = days_a.take(n);
    let ca = closes_a.take(n);
    let db = days_b.take(n);
    let cb = closes_b.take(n);
    let a = weeks_of(days_a, closes_a);
    let b = weeks_of(days_b, closes_b);
    let ta = weeks_of(da, ca);
    let tb = weeks_of(db, cb);
    lemma_later_bars(days_a, closes_a, bar);
    lemma_later_bars(days_b, closes_b, bar);
    assert(da =~= db) by {
        assert forall|i: int| 0 <= i < n implies da[i] == db[i] by {
            assert(days_a[i] == days_b[i]);
        }
    }
    bars_lie_in_weeks(days_a, closes_a);
    bars_lie_in_weeks(days_b, closes_b);
    bars_lie_in_weeks(da, ca);
    if let Some(w) = a.bar_week[bar] {
        assert(ta.bar_week[bar] == Some(w));
        assert forall|i: int| 0 <= i < n implies (#[trigger] ca[i] is Some) == (cb[i] is Some) && (
        ta.bar_week[i] matches Some(v) && v < w ==> ca[i] == cb[i]) by {
            assert(days_a[i] == days_b[i]);
            assert(ta.bar_week[i] == a.bar_week[i]);
            if i < bar && in_earlier_week(a, i, bar) {
                assert(closes_a[i] == closes_b[i]);
            }
        }
        lemma_same_weeks(da, ca, cb, w);
        if w >= period {
            assert forall|v: int| 0 <= v < w implies a.closes[v] == b.closes[v] by {
                assert(ta.closes[v] == tb.closes[v]);
            }
            lemma_ema_prefix(calc, a.closes, b.closes, period, w);
        }
    } else {
        assert forall|i: int| 0 <= i < n implies (#[trigger] ca[i] is Some) == (cb[i] is Some) && (
        ta.bar_week[i] matches Some(v) && v < 0 ==> ca[i] == cb[i]) by {
            assert(days_a[i] == days_b[i]);
        }
        lemma_same_weeks(da, ca, cb, 0);
    }
}

/// What comes after a bar moves neither its week nor the closes of the weeks
/// before.
proof fn lemma_later_bars(days: Seq<Option<int>>, closes: Seq<Option<Number>>, bar: int)
    requires
        days.len() == closes.len(),
        0 <= bar < days.len(),
    ensures
        forall|i: int|
            0 <= i <= bar ==> #[trigger] weeks_of(days, closes).bar_week[i] == weeks_of(
                days.take(bar + 1),
                closes.take(bar + 1),
            ).bar_week[i],
        weeks_of(days, closes).bar_week[bar] matches Some(w) ==> forall|v: int|
            0 <= v < w ==> #[trigger] weeks_of(days, closes).closes[v] == weeks_of(
                days.take(bar + 1),
                closes.take(bar + 1),
            ).closes[v],
    decreases days.len(),
{
    if bar == days.len() - 1 {
        assert(days.take(bar + 1) =~= days);
        assert(closes.take(bar + 1) =~= closes);
    } else {
        let d = days.drop_last();
        let c = closes.drop_last();
        lemma_later_bars(d, c, bar);
        assert(d.take(bar + 1) =~= days.take(bar + 1));
        assert(c.take(bar + 1) =~= closes.take(bar + 1));
        bars_lie_in_weeks(d, c);
        bars_lie_in_weeks(days, closes);
        let less = weeks_of(d, c);
        let all = weeks_of(days, closes);
        assert forall|i: int| 0 <= i <= bar implies #[trigger] all.bar_week[i] == weeks_of(
            days.take(bar + 1),
            closes.take(bar + 1),
        ).bar_week[i] by {
            assert(all.bar_week[i] == less.bar_week[i]);
        }
        if let Some(w) = all.bar_week[bar] {
            assert(less.bar_week[bar] == Some(w));
            assert forall|v: int| 0 <= v < w implies #[trigger] all.closes[v] == weeks_of(
                days.take(bar + 1),
                closes.take(bar + 1),
            ).closes[v] by {
                assert(all.closes[v] == less.closes[v]);
            }
        }
    }
}

/// Bars of the same days lie in the same weeks, and weeks whose bars have the
/// same closes close the same.
proof fn lemma_same_weeks(
    days: Seq<Option<int>>,
    a: Seq<Option<Number>>,
    b: Seq<Option<Number>>,
    w: int,
)
    requires
        days.len() == a.len(),
        days.len() == b.len(),
        forall|i: int|
            0 <= i < days.len() ==> (#[trigger] a[i] is Some) == (b[i] is Some) && (weeks_of(
                days,
                a,
            ).bar_week[i] matches Some(v) && v < w ==> a[i] == b[i]),
    ensures
        weeks_of(days, a).mondays == weeks_of(days, b).mondays,
        weeks_of(days, a).bar_week == weeks_of(days, b).bar_week,
        weeks_of(days, a).closes.len() == weeks_of(days, b).closes.len(),
        forall|v: int|
            0 <= v < w && v < weeks_of(days, a).closes.len() ==> #[trigger] weeks_of(
                days,
                a,
            ).closes[v] == weeks_of(days, b).closes[v],
    decreases days.len(),
{
    if days.len() > 0 {
        let n = days.len() - 1;
        let d = days.drop_last();
        let wa = weeks_of(days, a);
        let la = weeks_of(d, a.drop_last());
        bars_lie_in_weeks(days, a);
        bars_lie_in_weeks(d, a.drop_last());
        bars_lie_in_weeks(d, b.drop_last());
        assert forall|i: int| 0 <= i < d.len() implies (#[trigger] a.drop_last()[i] is Some) == (
        b.drop_last()[i] is Some) && (la.bar_week[i] matches Some(v) && v < w ==> a.drop_last()[i]
            == b.drop_last()[i]) by {
            assert(a[i] == a.drop_last()[i]);
            assert(wa.bar_week[i] == la.bar_week[i]);
        }
        lemma_same_weeks(d, a.drop_last(), b.drop_last(), w);
        assert((a[n] is Some) == (b[n] is Some));
    }
}

/// The average after `n` closes depends on those only.
proof fn lemma_ema_prefix<F: Fn(Formula) -> Number>(
    calc: F,
    a: Seq<Number>,
    b: Seq<Number>,
    period: int,
    n: int,
)
    requires
        0 < period <= n <= a.len(),
        n <= b.len(),
        forall|i: int| 0 <= i < n ==> a[i] == b[i],
    ensures
        ema_after(calc, a, period, n) == ema_after(calc, b, period, n),
    decreases n,
{
    if n > period {
        lemma_ema_prefix(calc, a, b, period, n - 1);
    } else {
        assert(a.take(period) =~= b.take(period));
    }
}

/// The close of a week is that of the last bar in it.
pub proof fn a_week_takes_its_last_close(
    days: Seq<Option<int>>,
    closes: Seq<Option<Number>>,
    bar: int,
)
    requires
        days.len() == closes.len(),
        0 <= bar < days.len(),
        weeks_of(days, closes).bar_week[bar] is Some,
        forall|j: int|
            bar < j < days.len() ==> #[trigger] weeks_of(days, closes).bar_week[j] != weeks_of(
                days,
                closes,
            ).bar_week[bar],
    ensures
        closes[bar] == Some(
            weeks_of(days, closes).closes[weeks_of(days, closes).bar_week[bar]->0],
        ),
    decreases days.len(),
{
    let n = days.len() - 1;
    let w = weeks_of(days, closes);
    let d1 = days.drop_last();
    let c1 = closes.drop_last();
    let w1 = weeks_of(d1, c1);
    bars_lie_in_weeks(days, closes);
    bars_lie_in_weeks(d1, c1);
    if bar < n {
        assert(w.bar_week[bar] == w1.bar_week[bar]);
        assert forall|j: int| bar < j < d1.len() implies #[trigger] w1.bar_week[j]
            != w1.bar_week[bar] by {
            assert(w.bar_week[j] == w1.bar_week[j]);
        }
        a_week_takes_its_last_close(d1, c1, bar);
        assert(w.bar_week[n] != w.bar_week[bar]);
    }
}

/// Whether a price stands above its average, so that the days since it crossed
/// are told.
pub open spec fn is_above(price: Option<Number>, average: Option<Number>) -> bool {
    price is Some && average is Some && average->0.below(price->0)
}

/// An average with the last time that the price crossed it.
#[derive(Clone, Copy, PartialEq, Eq, Structural, Debug)]
pub struct AverageStats {
    pub latest: Option<Number>,
    /// Trading days since the crossing.
    pub days: i64,
    /// The volume of the crossing against the average of the days before.
    pub volume_pct: Option<Number>,
}

/// How a price stands to its averages.
#[derive(Clone, Copy, PartialEq, Eq, Structural, Debug)]
pub struct SymbolIndicators {
    pub sma50: Option<Number>,
    pub sma150: Option<Number>,
    pub days_since_50sma: Option<i64>,
    pub volume_pct_50sma: Option<Number>,
    pub days_since_150sma: Option<i64>,
    pub volume_pct_150sma: Option<Number>,
}

/// What is told of the crossing of an average: nothing, unless the price still
/// stands above it.
pub open spec fn told(price: Option<Number>, a: AverageStats) -> (Option<i64>, Option<Number>) {
    if is_above(price, a.latest) {
        (Some(a.days), a.volume_pct)
    } else {
        (None, None)
    }
}

fn tell(price: Option<Number>, a: AverageStats) -> (r: (Option<i64>, Option<Number>))
    ensures
        r == told(price, a),
{
    match (price, a.latest) {
        (Some(p), Some(average)) => if average.less_than(p) {
            (Some(a.days), a.volume_pct)
        } else {
            (None, None)
        },
        _ => (None, None),
    }
}

/// How a price stands to its averages of 50 and of 150 closes.
pub fn compute_symbol_indicators(
    price: Option<Number>,
    short: AverageStats,
    long: AverageStats,
) -> (r: SymbolIndicators)
    ensures
        r.sma50 == short.latest,
        r.sma150 == long.latest,
        (r.days_since_50sma, r.volume_pct_50sma) == told(price, short),
        (r.days_since_150sma, r.volume_pct_150sma) == told(price, long),
{
    let (days_50, volume_50) = tell(price, short);
    let (days_150, volume_150) = tell(price, long);
    SymbolIndicators {
        sma50: short.latest,
        sma150: long.latest,
        days_since_50sma: days_50,
        volume_pct_50sma: volume_50,
        days_since_150sma: days_150,
        volume_pct_150sma: volume_150,
    }
}

// ---------------------------------------------------------------------------
// What the averages are
// ---------------------------------------------------------------------------

/// The values of some numbers added up.
pub open spec fn added_up(r: Reading, s: Seq<Number>) -> real
    decreases s.len(),
{
    if s.len() == 0 {
        0 as real
    } else {
        added_up(r, s.drop_last()) + r.of(s.last())
    }
}

/// Whether the numbers can be added up one after another without rounding, and
/// divided by how many they are.
pub open spec fn averages_plainly(r: Reading, s: Seq<Number>) -> bool {
    &&& forall|i: int| 0 <= i < s.len() ==> r.is_plain(#[trigger] s[i])
    &&& forall|n: int| 0 <= n <= s.len() ==> r.can(added_up(r, #[trigger] s.take(n)))
    &&& r.can(s.len() as int as real)
    &&& r.can(added_up(r, s) / (s.len() as int as real))
}

proof fn lemma_total(r: Reading, s: Seq<Number>)
    requires
        s.len() > 0,
        forall|i: int| 0 <= i < s.len() ==> r.is_plain(#[trigger] s[i]),
        forall|n: int| 0 <= n <= s.len() ==> r.can(added_up(r, #[trigger] s.take(n))),
    ensures
        exact(r, total(s)) == added_up(r, s),
        unrounded(r, total(s)),
    decreases s.len(),
{
    let less = s.drop_last();
    let n = less.len() as int;
    assert(s.take(n + 1) =~= s);
    assert(s[n] == s.last());
    if s.len() > 1 {
        assert forall|i: int| 0 <= i < less.len() implies r.is_plain(#[trigger] less[i]) by {
            assert(s[i] == less[i]);
        }
        assert forall|m: int| 0 <= m <= less.len() implies r.can(
            added_up(r, #[trigger] less.take(m)),
        ) by {
            assert(s.take(m) =~= less.take(m));
        }
        lemma_total(r, less);
        assert(exact(r, num(s.last())) == r.of(s.last()));
        assert(unrounded(r, num(s.last())));
    } else {
        assert(less =~= Seq::<Number>::empty());
        assert(s.first() == s.last());
        assert(added_up(r, less) == 0 as real);
    }
}

proof fn lemma_mean<F: Fn(Formula) -> Number>(calc: F, r: Reading, s: Seq<Number>)
    requires
        is_exact(calc, r),
        0 < s.len() <= i64::MAX,
        averages_plainly(r, s),
    ensures
        r.of(worth(calc, mean(s))) == added_up(r, s) / (s.len() as int as real),
{
    lemma_total(r, s);
    let n = s.len() as int;
    assert(exact(r, whole(n)) == n as real);
    assert(unrounded(r, whole(n)));
    assert(n as real != 0 as real);
    assert(unrounded(r, mean(s)));
    lemma_exact(calc, r, mean(s));
}

/// The simple average is the sum of the last closes, as many as the period has,
/// over that many; earlier closes do not count, and there is none of fewer.
pub proof fn a_simple_average_is_that_of_the_last_closes<F: Fn(Formula) -> Number>(
    calc: F,
    r: Reading,
    closes: Seq<Number>,
    period: int,
)
    requires
        is_exact(calc, r),
        0 < period <= i64::MAX,
        period <= closes.len() ==> averages_plainly(
            r,
            Seq::new(period as nat, |i: int| closes[closes.len() - 1 - i]),
        ),
    ensures
        closes.len() < period ==> sma_value(calc, closes, period) is None,
        period <= closes.len() ==> sma_value(calc, closes, period) is Some && r.of(
            sma_value(calc, closes, period)->0,
        ) == added_up(r, Seq::new(period as nat, |i: int| closes[closes.len() - 1 - i])) / (
        period as real),
{
    if period <= closes.len() {
        let newest = Seq::new(period as nat, |i: int| closes[closes.len() - 1 - i]);
        assert(newest_first(closes, period) =~= newest);
        lemma_mean(calc, r, newest);
    }
}

/// The exponential average is a running one. Of as many closes as its period has
/// it is the mean. With one more close it becomes that close times the weight of
/// the newest, and what it was before times the rest; the weight is two over the
/// period and one. There is none of fewer closes than the period.
pub proof fn every_week_moves_the_average<F: Fn(Formula) -> Number>(
    calc: F,
    r: Reading,
    before: WeeksView,
    after: WeeksView,
    close: Number,
    period: int,
)
    requires
        0 < period < i64::MAX,
        after.closes == before.closes.push(close),
    ensures
        after.closes.len() < period ==> weekly_ema_value(calc, after, period) is None,
        before.closes.len() >= period ==> weekly_ema_value(calc, before, period) is Some
            && weekly_ema_value(calc, after, period) is Some && ({
            let k = worth(
                calc,
                Formula::Quotient(
                    Box::new(Formula::Value(Number { bits: 0x4000_0000_0000_0000 })),
                    Box::new(
                        Formula::Sum(
                            Box::new(Formula::Whole(period as i64)),
                            Box::new(Formula::Value(Number { bits: 0x3FF0_0000_0000_0000 })),
                        ),
                    ),
                ),
            );
            let was = r.of(weekly_ema_value(calc, before, period)->0);
            let is = r.of(weekly_ema_value(calc, after, period)->0);
            &&& weekly_ema_value(calc, after, period)->0 == worth(
                calc,
                Formula::Sum(
                    Box::new(
                        Formula::Product(
                            Box::new(Formula::Value(close)),
                            Box::new(Formula::Value(k)),
                        ),
                    ),
                    Box::new(
                        Formula::Product(
                            Box::new(
                                Formula::Value(weekly_ema_value(calc, before, period)->0),
                            ),
                            Box::new(
                                Formula::Difference(
                                    Box::new(
                                        Formula::Value(Number { bits: 0x3FF0_0000_0000_0000 }),
                                    ),
                                    Box::new(Formula::Value(k)),
                                ),
                            ),
                        ),
                    ),
                ),
            )
            &&& is_exact(calc, r) && r.is_plain(k) && r.is_plain(close) && r.is_plain(
                weekly_ema_value(calc, before, period)->0,
            ) && r.can(r.of(close) * r.of(k)) && r.can(1 as real - r.of(k)) && r.can(
                was * (1 as real - r.of(k)),
            ) && r.can(r.of(close) * r.of(k) + was * (1 as real - r.of(k))) ==> is == r.of(close)
                * r.of(k) + was * (1 as real - r.of(k))
        }),
        after.closes.len() == period && period <= i64::MAX && is_exact(calc, r)
            && averages_plainly(r, after.closes) ==> weekly_ema_value(calc, after, period) is Some
            && r.of(weekly_ema_value(calc, after, period)->0) == added_up(r, after.closes) / (
        period as real),
{
    let n = after.closes.len() as int;
    if before.closes.len() >= period {
        lemma_ema_prefix(calc, after.closes, before.closes, period, n - 1);
        let k = worth(calc, ema_weight(period));
        let was = weekly_ema_value(calc, before, period)->0;
        let f = ema_next(was, close, k);
        assert(after.closes[n - 1] == close);
        assert(weekly_ema_value(calc, after, period)->0 == worth(calc, f));
        if is_exact(calc, r) && r.is_plain(k) && r.is_plain(close) && r.is_plain(was) && r.can(
            r.of(close) * r.of(k),
        ) && r.can(1 as real - r.of(k)) && r.can(r.of(was) * (1 as real - r.of(k))) && r.can(
            r.of(close) * r.of(k) + r.of(was) * (1 as real - r.of(k)),
        ) {
            reveal_with_fuel(exact, 5);
            reveal_with_fuel(unrounded, 5);
            assert(unrounded(r, f));
            lemma_exact(calc, r, f);
        }
    }
    if n == period && is_exact(calc, r) && averages_plainly(r, after.closes) {
        assert(after.closes.take(period) =~= after.closes);
        lemma_mean(calc, r, after.closes);
    }
}

/// The weight of the newest week is two over the period and one.
pub proof fn the_newest_week_weighs_two_over_the_period_and_one<F: Fn(Formula) -> Number>(
    calc: F,
    r: Reading,
    period: int,
)
    requires
        is_exact(calc, r),
        0 < period < i64::MAX,
        r.can(period as real),
        r.can(period as real + 1 as real),
        r.can(2 as real / (period as real + 1 as real)),
    ensures
        r.of(worth(calc, ema_weight(period))) == 2 as real / (period as real + 1 as real),
{
    reveal_with_fuel(exact, 5);
    reveal_with_fuel(unrounded, 5);
    assert(period as real + 1 as real != 0 as real);
    lemma_exact(calc, r, ema_weight(period));
}

/// What a daily bar is held against is what the weekly average was after the
/// week before the bar's own.
pub proof fn a_bar_is_held_against_the_week_before<F: Fn(Formula) -> Number>(
    calc: F,
    weeks: WeeksView,
    period: int,
    bar: int,
)
    requires
        period > 0,
        0 <= bar < weeks.bar_week.len(),
        weeks.bar_week[bar] matches Some(w) ==> 0 <= w < weeks.closes.len(),
    ensures
        weeks.bar_week[bar] is None ==> weekly_ema_at(calc, weeks, period, bar) is None,
        weeks.bar_week[bar] matches Some(w) ==> weekly_ema_at(calc, weeks, period, bar)
            == weekly_ema_value(
            calc,
            WeeksView { closes: weeks.closes.take(w), ..weeks },
            period,
        ),
{
    if let Some(w) = weeks.bar_week[bar] {
        if w >= period {
            lemma_ema_prefix(calc, weeks.closes, weeks.closes.take(w), period, w);
        }
    }
}

/// The derived figures: the simple averages of 50 and of 150 closes, and the
/// exponential one of 40 weeks. There is no other.
pub proof fn the_derived_figures<F: Fn(Formula) -> Number>(
    calc: F,
    history: Seq<PriceHistoryPoint>,
    key: Seq<char>,
)
    ensures
        indicator_of(calc, history, "sma50"@) == sma_value(calc, known_closes(history), 50),
        indicator_of(calc, history, "sma150"@) == sma_value(calc, known_closes(history), 150),
        indicator_of(calc, history, "ema40w"@) == weekly_ema_value(
            calc,
            weeks_of(
                bar_days(last_closed(history, 3000)),
                bar_closes(last_closed(history, 3000)),
            ),
            40,
        ),
        key != "sma50"@ && key != "sma150"@ && key != "ema40w"@ ==> indicator_of(
            calc,
            history,
            key,
        ) is None,
{
    reveal_strlit("sma50");
    reveal_strlit("sma150");
    reveal_strlit("ema40w");
    assert("sma50"@.len() == 5 && "sma150"@.len() == 6 && "ema40w"@.len() == 6);
    assert("sma150"@[0] == 's' && "ema40w"@[0] == 'e');
}

/// The known closes are those of the bars that have one, in their order.
pub proof fn the_known_closes_are_in_the_order_of_the_bars(
    history: Seq<PriceHistoryPoint>,
    bar: PriceHistoryPoint,
)
    ensures
        known_closes(Seq::empty()) == Seq::<Number>::empty(),
        bar.close is Some ==> known_closes(history.push(bar)) == known_closes(history).push(
            bar.close->0,
        ),
        bar.close is None ==> known_closes(history.push(bar)) == known_closes(history),
{
    assert(history.push(bar).drop_last() =~= history);
}

/// The last bars with a close hold as many closes as were asked for, or all
/// there are.
pub proof fn the_last_closed_bars_hold_the_last_closes(history: Seq<PriceHistoryPoint>, n: int)
    requires
        n >= 0,
    ensures
        0 <= start_of_closed(history, n) <= history.len(),
        known_closes(last_closed(history, n)).len() == (if known_closes(history).len() < n {
            known_closes(history).len() as int
        } else {
            n
        }),
    decreases history.len(),
{
    if history.len() > 0 && n > 0 {
        let less = history.drop_last();
        let m = if history.last().close is Some {
            n - 1
        } else {
            n
        };
        the_last_closed_bars_hold_the_last_closes(less, m);
        let kept = last_closed(less, m);
        assert(start_of_closed(history, n) == start_of_closed(less, m));
        assert(last_closed(history, n) =~= kept.push(history.last()));
        assert(kept.push(history.last()).drop_last() =~= kept);
    } else {
        assert(last_closed(history, n) =~= Seq::<PriceHistoryPoint>::empty());
    }
}

/// The days since a crossing and its volume are told only while the price is
/// above the average.
pub proof fn a_crossing_is_told_while_the_price_is_above(price: Option<Number>, a: AverageStats)
    ensures
        price is Some && a.latest is Some && a.latest->0.below(price->0) ==> told(price, a) == (
            Some(a.days),
            a.volume_pct,
        ),
        !(price is Some && a.latest is Some && a.latest->0.below(price->0)) ==> told(price, a) == (
            None::<i64>,
            None::<Number>,
        ),
{
}

/// A bar with a date and a close joins the week of the bar before it where both
/// are of one Monday's week, and sets that week's close; otherwise it starts a
/// week of its own.
pub proof fn a_bar_joins_the_week_of_its_monday(
    days: Seq<Option<int>>,
    closes: Seq<Option<Number>>,
    day: int,
    close: Number,
)
    requires
        days.len() == closes.len(),
    ensures
        ({
            let was = weeks_of(days, closes);
            let is = weeks_of(days.push(Some(day)), closes.push(Some(close)));
            let joins = was.mondays.len() > 0 && was.mondays.last() <= day < was.mondays.last() + 7
                && (was.mondays.last() - 1) % 7 == 0;
            &&& is.closes.len() > 0 && is.closes.last() == close
            &&& joins ==> is.mondays == was.mondays && is.closes.len() == was.closes.len()
            &&& is.mondays.last() <= day < is.mondays.last() + 7 && (is.mondays.last() - 1) % 7 == 0
            &&& is.bar_week.last() == Some(is.closes.len() - 1)
            &&& is.mondays != was.mondays ==> is.closes.len() == was.closes.len() + 1
            &&& forall|v: int|
                0 <= v < was.closes.len() - 1 ==> #[trigger] is.closes[v] == was.closes[v]
        }),
{
    let d = days.push(Some(day));
    let c = closes.push(Some(close));
    assert(d.drop_last() =~= days);
    assert(c.drop_last() =~= closes);
    bars_lie_in_weeks(days, closes);
    bars_lie_in_weeks(d, c);
    crate::dates::monday_starts_the_week(day);
    let was = weeks_of(days, closes);
    if was.mondays.len() > 0 && was.mondays.last() <= day < was.mondays.last() + 7 && (
    was.mondays.last() - 1) % 7 == 0 {
        let m = was.mondays.last();
        assert(monday_of(day) == m) by (nonlinear_arith)
            requires
                monday_of(day) <= day < monday_of(day) + 7,
                (monday_of(day) - 1) % 7 == 0,
                m <= day < m + 7,
                (m - 1) % 7 == 0,
        ;
    }
}

/// The weekly average is told for each bar where there are weeks enough for one,
/// and for none otherwise.
pub proof fn the_weekly_average_is_told_for_each_bar<F: Fn(Formula) -> Number>(
    calc: F,
    weeks: WeeksView,
    period: int,
    i: int,
)
    requires
        0 <= i < weeks.bar_week.len(),
    ensures
        period > 0 && period <= weeks.closes.len() ==> ({
            let told = weekly_ema_bars(calc, weeks, period);
            &&& told is Some
            &&& told->0.len() == weeks.bar_week.len()
            &&& told->0[i] == weekly_ema_at(calc, weeks, period, i)
        }),
        period == 0 || period > weeks.closes.len() ==> weekly_ema_bars(calc, weeks, period) is None,
{
}

} // verus!
