//! What a holding loses when it falls to its stop.
use vstd::prelude::*;
use crate::context::{known_rate, rate_of};
use crate::exact::{exact, is_exact, lemma_exact, lemma_sign, unrounded, Reading};
use crate::fields::Field;
use crate::indicators::{
    bar_closes, bar_days, known_closes, last_closed, looked_back, sma_value, stored_weekly_ema,
    weekly_ema_value, weeks_of, PriceHistoryPoint,
};
use crate::number::{
    difference, evaluate, is_calculator, num, number, percentage, product, quotient, sum, worth,
    Formula, Number, ZERO_BITS,
};
use crate::stops::{
    convert, converted, effective_stop_loss, fields_view, highest, nonzero, recent_high, stop_loss_of,
};
use crate::text::same;
use crate::textmap::TextMap;
use crate::valuation::Remaining;

verus! {

broadcast use vstd::string::group_string_axioms;

/// In which currency a holding is shown, and by which rates.
#[derive(Debug)]
pub struct Display {
    pub currency: String,
    /// Whether that is another currency than the base.
    pub foreign: bool,
    /// The rate of the symbol's currency, where one is known.
    pub rate: Option<Number>,
    /// The rate that quotes are multiplied by before they are shown.
    pub quote_rate: Option<Number>,
}

/// A holding that was always bought in the base currency is shown in it, its
/// quotes converted; any other is shown in the currency it trades in.
pub open spec fn is_display(
    d: Display,
    symbol_currency: Seq<char>,
    all_aud: bool,
    rates: Map<Seq<char>, Option<Number>>,
) -> bool {
    &&& d.currency@ == (if all_aud {
        "AUD"@
    } else {
        symbol_currency
    })
    &&& d.foreign == (d.currency@ != "AUD"@)
    &&& d.rate == known_rate(rates, symbol_currency)
    &&& d.quote_rate == (if all_aud && symbol_currency != "AUD"@ {
        d.rate
    } else {
        None
    })
}

/// In which currency a holding is shown.
pub fn display_of(symbol_currency: &str, all_aud: bool, rates: &TextMap<Option<Number>>) -> (r: Display)
    ensures
        is_display(r, symbol_currency@, all_aud, rates@),
{
    let rate = rate_of(rates, symbol_currency);
    let home = same(symbol_currency, "AUD");
    let currency = if all_aud {
        "AUD".to_owned()
    } else {
        symbol_currency.to_owned()
    };
    let foreign = !same(currency.as_str(), "AUD");
    Display {
        currency,
        foreign,
        rate,
        quote_rate: if all_aud && !home {
            rate
        } else {
            None
        },
    }
}

/// The risk of a holding.
#[derive(Clone, Copy, PartialEq, Eq, Structural, Debug)]
pub struct RiskRow {
    pub shares: Number,
    pub purchase_price: Option<Number>,
    pub current_price: Option<Number>,
    pub pl_pct: Option<Number>,
    pub stop_loss: Option<Number>,
    pub is_trailing_sell: bool,
    pub stop_loss_pct: Option<Number>,
    pub stop_loss_dollar: Option<Number>,
    pub sma50: Option<Number>,
    pub sma150: Option<Number>,
    pub ema40w: Option<Number>,
    pub high30d: Option<Number>,
    pub total_invested: Number,
}

/// The average purchase price in the currency shown.
pub open spec fn average_price<F: Fn(Formula) -> Number>(
    calc: F,
    left: Remaining,
    foreign: bool,
) -> Number {
    worth(
        calc,
        quotient(
            num(
                if foreign {
                    left.native_cost
                } else {
                    left.cost
                },
            ),
            num(left.shares),
        ),
    )
}

/// How far `price` is from `from`, in per cent of it.
pub open spec fn gain_percent<F: Fn(Formula) -> Number>(
    calc: F,
    price: Number,
    from: Number,
) -> Number {
    worth(calc, percentage(difference(num(price), num(from)), num(from)))
}

/// A price in the currency shown, where there is one.
pub open spec fn shown<F: Fn(Formula) -> Number>(
    calc: F,
    price: Option<Number>,
    rate: Option<Number>,
) -> Option<Number> {
    match price {
        Some(p) => Some(converted(calc, p, rate)),
        None => None,
    }
}

/// What is gained or lost at the stop, in the base currency where the rate of a
/// holding shown in another one is known.
pub open spec fn stop_dollars<F: Fn(Formula) -> Number>(
    calc: F,
    stop: Number,
    from: Number,
    shares: Number,
    foreign: bool,
    rate: Option<Number>,
) -> Number {
    let native = worth(calc, product(difference(num(stop), num(from)), num(shares)));
    if foreign && rate is Some {
        worth(calc, product(num(native), num(rate->0)))
    } else {
        native
    }
}

/// Whether a purchase price can be divided by.
pub open spec fn is_price(p: Number) -> bool {
    !p.equals(number(ZERO_BITS))
}

/// The risk of a holding; there is none where no share is left.
pub open spec fn risk_row<F: Fn(Formula) -> Number>(
    calc: F,
    left: Remaining,
    display: Display,
    native_price: Option<Number>,
    fields: Option<Map<Seq<char>, Field>>,
    bars: Seq<PriceHistoryPoint>,
) -> Option<RiskRow> {
    let from = average_price(calc, left, display.foreign);
    let current = shown(calc, native_price, display.quote_rate);
    let stop = stop_loss_of(calc, fields, bars, current, display.quote_rate);
    if !left.shares.remains() {
        None
    } else {
        Some(
            RiskRow {
                shares: left.shares,
                purchase_price: if is_price(from) {
                    Some(from)
                } else {
                    None
                },
                current_price: current,
                pl_pct: if is_price(from) && nonzero(current) {
                    Some(gain_percent(calc, current->0, from))
                } else {
                    None
                },
                stop_loss: match stop {
                    Some(s) => Some(s.0),
                    None => None,
                },
                is_trailing_sell: stop is Some && (stop->0).1,
                stop_loss_pct: if stop is Some && is_price(from) {
                    Some(gain_percent(calc, (stop->0).0, from))
                } else {
                    None
                },
                stop_loss_dollar: if stop is Some && is_price(from) && left.shares.positive() {
                    Some(
                        stop_dollars(
                            calc,
                            (stop->0).0,
                            from,
                            left.shares,
                            display.foreign,
                            display.rate,
                        ),
                    )
                } else {
                    None
                },
                sma50: shown(calc, sma_value(calc, known_closes(bars), 50), display.quote_rate),
                sma150: shown(calc, sma_value(calc, known_closes(bars), 150), display.quote_rate),
                ema40w: shown(
                    calc,
                    weekly_ema_value(
                        calc,
                        weeks_of(bar_days(looked_back(bars)), bar_closes(looked_back(bars))),
                        40,
                    ),
                    display.quote_rate,
                ),
                high30d: highest(calc, last_closed(bars, 30), display.quote_rate),
                total_invested: if is_price(from) && left.shares.positive() {
                    worth(calc, product(num(from), num(left.shares)))
                } else {
                    number(ZERO_BITS)
                },
            },
        )
    }
}

fn show<F: Fn(Formula) -> Number>(price: Option<Number>, rate: Option<Number>, calc: &F) -> (r: Option<
    Number,
>)
    requires
        is_calculator(*calc),
    ensures
        r == shown(*calc, price, rate),
{
    match price {
        Some(p) => Some(convert(p, rate, calc)),
        None => None,
    }
}

fn gain<F: Fn(Formula) -> Number>(price: Number, from: Number, calc: &F) -> (r: Number)
    requires
        is_calculator(*calc),
    ensures
        r == gain_percent(*calc, price, from),
{
    evaluate(calc, Formula::of(price).minus(Formula::of(from)).percent_of(Formula::of(from)))
}

/// The risk of a holding; there is none where no share is left. `bars` are the
/// stored bars of the symbol, in the order of their days.
pub fn portfolio_risk_row<F: Fn(Formula) -> Number>(
    left: Remaining,
    display: &Display,
    native_price: Option<Number>,
    fields: Option<&TextMap<Field>>,
    bars: &Vec<PriceHistoryPoint>,
    calc: &F,
) -> (r: Option<RiskRow>)
    requires
        is_calculator(*calc),
    ensures
        r == risk_row(*calc, left, *display, native_price, fields_view(fields), bars@),
{
    if !left.shares.is_remaining() {
        return None;
    }
    let cost = if display.foreign {
        left.native_cost
    } else {
        left.cost
    };
    let from = evaluate(calc, Formula::of(cost).over(Formula::of(left.shares)));
    let priced = !from.same_value(Number { bits: ZERO_BITS });
    let rate = display.quote_rate;
    let current = show(native_price, rate, calc);
    let pl_pct = match current {
        Some(c) => if priced && !c.same_value(Number { bits: 0 }) {
            Some(gain(c, from, calc))
        } else {
            None
        },
        None => None,
    };
    let stop = effective_stop_loss(fields, bars, current, rate, calc);
    let (stop_loss, is_trailing_sell) = match stop {
        Some((sl, trailing)) => (Some(sl), trailing),
        None => (None, false),
    };
    let stop_loss_pct = match stop_loss {
        Some(sl) => if priced {
            Some(gain(sl, from, calc))
        } else {
            None
        },
        None => None,
    };
    let stop_loss_dollar = match stop_loss {
        Some(sl) => if priced && left.shares.is_positive() {
            let native = evaluate(
                calc,
                Formula::of(sl).minus(Formula::of(from)).times(Formula::of(left.shares)),
            );
            match display.rate {
                Some(r) => if display.foreign {
                    Some(evaluate(calc, Formula::of(native).times(Formula::of(r))))
                } else {
                    Some(native)
                },
                None => Some(native),
            }
        } else {
            None
        },
        None => None,
    };
    let sma50 = show(crate::indicators::indicator_value(bars, "sma50", calc), rate, calc);
    let sma150 = show(crate::indicators::indicator_value(bars, "sma150", calc), rate, calc);
    let ema40w = show(stored_weekly_ema(bars, 40, calc), rate, calc);
    let high30d = recent_high(bars, 30, rate, calc);
    let total_invested = if priced && left.shares.is_positive() {
        evaluate(calc, Formula::of(from).times(Formula::of(left.shares)))
    } else {
        Number { bits: ZERO_BITS }
    };
    proof {
        reveal_strlit("sma50");
        reveal_strlit("sma150");
        assert("sma50"@.len() == 5 && "sma150"@.len() == 6);
    }
    Some(
        RiskRow {
            shares: left.shares,
            purchase_price: if priced {
                Some(from)
            } else {
                None
            },
            current_price: current,
            pl_pct,
            stop_loss,
            is_trailing_sell,
            stop_loss_pct,
            stop_loss_dollar,
            sma50,
            sma150,
            ema40w,
            high30d,
            total_invested,
        },
    )
}

/// What is invested in all holdings, added up one after another.
pub open spec fn invested_total<F: Fn(Formula) -> Number>(calc: F, rows: Seq<RiskRow>) -> Number
    decreases rows.len(),
{
    if rows.len() == 0 {
        number(ZERO_BITS)
    } else {
        worth(
            calc,
            sum(num(invested_total(calc, rows.drop_last())), num(rows.last().total_invested)),
        )
    }
}

/// What is gained or lost when every holding falls to its stop.
pub open spec fn stop_total<F: Fn(Formula) -> Number>(calc: F, rows: Seq<RiskRow>) -> Number
    decreases rows.len(),
{
    if rows.len() == 0 {
        number(ZERO_BITS)
    } else {
        worth(
            calc,
            sum(
                num(stop_total(calc, rows.drop_last())),
                num(
                    match rows.last().stop_loss_dollar {
                        Some(v) => v,
                        None => number(ZERO_BITS),
                    },
                ),
            ),
        )
    }
}

/// The risk of the whole portfolio.
#[derive(Clone, Copy, PartialEq, Eq, Structural, Debug)]
pub struct RiskTotals {
    pub total_invested: Number,
    pub total_sl_dollar: Number,
    pub total_sl_pct: Option<Number>,
}

/// What is lost or gained at all stops in per cent of what is invested, where
/// anything is.
pub open spec fn stop_percent<F: Fn(Formula) -> Number>(
    calc: F,
    dollars: Number,
    invested: Number,
) -> Option<Number> {
    if invested.positive() {
        Some(worth(calc, percentage(num(dollars), num(invested))))
    } else {
        None
    }
}

/// The risk of the whole portfolio.
pub fn risk_totals<F: Fn(Formula) -> Number>(rows: &Vec<RiskRow>, calc: &F) -> (r: RiskTotals)
    requires
        is_calculator(*calc),
    ensures
        r.total_invested == invested_total(*calc, rows@),
        r.total_sl_dollar == stop_total(*calc, rows@),
        r.total_sl_pct == (if r.total_invested.positive() {
            Some(worth(*calc, percentage(num(r.total_sl_dollar), num(r.total_invested))))
        } else {
            None
        }),
        r.total_sl_pct == stop_percent(*calc, r.total_sl_dollar, r.total_invested),
{
    let mut invested = Number { bits: ZERO_BITS };
    let mut dollars = Number { bits: ZERO_BITS };
    let mut i: usize = 0;
    while i < rows.len()
        invariant
            i <= rows.len(),
            is_calculator(*calc),
            invested == invested_total(*calc, rows@.take(i as int)),
            dollars == stop_total(*calc, rows@.take(i as int)),
        decreases rows.len() - i,
    {
        assert(rows@.take(i + 1).drop_last() =~= rows@.take(i as int));
        invested = evaluate(
            calc,
            Formula::of(invested).plus(Formula::of(rows[i].total_invested)),
        );
        let v = match rows[i].stop_loss_dollar {
            Some(v) => v,
            None => Number { bits: ZERO_BITS },
        };
        dollars = evaluate(calc, Formula::of(dollars).plus(Formula::of(v)));
        i += 1;
    }
    assert(rows@.take(rows.len() as int) =~= rows@);
    let total_sl_pct = if invested.is_positive() {
        Some(evaluate(calc, Formula::of(dollars).percent_of(Formula::of(invested))))
    } else {
        None
    };
    RiskTotals { total_invested: invested, total_sl_dollar: dollars, total_sl_pct }
}


// ---------------------------------------------------------------------------
// Laws
// ---------------------------------------------------------------------------

/// What is lost or gained at the stop is the stop less the purchase price, times
/// the shares. Of a holding shown in another currency than the base it is
/// converted as every price is, multiplied by the rate that takes that currency
/// to the base; of any other, or without a rate, it stays.
pub proof fn the_loss_at_the_stop_is_converted_as_prices_are<F: Fn(Formula) -> Number>(
    calc: F,
    r: Reading,
    row: RiskRow,
    left: Remaining,
    display: Display,
    native_price: Option<Number>,
    fields: Option<Map<Seq<char>, Field>>,
    bars: Seq<PriceHistoryPoint>,
)
    requires
        is_exact(calc, r),
        risk_row(calc, left, display, native_price, fields, bars) == Some(row),
        row.stop_loss is Some && row.purchase_price is Some,
        r.is_plain(left.shares) && r.of(left.shares) > 0 as real,
        r.is_plain(row.stop_loss->0) && r.is_plain(row.purchase_price->0),
        display.rate is Some ==> r.is_plain(display.rate->0),
        ({
            let each = r.of(row.stop_loss->0) - r.of(row.purchase_price->0);
            let all = each * r.of(left.shares);
            &&& r.can(each)
            &&& r.can(all)
            &&& display.rate is Some ==> r.can(all * r.of(display.rate->0))
        }),
    ensures
        ({
            let all = (r.of(row.stop_loss->0) - r.of(row.purchase_price->0)) * r.of(left.shares);
            &&& row.stop_loss_dollar is Some
            &&& display.foreign && display.rate is Some ==> r.of(row.stop_loss_dollar->0) == all
                * r.of(display.rate->0)
            &&& !(display.foreign && display.rate is Some) ==> r.of(row.stop_loss_dollar->0) == all
        }),
{
    reveal_with_fuel(exact, 6);
    reveal_with_fuel(unrounded, 6);
    lemma_sign(calc, r, left.shares);
    let stop = row.stop_loss->0;
    let from = row.purchase_price->0;
    let f = product(difference(num(stop), num(from)), num(left.shares));
    lemma_exact(calc, r, f);
    if display.rate is Some {
        lemma_exact(calc, r, product(num(worth(calc, f)), num(display.rate->0)));
    }
}

/// The purchase price is the cost of the shares left over how many they are: the
/// cost in their own currency where the holding is shown in it, and otherwise
/// that in the base currency. What is invested is the price times the shares.
/// A holding without shares has no row.
pub proof fn the_purchase_price_is_the_cost_per_share<F: Fn(Formula) -> Number>(
    calc: F,
    r: Reading,
    left: Remaining,
    display: Display,
    native_price: Option<Number>,
    fields: Option<Map<Seq<char>, Field>>,
    bars: Seq<PriceHistoryPoint>,
    cost: Number,
)
    requires
        is_exact(calc, r),
        r.is_plain(left.shares) && r.is_plain(cost),
        cost == (if display.foreign {
            left.native_cost
        } else {
            left.cost
        }),
        r.of(left.shares) > 0 as real ==> r.can(r.of(cost) / r.of(left.shares)),
        r.of(left.shares) > 0 as real ==> r.can(
            (r.of(cost) / r.of(left.shares)) * r.of(left.shares),
        ),
    ensures
        r.of(left.shares) <= 0 as real ==> risk_row(
            calc,
            left,
            display,
            native_price,
            fields,
            bars,
        ) is None,
        r.of(left.shares) > 0 as real ==> (risk_row(
            calc,
            left,
            display,
            native_price,
            fields,
            bars,
        ) matches Some(row) && {
            let each = r.of(cost) / r.of(left.shares);
            &&& row.shares == left.shares
            &&& each == 0 as real ==> row.purchase_price is None && r.of(row.total_invested)
                == 0 as real && row.stop_loss_dollar is None && row.stop_loss_pct is None
                && row.pl_pct is None
            &&& each != 0 as real ==> row.purchase_price is Some && r.of(row.purchase_price->0)
                == each && r.of(row.total_invested) == each * r.of(left.shares)
        }),
{
    reveal_with_fuel(exact, 5);
    reveal_with_fuel(unrounded, 5);
    lemma_sign(calc, r, left.shares);
    if r.of(left.shares) > 0 as real {
        let f = quotient(num(cost), num(left.shares));
        lemma_exact(calc, r, f);
        lemma_sign(calc, r, worth(calc, f));
        lemma_exact(calc, r, product(num(worth(calc, f)), num(left.shares)));
    }
}

/// The profit and the loss at the stop in per cent are the price less the
/// purchase price, and the stop less the purchase price, in per cent of the
/// purchase price.
pub proof fn percentages_are_of_the_purchase_price<F: Fn(Formula) -> Number>(
    calc: F,
    r: Reading,
    row: RiskRow,
    left: Remaining,
    display: Display,
    native_price: Option<Number>,
    fields: Option<Map<Seq<char>, Field>>,
    bars: Seq<PriceHistoryPoint>,
)
    requires
        is_exact(calc, r),
        risk_row(calc, left, display, native_price, fields, bars) == Some(row),
        row.purchase_price is Some,
        r.is_plain(row.purchase_price->0),
        forall|p: Number|
            r.is_plain(p) ==> #[trigger] r.can(r.of(p) - r.of(row.purchase_price->0)) && r.can(
                (r.of(p) - r.of(row.purchase_price->0)) / r.of(row.purchase_price->0),
            ) && r.can(
                (r.of(p) - r.of(row.purchase_price->0)) / r.of(row.purchase_price->0) * 100 as real,
            ) || (row.current_price != Some(p) && row.stop_loss != Some(p)),
        row.current_price is Some ==> r.is_plain(row.current_price->0),
        row.stop_loss is Some ==> r.is_plain(row.stop_loss->0),
    ensures
        row.current_price is Some && r.of(row.current_price->0) != 0 as real ==> row.pl_pct is Some
            && r.of(row.pl_pct->0) == (r.of(row.current_price->0) - r.of(row.purchase_price->0))
            / r.of(row.purchase_price->0) * 100 as real,
        row.current_price is None ==> row.pl_pct is None,
        row.stop_loss is Some ==> row.stop_loss_pct is Some && r.of(row.stop_loss_pct->0) == (r.of(
            row.stop_loss->0,
        ) - r.of(row.purchase_price->0)) / r.of(row.purchase_price->0) * 100 as real,
        row.stop_loss is None ==> row.stop_loss_pct is None && row.stop_loss_dollar is None,
{
    reveal_with_fuel(exact, 6);
    reveal_with_fuel(unrounded, 6);
    let from = row.purchase_price->0;
    lemma_sign(calc, r, from);
    if row.current_price is Some {
        let p = row.current_price->0;
        lemma_sign(calc, r, p);
        assert(r.can(r.of(p) - r.of(from)));
        if r.of(p) != 0 as real {
            lemma_exact(calc, r, percentage(difference(num(p), num(from)), num(from)));
        }
    }
    if row.stop_loss is Some {
        let p = row.stop_loss->0;
        assert(r.can(r.of(p) - r.of(from)));
        lemma_exact(calc, r, percentage(difference(num(p), num(from)), num(from)));
    }
}

/// A row shows the quote, the averages and the recent high at the rate that quotes
/// are shown at, and the stop loss of its fields, trailing what the same bars
/// reached: the averages of 50 and 150 closes, that of 40 weeks, and the high of
/// 30 bars.
pub proof fn a_row_shows_its_quotes_at_one_rate<F: Fn(Formula) -> Number>(
    calc: F,
    row: RiskRow,
    left: Remaining,
    display: Display,
    native_price: Option<Number>,
    fields: Option<Map<Seq<char>, Field>>,
    bars: Seq<PriceHistoryPoint>,
)
    requires
        risk_row(calc, left, display, native_price, fields, bars) == Some(row),
    ensures
        row.current_price is Some <==> native_price is Some,
        native_price is Some ==> row.current_price == Some(
            converted(calc, native_price->0, display.quote_rate),
        ),
        ({
            let average = crate::indicators::indicator_of(calc, bars, "sma50"@);
            &&& row.sma50 is Some <==> average is Some
            &&& average is Some ==> row.sma50 == Some(
                converted(calc, average->0, display.quote_rate),
            )
        }),
        ({
            let average = crate::indicators::indicator_of(calc, bars, "sma150"@);
            &&& row.sma150 is Some <==> average is Some
            &&& average is Some ==> row.sma150 == Some(
                converted(calc, average->0, display.quote_rate),
            )
        }),
        ({
            let average = crate::indicators::indicator_of(calc, bars, "ema40w"@);
            &&& row.ema40w is Some <==> average is Some
            &&& average is Some ==> row.ema40w == Some(
                converted(calc, average->0, display.quote_rate),
            )
        }),
        row.high30d == highest(calc, last_closed(bars, 30), display.quote_rate),
        ({
            let stop = stop_loss_of(calc, fields, bars, row.current_price, display.quote_rate);
            &&& row.stop_loss is Some <==> stop is Some
            &&& stop is Some ==> row.stop_loss == Some((stop->0).0) && row.is_trailing_sell == (
            stop->0).1
            &&& stop is None ==> !row.is_trailing_sell
        }),
{
    crate::indicators::the_derived_figures(calc, bars, "sma50"@);
}

/// A holding that was always bought in the base currency is shown in it, its
/// quotes at the rate of the symbol's currency; any other is shown in the currency
/// of the symbol, its quotes as they are.
pub proof fn a_holding_is_shown_in_the_currency_it_was_bought_in(
    d: Display,
    symbol_currency: Seq<char>,
    all_aud: bool,
    rates: Map<Seq<char>, Option<Number>>,
)
    requires
        is_display(d, symbol_currency, all_aud, rates),
    ensures
        all_aud ==> d.currency@ == "AUD"@ && !d.foreign,
        !all_aud ==> d.currency@ == symbol_currency && d.quote_rate is None,
        !all_aud && symbol_currency != "AUD"@ ==> d.foreign,
        symbol_currency == "AUD"@ ==> !d.foreign && d.quote_rate is None,
        all_aud && symbol_currency != "AUD"@ ==> d.quote_rate == d.rate,
        rates.contains_key(symbol_currency) && rates[symbol_currency] is Some
            && !rates[symbol_currency]->0.equals(Number { bits: 0 }) ==> d.rate
            == rates[symbol_currency],
        !(rates.contains_key(symbol_currency) && rates[symbol_currency] is Some
            && !rates[symbol_currency]->0.equals(Number { bits: 0 })) ==> d.rate is None,
{
}

/// What all holdings have invested, as a value.
pub open spec fn invested_value(r: Reading, rows: Seq<RiskRow>) -> real
    decreases rows.len(),
{
    if rows.len() == 0 {
        0 as real
    } else {
        invested_value(r, rows.drop_last()) + r.of(rows.last().total_invested)
    }
}

/// What all holdings lose or gain at their stops, as a value; one without a stop
/// counts nothing.
pub open spec fn stop_value(r: Reading, rows: Seq<RiskRow>) -> real
    decreases rows.len(),
{
    if rows.len() == 0 {
        0 as real
    } else {
        stop_value(r, rows.drop_last()) + (match rows.last().stop_loss_dollar {
            Some(v) => r.of(v),
            None => 0 as real,
        })
    }
}

/// The totals are the sums over the rows.
pub proof fn the_risk_totals_are_the_sums_of_the_rows<F: Fn(Formula) -> Number>(
    calc: F,
    r: Reading,
    rows: Seq<RiskRow>,
)
    requires
        is_exact(calc, r),
        forall|i: int|
            0 <= i < rows.len() ==> r.is_plain((#[trigger] rows[i]).total_invested) && (
            rows[i].stop_loss_dollar is Some ==> r.is_plain(rows[i].stop_loss_dollar->0)),
        forall|n: int|
            0 <= n <= rows.len() ==> r.can(invested_value(r, #[trigger] rows.take(n))) && r.can(
                stop_value(r, rows.take(n)),
            ),
    ensures
        r.of(invested_total(calc, rows)) == invested_value(r, rows),
        r.of(stop_total(calc, rows)) == stop_value(r, rows),
        r.is_plain(invested_total(calc, rows)),
        r.is_plain(stop_total(calc, rows)),
    decreases rows.len(),
{
    reveal_with_fuel(exact, 4);
    reveal_with_fuel(unrounded, 4);
    if rows.len() > 0 {
        let less = rows.drop_last();
        let n = less.len() as int;
        assert forall|i: int| 0 <= i < less.len() implies r.is_plain(
            (#[trigger] less[i]).total_invested,
        ) && (less[i].stop_loss_dollar is Some ==> r.is_plain(less[i].stop_loss_dollar->0)) by {
            assert(rows[i] == less[i]);
        }
        assert forall|m: int| 0 <= m <= less.len() implies r.can(
            invested_value(r, #[trigger] less.take(m)),
        ) && r.can(stop_value(r, less.take(m))) by {
            assert(rows.take(m) =~= less.take(m));
        }
        the_risk_totals_are_the_sums_of_the_rows(calc, r, less);
        assert(rows[n] == rows.last());
        assert(rows.take(n + 1) =~= rows);
        lemma_exact(
            calc,
            r,
            sum(num(invested_total(calc, less)), num(rows.last().total_invested)),
        );
        let v = match rows.last().stop_loss_dollar {
            Some(v) => v,
            None => number(ZERO_BITS),
        };
        lemma_exact(calc, r, sum(num(stop_total(calc, less)), num(v)));
    }
}

/// The loss at all stops is told in per cent of what is invested, where anything
/// is.
pub proof fn the_whole_loss_is_in_per_cent_of_what_is_invested<F: Fn(Formula) -> Number>(
    calc: F,
    r: Reading,
    dollars: Number,
    invested: Number,
)
    requires
        is_exact(calc, r),
        r.is_plain(dollars) && r.is_plain(invested),
        r.of(invested) > 0 as real ==> r.can(r.of(dollars) / r.of(invested)) && r.can(
            r.of(dollars) / r.of(invested) * 100 as real,
        ),
    ensures
        r.of(invested) > 0 as real ==> stop_percent(calc, dollars, invested) is Some && r.of(
            stop_percent(calc, dollars, invested)->0,
        ) == r.of(dollars) / r.of(invested) * 100 as real,
        r.of(invested) <= 0 as real ==> stop_percent(calc, dollars, invested) is None,
{
    reveal_with_fuel(exact, 5);
    reveal_with_fuel(unrounded, 5);
    lemma_sign(calc, r, invested);
    if r.of(invested) > 0 as real {
        lemma_exact(calc, r, percentage(num(dollars), num(invested)));
    }
}

} // verus!
