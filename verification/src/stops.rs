//! Stop losses: at which price a holding is to be sold.
use vstd::prelude::*;
use crate::exact::{exact, is_exact, lemma_exact, lemma_sign, unrounded, Reading};
use crate::fields::Field;
use crate::indicators::{closed_from, last_closed, PriceHistoryPoint};
use crate::number::{
    difference, evaluate, is_calculator, larger, larger_of, num, number, product, quotient, worth,
    Formula, Number, HUNDRED_BITS, ONE_BITS,
};
use crate::text::{is_before, text_before};
use crate::textmap::TextMap;

verus! {

broadcast use vstd::string::group_string_axioms;

/// A price in the currency it is shown in: times the rate, where there is one.
pub open spec fn converted<F: Fn(Formula) -> Number>(
    calc: F,
    price: Number,
    rate: Option<Number>,
) -> Number {
    match rate {
        Some(r) => worth(calc, product(num(price), num(r))),
        None => price,
    }
}

/// A price in the currency it is shown in.
pub fn convert<F: Fn(Formula) -> Number>(price: Number, rate: Option<Number>, calc: &F) -> (r: Number)
    requires
        is_calculator(*calc),
    ensures
        r == converted(*calc, price, rate),
{
    match rate {
        Some(r) => evaluate(calc, Formula::of(price).times(Formula::of(r))),
        None => price,
    }
}

/// The highest price that a bar reached: its high, or its close where the high
/// is not known.
pub open spec fn reached(bar: PriceHistoryPoint) -> Option<Number> {
    match bar.high {
        Some(h) => Some(h),
        None => bar.close,
    }
}

/// The larger of two prices, of which one or both may be missing.
pub open spec fn higher(a: Option<Number>, b: Option<Number>) -> Option<Number> {
    match (a, b) {
        (Some(x), Some(y)) => Some(larger_of(x, y)),
        (Some(x), None) => Some(x),
        (None, y) => y,
    }
}

/// The highest price that the bars on or after `since` reached, converted.
pub open spec fn peak_since<F: Fn(Formula) -> Number>(
    calc: F,
    bars: Seq<PriceHistoryPoint>,
    since: Seq<char>,
    rate: Option<Number>,
) -> Option<Number>
    decreases bars.len(),
{
    if bars.len() == 0 {
        None
    } else {
        let earlier = peak_since(calc, bars.drop_last(), since, rate);
        match reached(bars.last()) {
            Some(p) => if text_before(bars.last().date@, since) {
                earlier
            } else {
                higher(earlier, Some(converted(calc, p, rate)))
            },
            None => earlier,
        }
    }
}

/// The number a field holds.
pub open spec fn field_number(fields: Option<Map<Seq<char>, Field>>, key: Seq<char>) -> Option<
    Number,
> {
    match fields {
        Some(m) => if m.contains_key(key) {
            m[key].number
        } else {
            None
        },
        None => None,
    }
}

/// The day since which a trailing stop trails, where one is stored.
pub open spec fn trailing_since(fields: Option<Map<Seq<char>, Field>>) -> Option<Seq<char>> {
    match fields {
        Some(m) => if m.contains_key("trailing_sell_date"@) && m["trailing_sell_date"@].text@.len()
            > 0 {
            Some(m["trailing_sell_date"@].text@)
        } else {
            None
        },
        None => None,
    }
}

/// The price that a trailing stop trails: the highest one reached since it was
/// placed, the current one included.
pub open spec fn trailing_reference<F: Fn(Formula) -> Number>(
    calc: F,
    fields: Option<Map<Seq<char>, Field>>,
    bars: Seq<PriceHistoryPoint>,
    current: Option<Number>,
    rate: Option<Number>,
) -> Option<Number> {
    match trailing_since(fields) {
        Some(since) => higher(peak_since(calc, bars, since, rate), current),
        None => current,
    }
}

/// The price of a trailing stop: so many per cent under the reference.
pub open spec fn trailing_price(reference: Number, pct: Number) -> Formula {
    product(
        num(reference),
        difference(num(number(ONE_BITS)), quotient(num(pct), num(number(HUNDRED_BITS)))),
    )
}

/// Whether a number is there and is not zero.
pub open spec fn nonzero(n: Option<Number>) -> bool {
    n is Some && !n->0.equals(number(0))
}

/// The stop loss of a holding and whether it trails.
pub open spec fn stop_loss_of<F: Fn(Formula) -> Number>(
    calc: F,
    fields: Option<Map<Seq<char>, Field>>,
    bars: Seq<PriceHistoryPoint>,
    current: Option<Number>,
    rate: Option<Number>,
) -> Option<(Number, bool)> {
    let manual = field_number(fields, "stop_loss"@);
    let pct = field_number(fields, "trailing_sell_pct"@);
    let reference = trailing_reference(calc, fields, bars, current, rate);
    if nonzero(manual) {
        Some((manual->0, false))
    } else if pct is Some && pct->0.positive() && nonzero(reference) {
        Some((worth(calc, trailing_price(reference->0, pct->0)), true))
    } else {
        None
    }
}

/// What a map of fields holds.
pub open spec fn fields_view(fields: Option<&TextMap<Field>>) -> Option<Map<Seq<char>, Field>> {
    match fields {
        Some(m) => Some(m@),
        None => None,
    }
}

fn number_field(fields: Option<&TextMap<Field>>, key: &str) -> (r: Option<Number>)
    ensures
        r == field_number(fields_view(fields), key@),
{
    match fields {
        Some(m) => match m.get(key) {
            Some(f) => f.number,
            None => None,
        },
        None => None,
    }
}

fn higher_of(a: Option<Number>, b: Option<Number>) -> (r: Option<Number>)
    ensures
        r == higher(a, b),
{
    match (a, b) {
        (Some(x), Some(y)) => Some(larger(x, y)),
        (Some(x), None) => Some(x),
        (None, y) => y,
    }
}

fn is_nonzero(n: Option<Number>) -> (r: bool)
    ensures
        r == nonzero(n),
{
    match n {
        Some(v) => !v.same_value(Number { bits: 0 }),
        None => false,
    }
}

fn highest_since<F: Fn(Formula) -> Number>(
    bars: &Vec<PriceHistoryPoint>,
    since: &str,
    rate: Option<Number>,
    calc: &F,
) -> (r: Option<Number>)
    requires
        is_calculator(*calc),
    ensures
        r == peak_since(*calc, bars@, since@, rate),
{
    let mut out: Option<Number> = None;
    let mut i: usize = 0;
    while i < bars.len()
        invariant
            i <= bars.len(),
            is_calculator(*calc),
            out == peak_since(*calc, bars@.take(i as int), since@, rate),
        decreases bars.len() - i,
    {
        assert(bars@.take(i + 1).drop_last() =~= bars@.take(i as int));
        let bar = &bars[i];
        let top = match bar.high {
            Some(h) => Some(h),
            None => bar.close,
        };
        match top {
            Some(p) => {
                if !is_before(bar.date.as_str(), since) {
                    out = higher_of(out, Some(convert(p, rate, calc)));
                }
            },
            None => {},
        }
        i += 1;
    }
    assert(bars@.take(bars.len() as int) =~= bars@);
    out
}

/// The stop loss of a holding and whether it trails.
///
/// The stop entered by hand counts where it is set. Otherwise a trailing stop
/// is so many per cent under the highest price reached since it was placed;
/// without such a day, under the current price. `bars` are the stored bars of
/// the symbol, and `rate` takes their prices to the currency of `current`.
pub fn effective_stop_loss<F: Fn(Formula) -> Number>(
    fields: Option<&TextMap<Field>>,
    bars: &Vec<PriceHistoryPoint>,
    current: Option<Number>,
    rate: Option<Number>,
    calc: &F,
) -> (r: Option<(Number, bool)>)
    requires
        is_calculator(*calc),
    ensures
        r == stop_loss_of(*calc, fields_view(fields), bars@, current, rate),
{
    let manual = number_field(fields, "stop_loss");
    if is_nonzero(manual) {
        return match manual {
            Some(sl) => Some((sl, false)),
            None => None,
        };
    }
    let pct = match number_field(fields, "trailing_sell_pct") {
        Some(p) => if p.is_positive() {
            p
        } else {
            return None;
        },
        None => return None,
    };
    let mut reference = current;
    match fields {
        Some(m) => {
            match m.get("trailing_sell_date") {
                Some(f) => {
                    if !f.text.as_str().is_empty() {
                        let peak = highest_since(bars, f.text.as_str(), rate, calc);
                        reference = higher_of(peak, current);
                    }
                },
                None => {},
            }
        },
        None => {},
    }
    match reference {
        Some(r) => if is_nonzero(Some(r)) {
            let f = Formula::of(r).times(
                Formula::of_bits(ONE_BITS).minus(Formula::of(pct).over(Formula::of_bits(HUNDRED_BITS))),
            );
            Some((evaluate(calc, f), true))
        } else {
            None
        },
        None => None,
    }
}

/// The highest price reached in those bars that have a close, converted.
pub open spec fn highest<F: Fn(Formula) -> Number>(
    calc: F,
    bars: Seq<PriceHistoryPoint>,
    rate: Option<Number>,
) -> Option<Number>
    decreases bars.len(),
{
    if bars.len() == 0 {
        None
    } else {
        let earlier = highest(calc, bars.drop_last(), rate);
        match (bars.last().close, reached(bars.last())) {
            (Some(_), Some(p)) => higher(earlier, Some(converted(calc, p, rate))),
            _ => earlier,
        }
    }
}

/// The highest price reached in the last `n` bars with a close, converted: an
/// intraday spike counts, though the day closed under it.
pub fn recent_high<F: Fn(Formula) -> Number>(
    bars: &Vec<PriceHistoryPoint>,
    n: usize,
    rate: Option<Number>,
    calc: &F,
) -> (r: Option<Number>)
    requires
        is_calculator(*calc),
    ensures
        r == highest(*calc, last_closed(bars@, n as int), rate),
{
    let from: usize = closed_from(bars, n);
    let ghost kept = last_closed(bars@, n as int);
    let mut out: Option<Number> = None;
    let mut i: usize = from;
    assert(kept.take(0) =~= Seq::<PriceHistoryPoint>::empty());
    while i < bars.len()
        invariant
            from <= i <= bars.len(),
            is_calculator(*calc),
            kept == bars@.skip(from as int),
            out == highest(*calc, kept.take(i - from), rate),
        decreases bars.len() - i,
    {
        proof {
            assert(kept.take(i + 1 - from).drop_last() =~= kept.take(i - from));
            assert(kept.take(i + 1 - from).last() == bars@[i as int]);
        }
        let bar = &bars[i];
        if let Some(c) = bar.close {
            let p = match bar.high {
                Some(h) => h,
                None => c,
            };
            out = higher_of(out, Some(convert(p, rate, calc)));
        }
        i += 1;
    }
    assert(kept.take(bars.len() - from) =~= kept);
    out
}

// ---------------------------------------------------------------------------
// Laws
// ---------------------------------------------------------------------------

/// A trailing stop only ratchets up: one more bar never lowers its reference.
pub proof fn a_trailing_stop_never_falls<F: Fn(Formula) -> Number>(
    calc: F,
    bars: Seq<PriceHistoryPoint>,
    bar: PriceHistoryPoint,
    since: Seq<char>,
    rate: Option<Number>,
)
    requires
        peak_since(calc, bars, since, rate) is Some,
        !peak_since(calc, bars, since, rate)->0.is_nan(),
    ensures
        peak_since(calc, bars.push(bar), since, rate) is Some,
        peak_since(calc, bars, since, rate)->0.at_most(
            peak_since(calc, bars.push(bar), since, rate)->0,
        ),
{
    assert(bars.push(bar).drop_last() =~= bars);
    assert(bars.push(bar).last() == bar);
}

/// A stop entered by hand counts, whatever the trailing stop would say.
pub proof fn a_manual_stop_wins<F: Fn(Formula) -> Number>(
    calc: F,
    fields: Option<Map<Seq<char>, Field>>,
    bars: Seq<PriceHistoryPoint>,
    current: Option<Number>,
    rate: Option<Number>,
)
    requires
        nonzero(field_number(fields, "stop_loss"@)),
    ensures
        stop_loss_of(calc, fields, bars, current, rate) == Some(
            (field_number(fields, "stop_loss"@)->0, false),
        ),
{
}


/// A price is converted by multiplying it by the rate; without a rate it stays.
pub proof fn a_price_is_multiplied_by_its_rate<F: Fn(Formula) -> Number>(
    calc: F,
    r: Reading,
    price: Number,
    rate: Option<Number>,
)
    requires
        is_exact(calc, r),
        r.is_plain(price),
        rate is Some ==> r.is_plain(rate->0) && r.can(r.of(price) * r.of(rate->0)),
    ensures
        rate is Some ==> r.of(converted(calc, price, rate)) == r.of(price) * r.of(rate->0),
        rate is None ==> converted(calc, price, rate) == price,
{
    reveal_with_fuel(exact, 4);
    reveal_with_fuel(unrounded, 4);
    if rate is Some {
        lemma_exact(calc, r, product(num(price), num(rate->0)));
    }
}

/// The price that a bar counts with: its high, or its close without one.
pub open spec fn counted_price(bar: PriceHistoryPoint) -> Option<Number> {
    if bar.high is Some {
        bar.high
    } else {
        bar.close
    }
}

/// The peak is the highest price reached on or after the day: no bar from then on
/// counts with more, and one of them counts with that.
pub proof fn the_peak_is_the_highest_price_reached<F: Fn(Formula) -> Number>(
    calc: F,
    bars: Seq<PriceHistoryPoint>,
    since: Seq<char>,
    rate: Option<Number>,
)
    requires
        forall|i: int|
            0 <= i < bars.len() && (#[trigger] counted_price(bars[i])) is Some ==> !converted(
                calc,
                counted_price(bars[i])->0,
                rate,
            ).is_nan(),
    ensures
        forall|i: int|
            0 <= i < bars.len() && !text_before((bars[i]).date@, since) && (
            #[trigger] counted_price(bars[i])) is Some ==> peak_since(calc, bars, since, rate) is Some
                && converted(calc, counted_price(bars[i])->0, rate).at_most(
                peak_since(calc, bars, since, rate)->0,
            ),
        peak_since(calc, bars, since, rate) is Some ==> exists|i: int|
            0 <= i < bars.len() && !text_before((bars[i]).date@, since) && (
            #[trigger] counted_price(bars[i])) is Some && peak_since(calc, bars, since, rate)
                == Some(converted(calc, counted_price(bars[i])->0, rate)),
        peak_since(calc, bars, since, rate) is Some ==> !peak_since(
            calc,
            bars,
            since,
            rate,
        )->0.is_nan(),
    decreases bars.len(),
{
    if bars.len() > 0 {
        let less = bars.drop_last();
        let n = less.len() as int;
        assert forall|i: int|
            0 <= i < less.len() && (#[trigger] counted_price(less[i])) is Some implies !converted(
            calc,
            counted_price(less[i])->0,
            rate,
        ).is_nan() by {
            assert(less[i] == bars[i]);
            assert(counted_price(bars[i]) is Some);
        }
        the_peak_is_the_highest_price_reached(calc, less, since, rate);
        assert(bars[n] == bars.last());
        assert(reached(bars.last()) == counted_price(bars[n]));
        let was = peak_since(calc, less, since, rate);
        let is = peak_since(calc, bars, since, rate);
        assert forall|i: int|
            0 <= i < bars.len() && !text_before((bars[i]).date@, since) && (
            #[trigger] counted_price(bars[i])) is Some implies is is Some && converted(
            calc,
            counted_price(bars[i])->0,
            rate,
        ).at_most(is->0) by {
            if i < n {
                assert(less[i] == bars[i]);
                assert(counted_price(less[i]) is Some);
            }
        }
        if is is Some {
            if is == was {
                let i = choose|i: int|
                    0 <= i < less.len() && !text_before((less[i]).date@, since) && (
                    #[trigger] counted_price(less[i])) is Some && was == Some(
                        converted(calc, counted_price(less[i])->0, rate),
                    );
                assert(less[i] == bars[i]);
                assert(counted_price(bars[i]) is Some);
            } else {
                assert(counted_price(bars[n]) is Some);
            }
        }
    }
}

/// The stop loss is the one entered by hand, where that is not zero. Otherwise it
/// trails so many per cent under the highest price reached since the day that is
/// stored, the current price included; without a day, under the current price.
/// Without a positive percentage there is none.
pub proof fn a_trailing_stop_is_so_many_per_cent_under_the_peak<F: Fn(Formula) -> Number>(
    calc: F,
    r: Reading,
    fields: Map<Seq<char>, Field>,
    bars: Seq<PriceHistoryPoint>,
    current: Option<Number>,
    rate: Option<Number>,
    pct: Number,
    reference: Number,
)
    requires
        is_exact(calc, r),
        !fields.contains_key("stop_loss"@) || fields["stop_loss"@].number is None
            || fields["stop_loss"@].number->0.equals(Number { bits: 0 }),
        fields.contains_key("trailing_sell_pct"@),
        fields["trailing_sell_pct"@].number == Some(pct),
        r.is_plain(pct),
        r.of(pct) > 0 as real,
        ({
            let trails = fields.contains_key("trailing_sell_date"@)
                && fields["trailing_sell_date"@].text@.len() > 0;
            let peak = peak_since(calc, bars, fields["trailing_sell_date"@].text@, rate);
            &&& !trails ==> current == Some(reference)
            &&& trails && peak is None ==> current == Some(reference)
            &&& trails && peak is Some && current is None ==> peak == Some(reference)
            &&& trails && peak is Some && current is Some && !peak->0.is_nan()
                && !current->0.is_nan() ==> (reference == peak->0 || reference == current->0)
                && !reference.below(peak->0) && !reference.below(current->0)
            &&& trails && peak is Some ==> !peak->0.is_nan() && r.is_plain(peak->0)
            &&& current is Some ==> !current->0.is_nan() && r.is_plain(current->0)
        }),
        r.is_plain(reference),
        r.of(reference) != 0 as real,
        r.can(r.of(pct) / 100 as real),
        r.can(1 as real - r.of(pct) / 100 as real),
        r.can(r.of(reference) * (1 as real - r.of(pct) / 100 as real)),
    ensures
        stop_loss_of(calc, Some(fields), bars, current, rate) matches Some(s) && s.1 && r.of(s.0)
            == r.of(reference) * (1 as real - r.of(pct) / 100 as real),
{
    reveal_with_fuel(exact, 6);
    reveal_with_fuel(unrounded, 6);
    lemma_sign(calc, r, pct);
    let own = trailing_reference(calc, Some(fields), bars, current, rate);
    let trails = fields.contains_key("trailing_sell_date"@)
        && fields["trailing_sell_date"@].text@.len() > 0;
    assert(own is Some);
    assert(r.is_plain(own->0));
    if trails {
        let peak = peak_since(calc, bars, fields["trailing_sell_date"@].text@, rate);
        if peak is Some && current is Some {
            assert(peak->0.below(current->0) <==> r.of(peak->0) < r.of(current->0));
            assert(reference.below(peak->0) <==> r.of(reference) < r.of(peak->0));
            assert(reference.below(current->0) <==> r.of(reference) < r.of(current->0));
            assert(r.of(own->0) == r.of(reference));
        }
    }
    assert(r.of(own->0) == r.of(reference));
    lemma_sign(calc, r, own->0);
    lemma_exact(calc, r, trailing_price(own->0, pct));
}

/// Without a stop entered by hand, and without a positive percentage or a price
/// to trail, there is no stop loss.
pub proof fn there_is_no_stop_unasked<F: Fn(Formula) -> Number>(
    calc: F,
    fields: Map<Seq<char>, Field>,
    bars: Seq<PriceHistoryPoint>,
    current: Option<Number>,
    rate: Option<Number>,
)
    requires
        !fields.contains_key("stop_loss"@) || fields["stop_loss"@].number is None
            || fields["stop_loss"@].number->0.equals(Number { bits: 0 }),
        !fields.contains_key("trailing_sell_pct"@) || fields["trailing_sell_pct"@].number is None
            || !fields["trailing_sell_pct"@].number->0.positive(),
    ensures
        stop_loss_of(calc, Some(fields), bars, current, rate) is None,
        stop_loss_of(calc, None, bars, current, rate) is None,
{
}

/// The recent high is the highest price reached in the bars that have a close: no
/// such bar counts with more, and one of them counts with that.
pub proof fn the_recent_high_is_the_highest_price_reached<F: Fn(Formula) -> Number>(
    calc: F,
    bars: Seq<PriceHistoryPoint>,
    rate: Option<Number>,
)
    requires
        forall|i: int|
            0 <= i < bars.len() && (#[trigger] counted_price(bars[i])) is Some ==> !converted(
                calc,
                counted_price(bars[i])->0,
                rate,
            ).is_nan(),
    ensures
        forall|i: int|
            0 <= i < bars.len() && bars[i].close is Some && (#[trigger] counted_price(
                bars[i],
            )) is Some ==> highest(calc, bars, rate) is Some && converted(
                calc,
                counted_price(bars[i])->0,
                rate,
            ).at_most(highest(calc, bars, rate)->0),
        highest(calc, bars, rate) is Some ==> !highest(calc, bars, rate)->0.is_nan() && exists|
            i: int,
        |
            0 <= i < bars.len() && bars[i].close is Some && (#[trigger] counted_price(
                bars[i],
            )) is Some && highest(calc, bars, rate) == Some(
                converted(calc, counted_price(bars[i])->0, rate),
            ),
    decreases bars.len(),
{
    if bars.len() > 0 {
        let less = bars.drop_last();
        let n = less.len() as int;
        assert forall|i: int|
            0 <= i < less.len() && (#[trigger] counted_price(less[i])) is Some implies !converted(
            calc,
            counted_price(less[i])->0,
            rate,
        ).is_nan() by {
            assert(less[i] == bars[i]);
            assert(counted_price(bars[i]) is Some);
        }
        the_recent_high_is_the_highest_price_reached(calc, less, rate);
        assert(bars[n] == bars.last());
        assert(reached(bars.last()) == counted_price(bars[n]));
        let was = highest(calc, less, rate);
        let is = highest(calc, bars, rate);
        assert forall|i: int|
            0 <= i < bars.len() && bars[i].close is Some && (#[trigger] counted_price(
                bars[i],
            )) is Some implies is is Some && converted(calc, counted_price(bars[i])->0, rate).at_most(
            is->0,
        ) by {
            if i < n {
                assert(less[i] == bars[i]);
                assert(counted_price(less[i]) is Some);
            }
        }
        if is is Some {
            if is == was {
                let i = choose|i: int|
                    0 <= i < less.len() && less[i].close is Some && (#[trigger] counted_price(
                        less[i],
                    )) is Some && was == Some(converted(calc, counted_price(less[i])->0, rate));
                assert(less[i] == bars[i]);
                assert(counted_price(bars[i]) is Some);
            } else {
                assert(counted_price(bars[n]) is Some);
            }
        }
    }
}

} // verus!
