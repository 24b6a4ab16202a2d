//! What holdings cost, are worth and have earned.
use vstd::prelude::*;
use crate::exact::{exact, is_exact, lemma_exact, lemma_sign, unrounded, Reading};
use crate::fields::Field;
use crate::number::{
    difference, evaluate, is_calculator, num, number, percentage, product, quotient, sum, worth,
    Formula, Number, ZERO_BITS,
};
use crate::stops::{convert, converted, fields_view, nonzero};
use crate::text::{is_blank, trim_text, trimmed};
use crate::textmap::TextMap;

verus! {

broadcast use vstd::string::group_string_axioms;

// ---------------------------------------------------------------------------
// What a holding is measured against
// ---------------------------------------------------------------------------

/// The day and price from which the profit of a holding is measured, where both
/// are stored and the price is positive.
pub open spec fn stored_baseline(fields: Option<Map<Seq<char>, Field>>) -> Option<
    (Seq<char>, Number),
> {
    match fields {
        Some(m) => if m.contains_key("pl_basis_date"@) && !is_blank(m["pl_basis_date"@].text@)
            && m.contains_key("pl_basis_price"@) && m["pl_basis_price"@].trimmed_number is Some
            && m["pl_basis_price"@].trimmed_number->0.positive() {
            Some(
                (
                    trim_text(m["pl_basis_date"@].text@),
                    m["pl_basis_price"@].trimmed_number->0,
                ),
            )
        } else {
            None
        },
        None => None,
    }
}

/// A day and a price in the symbol's own currency.
#[derive(Debug)]
pub struct BaselinePoint {
    pub date: String,
    pub price: Number,
}

impl View for BaselinePoint {
    type V = (Seq<char>, Number);

    open spec fn view(&self) -> (Seq<char>, Number) {
        (self.date@, self.price)
    }
}

/// The view of an optional baseline.
pub open spec fn point_view(p: Option<BaselinePoint>) -> Option<(Seq<char>, Number)> {
    match p {
        Some(b) => Some(b@),
        None => None,
    }
}

/// The day and price from which the profit of a holding is measured.
pub fn baseline_point(fields: Option<&TextMap<Field>>) -> (r: Option<BaselinePoint>)
    ensures
        point_view(r) == stored_baseline(fields_view(fields)),
{
    match fields {
        None => None,
        Some(m) => match (m.get("pl_basis_date"), m.get("pl_basis_price")) {
            (Some(date), Some(price)) => {
                let day = trimmed(date.text.as_str());
                match price.trimmed_number {
                    Some(p) => if !day.is_empty() && p.is_positive() {
                        Some(BaselinePoint { date: day.to_owned(), price: p })
                    } else {
                        None
                    },
                    None => None,
                }
            },
            _ => None,
        },
    }
}

/// The baseline with its price in the base currency, from which the cost of
/// what is left is counted. `rate` takes the symbol's own currency to it.
pub fn rebase_point<F: Fn(Formula) -> Number>(
    fields: Option<&TextMap<Field>>,
    rate: Option<Number>,
    calc: &F,
) -> (r: Option<BaselinePoint>)
    requires
        is_calculator(*calc),
    ensures
        point_view(r) == (match stored_baseline(fields_view(fields)) {
            Some(point) => Some((point.0, converted(*calc, point.1, rate))),
            None => None,
        }),
{
    match baseline_point(fields) {
        Some(point) => Some(
            BaselinePoint { date: point.date, price: convert(point.price, rate, calc) },
        ),
        None => None,
    }
}

/// What the performance of a holding is measured against.
#[derive(Debug)]
pub struct Basis {
    pub cost: Number,
    pub dividends: Number,
    /// The baseline it came from, where one is set.
    pub from: Option<BaselinePoint>,
}

/// Whether `b` is the basis: the baseline replaces the purchase, unless its
/// cost is nothing, by which no percentage can be taken.
pub open spec fn is_basis(
    b: Basis,
    baseline: Option<(Seq<char>, Number)>,
    rebased: Option<(Number, Number)>,
    purchase_cost: Number,
    purchase_dividends: Number,
) -> bool {
    match (baseline, rebased) {
        (Some(point), Some(r)) => if r.0.positive() {
            b.cost == r.0 && b.dividends == r.1 && point_view(b.from) == Some(point)
        } else {
            b.cost == purchase_cost && b.dividends == purchase_dividends && b.from is None
        },
        _ => b.cost == purchase_cost && b.dividends == purchase_dividends && b.from is None,
    }
}

/// What the performance of a holding is measured against. `rebased` are the
/// cost and the dividends counted from the baseline, where there is one.
pub fn effective_basis(
    baseline: Option<BaselinePoint>,
    rebased: Option<(Number, Number)>,
    purchase_cost: Number,
    purchase_dividends: Number,
) -> (r: Basis)
    ensures
        is_basis(r, point_view(baseline), rebased, purchase_cost, purchase_dividends),
{
    match (baseline, rebased) {
        (Some(point), Some((cost, dividends))) => if cost.is_positive() {
            Basis { cost, dividends, from: Some(point) }
        } else {
            Basis { cost: purchase_cost, dividends: purchase_dividends, from: None }
        },
        _ => Basis { cost: purchase_cost, dividends: purchase_dividends, from: None },
    }
}

// ---------------------------------------------------------------------------
// The figures of a holding
// ---------------------------------------------------------------------------

/// What the shares are worth at a price; nothing where there is no price.
pub open spec fn market_value<F: Fn(Formula) -> Number>(
    calc: F,
    shares: Number,
    price: Option<Number>,
) -> Number {
    if nonzero(price) {
        worth(calc, product(num(shares), num(price->0)))
    } else {
        number(ZERO_BITS)
    }
}

/// The profit: value less cost plus dividends.
pub open spec fn profit<F: Fn(Formula) -> Number>(
    calc: F,
    value: Number,
    cost: Number,
    dividends: Number,
) -> Number {
    worth(calc, sum(difference(num(value), num(cost)), num(dividends)))
}

/// The profit in per cent of a positive cost.
pub open spec fn profit_percent<F: Fn(Formula) -> Number>(
    calc: F,
    pl: Number,
    cost: Number,
) -> Option<Number> {
    if cost.positive() {
        Some(worth(calc, percentage(num(pl), num(cost))))
    } else {
        None
    }
}

/// What the shares are worth at a price.
pub fn value_of_shares<F: Fn(Formula) -> Number>(shares: Number, price: Option<Number>, calc: &F) -> (r:
    Number)
    requires
        is_calculator(*calc),
    ensures
        r == market_value(*calc, shares, price),
{
    match price {
        Some(p) => if p.same_value(Number { bits: 0 }) {
            Number { bits: ZERO_BITS }
        } else {
            evaluate(calc, Formula::of(shares).times(Formula::of(p)))
        },
        None => Number { bits: ZERO_BITS },
    }
}

/// The profit.
pub fn profit_of<F: Fn(Formula) -> Number>(
    value: Number,
    cost: Number,
    dividends: Number,
    calc: &F,
) -> (r: Number)
    requires
        is_calculator(*calc),
    ensures
        r == profit(*calc, value, cost, dividends),
{
    evaluate(calc, Formula::of(value).minus(Formula::of(cost)).plus(Formula::of(dividends)))
}

/// What is left of a symbol after its sales.
#[derive(Clone, Copy, PartialEq, Eq, Structural, Debug)]
pub struct Remaining {
    pub shares: Number,
    /// The cost of the shares in the base currency.
    pub cost: Number,
    /// The cost in the currency they trade in.
    pub native_cost: Number,
}

/// The figures of a holding.
#[derive(Clone, Copy, PartialEq, Eq, Structural, Debug)]
pub struct HoldingFigures {
    pub invested: Number,
    pub avg_cost: Option<Number>,
    pub native_avg_cost: Option<Number>,
    pub current_value: Number,
    pub dividends: Number,
    pub pl: Number,
    pub pl_pct: Option<Number>,
}

/// A cost per share.
pub open spec fn per_share<F: Fn(Formula) -> Number>(
    calc: F,
    cost: Number,
    shares: Number,
) -> Option<Number> {
    if shares.positive() {
        Some(worth(calc, quotient(num(cost), num(shares))))
    } else {
        None
    }
}

/// The figures of a holding; there are none where no share is left.
pub open spec fn holding_figures<F: Fn(Formula) -> Number>(
    calc: F,
    left: Remaining,
    basis: Basis,
    price: Option<Number>,
    rate: Option<Number>,
) -> Option<HoldingFigures> {
    let value = market_value(calc, left.shares, price);
    let pl = profit(calc, value, basis.cost, basis.dividends);
    if !left.shares.remains() {
        None
    } else {
        Some(
            HoldingFigures {
                invested: basis.cost,
                avg_cost: match basis.from {
                    Some(point) => Some(converted(calc, point.price, rate)),
                    None => per_share(calc, left.cost, left.shares),
                },
                native_avg_cost: match basis.from {
                    Some(point) => Some(point.price),
                    None => per_share(calc, left.native_cost, left.shares),
                },
                current_value: value,
                dividends: basis.dividends,
                pl,
                pl_pct: profit_percent(calc, pl, basis.cost),
            },
        )
    }
}

fn share_of<F: Fn(Formula) -> Number>(cost: Number, shares: Number, calc: &F) -> (r: Option<Number>)
    requires
        is_calculator(*calc),
    ensures
        r == per_share(*calc, cost, shares),
{
    if shares.is_positive() {
        Some(evaluate(calc, Formula::of(cost).over(Formula::of(shares))))
    } else {
        None
    }
}

/// The figures of a holding; there are none where no share is left. `price` is
/// in the base currency, and `rate` takes the symbol's own currency to it.
pub fn figures_of<F: Fn(Formula) -> Number>(
    left: Remaining,
    basis: &Basis,
    price: Option<Number>,
    rate: Option<Number>,
    calc: &F,
) -> (r: Option<HoldingFigures>)
    requires
        is_calculator(*calc),
    ensures
        r == holding_figures(*calc, left, *basis, price, rate),
{
    if !left.shares.is_remaining() {
        return None;
    }
    let current_value = value_of_shares(left.shares, price, calc);
    let (avg_cost, native_avg_cost) = match &basis.from {
        Some(point) => (Some(convert(point.price, rate, calc)), Some(point.price)),
        None => (
            share_of(left.cost, left.shares, calc),
            share_of(left.native_cost, left.shares, calc),
        ),
    };
    let pl = profit_of(current_value, basis.cost, basis.dividends, calc);
    let pl_pct = if basis.cost.is_positive() {
        Some(evaluate(calc, Formula::of(pl).percent_of(Formula::of(basis.cost))))
    } else {
        None
    };
    Some(
        HoldingFigures {
            invested: basis.cost,
            avg_cost,
            native_avg_cost,
            current_value,
            dividends: basis.dividends,
            pl,
            pl_pct,
        },
    )
}

// ---------------------------------------------------------------------------
// Lots
// ---------------------------------------------------------------------------

/// What the rest of a lot is worth and has gained.
#[derive(Clone, Copy, PartialEq, Eq, Structural, Debug)]
pub struct LotFigures {
    pub current_value: Option<Number>,
    pub unrealised_pl: Option<Number>,
}

/// What the rest of a lot is worth and has gained: its value less what it cost
/// with its brokerage. Nothing is known where nothing is left of it, or it has
/// no price.
pub open spec fn lot_figures<F: Fn(Formula) -> Number>(
    calc: F,
    remaining: Number,
    price: Option<Number>,
    cost: Option<Number>,
    brokerage: Option<Number>,
) -> LotFigures {
    if price is Some && cost is Some && remaining.positive() {
        let value = worth(calc, product(num(remaining), num(price->0)));
        let paid = sum(
            product(num(remaining), num(cost->0)),
            num(
                match brokerage {
                    Some(b) => b,
                    None => number(ZERO_BITS),
                },
            ),
        );
        LotFigures {
            current_value: Some(value),
            unrealised_pl: Some(worth(calc, difference(num(value), paid))),
        }
    } else {
        LotFigures { current_value: None, unrealised_pl: None }
    }
}

/// What the rest of a lot is worth and has gained.
pub fn figures_of_lot<F: Fn(Formula) -> Number>(
    remaining: Number,
    price: Option<Number>,
    cost: Option<Number>,
    brokerage: Option<Number>,
    calc: &F,
) -> (r: LotFigures)
    requires
        is_calculator(*calc),
    ensures
        r == lot_figures(*calc, remaining, price, cost, brokerage),
{
    match (price, cost) {
        (Some(p), Some(c)) => if remaining.is_positive() {
            let value = evaluate(calc, Formula::of(remaining).times(Formula::of(p)));
            let fee = match brokerage {
                Some(b) => b,
                None => Number { bits: ZERO_BITS },
            };
            let paid = Formula::of(remaining).times(Formula::of(c)).plus(Formula::of(fee));
            LotFigures {
                current_value: Some(value),
                unrealised_pl: Some(evaluate(calc, Formula::of(value).minus(paid))),
            }
        } else {
            LotFigures { current_value: None, unrealised_pl: None }
        },
        _ => LotFigures { current_value: None, unrealised_pl: None },
    }
}

// ---------------------------------------------------------------------------
// Laws
// ---------------------------------------------------------------------------

/// A baseline replaces the purchase: neither the cost nor the dividends of the
/// purchase enter the figures of a holding that has one.
pub proof fn a_baseline_stands_in_for_the_purchase(
    a: Basis,
    b: Basis,
    baseline: Option<(Seq<char>, Number)>,
    rebased: Option<(Number, Number)>,
    cost_a: Number,
    cost_b: Number,
    dividends_a: Number,
    dividends_b: Number,
)
    requires
        baseline is Some,
        rebased is Some,
        (rebased->0).0.positive(),
        is_basis(a, baseline, rebased, cost_a, dividends_a),
        is_basis(b, baseline, rebased, cost_b, dividends_b),
    ensures
        a.cost == b.cost,
        a.dividends == b.dividends,
        point_view(a.from) == point_view(b.from),
{
}

/// No percentage is ever taken of a cost that is nothing.
pub proof fn no_percentage_of_nothing<F: Fn(Formula) -> Number>(
    calc: F,
    left: Remaining,
    basis: Basis,
    price: Option<Number>,
    rate: Option<Number>,
)
    requires
        holding_figures(calc, left, basis, price, rate) is Some,
        !basis.cost.positive(),
    ensures
        holding_figures(calc, left, basis, price, rate)->0.pl_pct is None,
{
}


/// A holding is worth its shares times its price, and nothing without one. Its
/// profit is what it is worth less what it cost and with what it paid out; in per
/// cent, that of the cost.
pub proof fn a_profit_is_the_gain_and_the_dividends<F: Fn(Formula) -> Number>(
    calc: F,
    r: Reading,
    left: Remaining,
    basis: Basis,
    price: Option<Number>,
    rate: Option<Number>,
    value: real,
)
    requires
        is_exact(calc, r),
        r.is_plain(left.shares),
        r.is_plain(basis.cost) && r.is_plain(basis.dividends),
        price is Some ==> r.is_plain(price->0),
        value == (match price {
            Some(p) => r.of(left.shares) * r.of(p),
            None => 0 as real,
        }),
        r.can(value),
        r.can(value - r.of(basis.cost)),
        r.can(value - r.of(basis.cost) + r.of(basis.dividends)),
        r.of(basis.cost) > 0 as real ==> r.can(
            (value - r.of(basis.cost) + r.of(basis.dividends)) / r.of(basis.cost),
        ) && r.can(
            (value - r.of(basis.cost) + r.of(basis.dividends)) / r.of(basis.cost) * 100 as real,
        ),
    ensures
        r.of(left.shares) <= 0 as real ==> holding_figures(calc, left, basis, price, rate) is None,
        r.of(left.shares) > 0 as real ==> (holding_figures(calc, left, basis, price, rate) matches Some(
            f,
        ) && {
            &&& f.invested == basis.cost
            &&& f.dividends == basis.dividends
            &&& r.of(f.current_value) == value
            &&& r.of(f.pl) == value - r.of(basis.cost) + r.of(basis.dividends)
            &&& r.of(basis.cost) > 0 as real ==> f.pl_pct is Some && r.of(f.pl_pct->0) == (value
                - r.of(basis.cost) + r.of(basis.dividends)) / r.of(basis.cost) * 100 as real
            &&& r.of(basis.cost) <= 0 as real ==> f.pl_pct is None
        }),
{
    reveal_with_fuel(exact, 6);
    reveal_with_fuel(unrounded, 6);
    lemma_sign(calc, r, left.shares);
    lemma_sign(calc, r, basis.cost);
    if price is Some {
        lemma_sign(calc, r, price->0);
        if r.of(price->0) != 0 as real {
            lemma_exact(calc, r, product(num(left.shares), num(price->0)));
        } else {
            let s = r.of(left.shares);
            assert(s * (0 as real) == 0 as real) by (nonlinear_arith);
        }
    }
    let v = market_value(calc, left.shares, price);
    assert(r.of(v) == value);
    let f = sum(difference(num(v), num(basis.cost)), num(basis.dividends));
    lemma_exact(calc, r, f);
    if r.of(basis.cost) > 0 as real {
        lemma_exact(calc, r, percentage(num(worth(calc, f)), num(basis.cost)));
    }
}

/// The average cost is the cost of the shares left over how many they are, in the
/// base currency and in their own. With a baseline it is the baseline's price,
/// and in the base currency that price at the rate.
pub proof fn an_average_cost_is_per_share<F: Fn(Formula) -> Number>(
    calc: F,
    r: Reading,
    left: Remaining,
    basis: Basis,
    price: Option<Number>,
    rate: Option<Number>,
)
    requires
        is_exact(calc, r),
        r.is_plain(left.shares) && r.is_plain(left.cost) && r.is_plain(left.native_cost),
        r.of(left.shares) > 0 as real,
        r.can(r.of(left.cost) / r.of(left.shares)),
        r.can(r.of(left.native_cost) / r.of(left.shares)),
    ensures
        holding_figures(calc, left, basis, price, rate) matches Some(f) && {
            &&& basis.from is None ==> f.avg_cost is Some && f.native_avg_cost is Some && r.of(
                f.avg_cost->0,
            ) == r.of(left.cost) / r.of(left.shares) && r.of(f.native_avg_cost->0) == r.of(
                left.native_cost,
            ) / r.of(left.shares)
            &&& basis.from is Some ==> f.native_avg_cost == Some(basis.from->0.price)
                && f.avg_cost == Some(converted(calc, basis.from->0.price, rate))
        },
{
    reveal_with_fuel(exact, 4);
    reveal_with_fuel(unrounded, 4);
    lemma_sign(calc, r, left.shares);
    lemma_exact(calc, r, quotient(num(left.cost), num(left.shares)));
    lemma_exact(calc, r, quotient(num(left.native_cost), num(left.shares)));
}

/// The rest of a lot is worth its shares times the price, and has gained that less
/// what the shares cost and the brokerage.
pub proof fn a_lot_gains_its_value_less_what_was_paid<F: Fn(Formula) -> Number>(
    calc: F,
    r: Reading,
    remaining: Number,
    price: Number,
    cost: Number,
    brokerage: Option<Number>,
    fee: real,
)
    requires
        is_exact(calc, r),
        r.is_plain(remaining) && r.is_plain(price) && r.is_plain(cost),
        brokerage is Some ==> r.is_plain(brokerage->0) && fee == r.of(brokerage->0),
        brokerage is None ==> fee == 0 as real,
        r.can(r.of(remaining) * r.of(price)),
        r.can(r.of(remaining) * r.of(cost)),
        r.can(r.of(remaining) * r.of(cost) + fee),
        r.can(r.of(remaining) * r.of(price) - (r.of(remaining) * r.of(cost) + fee)),
    ensures
        ({
            let f = lot_figures(calc, remaining, Some(price), Some(cost), brokerage);
            &&& r.of(remaining) > 0 as real ==> f.current_value is Some && f.unrealised_pl is Some
                && r.of(f.current_value->0) == r.of(remaining) * r.of(price) && r.of(
                f.unrealised_pl->0,
            ) == r.of(remaining) * r.of(price) - r.of(remaining) * r.of(cost) - fee
            &&& r.of(remaining) <= 0 as real ==> f.current_value is None && f.unrealised_pl is None
        }),
        lot_figures(calc, remaining, None, Some(cost), brokerage).current_value is None,
        lot_figures(calc, remaining, Some(price), None, brokerage).current_value is None,
{
    reveal_with_fuel(exact, 6);
    reveal_with_fuel(unrounded, 6);
    lemma_sign(calc, r, remaining);
    let value = product(num(remaining), num(price));
    lemma_exact(calc, r, value);
    let b = match brokerage {
        Some(b) => b,
        None => number(ZERO_BITS),
    };
    lemma_exact(
        calc,
        r,
        difference(
            num(worth(calc, value)),
            sum(product(num(remaining), num(cost)), num(b)),
        ),
    );
}

/// A baseline counts where its day is not blank and its price is positive; without
/// one, or where what was counted from it cost nothing, the purchase does.
pub proof fn a_baseline_needs_a_day_and_a_positive_price(
    fields: Map<Seq<char>, Field>,
    b: Basis,
    rebased: Option<(Number, Number)>,
    cost: Number,
    dividends: Number,
)
    requires
        is_basis(b, stored_baseline(Some(fields)), rebased, cost, dividends),
    ensures
        ({
            let set = fields.contains_key("pl_basis_date"@) && fields.contains_key(
                "pl_basis_price"@,
            ) && trim_text(fields["pl_basis_date"@].text@).len() > 0
                && fields["pl_basis_price"@].trimmed_number is Some
                && fields["pl_basis_price"@].trimmed_number->0.positive();
            &&& set ==> stored_baseline(Some(fields)) == Some(
                (
                    trim_text(fields["pl_basis_date"@].text@),
                    fields["pl_basis_price"@].trimmed_number->0,
                ),
            )
            &&& !set || rebased is None || !(rebased->0).0.positive() ==> b.cost == cost
                && b.dividends == dividends && b.from is None
            &&& set && rebased is Some && (rebased->0).0.positive() ==> b.cost == (rebased->0).0
                && b.dividends == (rebased->0).1 && b.from is Some
        }),
{
}

} // verus!
