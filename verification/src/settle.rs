//! What a trade or a dividend moves on the cash account it settles against.
use vstd::prelude::*;
use crate::cash::{account_not_found, no_account};
use crate::exact::{exact, is_exact, lemma_exact, lemma_sign, unrounded, Reading};
use crate::number::{
    difference, evaluate, is_calculator, is_renderer, num, number, opposite, product, quotient, sum,
    to_cents, worth, write_number, written, Decimals, Formula, Number, HUNDRED_BITS, ONE_BITS,
    ZERO_BITS,
};
use crate::stops::nonzero;
use crate::text::{joined, joined3, joined5, option_slice_view, same};

verus! {

broadcast use vstd::string::group_string_axioms;

/// The bits of the smallest amount withheld that is booked, half a cent.
pub const HALF_CENT_BITS: u64 = 0x3F74_7AE1_47AE_147B;

/// A trade or a dividend as it is stored.
#[derive(Debug)]
pub struct StoredTrade {
    /// The account it settles against, where it has one.
    pub cash_account_id: Option<i64>,
    pub transaction_type: String,
    pub date: String,
    pub symbol: String,
    pub quantity: Option<Number>,
    /// In the base currency.
    pub price: Option<Number>,
    /// In the trade's own currency.
    pub original_price: Option<Number>,
    pub fx_rate: Option<Number>,
    /// In the base currency.
    pub brokerage: Option<Number>,
    /// The total of a dividend, in the base currency.
    pub amount: Option<Number>,
    pub currency: Option<String>,
    /// The tax withheld from this payment.
    pub withholding_amount: Option<Number>,
    pub notes: Option<String>,
}

/// An entry that a trade makes in the cash ledger.
#[derive(Debug)]
pub struct CashLeg {
    pub account_id: i64,
    pub date: String,
    pub amount: Number,
    pub kind: String,
    pub notes: String,
}

/// What an entry holds.
pub struct LegView {
    pub account_id: i64,
    pub date: Seq<char>,
    pub amount: Number,
    pub kind: Seq<char>,
    pub notes: Seq<char>,
}

impl View for CashLeg {
    type V = LegView;

    open spec fn view(&self) -> LegView {
        LegView {
            account_id: self.account_id,
            date: self.date@,
            amount: self.amount,
            kind: self.kind@,
            notes: self.notes@,
        }
    }
}

/// The views of some entries.
pub open spec fn leg_views(legs: Seq<CashLeg>) -> Seq<LegView> {
    Seq::new(legs.len(), |i: int| legs[i]@)
}

// ---------------------------------------------------------------------------
// In which currency it settles
// ---------------------------------------------------------------------------

/// The currency of a trade.
pub open spec fn trade_currency(t: StoredTrade) -> Seq<char> {
    match t.currency {
        Some(c) => c@,
        None => "AUD"@,
    }
}

/// How a trade settles.
#[derive(Clone, Copy, PartialEq, Eq, Structural, Debug)]
pub enum Settlement {
    /// In the base currency, which is also the trade's.
    Home,
    /// In the trade's own currency, of which the account holds a balance.
    Native,
    /// In the base currency, the broker converting at the trade's rate.
    Converted,
}

/// How a trade settles against an account of that currency; it does not where
/// no rate between the two is known.
pub open spec fn settlement(trade: Seq<char>, account: Seq<char>) -> Option<Settlement> {
    if account == trade {
        if trade == "AUD"@ {
            Some(Settlement::Home)
        } else {
            Some(Settlement::Native)
        }
    } else if account == "AUD"@ {
        Some(Settlement::Converted)
    } else {
        None
    }
}

/// What is said of a trade that does not settle against the account.
pub open spec fn mismatch(symbol: Seq<char>, trade: Seq<char>, account: Seq<char>) -> Seq<char> {
    symbol + " trade settles in "@ + trade + " but the chosen cash account is "@ + account
        + ". Convert the funds first, then settle from an account in the trade's currency."@
}

/// A product of two numbers that may be missing.
pub open spec fn times<F: Fn(Formula) -> Number>(
    calc: F,
    a: Option<Number>,
    b: Option<Number>,
) -> Option<Number> {
    match (a, b) {
        (Some(x), Some(y)) => Some(worth(calc, product(num(x), num(y)))),
        _ => None,
    }
}

/// A number over a rate, where both are there and the rate is not zero.
pub open spec fn over_rate<F: Fn(Formula) -> Number>(
    calc: F,
    a: Option<Number>,
    rate: Option<Number>,
) -> Option<Number> {
    if a is Some && nonzero(rate) {
        Some(worth(calc, quotient(num(a->0), num(rate->0))))
    } else {
        None
    }
}

/// The brokerage in the currency that is booked; none where it cannot be
/// expressed in it.
pub open spec fn settled_brokerage<F: Fn(Formula) -> Number>(
    calc: F,
    t: StoredTrade,
    how: Settlement,
) -> Option<Number> {
    match t.brokerage {
        None => Some(number(ZERO_BITS)),
        Some(b) => if how == Settlement::Native {
            over_rate(calc, Some(b), t.fx_rate)
        } else {
            Some(b)
        },
    }
}

/// What is traded or paid out before brokerage, in the currency that is booked.
/// A trade is settled by its shares and their price; a dividend by its total,
/// which is all that has to be recorded of it.
pub open spec fn gross<F: Fn(Formula) -> Number>(calc: F, t: StoredTrade, how: Settlement) -> Option<
    Number,
> {
    let native = times(calc, t.quantity, t.original_price);
    let home = times(calc, t.quantity, t.price);
    if t.transaction_type@ == "dividend"@ {
        let total = if t.amount is Some {
            t.amount
        } else {
            home
        };
        if how != Settlement::Native {
            total
        } else if native is Some {
            native
        } else {
            over_rate(calc, total, t.fx_rate)
        }
    } else if how == Settlement::Native {
        native
    } else {
        home
    }
}

/// The amount and the kind of the entry: a purchase takes cash out with its
/// brokerage, a sale or a dividend brings it in less the brokerage.
pub open spec fn booked<F: Fn(Formula) -> Number>(
    calc: F,
    transaction_type: Seq<char>,
    gross: Number,
    brokerage: Number,
) -> Option<(Number, Seq<char>)> {
    if transaction_type == "purchase"@ {
        Some((worth(calc, opposite(sum(num(gross), num(brokerage)))), "trade_buy"@))
    } else if transaction_type == "sale"@ {
        Some((worth(calc, difference(num(gross), num(brokerage))), "trade_sell"@))
    } else if transaction_type == "dividend"@ {
        Some((worth(calc, difference(num(gross), num(brokerage))), "dividend"@))
    } else {
        None
    }
}

/// The day of the entry: a dividend is recorded under the day it was due from,
/// but the cash lands on the day it is paid.
pub open spec fn settle_date(t: StoredTrade, payment_date: Option<Seq<char>>) -> Seq<char> {
    if t.transaction_type@ == "dividend"@ && payment_date is Some {
        payment_date->0
    } else {
        t.date@
    }
}

/// The note of the entry. One that was converted states the foreign amount and
/// the rate.
pub open spec fn leg_note<F: Fn(Formula) -> Number, R: Fn(Number, Decimals) -> String>(
    calc: F,
    render: R,
    t: StoredTrade,
    how: Settlement,
) -> Seq<char> {
    let plain = t.transaction_type@ + " "@ + t.symbol@;
    let native = times(calc, t.quantity, t.original_price);
    if how == Settlement::Converted && native is Some && t.fx_rate is Some {
        plain + " — "@ + trade_currency(t) + " "@ + written(
            render,
            native->0,
            Decimals::Fixed(2),
        ) + " at "@ + written(render, t.fx_rate->0, Decimals::Fixed(4))
    } else {
        plain
    }
}

/// The tax withheld from a dividend and how it is labelled. An amount recorded
/// with the payment counts before the rate of the symbol. By the rate, the net
/// is rounded first, so that the two entries add up to what was received.
pub open spec fn withheld<F: Fn(Formula) -> Number, R: Fn(Number, Decimals) -> String>(
    calc: F,
    render: R,
    t: StoredTrade,
    amount: Number,
    pct: Option<Number>,
) -> Option<(Number, Seq<char>)> {
    if t.withholding_amount is Some && t.withholding_amount->0.positive() {
        Some(
            (
                worth(calc, to_cents(num(t.withholding_amount->0))),
                "tax withheld on "@ + t.symbol@ + " dividend"@,
            ),
        )
    } else if pct is Some && pct->0.positive() {
        let net = worth(
            calc,
            to_cents(
                product(
                    num(amount),
                    difference(
                        num(number(ONE_BITS)),
                        quotient(num(pct->0), num(number(HUNDRED_BITS))),
                    ),
                ),
            ),
        );
        Some(
            (
                worth(calc, to_cents(difference(num(amount), num(net)))),
                "withholding tax "@ + written(render, pct->0, Decimals::Shortest) + "% on "@
                    + t.symbol@ + " dividend"@,
            ),
        )
    } else {
        None
    }
}

/// The entries of a trade that settles that way.
pub open spec fn legs_of<F: Fn(Formula) -> Number, R: Fn(Number, Decimals) -> String>(
    calc: F,
    render: R,
    t: StoredTrade,
    account_id: i64,
    how: Settlement,
    brokerage: Number,
    payment_date: Option<Seq<char>>,
    pct: Option<Number>,
) -> Seq<LegView> {
    match gross(calc, t, how) {
        None => seq![],
        Some(g) => match booked(calc, t.transaction_type@, g, brokerage) {
            None => seq![],
            Some(b) => {
                let date = settle_date(t, payment_date);
                let first = LegView {
                    account_id,
                    date,
                    amount: b.0,
                    kind: b.1,
                    notes: leg_note(calc, render, t, how),
                };
                match withheld(calc, render, t, b.0, pct) {
                    Some(w) => if t.transaction_type@ == "dividend"@ && number(
                        HALF_CENT_BITS,
                    ).at_most(w.0.absolute()) {
                        seq![
                            first,
                            LegView {
                                account_id,
                                date,
                                amount: worth(calc, opposite(num(w.0))),
                                kind: "fee"@,
                                notes: w.1,
                            },
                        ]
                    } else {
                        seq![first]
                    },
                    None => seq![first],
                }
            },
        },
    }
}

/// The entries that a trade makes in the cash ledger, or why it cannot settle.
/// A trade without an account makes none.
pub open spec fn settled_legs<F: Fn(Formula) -> Number, R: Fn(Number, Decimals) -> String>(
    calc: F,
    render: R,
    t: StoredTrade,
    account: Option<Seq<char>>,
    payment_date: Option<Seq<char>>,
    pct: Option<Number>,
) -> Result<Seq<LegView>, Seq<char>> {
    match t.cash_account_id {
        None => Ok(seq![]),
        Some(id) => match account {
            None => Err(no_account(id as int)),
            Some(currency) => match settlement(trade_currency(t), currency) {
                None => Err(mismatch(t.symbol@, trade_currency(t), currency)),
                Some(how) => match settled_brokerage(calc, t, how) {
                    None => Err(
                        t.symbol@
                            + " trade has brokerage but no exchange rate, so the fee cannot be expressed in "@
                            + trade_currency(t),
                    ),
                    Some(brokerage) => Ok(
                        legs_of(calc, render, t, id, how, brokerage, payment_date, pct),
                    ),
                },
            },
        },
    }
}

// ---------------------------------------------------------------------------
// Settling
// ---------------------------------------------------------------------------

fn currency_of_trade(t: &StoredTrade) -> (r: &str)
    ensures
        r@ == trade_currency(*t),
{
    match &t.currency {
        Some(c) => c.as_str(),
        None => "AUD",
    }
}

fn multiplied<F: Fn(Formula) -> Number>(a: Option<Number>, b: Option<Number>, calc: &F) -> (r: Option<
    Number,
>)
    requires
        is_calculator(*calc),
    ensures
        r == times(*calc, a, b),
{
    match (a, b) {
        (Some(x), Some(y)) => Some(evaluate(calc, Formula::of(x).times(Formula::of(y)))),
        _ => None,
    }
}

fn divided<F: Fn(Formula) -> Number>(a: Option<Number>, rate: Option<Number>, calc: &F) -> (r: Option<
    Number,
>)
    requires
        is_calculator(*calc),
    ensures
        r == over_rate(*calc, a, rate),
{
    match (a, rate) {
        (Some(x), Some(y)) => if y.same_value(Number { bits: ZERO_BITS }) {
            None
        } else {
            Some(evaluate(calc, Formula::of(x).over(Formula::of(y))))
        },
        _ => None,
    }
}

/// How a trade settles against an account of that currency.
pub fn settlement_of(trade: &str, account: &str) -> (r: Option<Settlement>)
    ensures
        r == settlement(trade@, account@),
{
    if same(account, trade) {
        if same(trade, "AUD") {
            Some(Settlement::Home)
        } else {
            Some(Settlement::Native)
        }
    } else if same(account, "AUD") {
        Some(Settlement::Converted)
    } else {
        None
    }
}

fn gross_of<F: Fn(Formula) -> Number>(t: &StoredTrade, how: Settlement, calc: &F) -> (r: Option<Number>)
    requires
        is_calculator(*calc),
    ensures
        r == gross(*calc, *t, how),
{
    if same(t.transaction_type.as_str(), "dividend") {
        let total = match t.amount {
            Some(a) => Some(a),
            None => multiplied(t.quantity, t.price, calc),
        };
        if how != Settlement::Native {
            return total;
        }
        match multiplied(t.quantity, t.original_price, calc) {
            Some(n) => Some(n),
            None => divided(total, t.fx_rate, calc),
        }
    } else if how == Settlement::Native {
        multiplied(t.quantity, t.original_price, calc)
    } else {
        multiplied(t.quantity, t.price, calc)
    }
}

fn book<F: Fn(Formula) -> Number>(
    transaction_type: &str,
    gross: Number,
    brokerage: Number,
    calc: &F,
) -> (r: Option<(Number, &'static str)>)
    requires
        is_calculator(*calc),
    ensures
        match r {
            Some(b) => booked(*calc, transaction_type@, gross, brokerage) == Some((b.0, b.1@)),
            None => booked(*calc, transaction_type@, gross, brokerage) is None,
        },
{
    if same(transaction_type, "purchase") {
        let f = Formula::of(gross).plus(Formula::of(brokerage)).negated();
        Some((evaluate(calc, f), "trade_buy"))
    } else if same(transaction_type, "sale") {
        let f = Formula::of(gross).minus(Formula::of(brokerage));
        Some((evaluate(calc, f), "trade_sell"))
    } else if same(transaction_type, "dividend") {
        let f = Formula::of(gross).minus(Formula::of(brokerage));
        Some((evaluate(calc, f), "dividend"))
    } else {
        None
    }
}

fn note_of<F: Fn(Formula) -> Number, R: Fn(Number, Decimals) -> String>(
    t: &StoredTrade,
    how: Settlement,
    calc: &F,
    render: &R,
) -> (r: String)
    requires
        is_calculator(*calc),
        is_renderer(*render),
    ensures
        r@ == leg_note(*calc, *render, *t, how),
{
    let plain = joined3(t.transaction_type.as_str(), " ", t.symbol.as_str());
    if how == Settlement::Converted {
        match (multiplied(t.quantity, t.original_price, calc), t.fx_rate) {
            (Some(native), Some(rate)) => {
                let amount = write_number(render, native, Decimals::Fixed(2));
                let at = write_number(render, rate, Decimals::Fixed(4));
                let head = joined5(
                    plain.as_str(),
                    " — ",
                    currency_of_trade(t),
                    " ",
                    amount.as_str(),
                );
                return joined3(head.as_str(), " at ", at.as_str());
            },
            _ => {},
        }
    }
    plain
}

fn withholding<F: Fn(Formula) -> Number, R: Fn(Number, Decimals) -> String>(
    t: &StoredTrade,
    amount: Number,
    pct: Option<Number>,
    calc: &F,
    render: &R,
) -> (r: Option<(Number, String)>)
    requires
        is_calculator(*calc),
        is_renderer(*render),
    ensures
        match r {
            Some(w) => withheld(*calc, *render, *t, amount, pct) == Some((w.0, w.1@)),
            None => withheld(*calc, *render, *t, amount, pct) is None,
        },
{
    match t.withholding_amount {
        Some(a) => {
            if a.is_positive() {
                let label = joined3("tax withheld on ", t.symbol.as_str(), " dividend");
                return Some((evaluate(calc, Formula::of(a).in_cents()), label));
            }
        },
        None => {},
    }
    match pct {
        Some(p) => if p.is_positive() {
            let kept = Formula::of(amount).times(
                Formula::of_bits(ONE_BITS).minus(
                    Formula::of(p).over(Formula::of_bits(HUNDRED_BITS)),
                ),
            );
            let net = evaluate(calc, kept.in_cents());
            let taken = evaluate(
                calc,
                Formula::of(amount).minus(Formula::of(net)).in_cents(),
            );
            let rate = write_number(render, p, Decimals::Shortest);
            let label = joined5(
                "withholding tax ",
                rate.as_str(),
                "% on ",
                t.symbol.as_str(),
                " dividend",
            );
            Some((taken, label))
        } else {
            None
        },
        None => None,
    }
}

/// The entries that a trade makes in the cash ledger, or why it cannot settle.
///
/// `account_currency` is the currency of the account it names, where that is
/// there; `payment_date` is when its dividend is paid, where that is known; and
/// `withholding_pct` is the tax rate of its symbol, where it has one.
pub fn trade_cash_legs<F: Fn(Formula) -> Number, R: Fn(Number, Decimals) -> String>(
    trade: &StoredTrade,
    account_currency: Option<&str>,
    payment_date: Option<&str>,
    withholding_pct: Option<Number>,
    calc: &F,
    render: &R,
) -> (r: Result<Vec<CashLeg>, String>)
    requires
        is_calculator(*calc),
        is_renderer(*render),
    ensures
        match r {
            Ok(legs) => settled_legs(
                *calc,
                *render,
                *trade,
                option_slice_view(account_currency),
                option_slice_view(payment_date),
                withholding_pct,
            ) == Ok::<Seq<LegView>, Seq<char>>(leg_views(legs@)),
            Err(e) => settled_legs(
                *calc,
                *render,
                *trade,
                option_slice_view(account_currency),
                option_slice_view(payment_date),
                withholding_pct,
            ) == Err::<Seq<LegView>, Seq<char>>(e@),
        },
{
    let mut legs: Vec<CashLeg> = Vec::new();
    assert(leg_views(legs@) =~= seq![]);
    let account_id = match trade.cash_account_id {
        Some(id) => id,
        None => return Ok(legs),
    };
    let account = match account_currency {
        Some(c) => c,
        None => return Err(account_not_found(account_id)),
    };
    let currency = currency_of_trade(trade);
    let how = match settlement_of(currency, account) {
        Some(how) => how,
        None => {
            let head = joined5(
                trade.symbol.as_str(),
                " trade settles in ",
                currency,
                " but the chosen cash account is ",
                account,
            );
            return Err(
                joined(
                    head.as_str(),
                    ". Convert the funds first, then settle from an account in the trade's currency.",
                ),
            );
        },
    };
    let brokerage = match trade.brokerage {
        None => Number { bits: ZERO_BITS },
        Some(b) => if how == Settlement::Native {
            match divided(Some(b), trade.fx_rate, calc) {
                Some(v) => v,
                None => {
                    return Err(
                        joined3(
                            trade.symbol.as_str(),
                            " trade has brokerage but no exchange rate, so the fee cannot be expressed in ",
                            currency,
                        ),
                    );
                },
            }
        } else {
            b
        },
    };
    let total = match gross_of(trade, how, calc) {
        Some(g) => g,
        None => return Ok(legs),
    };
    let (amount, kind) = match book(trade.transaction_type.as_str(), total, brokerage, calc) {
        Some(b) => b,
        None => return Ok(legs),
    };
    let is_dividend = same(trade.transaction_type.as_str(), "dividend");
    let date = match payment_date {
        Some(d) => if is_dividend {
            d
        } else {
            trade.date.as_str()
        },
        None => trade.date.as_str(),
    };
    let first = CashLeg {
        account_id,
        date: date.to_owned(),
        amount,
        kind: kind.to_owned(),
        notes: note_of(trade, how, calc, render),
    };
    let ghost one = first@;
    legs.push(first);
    assert(leg_views(legs@) =~= seq![one]);
    match withholding(trade, amount, withholding_pct, calc, render) {
        Some((taken, label)) => {
            if is_dividend && (Number { bits: HALF_CENT_BITS }).no_more_than(taken.abs()) {
                let second = CashLeg {
                    account_id,
                    date: date.to_owned(),
                    amount: evaluate(calc, Formula::of(taken).negated()),
                    kind: "fee".to_owned(),
                    notes: label,
                };
                let ghost two = second@;
                legs.push(second);
                assert(leg_views(legs@) =~= seq![one, two]);
            }
        },
        None => {},
    }
    Ok(legs)
}

// ---------------------------------------------------------------------------
// The ledger
// ---------------------------------------------------------------------------

/// A row of the cash ledger.
#[derive(Debug)]
pub struct LedgerRow {
    pub leg: CashLeg,
    /// The transaction it was written for, where it was.
    pub holding_tx_id: Option<i64>,
}

/// What a row holds.
pub open spec fn row_views(rows: Seq<LedgerRow>) -> Seq<(LegView, Option<i64>)> {
    Seq::new(rows.len(), |i: int| (rows[i].leg@, rows[i].holding_tx_id))
}

/// The rows that were not written for the transaction.
pub open spec fn without_legs(rows: Seq<(LegView, Option<i64>)>, id: i64) -> Seq<
    (LegView, Option<i64>),
> {
    rows.filter(|row: (LegView, Option<i64>)| row.1 != Some(id))
}

/// The entries as rows written for the transaction.
pub open spec fn owned_rows(legs: Seq<LegView>, id: i64) -> Seq<(LegView, Option<i64>)> {
    legs.map_values(|leg: LegView| (leg, Some(id)))
}

/// The ledger once the entries of a transaction have been written anew.
pub open spec fn resettled(
    rows: Seq<(LegView, Option<i64>)>,
    id: i64,
    legs: Seq<LegView>,
) -> Seq<(LegView, Option<i64>)> {
    without_legs(rows, id) + owned_rows(legs, id)
}

/// Writes the entries of a transaction anew: the old ones go, the new ones come.
pub fn replace_legs(rows: Vec<LedgerRow>, holding_tx_id: i64, legs: Vec<CashLeg>) -> (r: Vec<LedgerRow>)
    ensures
        row_views(r@) == resettled(row_views(rows@), holding_tx_id, leg_views(legs@)),
{
    let ghost all = row_views(rows@);
    let ghost keep = |row: (LegView, Option<i64>)| row.1 != Some(holding_tx_id);
    let mut out: Vec<LedgerRow> = Vec::new();
    assert(row_views(out@) =~= all.take(0).filter(keep)) by {
        reveal(Seq::filter);
    }
    for row in it: rows
        invariant
            it.seq() == rows@,
            all == row_views(rows@),
            keep == (|row: (LegView, Option<i64>)| row.1 != Some(holding_tx_id)),
            row_views(out@) == all.take(it.index() as int).filter(keep),
    {
        let ghost n = it.index() as int;
        let ghost before = row_views(out@);
        let ghost this = (row.leg@, row.holding_tx_id);
        proof {
            assert(all.take(n + 1) =~= all.take(n).push(this));
            crate::settings::lemma_filter_push(all.take(n), this, keep);
        }
        let owned = match row.holding_tx_id {
            Some(id) => id == holding_tx_id,
            None => false,
        };
        if !owned {
            out.push(row);
            assert(row_views(out@) =~= before.push(this));
        }
    }
    assert(all.take(all.len() as int) =~= all);
    let ghost kept = row_views(out@);
    let ghost new = leg_views(legs@);
    assert(owned_rows(new, holding_tx_id).take(0) =~= Seq::<(LegView, Option<i64>)>::empty());
    assert(row_views(out@) =~= kept + owned_rows(new, holding_tx_id).take(0));
    for leg in it: legs
        invariant
            it.seq() == legs@,
            new == leg_views(legs@),
            row_views(out@) == kept + owned_rows(new, holding_tx_id).take(it.index() as int),
    {
        let ghost n = it.index() as int;
        let ghost before = row_views(out@);
        let ghost this = (leg@, Some(holding_tx_id));
        out.push(LedgerRow { leg, holding_tx_id: Some(holding_tx_id) });
        proof {
            assert(row_views(out@) =~= before.push(this));
            assert(owned_rows(new, holding_tx_id)[n] == this);
            assert(before.push(this) =~= kept + owned_rows(new, holding_tx_id).take(n + 1));
        }
    }
    assert(owned_rows(new, holding_tx_id).take(new.len() as int) =~= owned_rows(
        new,
        holding_tx_id,
    ));
    out
}

// ---------------------------------------------------------------------------
// Laws
// ---------------------------------------------------------------------------

/// Writing the entries anew twice is writing them once: saving a transaction
/// again never pays it twice.
pub proof fn settling_again_changes_nothing(
    rows: Seq<(LegView, Option<i64>)>,
    id: i64,
    legs: Seq<LegView>,
)
    ensures
        resettled(resettled(rows, id, legs), id, legs) == resettled(rows, id, legs),
{
    let keep = |row: (LegView, Option<i64>)| row.1 != Some(id);
    let kept = rows.filter(keep);
    let own = owned_rows(legs, id);
    lemma_filter_drops_all(own, keep);
    lemma_filter_keeps_all(rows, keep);
    lemma_filter_joined(kept, own, keep);
    assert(without_legs(kept + own, id) =~= kept);
}

/// Entries of other transactions and those made by hand stay as they are.
pub proof fn settling_touches_no_other_entry(
    rows: Seq<(LegView, Option<i64>)>,
    id: i64,
    legs: Seq<LegView>,
    other: Option<i64>,
)
    requires
        other != Some(id),
    ensures
        resettled(rows, id, legs).filter(|row: (LegView, Option<i64>)| row.1 == other)
            == rows.filter(|row: (LegView, Option<i64>)| row.1 == other),
{
    let keep = |row: (LegView, Option<i64>)| row.1 != Some(id);
    let mine = |row: (LegView, Option<i64>)| row.1 == other;
    let own = owned_rows(legs, id);
    lemma_filter_joined(rows.filter(keep), own, mine);
    lemma_filter_drops_all(own, mine);
    lemma_filter_twice(rows, keep, mine);
    assert(resettled(rows, id, legs).filter(mine) =~= rows.filter(mine));
}

/// Without an account nothing is written, and what was written before is taken
/// back: detaching the account withdraws the trade from the ledger.
pub proof fn a_trade_without_an_account_leaves_no_entry<
    F: Fn(Formula) -> Number,
    R: Fn(Number, Decimals) -> String,
>(
    calc: F,
    render: R,
    t: StoredTrade,
    account: Option<Seq<char>>,
    payment_date: Option<Seq<char>>,
    pct: Option<Number>,
)
    requires
        t.cash_account_id is None,
    ensures
        settled_legs(calc, render, t, account, payment_date, pct) == Ok::<
            Seq<LegView>,
            Seq<char>,
        >(seq![]),
{
}

/// A trade settles in at most one entry, a dividend in at most two.
pub proof fn at_most_two_entries<F: Fn(Formula) -> Number, R: Fn(Number, Decimals) -> String>(
    calc: F,
    render: R,
    t: StoredTrade,
    account: Option<Seq<char>>,
    payment_date: Option<Seq<char>>,
    pct: Option<Number>,
)
    ensures
        settled_legs(calc, render, t, account, payment_date, pct) matches Ok(legs) ==> legs.len()
            <= 2 && (t.transaction_type@ != "dividend"@ ==> legs.len() <= 1),
{
}

/// The brokerage of a trade in the currency of the account, as a value: what is
/// recorded, which is in the base currency, or that over the trade's rate.
pub open spec fn brokerage_value(r: Reading, t: StoredTrade, account: Seq<char>) -> real {
    match t.brokerage {
        None => 0 as real,
        Some(b) => if account == "AUD"@ {
            r.of(b)
        } else {
            r.of(b) / r.of(t.fx_rate->0)
        },
    }
}

/// Whether the brokerage can be expressed in the currency of the account without
/// rounding.
pub open spec fn brokerage_is_plain(r: Reading, t: StoredTrade, account: Seq<char>) -> bool {
    &&& t.brokerage is Some ==> r.is_plain(t.brokerage->0)
    &&& t.brokerage is Some && account != "AUD"@ ==> t.fx_rate is Some && r.is_plain(t.fx_rate->0)
        && r.of(t.fx_rate->0) != 0 as real
    &&& r.can(brokerage_value(r, t, account))
}

proof fn lemma_brokerage<F: Fn(Formula) -> Number>(
    calc: F,
    r: Reading,
    t: StoredTrade,
    account: Seq<char>,
    how: Settlement,
)
    requires
        is_exact(calc, r),
        brokerage_is_plain(r, t, account),
        how == Settlement::Native <==> account != "AUD"@,
    ensures
        settled_brokerage(calc, t, how) is Some,
        r.of(settled_brokerage(calc, t, how)->0) == brokerage_value(r, t, account),
        r.is_plain(settled_brokerage(calc, t, how)->0),
{
    reveal_with_fuel(exact, 4);
    reveal_with_fuel(unrounded, 4);
    if t.brokerage is Some && account != "AUD"@ {
        lemma_sign(calc, r, t.fx_rate->0);
        lemma_exact(calc, r, quotient(num(t.brokerage->0), num(t.fx_rate->0)));
    }
}

/// A purchase takes its shares times their price and the brokerage off the
/// account, and a sale puts its shares times their price less the brokerage on
/// it, on the day of the trade. Against an account of the base currency the price
/// in that currency counts; against one of the trade's own currency, the price
/// in that one, and the brokerage over the rate.
pub proof fn a_trade_moves_its_price_and_its_brokerage<
    F: Fn(Formula) -> Number,
    R: Fn(Number, Decimals) -> String,
>(
    calc: F,
    render: R,
    r: Reading,
    t: StoredTrade,
    id: i64,
    account: Seq<char>,
    payment_date: Option<Seq<char>>,
    pct: Option<Number>,
    unit: Number,
)
    requires
        is_exact(calc, r),
        t.cash_account_id == Some(id),
        t.transaction_type@ == "purchase"@ || t.transaction_type@ == "sale"@,
        account == "AUD"@ || (t.currency is Some && t.currency->0@ == account),
        t.quantity is Some,
        Some(unit) == (if account == "AUD"@ {
            t.price
        } else {
            t.original_price
        }),
        r.is_plain(t.quantity->0) && r.is_plain(unit),
        brokerage_is_plain(r, t, account),
        r.can(r.of(t.quantity->0) * r.of(unit)),
        r.can(r.of(t.quantity->0) * r.of(unit) + brokerage_value(r, t, account)),
        r.can(0 as real - (r.of(t.quantity->0) * r.of(unit) + brokerage_value(r, t, account))),
        r.can(r.of(t.quantity->0) * r.of(unit) - brokerage_value(r, t, account)),
    ensures
        settled_legs(calc, render, t, Some(account), payment_date, pct) matches Ok(legs) && {
            let traded = r.of(t.quantity->0) * r.of(unit);
            &&& legs.len() == 1
            &&& legs[0].account_id == id
            &&& legs[0].date == t.date@
            &&& t.transaction_type@ == "purchase"@ ==> legs[0].kind == "trade_buy"@ && r.of(
                legs[0].amount,
            ) == 0 as real - traded - brokerage_value(r, t, account)
            &&& t.transaction_type@ == "sale"@ ==> legs[0].kind == "trade_sell"@ && r.of(
                legs[0].amount,
            ) == traded - brokerage_value(r, t, account)
        },
{
    reveal_with_fuel(exact, 5);
    reveal_with_fuel(unrounded, 5);
    reveal_strlit("purchase");
    reveal_strlit("sale");
    reveal_strlit("dividend");
    assert("purchase"@[0] == 'p' && "sale"@[0] == 's' && "dividend"@[0] == 'd');
    let how = settlement(trade_currency(t), account)->0;
    lemma_brokerage(calc, r, t, account, how);
    let b = settled_brokerage(calc, t, how)->0;
    lemma_exact(calc, r, product(num(t.quantity->0), num(unit)));
    let g = worth(calc, product(num(t.quantity->0), num(unit)));
    lemma_exact(calc, r, opposite(sum(num(g), num(b))));
    lemma_exact(calc, r, difference(num(g), num(b)));
}

/// What a dividend pays out before brokerage, in the currency of the account, as
/// a value. Against an account of the base currency it is the total recorded,
/// or else the shares times the payment of each in that currency. Against one
/// of its own currency it is the shares times the payment of each in that one,
/// or else the former over the rate.
pub open spec fn payout_value(r: Reading, t: StoredTrade, account: Seq<char>) -> Option<real> {
    let total = match t.amount {
        Some(a) => Some(r.of(a)),
        None => if t.quantity is Some && t.price is Some {
            Some(r.of(t.quantity->0) * r.of(t.price->0))
        } else {
            None
        },
    };
    if account == "AUD"@ {
        total
    } else if t.quantity is Some && t.original_price is Some {
        Some(r.of(t.quantity->0) * r.of(t.original_price->0))
    } else if total is Some && t.fx_rate is Some && r.of(t.fx_rate->0) != 0 as real {
        Some(total->0 / r.of(t.fx_rate->0))
    } else {
        None
    }
}

/// Whether the numbers of a dividend have values, and their products can be held.
pub open spec fn payout_is_plain(r: Reading, t: StoredTrade) -> bool {
    &&& t.quantity is Some ==> r.is_plain(t.quantity->0)
    &&& t.price is Some ==> r.is_plain(t.price->0)
    &&& t.original_price is Some ==> r.is_plain(t.original_price->0)
    &&& t.fx_rate is Some ==> r.is_plain(t.fx_rate->0)
    &&& t.amount is Some ==> r.is_plain(t.amount->0)
    &&& t.quantity is Some && t.price is Some ==> r.can(
        r.of(t.quantity->0) * r.of(t.price->0),
    )
}

/// A dividend puts what it pays out less the brokerage on the account, in the
/// account's currency, on the day it is paid, or the day it is recorded under
/// where the day of payment is not known.
pub proof fn a_dividend_brings_in_what_it_pays_out<
    F: Fn(Formula) -> Number,
    R: Fn(Number, Decimals) -> String,
>(
    calc: F,
    render: R,
    r: Reading,
    t: StoredTrade,
    id: i64,
    account: Seq<char>,
    payment_date: Option<Seq<char>>,
    pct: Option<Number>,
)
    requires
        is_exact(calc, r),
        t.cash_account_id == Some(id),
        t.transaction_type@ == "dividend"@,
        account == "AUD"@ || (t.currency is Some && t.currency->0@ == account),
        brokerage_is_plain(r, t, account),
        payout_is_plain(r, t),
        payout_value(r, t, account) is Some,
        r.can(payout_value(r, t, account)->0),
        r.can(payout_value(r, t, account)->0 - brokerage_value(r, t, account)),
    ensures
        settled_legs(calc, render, t, Some(account), payment_date, pct) matches Ok(legs) && {
            &&& legs.len() >= 1
            &&& legs[0].account_id == id
            &&& legs[0].kind == "dividend"@
            &&& payment_date is Some ==> legs[0].date == payment_date->0
            &&& payment_date is None ==> legs[0].date == t.date@
            &&& r.of(legs[0].amount) == payout_value(r, t, account)->0 - brokerage_value(
                r,
                t,
                account,
            )
        },
{
    reveal_with_fuel(exact, 5);
    reveal_with_fuel(unrounded, 5);
    reveal_strlit("purchase");
    reveal_strlit("sale");
    reveal_strlit("dividend");
    assert("purchase"@[0] == 'p' && "sale"@[0] == 's' && "dividend"@[0] == 'd');
    let how = settlement(trade_currency(t), account)->0;
    lemma_brokerage(calc, r, t, account, how);
    let b = settled_brokerage(calc, t, how)->0;
    if t.quantity is Some && t.price is Some {
        lemma_exact(calc, r, product(num(t.quantity->0), num(t.price->0)));
    }
    if t.fx_rate is Some {
        lemma_sign(calc, r, t.fx_rate->0);
    }
    let total = if t.amount is Some {
        t.amount
    } else {
        times(calc, t.quantity, t.price)
    };
    if account != "AUD"@ {
        if t.quantity is Some && t.original_price is Some {
            lemma_exact(calc, r, product(num(t.quantity->0), num(t.original_price->0)));
        } else {
            lemma_exact(calc, r, quotient(num(total->0), num(t.fx_rate->0)));
        }
    }
    let g = gross(calc, t, how)->0;
    lemma_exact(calc, r, difference(num(g), num(b)));
}

/// The entry of a dividend on an account of its own foreign currency does not
/// depend on its price or total in the base currency, where its shares and the
/// native payment of each are known.
pub proof fn a_native_dividend_ignores_the_base_currency<
    F: Fn(Formula) -> Number,
    R: Fn(Number, Decimals) -> String,
>(
    calc: F,
    render: R,
    t: StoredTrade,
    other: StoredTrade,
    account: Seq<char>,
    payment_date: Option<Seq<char>>,
    pct: Option<Number>,
)
    requires
        t.transaction_type@ == "dividend"@,
        t.quantity is Some,
        t.original_price is Some,
        account != "AUD"@,
        other == (StoredTrade { price: other.price, amount: other.amount, ..t }),
    ensures
        settled_legs(calc, render, other, Some(account), payment_date, pct) == settled_legs(
            calc,
            render,
            t,
            Some(account),
            payment_date,
            pct,
        ),
{
}

/// A trade settles against an account of its own currency or of the base
/// currency and no other; one of no currency is of the base currency.
pub proof fn a_trade_settles_in_its_own_or_the_base_currency<
    F: Fn(Formula) -> Number,
    R: Fn(Number, Decimals) -> String,
>(
    calc: F,
    render: R,
    t: StoredTrade,
    id: i64,
    account: Option<Seq<char>>,
    payment_date: Option<Seq<char>>,
    pct: Option<Number>,
)
    requires
        t.cash_account_id == Some(id),
    ensures
        account is None ==> settled_legs(calc, render, t, account, payment_date, pct) is Err,
        account is Some && account->0 != "AUD"@ && (t.currency is None || t.currency->0@
            != account->0) ==> settled_legs(calc, render, t, account, payment_date, pct) == Err::<
            Seq<LegView>,
            Seq<char>,
        >(
            t.symbol@ + " trade settles in "@ + (match t.currency {
                Some(c) => c@,
                None => "AUD"@,
            }) + " but the chosen cash account is "@ + account->0
                + ". Convert the funds first, then settle from an account in the trade's currency."@,
        ),
        account is Some && account->0 == "AUD"@ ==> settled_legs(
            calc,
            render,
            t,
            account,
            payment_date,
            pct,
        ) is Ok,
        account is Some && account->0 != "AUD"@ && t.currency is Some && t.currency->0@
            == account->0 ==> (settled_legs(calc, render, t, account, payment_date, pct) is Err
            <==> t.brokerage is Some && (t.fx_rate is None || t.fx_rate->0.equals(
            Number { bits: 0 },
        ))),
{
}

/// The tax withheld is an entry of its own, a fee taken off the account on the
/// day of the dividend: the amount recorded with the payment, to the cent, and no
/// other where it is at least half a cent. It never changes the dividend's entry.
pub proof fn the_tax_recorded_is_taken_off<
    F: Fn(Formula) -> Number,
    R: Fn(Number, Decimals) -> String,
>(
    calc: F,
    render: R,
    r: Reading,
    t: StoredTrade,
    id: i64,
    account: Seq<char>,
    payment_date: Option<Seq<char>>,
    pct: Option<Number>,
)
    requires
        is_exact(calc, r),
        t.cash_account_id == Some(id),
        t.transaction_type@ == "dividend"@,
        account == "AUD"@ || (t.currency is Some && t.currency->0@ == account),
        brokerage_is_plain(r, t, account),
        payout_is_plain(r, t),
        payout_value(r, t, account) is Some,
        r.can(payout_value(r, t, account)->0),
        r.can(payout_value(r, t, account)->0 - brokerage_value(r, t, account)),
        t.withholding_amount is Some,
        r.is_plain(t.withholding_amount->0),
        r.of(t.withholding_amount->0) >= 1 as real,
        r.is_plain(number(HALF_CENT_BITS)),
        r.of(number(HALF_CENT_BITS)) <= 1 as real / 2 as real,
        ({
            let hundredfold = r.of(t.withholding_amount->0) * 100 as real;
            let cents = r.round(hundredfold);
            &&& r.can(hundredfold)
            &&& r.can(cents)
            &&& r.can(cents / 100 as real)
            &&& r.can(0 as real - cents / 100 as real)
        }),
    ensures
        settled_legs(calc, render, t, Some(account), payment_date, pct) matches Ok(legs) && {
            &&& legs.len() == 2
            &&& legs[1].kind == "fee"@
            &&& legs[1].account_id == id
            &&& legs[1].date == legs[0].date
            &&& legs[1].notes == "tax withheld on "@ + t.symbol@ + " dividend"@
            &&& r.of(legs[1].amount) == 0 as real - r.round(
                r.of(t.withholding_amount->0) * 100 as real,
            ) / 100 as real
        },
{
    reveal_with_fuel(exact, 6);
    reveal_with_fuel(unrounded, 6);
    a_dividend_brings_in_what_it_pays_out(
        calc,
        render,
        r,
        t,
        id,
        account,
        payment_date,
        pct,
    );
    let a = t.withholding_amount->0;
    lemma_sign(calc, r, a);
    lemma_exact(calc, r, to_cents(num(a)));
    let w = worth(calc, to_cents(num(a)));
    lemma_sign(calc, r, w);
    lemma_exact(calc, r, opposite(num(w)));
    assert(r.round(r.of(a) * 100 as real) >= 99 as real);
    assert(r.of(w) >= 1 as real / 2 as real);
    assert(w.absolute() == w);
    assert(!w.below(number(HALF_CENT_BITS)));
}

/// Without an amount withheld and without a rate there is no entry but the
/// dividend's; and a rate never taxes a trade.
pub proof fn nothing_is_withheld_unasked<
    F: Fn(Formula) -> Number,
    R: Fn(Number, Decimals) -> String,
>(
    calc: F,
    render: R,
    t: StoredTrade,
    account: Option<Seq<char>>,
    payment_date: Option<Seq<char>>,
    pct: Option<Number>,
)
    requires
        t.withholding_amount is None || !t.withholding_amount->0.positive(),
        pct is None || !pct->0.positive(),
    ensures
        settled_legs(calc, render, t, account, payment_date, pct) matches Ok(legs) ==> legs.len()
            <= 1,
{
}

/// The note of an entry names the transaction and the symbol; one that the broker
/// converted also states the native amount and the rate.
pub proof fn an_entry_says_what_it_is_for<
    F: Fn(Formula) -> Number,
    R: Fn(Number, Decimals) -> String,
>(
    calc: F,
    render: R,
    t: StoredTrade,
    account: Seq<char>,
    payment_date: Option<Seq<char>>,
    pct: Option<Number>,
    native: Number,
)
    requires
        t.quantity is Some && t.original_price is Some,
        native == worth(
            calc,
            Formula::Product(
                Box::new(Formula::Value(t.quantity->0)),
                Box::new(Formula::Value(t.original_price->0)),
            ),
        ),
    ensures
        settled_legs(calc, render, t, Some(account), payment_date, pct) matches Ok(legs) ==> legs.len()
            > 0 ==> {
            let foreign = t.currency is Some && t.currency->0@ != "AUD"@;
            &&& !(foreign && account == "AUD"@ && t.fx_rate is Some) ==> legs[0].notes
                == t.transaction_type@ + " "@ + t.symbol@
            &&& foreign && account == "AUD"@ && t.fx_rate is Some ==> legs[0].notes
                == t.transaction_type@ + " "@ + t.symbol@ + " — "@ + t.currency->0@ + " "@
                + written(render, native, Decimals::Fixed(2)) + " at "@ + written(
                render,
                t.fx_rate->0,
                Decimals::Fixed(4),
            )
        },
{
}

/// By the rate of the symbol, the tax is what the net leaves of the dividend, to
/// the cent. The net is the dividend less so many per cent of it, to the cent.
pub proof fn the_tax_by_rate_is_what_the_net_leaves<
    F: Fn(Formula) -> Number,
    R: Fn(Number, Decimals) -> String,
>(calc: F, render: R, r: Reading, t: StoredTrade, amount: Number, pct: Number)
    requires
        is_exact(calc, r),
        t.withholding_amount is None || !t.withholding_amount->0.positive(),
        r.is_plain(amount) && r.is_plain(pct),
        r.of(pct) > 0 as real,
        ({
            let share = r.of(pct) / 100 as real;
            let kept = r.of(amount) * (1 as real - share);
            let net = r.round(kept * 100 as real) / 100 as real;
            let rest = r.of(amount) - net;
            &&& r.can(share)
            &&& r.can(1 as real - share)
            &&& r.can(kept)
            &&& r.can(kept * 100 as real)
            &&& r.can(r.round(kept * 100 as real))
            &&& r.can(net)
            &&& r.can(rest)
            &&& r.can(rest * 100 as real)
            &&& r.can(r.round(rest * 100 as real))
            &&& r.can(r.round(rest * 100 as real) / 100 as real)
        }),
    ensures
        ({
            let kept = r.of(amount) * (1 as real - r.of(pct) / 100 as real);
            let net = r.round(kept * 100 as real) / 100 as real;
            &&& withheld(calc, render, t, amount, Some(pct)) is Some
            &&& r.of((withheld(calc, render, t, amount, Some(pct))->0).0) == r.round(
                (r.of(amount) - net) * 100 as real,
            ) / 100 as real
        }),
{
    reveal_with_fuel(exact, 8);
    reveal_with_fuel(unrounded, 8);
    lemma_sign(calc, r, pct);
    let inner = product(
        num(amount),
        difference(num(number(ONE_BITS)), quotient(num(pct), num(number(HUNDRED_BITS)))),
    );
    lemma_exact(calc, r, to_cents(inner));
    let net = worth(calc, to_cents(inner));
    lemma_exact(calc, r, to_cents(difference(num(amount), num(net))));
}

proof fn lemma_filter_keeps_all<T>(s: Seq<T>, keep: spec_fn(T) -> bool)
    ensures
        s.filter(keep).filter(keep) == s.filter(keep),
    decreases s.len(),
{
    reveal(Seq::filter);
    if s.len() > 0 {
        lemma_filter_keeps_all(s.drop_last(), keep);
        if keep(s.last()) {
            crate::settings::lemma_filter_push(s.drop_last().filter(keep), s.last(), keep);
        }
    }
}

proof fn lemma_filter_drops_all<T>(s: Seq<T>, keep: spec_fn(T) -> bool)
    requires
        forall|i: int| 0 <= i < s.len() ==> !keep(#[trigger] s[i]),
    ensures
        s.filter(keep).len() == 0,
    decreases s.len(),
{
    reveal(Seq::filter);
    if s.len() > 0 {
        assert(!keep(s[s.len() - 1]));
        assert forall|i: int| 0 <= i < s.drop_last().len() implies !keep(
            #[trigger] s.drop_last()[i],
        ) by {
            assert(!keep(s[i]));
        }
        lemma_filter_drops_all(s.drop_last(), keep);
    }
}

proof fn lemma_filter_joined<T>(a: Seq<T>, b: Seq<T>, keep: spec_fn(T) -> bool)
    ensures
        (a + b).filter(keep) == a.filter(keep) + b.filter(keep),
    decreases b.len(),
{
    reveal(Seq::filter);
    if b.len() == 0 {
        assert(a + b =~= a);
        assert(a.filter(keep) + b.filter(keep) =~= a.filter(keep));
    } else {
        assert((a + b).drop_last() =~= a + b.drop_last());
        lemma_filter_joined(a, b.drop_last(), keep);
        assert((a + b).last() == b.last());
        assert(a.filter(keep) + b.filter(keep) =~= (if keep(b.last()) {
            (a.filter(keep) + b.drop_last().filter(keep)).push(b.last())
        } else {
            a.filter(keep) + b.drop_last().filter(keep)
        }));
    }
}

proof fn lemma_filter_twice<T>(s: Seq<T>, keep: spec_fn(T) -> bool, mine: spec_fn(T) -> bool)
    requires
        forall|x: T| #[trigger] mine(x) ==> keep(x),
    ensures
        s.filter(keep).filter(mine) == s.filter(mine),
    decreases s.len(),
{
    reveal(Seq::filter);
    if s.len() > 0 {
        lemma_filter_twice(s.drop_last(), keep, mine);
        if keep(s.last()) {
            crate::settings::lemma_filter_push(s.drop_last().filter(keep), s.last(), mine);
        }
    }
}


/// Settles a transaction: the entries written for it go, and those that it makes
/// now come. Where it cannot settle, none come and the reason is given beside
/// the ledger: an entry of the transaction as it was before would be wrong.
/// `trade` is the transaction as it is stored, where it still is.
pub fn sync_trade_cash_leg<F: Fn(Formula) -> Number, R: Fn(Number, Decimals) -> String>(
    rows: Vec<LedgerRow>,
    holding_tx_id: i64,
    trade: Option<&StoredTrade>,
    account_currency: Option<&str>,
    payment_date: Option<&str>,
    withholding_pct: Option<Number>,
    calc: &F,
    render: &R,
) -> (r: (Vec<LedgerRow>, Result<(), String>))
    requires
        is_calculator(*calc),
        is_renderer(*render),
    ensures
        match trade {
            None => r.1 is Ok && row_views(r.0@) == resettled(
                row_views(rows@),
                holding_tx_id,
                seq![],
            ),
            Some(t) => match settled_legs(
                *calc,
                *render,
                *t,
                option_slice_view(account_currency),
                option_slice_view(payment_date),
                withholding_pct,
            ) {
                Ok(legs) => r.1 is Ok && row_views(r.0@) == resettled(
                    row_views(rows@),
                    holding_tx_id,
                    legs,
                ),
                Err(e) => r.1 is Err && (r.1)->Err_0@ == e && row_views(r.0@) == resettled(
                    row_views(rows@),
                    holding_tx_id,
                    seq![],
                ),
            },
        },
{
    let none: Vec<CashLeg> = Vec::new();
    assert(leg_views(none@) =~= seq![]);
    match trade {
        None => (replace_legs(rows, holding_tx_id, none), Ok(())),
        Some(t) => match trade_cash_legs(
            t,
            account_currency,
            payment_date,
            withholding_pct,
            calc,
            render,
        ) {
            Ok(legs) => (replace_legs(rows, holding_tx_id, legs), Ok(())),
            Err(e) => (replace_legs(rows, holding_tx_id, none), Err(e)),
        },
    }
}

/// The tax withheld from a dividend is an entry of its own where it is at least
/// half a cent: a fee of that much, taken off on the day of the dividend. A trade
/// has no such entry, and without tax there is none.
pub proof fn the_tax_is_an_entry_of_its_own<
    F: Fn(Formula) -> Number,
    R: Fn(Number, Decimals) -> String,
>(
    calc: F,
    render: R,
    t: StoredTrade,
    account_id: i64,
    how: Settlement,
    brokerage: Number,
    payment_date: Option<Seq<char>>,
    pct: Option<Number>,
)
    ensures
        ({
            let legs = legs_of(
                calc,
                render,
                t,
                account_id,
                how,
                brokerage,
                payment_date,
                pct,
            );
            let tax = withheld(calc, render, t, legs[0].amount, pct);
            let taken = t.transaction_type@ == "dividend"@ && tax is Some && Number {
                bits: 0x3F74_7AE1_47AE_147B,
            }.at_most((tax->0).0.absolute());
            &&& legs.len() > 0 ==> (legs.len() == 2 <==> taken)
            &&& legs.len() == 2 ==> legs[1].kind == "fee"@ && legs[1].account_id == account_id
                && legs[1].date == legs[0].date && legs[1].notes == (tax->0).1 && legs[1].amount
                == worth(calc, Formula::Opposite(Box::new(Formula::Value((tax->0).0))))
        }),
{
}

/// The amount recorded with a payment counts before the rate of the symbol; a rate
/// counts where it is positive, and without either nothing is withheld.
pub proof fn what_is_withheld<F: Fn(Formula) -> Number, R: Fn(Number, Decimals) -> String>(
    calc: F,
    render: R,
    t: StoredTrade,
    amount: Number,
    pct: Option<Number>,
)
    ensures
        ({
            let recorded = t.withholding_amount is Some && t.withholding_amount->0.positive();
            let by_rate = pct is Some && pct->0.positive();
            &&& withheld(calc, render, t, amount, pct) is Some <==> recorded || by_rate
            &&& recorded ==> (withheld(calc, render, t, amount, pct)->0).1 == "tax withheld on "@
                + t.symbol@ + " dividend"@
            &&& !recorded && by_rate ==> (withheld(calc, render, t, amount, pct)->0).1
                == "withholding tax "@ + written(render, pct->0, Decimals::Shortest) + "% on "@
                + t.symbol@ + " dividend"@
        }),
{
}

/// A trade without an account moves no cash. One with an account is refused where
/// the account is unknown, or where it is to be settled in a foreign currency that
/// its brokerage cannot be expressed in.
pub proof fn which_trades_cannot_be_settled<
    F: Fn(Formula) -> Number,
    R: Fn(Number, Decimals) -> String,
>(
    calc: F,
    render: R,
    t: StoredTrade,
    account: Option<Seq<char>>,
    payment_date: Option<Seq<char>>,
    pct: Option<Number>,
)
    ensures
        ({
            let legs = settled_legs(calc, render, t, account, payment_date, pct);
            &&& t.cash_account_id is None ==> legs == Ok::<Seq<LegView>, Seq<char>>(seq![])
            &&& t.cash_account_id is Some && account is None ==> legs == Err::<
                Seq<LegView>,
                Seq<char>,
            >(no_account(t.cash_account_id->0 as int))
            &&& t.cash_account_id is Some && account == Some(trade_currency(t))
                && trade_currency(t) != "AUD"@ && settled_brokerage(calc, t, Settlement::Native) is None ==> legs == Err::<
                Seq<LegView>,
                Seq<char>,
            >(
                t.symbol@
                    + " trade has brokerage but no exchange rate, so the fee cannot be expressed in "@
                    + trade_currency(t),
            )
        }),
{
}

} // verus!
