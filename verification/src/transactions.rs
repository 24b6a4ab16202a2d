//! Purchases, sales and dividends as users enter them.
use vstd::prelude::*;
use crate::dates::{date_number, date_text, format_day, option_day, parse_day, MAX_DAY, MIN_DAY};
use crate::exact::{exact, is_exact, lemma_exact, unrounded, Reading};
use crate::fields::change_views;
use crate::number::{
    evaluate, is_calculator, is_renderer, num, number, product, sum, worth, write_number, written,
    Decimals, Formula, Number, ZERO_BITS,
};
use crate::reply::{bad_request, refused, unprocessable, Reason, Refusal};
use crate::settle::StoredTrade;
use crate::text::{joined, joined3, joined5, option_view, same};

verus! {

broadcast use vstd::string::group_string_axioms;

/// The bits of the shares by which a sale may exceed what is held, a billionth.
pub const SHARE_TOLERANCE_BITS: u64 = 0x3E11_2E0B_E826_D695;

/// A transaction as it is sent.
#[derive(Debug)]
pub struct NewHoldingTransaction {
    pub transaction_type: String,
    pub date: String,
    pub quantity: Option<Number>,
    /// In the base currency.
    pub price: Option<Number>,
    /// The total of a dividend.
    pub amount: Option<Number>,
    pub brokerage: Option<Number>,
    pub notes: Option<String>,
    pub currency: Option<String>,
    /// In the transaction's own currency.
    pub original_price: Option<Number>,
    pub fx_rate: Option<Number>,
    pub cash_account_id: Option<i64>,
    pub withholding_amount: Option<Number>,
    /// Whether a sale of more shares than are held is meant.
    pub confirm: Option<bool>,
}

/// The currency of a transaction.
pub open spec fn sent_currency(p: NewHoldingTransaction) -> Seq<char> {
    match p.currency {
        Some(c) => c@,
        None => "AUD"@,
    }
}

fn currency_of(p: &NewHoldingTransaction) -> (r: &str)
    ensures
        r@ == sent_currency(*p),
{
    match &p.currency {
        Some(c) => c.as_str(),
        None => "AUD",
    }
}

// ---------------------------------------------------------------------------
// The price of a foreign transaction
// ---------------------------------------------------------------------------

/// Whether the price of a transaction has to be worked out: it is a foreign one
/// and only its native price is sent.
pub open spec fn needs_rate(p: NewHoldingTransaction) -> bool {
    sent_currency(p) != "AUD"@ && p.price is None
}

/// What is wrong with a transaction whose price has to be worked out, where
/// something is. `day` is what its date names.
pub open spec fn rate_request_error(p: NewHoldingTransaction, day: Option<int>) -> Option<Seq<char>> {
    if p.original_price is None {
        Some("original_price is required for foreign-currency transactions"@)
    } else if day is None {
        Some("Invalid date format. Use YYYY-MM-DD."@)
    } else {
        None
    }
}

/// The day whose rate a transaction needs; none where its price is sent.
pub open spec fn rate_day(p: NewHoldingTransaction, day: Option<int>) -> Result<
    Option<int>,
    (Reason, Seq<char>),
> {
    if !needs_rate(p) {
        Ok(None)
    } else {
        match rate_request_error(p, day) {
            Some(e) => Err((Reason::BadRequest, e)),
            None => Ok(day),
        }
    }
}

/// The view of a day or a refusal.
pub open spec fn day_or_refusal(r: Result<Option<i32>, Refusal>) -> Result<
    Option<int>,
    (Reason, Seq<char>),
> {
    match r {
        Ok(d) => Ok(option_day(d)),
        Err(e) => Err(e@),
    }
}

/// The day whose rate a transaction with a date of that day needs.
pub fn judge_rate_day(payload: &NewHoldingTransaction, day: Option<i32>) -> (r: Result<
    Option<i32>,
    Refusal,
>)
    ensures
        day_or_refusal(r) == rate_day(*payload, option_day(day)),
{
    if same(currency_of(payload), "AUD") || payload.price.is_some() {
        return Ok(None);
    }
    if payload.original_price.is_none() {
        return Err(
            bad_request("original_price is required for foreign-currency transactions"),
        );
    }
    if day.is_none() {
        return Err(bad_request("Invalid date format. Use YYYY-MM-DD."));
    }
    Ok(day)
}

/// The day whose rate a transaction needs; none where its price is sent.
pub fn needed_rate_day(payload: &NewHoldingTransaction) -> (r: Result<Option<i32>, Refusal>)
    ensures
        day_or_refusal(r) == rate_day(*payload, date_number(payload.date@)),
{
    judge_rate_day(payload, parse_day(payload.date.as_str()))
}

/// The transaction once its rate is known: its price is the native one at that
/// rate.
pub open spec fn priced<F: Fn(Formula) -> Number>(
    calc: F,
    p: NewHoldingTransaction,
    rate: Number,
) -> NewHoldingTransaction {
    NewHoldingTransaction {
        fx_rate: Some(rate),
        price: Some(worth(calc, product(num(p.original_price->0), num(rate)))),
        ..p
    }
}

/// Prices a transaction by its rate, so that no client has to work it out.
pub fn apply_rate<F: Fn(Formula) -> Number>(
    payload: NewHoldingTransaction,
    rate: Number,
    calc: &F,
) -> (r: NewHoldingTransaction)
    requires
        is_calculator(*calc),
        payload.original_price is Some,
    ensures
        r == priced(*calc, payload, rate),
{
    let mut out = payload;
    match out.original_price {
        Some(native) => {
            out.fx_rate = Some(rate);
            out.price = Some(evaluate(calc, Formula::of(native).times(Formula::of(rate))));
        },
        None => {},
    }
    out
}

/// What is said where the rate cannot be had.
pub fn no_rate(payload: &NewHoldingTransaction, error: &str) -> (r: Refusal)
    ensures
        r@ == (
            Reason::Unprocessable,
            "No "@ + sent_currency(*payload) + "/AUD exchange rate available for "@ + payload.date@
                + ": "@ + error@,
        ),
{
    let head = joined5(
        "No ",
        currency_of(payload),
        "/AUD exchange rate available for ",
        payload.date.as_str(),
        ": ",
    );
    unprocessable(joined(head.as_str(), error).as_str())
}

// ---------------------------------------------------------------------------
// Selling more than is held
// ---------------------------------------------------------------------------

/// Whether a sale exceeds what is held and is not confirmed.
pub open spec fn oversells<F: Fn(Formula) -> Number>(
    calc: F,
    p: NewHoldingTransaction,
    held: Number,
) -> bool {
    &&& p.transaction_type@ == "sale"@
    &&& p.confirm != Some(true)
    &&& p.quantity is Some
    &&& worth(calc, sum(num(held), num(number(SHARE_TOLERANCE_BITS)))).below(p.quantity->0)
}

/// What is said of such a sale.
pub open spec fn oversell_text<R: Fn(Number, Decimals) -> String>(
    render: R,
    quantity: Number,
    held: Number,
    symbol: Seq<char>,
) -> Seq<char> {
    "Selling "@ + written(render, quantity, Decimals::Shortest) + " shares but only "@ + written(
        render,
        held,
        Decimals::Fixed(2),
    ) + " held for "@ + symbol + ". Re-submit with confirm=true to record anyway."@
}

/// Refuses a sale of more shares than are held, unless it is confirmed.
pub fn check_oversell<F: Fn(Formula) -> Number, R: Fn(Number, Decimals) -> String>(
    payload: &NewHoldingTransaction,
    symbol: &str,
    held: Number,
    calc: &F,
    render: &R,
) -> (r: Result<(), Refusal>)
    requires
        is_calculator(*calc),
        is_renderer(*render),
    ensures
        match r {
            Ok(_) => !oversells(*calc, *payload, held),
            Err(e) => oversells(*calc, *payload, held) && e@ == (
                Reason::OversellUnconfirmed,
                oversell_text(*render, payload.quantity->0, held, symbol@),
            ),
        },
{
    let confirmed = match payload.confirm {
        Some(b) => b,
        None => false,
    };
    if confirmed || !same(payload.transaction_type.as_str(), "sale") {
        return Ok(());
    }
    match payload.quantity {
        None => Ok(()),
        Some(q) => {
            let limit = evaluate(
                calc,
                Formula::of(held).plus(Formula::of_bits(SHARE_TOLERANCE_BITS)),
            );
            if limit.less_than(q) {
                let wanted = write_number(render, q, Decimals::Shortest);
                let have = write_number(render, held, Decimals::Fixed(2));
                let head = joined5(
                    "Selling ",
                    wanted.as_str(),
                    " shares but only ",
                    have.as_str(),
                    " held for ",
                );
                let message = joined3(
                    head.as_str(),
                    symbol,
                    ". Re-submit with confirm=true to record anyway.",
                );
                Err(Refusal { reason: Reason::OversellUnconfirmed, message })
            } else {
                Ok(())
            }
        },
    }
}

// ---------------------------------------------------------------------------
// Recording
// ---------------------------------------------------------------------------

/// Whether a figure is missing, zero or under zero.
pub open spec fn not_above_zero(n: Option<Number>) -> bool {
    match n {
        Some(v) => v.at_most(number(ZERO_BITS)),
        None => true,
    }
}

fn is_not_above_zero(n: Option<Number>) -> (r: bool)
    ensures
        r == not_above_zero(n),
{
    match n {
        Some(v) => v.no_more_than(Number { bits: ZERO_BITS }),
        None => true,
    }
}

/// What is wrong with a transaction, where something is. `day` is what its date
/// names.
pub open spec fn transaction_error(p: NewHoldingTransaction, day: Option<int>) -> Option<Seq<char>> {
    if day is None {
        Some("Invalid date format. Use YYYY-MM-DD."@)
    } else if p.transaction_type@ == "purchase"@ || p.transaction_type@ == "sale"@ {
        if not_above_zero(p.quantity) {
            Some("Quantity must be greater than zero for purchases and sales"@)
        } else if not_above_zero(p.price) {
            Some("Price must be greater than zero for purchases and sales"@)
        } else {
            None
        }
    } else if p.transaction_type@ == "dividend"@ {
        if not_above_zero(p.amount) {
            Some("Amount must be greater than zero for dividends"@)
        } else {
            None
        }
    } else {
        Some("Transaction type must be purchase, sale, or dividend"@)
    }
}

/// The transaction as it is stored: its date as the calendar writes it, in the
/// base currency where nothing else is said. An edit that does not mention the
/// tax withheld keeps `withheld`.
pub open spec fn is_stored_as(
    t: StoredTrade,
    p: NewHoldingTransaction,
    symbol: Seq<char>,
    date: Seq<char>,
    withheld: Option<Number>,
) -> bool {
    &&& t.symbol@ == symbol
    &&& t.transaction_type@ == p.transaction_type@
    &&& t.date@ == date
    &&& t.quantity == p.quantity
    &&& t.price == p.price
    &&& t.amount == p.amount
    &&& t.brokerage == p.brokerage
    &&& option_view(t.currency) == Some(sent_currency(p))
    &&& t.original_price == p.original_price
    &&& t.fx_rate == p.fx_rate
    &&& t.cash_account_id == p.cash_account_id
    &&& t.withholding_amount == (if p.withholding_amount is Some {
        p.withholding_amount
    } else {
        withheld
    })
    &&& option_view(t.notes) == option_view(p.notes)
}

/// The verdict on a transaction whose date names `day`: what is stored, or what
/// is wrong.
pub fn judge_transaction(
    symbol: &str,
    payload: &NewHoldingTransaction,
    day: Option<i32>,
    withheld: Option<Number>,
) -> (r: Result<StoredTrade, String>)
    requires
        day is Some ==> MIN_DAY <= day->0 <= MAX_DAY,
    ensures
        match r {
            Ok(t) => transaction_error(*payload, option_day(day)) is None && is_stored_as(
                t,
                *payload,
                symbol@,
                date_text(day->0 as int)->0,
                withheld,
            ),
            Err(e) => transaction_error(*payload, option_day(day)) == Some(e@),
        },
{
    let d = match day {
        None => return Err("Invalid date format. Use YYYY-MM-DD.".to_owned()),
        Some(d) => d,
    };
    let kind = payload.transaction_type.as_str();
    if same(kind, "purchase") || same(kind, "sale") {
        if is_not_above_zero(payload.quantity) {
            return Err(
                "Quantity must be greater than zero for purchases and sales".to_owned(),
            );
        }
        if is_not_above_zero(payload.price) {
            return Err("Price must be greater than zero for purchases and sales".to_owned());
        }
    } else if same(kind, "dividend") {
        if is_not_above_zero(payload.amount) {
            return Err("Amount must be greater than zero for dividends".to_owned());
        }
    } else {
        return Err("Transaction type must be purchase, sale, or dividend".to_owned());
    }
    let date = match format_day(d) {
        Some(t) => t,
        None => return Err("Invalid date format. Use YYYY-MM-DD.".to_owned()),
    };
    Ok(
        StoredTrade {
            cash_account_id: payload.cash_account_id,
            transaction_type: payload.transaction_type.clone(),
            date,
            symbol: symbol.to_owned(),
            quantity: payload.quantity,
            price: payload.price,
            original_price: payload.original_price,
            fx_rate: payload.fx_rate,
            brokerage: payload.brokerage,
            amount: payload.amount,
            currency: Some(currency_of(payload).to_owned()),
            withholding_amount: match payload.withholding_amount {
                Some(w) => Some(w),
                None => withheld,
            },
            notes: match &payload.notes {
                Some(n) => Some(n.clone()),
                None => None,
            },
        },
    )
}

/// A new transaction as it is stored, or what is wrong with it.
pub fn insert_holding_transaction(symbol: &str, payload: &NewHoldingTransaction) -> (r: Result<
    StoredTrade,
    String,
>)
    ensures
        match r {
            Ok(t) => transaction_error(*payload, date_number(payload.date@)) is None
                && is_stored_as(
                t,
                *payload,
                symbol@,
                date_text(date_number(payload.date@)->0)->0,
                None,
            ),
            Err(e) => transaction_error(*payload, date_number(payload.date@)) == Some(e@),
        },
{
    judge_transaction(symbol, payload, parse_day(payload.date.as_str()), None)
}

/// A changed transaction as it is stored, or what is wrong with it. `withheld`
/// is the tax withheld that is stored so far.
pub fn modify_holding_transaction(
    symbol: &str,
    payload: &NewHoldingTransaction,
    withheld: Option<Number>,
) -> (r: Result<StoredTrade, String>)
    ensures
        match r {
            Ok(t) => transaction_error(*payload, date_number(payload.date@)) is None
                && is_stored_as(
                t,
                *payload,
                symbol@,
                date_text(date_number(payload.date@)->0)->0,
                withheld,
            ),
            Err(e) => transaction_error(*payload, date_number(payload.date@)) == Some(e@),
        },
{
    judge_transaction(symbol, payload, parse_day(payload.date.as_str()), withheld)
}

/// The fields of a transaction that are kept with it: those with a value.
pub open spec fn filled(fields: Seq<(Seq<char>, Seq<char>)>) -> Seq<(Seq<char>, Seq<char>)> {
    fields.filter(|f: (Seq<char>, Seq<char>)| f.1.len() > 0)
}

/// The fields of a transaction that are kept with it: those with a value.
pub fn filled_fields(fields: &Vec<(String, String)>) -> (r: Vec<(String, String)>)
    ensures
        change_views(r@) == filled(change_views(fields@)),
{
    let ghost all = change_views(fields@);
    let ghost keep = |f: (Seq<char>, Seq<char>)| f.1.len() > 0;
    let mut out: Vec<(String, String)> = Vec::new();
    let mut i: usize = 0;
    assert(change_views(out@) =~= all.take(0).filter(keep)) by {
        reveal(Seq::filter);
    }
    while i < fields.len()
        invariant
            i <= fields.len(),
            all == change_views(fields@),
            keep == (|f: (Seq<char>, Seq<char>)| f.1.len() > 0),
            change_views(out@) == all.take(i as int).filter(keep),
        decreases fields.len() - i,
    {
        let ghost before = change_views(out@);
        let ghost this = (fields@[i as int].0@, fields@[i as int].1@);
        proof {
            assert(all.take(i + 1) =~= all.take(i as int).push(this));
            crate::settings::lemma_filter_push(all.take(i as int), this, keep);
        }
        if !fields[i].1.as_str().is_empty() {
            out.push((fields[i].0.clone(), fields[i].1.clone()));
            assert(change_views(out@) =~= before.push(this));
        }
        i += 1;
    }
    assert(all.take(fields.len() as int) =~= all);
    out
}

/// Whether deleting a transaction declines a reported dividend: it is a dividend
/// and such a dividend was reported for its day. The next refresh would
/// otherwise record it again.
pub fn deletion_declines(transaction_type: &str, was_reported: bool) -> (r: bool)
    ensures
        r == (transaction_type@ == "dividend"@ && was_reported),
{
    same(transaction_type, "dividend") && was_reported
}

// ---------------------------------------------------------------------------
// Laws
// ---------------------------------------------------------------------------

/// A sale is never refused for its size once it is confirmed.
pub proof fn a_confirmed_sale_is_never_refused<F: Fn(Formula) -> Number>(
    calc: F,
    p: NewHoldingTransaction,
    held: Number,
)
    requires
        p.confirm == Some(true),
    ensures
        !oversells(calc, p, held),
{
}

/// Whatever is stored has a quantity and a price above zero, or is a dividend
/// with an amount above zero.
pub proof fn only_sound_transactions_are_stored(p: NewHoldingTransaction, day: Option<int>)
    requires
        transaction_error(p, day) is None,
    ensures
        day is Some,
        p.transaction_type@ == "dividend"@ && !not_above_zero(p.amount) || (
        p.transaction_type@ == "purchase"@ || p.transaction_type@ == "sale"@) && !not_above_zero(
            p.quantity,
        ) && !not_above_zero(p.price),
{
}

/// A transaction that names no account leaves no entry in the cash ledger.
pub proof fn an_unattached_transaction_moves_no_cash<
    F: Fn(Formula) -> Number,
    R: Fn(Number, Decimals) -> String,
>(
    calc: F,
    render: R,
    t: StoredTrade,
    p: NewHoldingTransaction,
    symbol: Seq<char>,
    date: Seq<char>,
    withheld: Option<Number>,
    account: Option<Seq<char>>,
    payment_date: Option<Seq<char>>,
    pct: Option<Number>,
)
    requires
        is_stored_as(t, p, symbol, date, withheld),
        p.cash_account_id is None,
    ensures
        crate::settle::settled_legs(calc, render, t, account, payment_date, pct) == Ok::<
            Seq<crate::settle::LegView>,
            Seq<char>,
        >(seq![]),
{
}

/// The price of a foreign transaction in the base currency is its own price times
/// the rate, which is kept with it; nothing else of it changes.
pub proof fn a_foreign_price_is_multiplied_by_the_rate<F: Fn(Formula) -> Number>(
    calc: F,
    r: Reading,
    p: NewHoldingTransaction,
    rate: Number,
)
    requires
        is_exact(calc, r),
        p.original_price is Some,
        r.is_plain(p.original_price->0) && r.is_plain(rate),
        r.can(r.of(p.original_price->0) * r.of(rate)),
    ensures
        ({
            let priced = priced(calc, p, rate);
            &&& priced.price is Some && r.of(priced.price->0) == r.of(p.original_price->0) * r.of(
                rate,
            )
            &&& priced.fx_rate == Some(rate)
            &&& priced == (NewHoldingTransaction {
                price: priced.price,
                fx_rate: priced.fx_rate,
                ..p
            })
        }),
{
    reveal_with_fuel(exact, 4);
    reveal_with_fuel(unrounded, 4);
    lemma_exact(calc, r, product(num(p.original_price->0), num(rate)));
}

/// A sale is held up exactly where it is not confirmed and is of more shares than
/// are held, by more than a billionth. A purchase and a dividend never are.
pub proof fn a_sale_of_more_than_is_held_is_held_up<F: Fn(Formula) -> Number>(
    calc: F,
    r: Reading,
    p: NewHoldingTransaction,
    held: Number,
    tolerance: Number,
)
    requires
        is_exact(calc, r),
        tolerance == number(0x3E11_2E0B_E826_D695),
        r.is_plain(held) && r.is_plain(tolerance),
        p.quantity is Some ==> r.is_plain(p.quantity->0),
        r.can(r.of(held) + r.of(tolerance)),
    ensures
        oversells(calc, p, held) <==> p.transaction_type@ == "sale"@ && p.confirm != Some(true)
            && p.quantity is Some && r.of(p.quantity->0) > r.of(held) + r.of(tolerance),
{
    reveal_with_fuel(exact, 4);
    reveal_with_fuel(unrounded, 4);
    let f = sum(num(held), num(tolerance));
    lemma_exact(calc, r, f);
    if p.quantity is Some {
        assert(worth(calc, f).below(p.quantity->0) <==> r.of(worth(calc, f)) < r.of(
            p.quantity->0,
        ));
    }
}

/// A purchase or a sale is stored exactly where it has a day, a quantity and a
/// price, both above zero; a dividend where it has a day and an amount above
/// zero; nothing of another kind is. Each fault has its own answer.
pub proof fn what_a_transaction_needs(p: NewHoldingTransaction, day: Option<int>)
    ensures
        ({
            let trade = p.transaction_type@ == "purchase"@ || p.transaction_type@ == "sale"@;
            let dividend = p.transaction_type@ == "dividend"@;
            let quantity = p.quantity is Some && !p.quantity->0.at_most(number(0));
            let price = p.price is Some && !p.price->0.at_most(number(0));
            let amount = p.amount is Some && !p.amount->0.at_most(number(0));
            let error = transaction_error(p, day);
            &&& error is None <==> day is Some && (trade && quantity && price || dividend && amount)
            &&& day is None ==> error == Some("Invalid date format. Use YYYY-MM-DD."@)
            &&& day is Some && trade && !quantity ==> error == Some(
                "Quantity must be greater than zero for purchases and sales"@,
            )
            &&& day is Some && trade && quantity && !price ==> error == Some(
                "Price must be greater than zero for purchases and sales"@,
            )
            &&& day is Some && dividend && !amount ==> error == Some(
                "Amount must be greater than zero for dividends"@,
            )
            &&& day is Some && !trade && !dividend ==> error == Some(
                "Transaction type must be purchase, sale, or dividend"@,
            )
        }),
{
    reveal_strlit("purchase");
    reveal_strlit("sale");
    reveal_strlit("dividend");
    assert("purchase"@[0] == 'p' && "sale"@[0] == 's' && "dividend"@[0] == 'd');
}

/// A rate is asked for exactly where a transaction names another currency than the
/// base and no price; it then needs its own price and a day.
pub proof fn a_rate_is_needed_for_a_foreign_price(p: NewHoldingTransaction, day: Option<int>)
    ensures
        ({
            let foreign = p.currency is Some && p.currency->0@ != "AUD"@;
            &&& !foreign || p.price is Some ==> rate_day(p, day) == Ok::<
                Option<int>,
                (Reason, Seq<char>),
            >(None)
            &&& foreign && p.price is None && p.original_price is Some && day is Some ==> rate_day(
                p,
                day,
            ) == Ok::<Option<int>, (Reason, Seq<char>)>(day)
            &&& foreign && p.price is None && p.original_price is None ==> rate_day(p, day) == Err::<
                Option<int>,
                (Reason, Seq<char>),
            >(
                (
                    Reason::BadRequest,
                    "original_price is required for foreign-currency transactions"@,
                ),
            )
            &&& foreign && p.price is None && p.original_price is Some && day is None ==> rate_day(
                p,
                day,
            ) == Err::<Option<int>, (Reason, Seq<char>)>(
                (Reason::BadRequest, "Invalid date format. Use YYYY-MM-DD."@),
            )
        }),
{
}

/// A transaction is stored as it was sent: no figure of it changes. Its currency
/// is the base one where none was sent, and the tax withheld before stays where
/// none was.
pub proof fn a_transaction_is_stored_as_sent(
    t: StoredTrade,
    p: NewHoldingTransaction,
    symbol: Seq<char>,
    date: Seq<char>,
    withheld: Option<Number>,
)
    requires
        is_stored_as(t, p, symbol, date, withheld),
    ensures
        t.symbol@ == symbol && t.date@ == date && t.transaction_type@ == p.transaction_type@,
        t.quantity == p.quantity && t.price == p.price && t.amount == p.amount,
        t.brokerage == p.brokerage && t.original_price == p.original_price,
        t.fx_rate == p.fx_rate && t.cash_account_id == p.cash_account_id,
        p.currency is Some ==> t.currency is Some && t.currency->0@ == p.currency->0@,
        p.currency is None ==> t.currency is Some && t.currency->0@ == "AUD"@,
        p.withholding_amount is Some ==> t.withholding_amount == p.withholding_amount,
        p.withholding_amount is None ==> t.withholding_amount == withheld,
        p.notes is Some ==> t.notes is Some && t.notes->0@ == p.notes->0@,
        p.notes is None ==> t.notes is None,
{
}

/// What is filled in counts, in the order sent, and what is left empty does not.
pub proof fn what_is_left_empty_does_not_count(
    fields: Seq<(Seq<char>, Seq<char>)>,
    f: (Seq<char>, Seq<char>),
)
    ensures
        f.1.len() > 0 ==> filled(fields.push(f)) == filled(fields).push(f),
        f.1.len() == 0 ==> filled(fields.push(f)) == filled(fields),
        filled(Seq::empty()) == Seq::<(Seq<char>, Seq<char>)>::empty(),
{
    reveal(Seq::filter);
    assert(fields.push(f).drop_last() =~= fields);
}

} // verus!
