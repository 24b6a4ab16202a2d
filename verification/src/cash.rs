//! The cash ledger: what may be entered, and what trades and dividends settle.
use vstd::prelude::*;
use crate::dates::{date_number, date_text, format_day, option_day, parse_day};
use crate::exact::{exact, is_exact, lemma_exact, unrounded, Reading};
use crate::fields::DayClose;
use crate::number::{
    evaluate, is_calculator, num, number, opposite, product, quotient, sum, worth, written, Formula,
    Number, ZERO_BITS,
};
use crate::rates::{fx_rate_on, rate_as_of};
use crate::reply::{bad_request, not_found, refused, Reason, Refusal};
use crate::text::{
    decimal, decimal_text, is_blank, join, join_text, joined, joined3, joined5, one_of,
    option_slice_view, option_view, same, to_upper, trim_text, trimmed, upper_case, views,
};

verus! {

broadcast use vstd::string::group_string_axioms;

// ---------------------------------------------------------------------------
// Kinds of entries
// ---------------------------------------------------------------------------

/// The kinds of cash entries. Deposits and withdrawals come from outside the
/// portfolio; an opening balance is what the first return is measured from;
/// dividends, interest and fees are its return; trades and conversions only move
/// value within it.
pub open spec fn cash_kinds_text() -> Seq<Seq<char>> {
    seq![
        "deposit"@,
        "withdrawal"@,
        "opening_balance"@,
        "dividend"@,
        "interest"@,
        "fee"@,
        "trade_buy"@,
        "trade_sell"@,
        "fx_out"@,
        "fx_in"@,
        "adjustment"@,
    ]
}

/// The kinds of cash entries.
pub fn cash_tx_kinds() -> (r: Vec<&'static str>)
    ensures
        views(r@) == cash_kinds_text(),
{
    let r = vec![
        "deposit",
        "withdrawal",
        "opening_balance",
        "dividend",
        "interest",
        "fee",
        "trade_buy",
        "trade_sell",
        "fx_out",
        "fx_in",
        "adjustment",
    ];
    assert(views(r@) =~= cash_kinds_text());
    r
}

/// Whether there is such a kind.
pub fn is_valid_cash_tx_kind(kind: &str) -> (r: bool)
    ensures
        r == cash_kinds_text().contains(kind@),
{
    let kinds = cash_tx_kinds();
    one_of(kind, kinds.as_slice())
}

/// Whether entries of that kind only ever come from a trade.
pub open spec fn trade_owned_kind(kind: Seq<char>) -> bool {
    kind == "trade_buy"@ || kind == "trade_sell"@
}

/// Whether entries of that kind only ever come from a trade, so that none may
/// be entered by hand. A dividend may be.
pub fn is_trade_owned_kind(kind: &str) -> (r: bool)
    ensures
        r == trade_owned_kind(kind@),
{
    same(kind, "trade_buy") || same(kind, "trade_sell")
}

/// Whether an entry was written for a transaction. Such an entry is written
/// anew whenever the transaction is saved, which would undo any change to it.
/// It is the link that tells: a dividend entered by hand has none.
pub fn is_transaction_owned(holding_tx_id: Option<i64>) -> (r: bool)
    ensures
        r == holding_tx_id is Some,
{
    holding_tx_id.is_some()
}

/// The number `n` in decimal, with its sign.
pub open spec fn signed_text(n: int) -> Seq<char> {
    if n < 0 {
        "-"@ + decimal_text((-n) as nat)
    } else {
        decimal_text(n as nat)
    }
}

/// The number `n` in decimal, with its sign.
pub fn signed(n: i64) -> (r: String)
    ensures
        r@ == signed_text(n as int),
{
    if n >= 0 {
        decimal(n as u64)
    } else if n == i64::MIN {
        joined("-", decimal(9_223_372_036_854_775_808).as_str())
    } else {
        joined("-", decimal((-n) as u64).as_str())
    }
}

/// What is said of an account that is not there.
pub open spec fn no_account(id: int) -> Seq<char> {
    "Cash account "@ + signed_text(id) + " not found"@
}

/// What is said of an account that is not there.
pub fn account_not_found(id: i64) -> (r: String)
    ensures
        r@ == no_account(id as int),
{
    joined3("Cash account ", signed(id).as_str(), " not found")
}

// ---------------------------------------------------------------------------
// Entering by hand
// ---------------------------------------------------------------------------

/// A cash entry as it is sent.
#[derive(Debug)]
pub struct CashTxPayload {
    pub account_id: i64,
    pub date: String,
    pub amount: Number,
    pub kind: String,
    pub notes: Option<String>,
}

/// The verdict on a cash entry, given the day its date names and the currency
/// of its account: the currency, or what is wrong.
pub open spec fn cash_tx_verdict(
    p: CashTxPayload,
    day: Option<int>,
    currency: Option<Seq<char>>,
) -> Result<Seq<char>, Seq<char>> {
    if !cash_kinds_text().contains(p.kind@) {
        Err(
            "Unknown kind '"@ + p.kind@ + "'. Valid kinds: "@ + join_text(
                cash_kinds_text(),
                ", "@,
            ),
        )
    } else if trade_owned_kind(p.kind@) {
        Err(
            "'"@ + p.kind@
                + "' entries are created from the trade that settles them, not entered directly"@,
        )
    } else if day is None {
        Err("Invalid date format. Use YYYY-MM-DD."@)
    } else if !p.amount.is_finite() || p.amount.equals(number(ZERO_BITS)) {
        Err("Amount must be a non-zero number"@)
    } else {
        match currency {
            Some(c) => Ok(c),
            None => Err(no_account(p.account_id as int)),
        }
    }
}

/// The view of a verdict with a text.
pub open spec fn text_verdict(r: Result<String, String>) -> Result<Seq<char>, Seq<char>> {
    match r {
        Ok(s) => Ok(s@),
        Err(e) => Err(e@),
    }
}

/// The verdict on a cash entry whose date names `day`.
pub fn judge_cash_tx(payload: &CashTxPayload, day: Option<i32>, account_currency: Option<&str>) -> (r:
    Result<String, String>)
    ensures
        text_verdict(r) == cash_tx_verdict(
            *payload,
            option_day(day),
            option_slice_view(account_currency),
        ),
{
    let kind = payload.kind.as_str();
    if !is_valid_cash_tx_kind(kind) {
        let kinds = cash_tx_kinds();
        let all = join(kinds.as_slice(), ", ");
        let head = joined3("Unknown kind '", kind, "'. Valid kinds: ");
        return Err(joined(head.as_str(), all.as_str()));
    }
    if is_trade_owned_kind(kind) {
        return Err(
            joined3(
                "'",
                kind,
                "' entries are created from the trade that settles them, not entered directly",
            ),
        );
    }
    if day.is_none() {
        return Err("Invalid date format. Use YYYY-MM-DD.".to_owned());
    }
    if !payload.amount.finite() || payload.amount.same_value(Number { bits: ZERO_BITS }) {
        return Err("Amount must be a non-zero number".to_owned());
    }
    match account_currency {
        Some(c) => Ok(c.to_owned()),
        None => Err(account_not_found(payload.account_id)),
    }
}

/// The date of an entry as it is stored: the day it names, as the calendar
/// writes it. Dates are compared as text, so that they have to be of one form.
pub open spec fn stored_date(date: Seq<char>) -> Option<Seq<char>> {
    match date_number(date) {
        Some(n) => date_text(n),
        None => None,
    }
}

/// The date of an entry or a transfer as it is stored; nothing where it names no
/// day.
pub fn date_to_store(date: &str) -> (r: Option<String>)
    ensures
        option_view(r) == stored_date(date@),
        r is Some <==> date_number(date@) is Some,
{
    match parse_day(date) {
        Some(n) => format_day(n),
        None => None,
    }
}

/// Whether a cash entry may be made by hand: the currency of its account, or
/// what is wrong. `account_currency` is there where the account is.
pub fn validate_cash_tx(payload: &CashTxPayload, account_currency: Option<&str>) -> (r: Result<
    String,
    String,
>)
    ensures
        text_verdict(r) == cash_tx_verdict(
            *payload,
            date_number(payload.date@),
            option_slice_view(account_currency),
        ),
{
    judge_cash_tx(payload, parse_day(payload.date.as_str()), account_currency)
}

/// What of a stored entry decides whether it may be changed.
#[derive(Debug)]
pub struct CashTxOwner {
    pub transfer_group_id: Option<String>,
    pub holding_tx_id: Option<i64>,
}

/// What is said of an entry that is not there.
pub open spec fn no_cash_tx(id: int) -> Seq<char> {
    "Cash transaction "@ + signed_text(id) + " not found"@
}

fn cash_tx_not_found(id: i64) -> (r: Refusal)
    ensures
        r@ == (Reason::NotFound, no_cash_tx(id as int)),
{
    not_found(joined3("Cash transaction ", signed(id).as_str(), " not found").as_str())
}

/// Whether a stored entry may be changed by hand. One that belongs to a
/// transaction may not, and no leg of a transfer alone: that would make money
/// in one currency and destroy it in another.
pub open spec fn edit_verdict(id: int, owner: Option<CashTxOwner>) -> Result<
    (),
    (Reason, Seq<char>),
> {
    match owner {
        None => Err((Reason::NotFound, no_cash_tx(id))),
        Some(o) => if o.holding_tx_id is Some {
            Err(
                (
                    Reason::BadRequest,
                    "This entry belongs to a transaction — edit the transaction instead"@,
                ),
            )
        } else if o.transfer_group_id is Some {
            Err(
                (
                    Reason::BadRequest,
                    "This is one leg of a transfer between accounts — delete it and record the transfer again"@,
                ),
            )
        } else {
            Ok(())
        },
    }
}

/// Whether a stored entry may be changed by hand.
pub fn check_cash_edit(id: i64, owner: Option<&CashTxOwner>) -> (r: Result<(), Refusal>)
    ensures
        refused(r) == edit_verdict(id as int, crate::context::deref(owner)),
{
    match owner {
        None => Err(cash_tx_not_found(id)),
        Some(o) => if is_transaction_owned(o.holding_tx_id) {
            Err(
                bad_request(
                    "This entry belongs to a transaction — edit the transaction instead",
                ),
            )
        } else if o.transfer_group_id.is_some() {
            Err(
                bad_request(
                    "This is one leg of a transfer between accounts — delete it and record the transfer again",
                ),
            )
        } else {
            Ok(())
        },
    }
}

/// What a change by hand comes to: refused for the entry's owner, then for what
/// is sent.
pub open spec fn update_verdict(
    id: int,
    owner: Option<CashTxOwner>,
    p: CashTxPayload,
    day: Option<int>,
    currency: Option<Seq<char>>,
) -> Result<(), (Reason, Seq<char>)> {
    match edit_verdict(id, owner) {
        Err(e) => Err(e),
        Ok(_) => match cash_tx_verdict(p, day, currency) {
            Err(e) => Err((Reason::BadRequest, e)),
            Ok(_) => Ok(()),
        },
    }
}

/// Whether a stored entry may be replaced by the one that is sent.
pub fn update_cash_transaction(
    id: i64,
    owner: Option<&CashTxOwner>,
    payload: &CashTxPayload,
    account_currency: Option<&str>,
) -> (r: Result<(), Refusal>)
    ensures
        refused(r) == update_verdict(
            id as int,
            crate::context::deref(owner),
            *payload,
            date_number(payload.date@),
            option_slice_view(account_currency),
        ),
{
    match check_cash_edit(id, owner) {
        Err(e) => Err(e),
        Ok(_) => match validate_cash_tx(payload, account_currency) {
            Err(e) => Err(bad_request(e.as_str())),
            Ok(_) => Ok(()),
        },
    }
}

/// Which entries a deletion takes.
#[derive(Debug)]
pub enum Deletion {
    /// The entry alone.
    One,
    /// All legs of the transfer.
    Group(String),
}

/// Which entries a deletion takes, or why it is refused.
pub open spec fn deletion_verdict(id: int, owner: Option<CashTxOwner>) -> Result<
    Option<Seq<char>>,
    (Reason, Seq<char>),
> {
    match owner {
        None => Err((Reason::NotFound, no_cash_tx(id))),
        Some(o) => if o.holding_tx_id is Some {
            Err(
                (
                    Reason::BadRequest,
                    "This entry belongs to a transaction — delete the transaction instead"@,
                ),
            )
        } else {
            Ok(option_view(o.transfer_group_id))
        },
    }
}

/// Which entries a deletion takes: both legs of a transfer go together.
pub fn delete_cash_transaction(id: i64, owner: Option<&CashTxOwner>) -> (r: Result<Deletion, Refusal>)
    ensures
        match r {
            Ok(Deletion::One) => deletion_verdict(id as int, crate::context::deref(owner)) == Ok::<
                Option<Seq<char>>,
                (Reason, Seq<char>),
            >(None),
            Ok(Deletion::Group(g)) => deletion_verdict(id as int, crate::context::deref(owner))
                == Ok::<Option<Seq<char>>, (Reason, Seq<char>)>(Some(g@)),
            Err(e) => deletion_verdict(id as int, crate::context::deref(owner)) == Err::<
                Option<Seq<char>>,
                (Reason, Seq<char>),
            >(e@),
        },
{
    match owner {
        None => Err(cash_tx_not_found(id)),
        Some(o) => if is_transaction_owned(o.holding_tx_id) {
            Err(
                bad_request(
                    "This entry belongs to a transaction — delete the transaction instead",
                ),
            )
        } else {
            match &o.transfer_group_id {
                Some(g) => Ok(Deletion::Group(g.clone())),
                None => Ok(Deletion::One),
            }
        },
    }
}


// ---------------------------------------------------------------------------
// Accounts
// ---------------------------------------------------------------------------

/// A cash account as it is sent.
#[derive(Debug)]
pub struct CashAccountPayload {
    pub name: String,
    pub currency: String,
    pub interest_rate: Option<Number>,
    pub include_in_portfolio: Option<bool>,
    pub notes: Option<String>,
}

/// A cash account as it is stored.
#[derive(Debug)]
pub struct CashAccountEntry {
    pub name: String,
    pub currency: String,
    pub interest_rate: Option<Number>,
    pub include_in_portfolio: bool,
    pub notes: Option<String>,
}

/// Whether `e` is the account that `p` asks for: trimmed, its currency in upper
/// case, part of the portfolio unless it says otherwise.
pub open spec fn is_account_of(e: CashAccountEntry, p: CashAccountPayload) -> bool {
    &&& e.name@ == trim_text(p.name@)
    &&& e.currency@ == upper_case(trim_text(p.currency@))
    &&& e.interest_rate == p.interest_rate
    &&& e.include_in_portfolio == (match p.include_in_portfolio {
        Some(b) => b,
        None => true,
    })
    &&& option_view(e.notes) == option_view(p.notes)
}

fn entry_of(p: &CashAccountPayload) -> (r: CashAccountEntry)
    ensures
        is_account_of(r, *p),
{
    CashAccountEntry {
        name: trimmed(p.name.as_str()).to_owned(),
        currency: to_upper(trimmed(p.currency.as_str())),
        interest_rate: p.interest_rate,
        include_in_portfolio: match p.include_in_portfolio {
            Some(b) => b,
            None => true,
        },
        notes: match &p.notes {
            Some(n) => Some(n.clone()),
            None => None,
        },
    }
}

/// What is wrong with a new account, where something is.
pub open spec fn new_account_error(p: CashAccountPayload) -> Option<(Reason, Seq<char>)> {
    if is_blank(p.name@) {
        Some((Reason::BadRequest, "Account name is required"@))
    } else if vstd::utf8::encode_utf8(upper_case(trim_text(p.currency@))).len() != 3 {
        Some((Reason::BadRequest, "Currency must be a 3-letter code, e.g. AUD"@))
    } else {
        None
    }
}

/// A new account, or what is wrong with it.
pub fn add_cash_account(payload: &CashAccountPayload) -> (r: Result<CashAccountEntry, Refusal>)
    ensures
        match r {
            Ok(e) => new_account_error(*payload) is None && is_account_of(e, *payload),
            Err(e) => new_account_error(*payload) == Some(e@),
        },
{
    let entry = entry_of(payload);
    if entry.name.as_str().is_empty() {
        return Err(bad_request("Account name is required"));
    }
    if entry.currency.as_str().as_bytes().len() != 3 {
        return Err(bad_request("Currency must be a 3-letter code, e.g. AUD"));
    }
    Ok(entry)
}

/// What is wrong with a change of an account, where something is. `balance` is
/// its balance, or why that cannot be read. The currency of an account stays as
/// long as there is money in it: a change would give another meaning to every
/// amount, and a balance that cannot be read is no empty account.
pub open spec fn account_change_error(
    id: int,
    existing: Option<Seq<char>>,
    p: CashAccountPayload,
    balance: Result<Number, Seq<char>>,
) -> Option<(Reason, Seq<char>)> {
    let currency = upper_case(trim_text(p.currency@));
    match existing {
        None => Some((Reason::NotFound, no_account(id))),
        Some(old) => if currency == old {
            None
        } else {
            match balance {
                Err(e) => Some((Reason::Internal, e)),
                Ok(b) => if b.equals(number(ZERO_BITS)) {
                    None
                } else {
                    Some(
                        (
                            Reason::BadRequest,
                            "Cannot change currency from "@ + old + " to "@ + currency
                                + " while the account has a non-zero balance"@,
                        ),
                    )
                },
            }
        },
    }
}

/// The view of a number or the reason why there is none.
pub open spec fn number_or_reason(r: Result<Number, String>) -> Result<Number, Seq<char>> {
    match r {
        Ok(n) => Ok(n),
        Err(e) => Err(e@),
    }
}

/// A changed account, or what is wrong with the change.
pub fn update_cash_account(
    id: i64,
    existing_currency: Option<&str>,
    payload: &CashAccountPayload,
    balance: Result<Number, String>,
) -> (r: Result<CashAccountEntry, Refusal>)
    ensures
        match r {
            Ok(e) => account_change_error(
                id as int,
                option_slice_view(existing_currency),
                *payload,
                number_or_reason(balance),
            ) is None && is_account_of(e, *payload),
            Err(e) => account_change_error(
                id as int,
                option_slice_view(existing_currency),
                *payload,
                number_or_reason(balance),
            ) == Some(e@),
        },
{
    let old = match existing_currency {
        None => return Err(not_found(account_not_found(id).as_str())),
        Some(c) => c,
    };
    let entry = entry_of(payload);
    if same(entry.currency.as_str(), old) {
        return Ok(entry);
    }
    match balance {
        Err(e) => Err(Refusal { reason: Reason::Internal, message: e }),
        Ok(b) => if b.same_value(Number { bits: ZERO_BITS }) {
            Ok(entry)
        } else {
            let message = joined5(
                "Cannot change currency from ",
                old,
                " to ",
                entry.currency.as_str(),
                " while the account has a non-zero balance",
            );
            Err(bad_request(message.as_str()))
        },
    }
}

/// What keeps an account from being deleted, where something does. `count` is
/// the number of its entries, or why they cannot be counted. An account with
/// entries stays: they would be left without one.
pub open spec fn account_deletion_error(id: int, count: Result<i64, Seq<char>>) -> Option<
    (Reason, Seq<char>),
> {
    match count {
        Err(e) => Some(
            (
                Reason::Internal,
                "Could not check cash account "@ + signed_text(id) + " for transactions: "@ + e,
            ),
        ),
        Ok(n) => if n > 0 {
            Some(
                (
                    Reason::BadRequest,
                    "Cash account "@ + signed_text(id) + " still has "@ + signed_text(n as int)
                        + " transaction(s); delete or reassign them first"@,
                ),
            )
        } else {
            None
        },
    }
}

/// Whether an account may be deleted.
pub fn delete_cash_account(id: i64, count: Result<i64, String>) -> (r: Result<(), Refusal>)
    ensures
        match r {
            Ok(_) => account_deletion_error(
                id as int,
                match count {
                    Ok(n) => Ok(n),
                    Err(e) => Err(e@),
                },
            ) is None,
            Err(e) => account_deletion_error(
                id as int,
                match count {
                    Ok(n) => Ok(n),
                    Err(e) => Err(e@),
                },
            ) == Some(e@),
        },
{
    match count {
        Err(e) => {
            let head = joined3(
                "Could not check cash account ",
                signed(id).as_str(),
                " for transactions: ",
            );
            Err(
                Refusal {
                    reason: Reason::Internal,
                    message: joined(head.as_str(), e.as_str()),
                },
            )
        },
        Ok(n) => if n > 0 {
            let message = joined5(
                "Cash account ",
                signed(id).as_str(),
                " still has ",
                signed(n).as_str(),
                " transaction(s); delete or reassign them first",
            );
            Err(bad_request(message.as_str()))
        } else {
            Ok(())
        },
    }
}

/// An amount in the ledger.
#[derive(Debug)]
pub struct LedgerAmount {
    pub account_id: i64,
    pub date: String,
    pub amount: Number,
}

/// Whether an entry counts towards a balance, as at a day where one is given.
pub open spec fn in_balance(row: LedgerAmount, id: i64, as_of: Option<Seq<char>>) -> bool {
    row.account_id == id && (as_of matches Some(day) ==> !crate::text::text_before(day, row.date@))
}

/// The balance of an account: what its entries add up to.
pub open spec fn balance_of<F: Fn(Formula) -> Number>(
    calc: F,
    rows: Seq<LedgerAmount>,
    id: i64,
    as_of: Option<Seq<char>>,
) -> Number
    decreases rows.len(),
{
    if rows.len() == 0 {
        number(ZERO_BITS)
    } else if in_balance(rows.last(), id, as_of) {
        worth(
            calc,
            sum(num(balance_of(calc, rows.drop_last(), id, as_of)), num(rows.last().amount)),
        )
    } else {
        balance_of(calc, rows.drop_last(), id, as_of)
    }
}

/// The balance of an account in its own currency. It is never stored, so that
/// an entry of an earlier day counts at once.
pub fn cash_balance<F: Fn(Formula) -> Number>(
    rows: &Vec<LedgerAmount>,
    id: i64,
    as_of: Option<&str>,
    calc: &F,
) -> (r: Number)
    requires
        is_calculator(*calc),
    ensures
        r == balance_of(*calc, rows@, id, option_slice_view(as_of)),
{
    let mut out = Number { bits: ZERO_BITS };
    let mut i: usize = 0;
    while i < rows.len()
        invariant
            i <= rows.len(),
            is_calculator(*calc),
            out == balance_of(*calc, rows@.take(i as int), id, option_slice_view(as_of)),
        decreases rows.len() - i,
    {
        assert(rows@.take(i + 1).drop_last() =~= rows@.take(i as int));
        let row = &rows[i];
        let counted = row.account_id == id && match as_of {
            Some(day) => !crate::text::is_before(day, row.date.as_str()),
            None => true,
        };
        if counted {
            out = evaluate(calc, Formula::of(out).plus(Formula::of(row.amount)));
        }
        i += 1;
    }
    assert(rows@.take(rows.len() as int) =~= rows@);
    out
}

// ---------------------------------------------------------------------------
// Transfers
// ---------------------------------------------------------------------------

/// A transfer as it is sent: what leaves the one account and what arrives in
/// the other, each in its own currency.
#[derive(Debug)]
pub struct CashTransferPayload {
    pub from_account_id: i64,
    pub to_account_id: i64,
    pub date: String,
    pub from_amount: Number,
    pub to_amount: Number,
    pub notes: Option<String>,
}

/// What is wrong with a transfer, where something is.
pub open spec fn transfer_error(
    p: CashTransferPayload,
    day: Option<int>,
    from_exists: bool,
    to_exists: bool,
) -> Option<(Reason, Seq<char>)> {
    if p.from_account_id == p.to_account_id {
        Some((Reason::BadRequest, "Source and destination accounts must differ"@))
    } else if day is None {
        Some((Reason::BadRequest, "Invalid date format. Use YYYY-MM-DD."@))
    } else if p.from_amount.at_most(number(ZERO_BITS)) || p.to_amount.at_most(number(ZERO_BITS)) {
        Some(
            (
                Reason::BadRequest,
                "Both amounts must be positive; direction is set by the accounts"@,
            ),
        )
    } else if !from_exists {
        Some((Reason::NotFound, no_account(p.from_account_id as int)))
    } else if !to_exists {
        Some((Reason::NotFound, no_account(p.to_account_id as int)))
    } else {
        None
    }
}

/// The two legs of a transfer, written together.
#[derive(Clone, Copy, PartialEq, Eq, Structural, Debug)]
pub struct TransferLegs {
    pub from_account_id: i64,
    /// What is booked there, negative, as `fx_out`.
    pub out_amount: Number,
    pub to_account_id: i64,
    /// What is booked there, as `fx_in`.
    pub in_amount: Number,
    /// How much of the one currency one unit of the other bought.
    pub implied_rate: Number,
}

/// The two legs of a transfer.
pub open spec fn transfer_legs<F: Fn(Formula) -> Number>(
    calc: F,
    p: CashTransferPayload,
) -> TransferLegs {
    TransferLegs {
        from_account_id: p.from_account_id,
        out_amount: worth(calc, opposite(num(p.from_amount))),
        to_account_id: p.to_account_id,
        in_amount: p.to_amount,
        implied_rate: worth(calc, quotient(num(p.to_amount), num(p.from_amount))),
    }
}

/// The two legs of a transfer whose date names `day`, or what is wrong.
pub fn judge_transfer<F: Fn(Formula) -> Number>(
    payload: &CashTransferPayload,
    day: Option<i32>,
    from_exists: bool,
    to_exists: bool,
    calc: &F,
) -> (r: Result<TransferLegs, Refusal>)
    requires
        is_calculator(*calc),
    ensures
        match r {
            Ok(legs) => transfer_error(*payload, option_day(day), from_exists, to_exists) is None
                && legs == transfer_legs(*calc, *payload),
            Err(e) => transfer_error(*payload, option_day(day), from_exists, to_exists) == Some(
                e@,
            ),
        },
{
    let zero = Number { bits: ZERO_BITS };
    if payload.from_account_id == payload.to_account_id {
        return Err(bad_request("Source and destination accounts must differ"));
    }
    if day.is_none() {
        return Err(bad_request("Invalid date format. Use YYYY-MM-DD."));
    }
    if payload.from_amount.no_more_than(zero) || payload.to_amount.no_more_than(zero) {
        return Err(
            bad_request("Both amounts must be positive; direction is set by the accounts"),
        );
    }
    if !from_exists {
        return Err(not_found(account_not_found(payload.from_account_id).as_str()));
    }
    if !to_exists {
        return Err(not_found(account_not_found(payload.to_account_id).as_str()));
    }
    Ok(
        TransferLegs {
            from_account_id: payload.from_account_id,
            out_amount: evaluate(calc, Formula::of(payload.from_amount).negated()),
            to_account_id: payload.to_account_id,
            in_amount: payload.to_amount,
            implied_rate: evaluate(
                calc,
                Formula::of(payload.to_amount).over(Formula::of(payload.from_amount)),
            ),
        },
    )
}

/// The two legs of a transfer, or what is wrong with it.
pub fn add_cash_transfer<F: Fn(Formula) -> Number>(
    payload: &CashTransferPayload,
    from_exists: bool,
    to_exists: bool,
    calc: &F,
) -> (r: Result<TransferLegs, Refusal>)
    requires
        is_calculator(*calc),
    ensures
        match r {
            Ok(legs) => transfer_error(
                *payload,
                date_number(payload.date@),
                from_exists,
                to_exists,
            ) is None && legs == transfer_legs(*calc, *payload),
            Err(e) => transfer_error(
                *payload,
                date_number(payload.date@),
                from_exists,
                to_exists,
            ) == Some(e@),
        },
{
    judge_transfer(payload, parse_day(payload.date.as_str()), from_exists, to_exists, calc)
}

/// One of the two entries that a transfer is booked as.
#[derive(Debug)]
pub struct TransferEntry {
    pub account_id: i64,
    pub date: Option<String>,
    pub amount: Number,
    pub kind: String,
    /// What the two entries have in common.
    pub group: String,
    pub notes: Option<String>,
}

/// One of the two entries that a transfer is booked as.
pub struct TransferEntryView {
    pub account_id: i64,
    pub date: Option<Seq<char>>,
    pub amount: Number,
    pub kind: Seq<char>,
    pub group: Seq<char>,
    pub notes: Option<Seq<char>>,
}

impl View for TransferEntry {
    type V = TransferEntryView;

    open spec fn view(&self) -> TransferEntryView {
        TransferEntryView {
            account_id: self.account_id,
            date: option_view(self.date),
            amount: self.amount,
            kind: self.kind@,
            group: self.group@,
            notes: option_view(self.notes),
        }
    }
}

/// One entry of a transfer, of that kind.
pub open spec fn transfer_entry(
    p: CashTransferPayload,
    account_id: i64,
    amount: Number,
    kind: Seq<char>,
    group: Seq<char>,
) -> TransferEntryView {
    TransferEntryView {
        account_id,
        date: stored_date(p.date@),
        amount,
        kind,
        group,
        notes: option_view(p.notes),
    }
}

/// The two entries that a transfer is booked as: what leaves the one account,
/// and what arrives in the other.
pub open spec fn transfer_entries(p: CashTransferPayload, legs: TransferLegs, group: Seq<char>) -> (
    TransferEntryView,
    TransferEntryView,
) {
    (
        transfer_entry(p, legs.from_account_id, legs.out_amount, "fx_out"@, group),
        transfer_entry(p, legs.to_account_id, legs.in_amount, "fx_in"@, group),
    )
}

fn booked(
    payload: &CashTransferPayload,
    account_id: i64,
    amount: Number,
    kind: &str,
    group: &str,
) -> (r: TransferEntry)
    ensures
        r@ == transfer_entry(*payload, account_id, amount, kind@, group@),
{
    TransferEntry {
        account_id,
        date: date_to_store(payload.date.as_str()),
        amount,
        kind: kind.to_owned(),
        group: group.to_owned(),
        notes: match &payload.notes {
            Some(n) => Some(n.clone()),
            None => None,
        },
    }
}

/// The two entries that a transfer with these legs is booked as.
pub fn booked_transfer(payload: &CashTransferPayload, legs: &TransferLegs, group: &str) -> (r: (
    TransferEntry,
    TransferEntry,
))
    ensures
        (r.0@, r.1@) == transfer_entries(*payload, *legs, group@),
{
    (
        booked(payload, legs.from_account_id, legs.out_amount, "fx_out", group),
        booked(payload, legs.to_account_id, legs.in_amount, "fx_in", group),
    )
}

/// A transfer is booked on both sides: the sum that leaves the one account is
/// taken off it, the sum that arrives is put on the other, on one day and in one
/// group.
pub proof fn a_transfer_is_booked_on_both_sides<F: Fn(Formula) -> Number>(
    calc: F,
    p: CashTransferPayload,
    group: Seq<char>,
)
    ensures
        ({
            let booked = transfer_entries(p, transfer_legs(calc, p), group);
            &&& booked.0.account_id == p.from_account_id
            &&& booked.0.amount == worth(calc, opposite(num(p.from_amount)))
            &&& booked.1.account_id == p.to_account_id
            &&& booked.1.amount == p.to_amount
            &&& booked.0.date == booked.1.date
            &&& booked.0.group == group && booked.1.group == group
            &&& booked.0.kind == "fx_out"@ && booked.1.kind == "fx_in"@
        }),
{
}

// ---------------------------------------------------------------------------
// Listing accounts
// ---------------------------------------------------------------------------

/// What an account holds.
#[derive(Debug)]
pub struct AccountStanding {
    /// In its own currency.
    pub balance: Number,
    /// In the base currency, where a rate is on record.
    pub balance_aud: Option<Number>,
    pub transaction_count: usize,
}

/// How many entries an account has.
pub open spec fn entry_count(rows: Seq<LedgerAmount>, id: i64) -> nat
    decreases rows.len(),
{
    if rows.len() == 0 {
        0
    } else if rows.last().account_id == id {
        entry_count(rows.drop_last(), id) + 1
    } else {
        entry_count(rows.drop_last(), id)
    }
}

/// A balance in the base currency, where the rate of its own is known.
pub open spec fn base_balance<F: Fn(Formula) -> Number>(
    calc: F,
    balance: Number,
    rate: Option<Number>,
) -> Option<Number> {
    match rate {
        Some(x) => Some(worth(calc, product(num(balance), num(x)))),
        None => None,
    }
}

/// What an account holds, with its balance at the rate of the day.
pub fn account_standing<F: Fn(Formula) -> Number>(
    rows: &Vec<LedgerAmount>,
    id: i64,
    currency: &str,
    points: &Vec<DayClose>,
    today: &str,
    calc: &F,
) -> (r: AccountStanding)
    requires
        is_calculator(*calc),
    ensures
        r.balance == balance_of(*calc, rows@, id, None),
        r.balance_aud == (match rate_as_of(currency@, points@, today@) {
            Some(rate) => Some(worth(*calc, product(num(r.balance), num(rate)))),
            None => None,
        }),
        r.balance_aud == base_balance(*calc, r.balance, rate_as_of(currency@, points@, today@)),
        r.transaction_count == entry_count(rows@, id),
{
    let balance = cash_balance(rows, id, None, calc);
    let balance_aud = match fx_rate_on(currency, points, today) {
        Some(rate) => Some(evaluate(calc, Formula::of(balance).times(Formula::of(rate)))),
        None => None,
    };
    let mut count: usize = 0;
    let mut i: usize = 0;
    assert(rows@.take(0) =~= seq![]);
    while i < rows.len()
        invariant
            i <= rows.len(),
            count <= i,
            count == entry_count(rows@.take(i as int), id),
        decreases rows.len() - i,
    {
        assert(rows@.take(i + 1).drop_last() =~= rows@.take(i as int));
        if rows[i].account_id == id {
            count += 1;
        }
        i += 1;
    }
    assert(rows@.take(rows.len() as int) =~= rows@);
    AccountStanding { balance, balance_aud, transaction_count: count }
}

// ---------------------------------------------------------------------------
// Laws
// ---------------------------------------------------------------------------

/// The entries of an account on or before a day, added up; all of them without a
/// day.
pub open spec fn entered(r: Reading, rows: Seq<LedgerAmount>, id: i64, as_of: Option<Seq<char>>) -> real
    decreases rows.len(),
{
    if rows.len() == 0 {
        0 as real
    } else {
        let row = rows.last();
        entered(r, rows.drop_last(), id, as_of) + (if row.account_id == id && (as_of is None
            || !crate::text::text_before(as_of->0, row.date@)) {
            r.of(row.amount)
        } else {
            0 as real
        })
    }
}

/// The balance of an account is the sum of its own entries on or before the day.
pub proof fn a_balance_is_the_sum_of_its_entries<F: Fn(Formula) -> Number>(
    calc: F,
    r: Reading,
    rows: Seq<LedgerAmount>,
    id: i64,
    as_of: Option<Seq<char>>,
)
    requires
        is_exact(calc, r),
        forall|i: int| 0 <= i < rows.len() ==> r.is_plain((#[trigger] rows[i]).amount),
        forall|n: int|
            0 <= n <= rows.len() ==> r.can(entered(r, #[trigger] rows.take(n), id, as_of)),
    ensures
        r.of(balance_of(calc, rows, id, as_of)) == entered(r, rows, id, as_of),
        r.is_plain(balance_of(calc, rows, id, as_of)),
    decreases rows.len(),
{
    reveal_with_fuel(exact, 4);
    reveal_with_fuel(unrounded, 4);
    if rows.len() > 0 {
        let less = rows.drop_last();
        let n = less.len() as int;
        assert forall|i: int| 0 <= i < less.len() implies r.is_plain(
            (#[trigger] less[i]).amount,
        ) by {
            assert(rows[i] == less[i]);
        }
        assert forall|m: int| 0 <= m <= less.len() implies r.can(
            entered(r, #[trigger] less.take(m), id, as_of),
        ) by {
            assert(rows.take(m) =~= less.take(m));
        }
        a_balance_is_the_sum_of_its_entries(calc, r, less, id, as_of);
        assert(rows[n] == rows.last());
        assert(rows.take(n + 1) =~= rows);
        if in_balance(rows.last(), id, as_of) {
            lemma_exact(
                calc,
                r,
                sum(num(balance_of(calc, less, id, as_of)), num(rows.last().amount)),
            );
        }
    }
}

/// A transfer takes the one sum off the one account and puts the other sum on the
/// other; its rate is what one unit of the first bought of the second.
pub proof fn a_transfer_moves_both_sums<F: Fn(Formula) -> Number>(
    calc: F,
    r: Reading,
    p: CashTransferPayload,
)
    requires
        is_exact(calc, r),
        r.is_plain(p.from_amount) && r.is_plain(p.to_amount),
        r.of(p.from_amount) != 0 as real,
        r.can(0 as real - r.of(p.from_amount)),
        r.can(r.of(p.to_amount) / r.of(p.from_amount)),
    ensures
        ({
            let legs = transfer_legs(calc, p);
            &&& legs.from_account_id == p.from_account_id && legs.to_account_id == p.to_account_id
            &&& r.of(legs.out_amount) == 0 as real - r.of(p.from_amount)
            &&& legs.in_amount == p.to_amount
            &&& r.of(legs.implied_rate) == r.of(p.to_amount) / r.of(p.from_amount)
        }),
{
    reveal_with_fuel(exact, 4);
    reveal_with_fuel(unrounded, 4);
    lemma_exact(calc, r, opposite(num(p.from_amount)));
    lemma_exact(calc, r, quotient(num(p.to_amount), num(p.from_amount)));
}

/// A transfer is carried out exactly between two accounts that are there and
/// differ, on a day, of sums that are not zero or less.
pub proof fn what_a_transfer_needs(
    p: CashTransferPayload,
    day: Option<int>,
    from_exists: bool,
    to_exists: bool,
)
    ensures
        transfer_error(p, day, from_exists, to_exists) is None <==> p.from_account_id
            != p.to_account_id && day is Some && !p.from_amount.at_most(number(0))
            && !p.to_amount.at_most(number(0)) && from_exists && to_exists,
        p.from_account_id == p.to_account_id ==> transfer_error(p, day, from_exists, to_exists)
            == Some((Reason::BadRequest, "Source and destination accounts must differ"@)),
        p.from_account_id != p.to_account_id && day is Some && !p.from_amount.at_most(number(0))
            && !p.to_amount.at_most(number(0)) && !(from_exists && to_exists) ==> transfer_error(
            p,
            day,
            from_exists,
            to_exists,
        ) is Some && (transfer_error(p, day, from_exists, to_exists)->0).0 == Reason::NotFound,
{
}

/// An entry may be made by hand exactly where its kind is known and not that of a
/// trade, it has a day, its amount is a number other than zero, and its account is
/// there.
pub proof fn what_an_entry_by_hand_needs(
    p: CashTxPayload,
    day: Option<int>,
    currency: Option<Seq<char>>,
)
    ensures
        ({
            let kind = p.kind@ == "deposit"@ || p.kind@ == "withdrawal"@ || p.kind@
                == "opening_balance"@ || p.kind@ == "dividend"@ || p.kind@ == "interest"@ || p.kind@
                == "fee"@ || p.kind@ == "fx_out"@ || p.kind@ == "fx_in"@ || p.kind@
                == "adjustment"@;
            let of_trade = p.kind@ == "trade_buy"@ || p.kind@ == "trade_sell"@;
            &&& cash_tx_verdict(p, day, currency) is Ok <==> kind && !of_trade && day is Some
                && p.amount.is_finite() && !p.amount.equals(number(0)) && currency is Some
            &&& cash_tx_verdict(p, day, currency) is Ok ==> Some(
                cash_tx_verdict(p, day, currency)->Ok_0,
            ) == currency
            &&& of_trade ==> cash_tx_verdict(p, day, currency) == Err::<Seq<char>, Seq<char>>(
                "'"@ + p.kind@
                    + "' entries are created from the trade that settles them, not entered directly"@,
            )
        }),
{
    let kinds = cash_kinds_text();
    assert(kinds.len() == 11);
    assert(kinds[0] == "deposit"@ && kinds[1] == "withdrawal"@ && kinds[2] == "opening_balance"@
        && kinds[3] == "dividend"@ && kinds[4] == "interest"@ && kinds[5] == "fee"@ && kinds[6]
        == "trade_buy"@ && kinds[7] == "trade_sell"@ && kinds[8] == "fx_out"@ && kinds[9]
        == "fx_in"@ && kinds[10] == "adjustment"@);
    if kinds.contains(p.kind@) {
        let i = choose|i: int| 0 <= i < kinds.len() && kinds[i] == p.kind@;
    }
}

/// An entry of a transaction is neither edited nor deleted by hand, and a leg of a
/// transfer is not edited; deleting one deletes the whole transfer. Any other
/// entry may be.
pub proof fn who_owns_an_entry_decides(id: int, o: CashTxOwner)
    ensures
        edit_verdict(id, Some(o)) is Ok <==> o.holding_tx_id is None && o.transfer_group_id is None,
        deletion_verdict(id, Some(o)) is Ok <==> o.holding_tx_id is None,
        o.holding_tx_id is None && o.transfer_group_id is Some ==> deletion_verdict(id, Some(o))
            == Ok::<Option<Seq<char>>, (Reason, Seq<char>)>(Some(o.transfer_group_id->0@)),
        o.holding_tx_id is None && o.transfer_group_id is None ==> deletion_verdict(id, Some(o))
            == Ok::<Option<Seq<char>>, (Reason, Seq<char>)>(None),
        edit_verdict(id, None) is Err && deletion_verdict(id, None) is Err,
{
}

/// The currency of an account changes only where its balance is known and zero.
pub proof fn a_currency_changes_only_at_a_balance_of_zero(
    id: int,
    old: Seq<char>,
    p: CashAccountPayload,
    balance: Result<Number, Seq<char>>,
)
    requires
        upper_case(trim_text(p.currency@)) != old,
    ensures
        account_change_error(id, Some(old), p, balance) is None <==> balance is Ok
            && balance->Ok_0.equals(number(0)),
        balance is Err ==> account_change_error(id, Some(old), p, balance) == Some(
            (Reason::Internal, balance->Err_0),
        ),
        account_change_error(id, None, p, balance) is Some,
{
}

/// An account is deleted only where it is known to have no entry.
pub proof fn an_account_with_entries_is_kept(id: int, count: Result<i64, Seq<char>>)
    ensures
        account_deletion_error(id, count) is None <==> count is Ok && count->Ok_0 <= 0,
        count is Err ==> account_deletion_error(id, count) is Some && (account_deletion_error(
            id,
            count,
        )->0).0 == Reason::Internal,
{
}

/// A balance in the base currency is the balance times the rate of its own.
pub proof fn a_balance_is_multiplied_by_its_rate<F: Fn(Formula) -> Number>(
    calc: F,
    r: Reading,
    balance: Number,
    rate: Number,
)
    requires
        is_exact(calc, r),
        r.is_plain(balance) && r.is_plain(rate),
        r.can(r.of(balance) * r.of(rate)),
    ensures
        base_balance(calc, balance, Some(rate)) is Some && r.of(
            base_balance(calc, balance, Some(rate))->0,
        ) == r.of(balance) * r.of(rate),
        base_balance(calc, balance, None) is None,
{
    reveal_with_fuel(exact, 4);
    reveal_with_fuel(unrounded, 4);
    lemma_exact(calc, r, product(num(balance), num(rate)));
}

/// An account counts its own entries.
pub proof fn an_account_counts_its_own_entries(rows: Seq<LedgerAmount>, row: LedgerAmount, id: i64)
    ensures
        row.account_id == id ==> entry_count(rows.push(row), id) == entry_count(rows, id) + 1,
        row.account_id != id ==> entry_count(rows.push(row), id) == entry_count(rows, id),
        entry_count(Seq::empty(), id) == 0,
{
    assert(rows.push(row).drop_last() =~= rows);
}

/// An account needs a name and a currency of three letters, and is stored under
/// both without the space around them. It counts in the portfolio unless that is
/// refused.
pub proof fn what_an_account_needs(p: CashAccountPayload, e: CashAccountEntry)
    ensures
        is_blank(p.name@) ==> new_account_error(p) is Some,
        vstd::utf8::encode_utf8(upper_case(trim_text(p.currency@))).len() != 3
            ==> new_account_error(p) is Some,
        new_account_error(p) is None ==> !is_blank(p.name@) && vstd::utf8::encode_utf8(
            upper_case(trim_text(p.currency@)),
        ).len() == 3,
        new_account_error(p) is Some ==> (new_account_error(p)->0).0 == Reason::BadRequest,
        is_account_of(e, p) ==> e.name@ == trim_text(p.name@) && e.currency@ == upper_case(
            trim_text(p.currency@),
        ) && e.interest_rate == p.interest_rate && (e.include_in_portfolio
            <==> p.include_in_portfolio != Some(false)) && option_view(e.notes) == option_view(
            p.notes,
        ),
{
}

/// An entry is changed where it is the account's own and what is sent would do for
/// a new one.
pub proof fn when_an_entry_is_changed(
    id: int,
    owner: Option<CashTxOwner>,
    p: CashTxPayload,
    day: Option<int>,
    currency: Option<Seq<char>>,
)
    ensures
        update_verdict(id, owner, p, day, currency) is Ok <==> owner is Some
            && owner->0.holding_tx_id is None && owner->0.transfer_group_id is None
            && cash_tx_verdict(p, day, currency) is Ok,
        owner is None ==> update_verdict(id, owner, p, day, currency) is Err && (update_verdict(
            id,
            owner,
            p,
            day,
            currency,
        )->Err_0).0 == Reason::NotFound,
        owner is Some && update_verdict(id, owner, p, day, currency) is Err ==> (update_verdict(
            id,
            owner,
            p,
            day,
            currency,
        )->Err_0).0 == Reason::BadRequest,
{
}

} // verus!
