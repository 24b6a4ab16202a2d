//! Turning dividends that were reported into transactions, and the ledger of
//! both.
use vstd::prelude::*;
use crate::bars::{digit_value, digits_value};
use crate::cash::signed;
use crate::dividends::{calculate_shares_on_date, is_traded, shares_on, HeldTrade};
use crate::exact::{exact, is_exact, lemma_exact, unrounded, Reading};
use crate::fields::{texts, DayClose};
use crate::history::series_of;
use crate::number::{
    evaluate, is_calculator, num, number, product, worth, Formula, Number, ZERO_BITS,
};
use crate::order::{
    distinct_sorted, are_ranked, lemma_onto, ranked_by, sorted, strictly_ascending,
    text_order_is_irreflexive, text_order_is_total, text_order_is_transitive, Ranked,
};
use crate::rates::{fx_rate_on, rate_as_of};
use crate::symbols::{fx_pair, fx_pair_symbol};
use crate::text::{
    chars_of, is_before, joined, joined5, same, string_views, text_before, to_upper, trim_text,
    trimmed, upper_case,
};
use crate::textmap::TextMap;

verus! {

broadcast use vstd::string::group_string_axioms;

// ---------------------------------------------------------------------------
// Whole numbers
// ---------------------------------------------------------------------------

/// The whole number that a text writes, where it fits: digits, with a sign
/// before them or without.
pub open spec fn written_int(s: Seq<char>) -> Option<int> {
    let signed = s.len() > 0 && (s[0] == '+' || s[0] == '-');
    let digits = if signed {
        s.drop_first()
    } else {
        s
    };
    if digits.len() == 0 {
        None
    } else {
        match digits_value(digits) {
            Some(n) => {
                let v = if signed && s[0] == '-' {
                    -(n as int)
                } else {
                    n as int
                };
                if i64::MIN <= v <= i64::MAX {
                    Some(v)
                } else {
                    None
                }
            },
            None => None,
        }
    }
}

fn digit_of(c: char) -> (r: Option<i128>)
    ensures
        match r {
            Some(d) => digit_value(c) == Some(d as nat) && 0 <= d < 10,
            None => digit_value(c) is None,
        },
{
    match c {
        '0' => Some(0),
        '1' => Some(1),
        '2' => Some(2),
        '3' => Some(3),
        '4' => Some(4),
        '5' => Some(5),
        '6' => Some(6),
        '7' => Some(7),
        '8' => Some(8),
        '9' => Some(9),
        _ => None,
    }
}

proof fn lemma_digits_grow(s: Seq<char>, n: int)
    requires
        0 <= n <= s.len(),
        digits_value(s) is Some,
    ensures
        digits_value(s.take(n)) is Some,
        digits_value(s.take(n))->0 <= digits_value(s)->0,
    decreases s.len() - n,
{
    if n < s.len() {
        lemma_digits_grow(s.drop_last(), n);
        assert(s.drop_last().take(n) =~= s.take(n));
    } else {
        assert(s.take(n) =~= s);
    }
}

/// The whole number that a text writes, where it fits.
pub fn parse_int(s: &str) -> (r: Option<i64>)
    ensures
        match r {
            Some(n) => written_int(s@) == Some(n as int),
            None => written_int(s@) is None,
        },
{
    let cs = chars_of(s);
    let marked = cs.len() > 0 && (cs[0] == '+' || cs[0] == '-');
    let negative = marked && cs[0] == '-';
    let from: usize = if marked {
        1
    } else {
        0
    };
    let ghost digits = if marked {
        cs@.drop_first()
    } else {
        cs@
    };
    assert(digits =~= cs@.skip(from as int));
    if from == cs.len() {
        return None;
    }
    let mut value: i128 = 0;
    let mut i: usize = from;
    assert(digits.take(0) =~= Seq::<char>::empty());
    while i < cs.len()
        invariant
            from <= i <= cs.len(),
            from < cs.len(),
            cs@ == s@,
            marked == (cs@.len() > 0 && (cs@[0] == '+' || cs@[0] == '-')),
            negative == (marked && cs@[0] == '-'),
            digits == cs@.skip(from as int),
            digits == (if marked {
                cs@.drop_first()
            } else {
                cs@
            }),
            0 <= value <= 9_223_372_036_854_775_808,
            digits_value(digits.take(i - from)) == Some(value as nat),
        decreases cs.len() - i,
    {
        proof {
            assert(digits.take(i + 1 - from).drop_last() =~= digits.take(i - from));
            assert(digits.take(i + 1 - from).last() == cs@[i as int]);
        }
        match digit_of(cs[i]) {
            None => {
                proof {
                    if digits_value(digits) is Some {
                        lemma_digits_grow(digits, i + 1 - from);
                    }
                }
                return None;
            },
            Some(d) => {
                let next: i128 = value * 10 + d;
                if next > 9_223_372_036_854_775_808 {
                    proof {
                        if digits_value(digits) is Some {
                            lemma_digits_grow(digits, i + 1 - from);
                        }
                    }
                    return None;
                }
                value = next;
            },
        }
        i += 1;
    }
    assert(digits.take(cs.len() - from) =~= digits);
    if negative {
        Some((-value) as i64)
    } else if value == 9_223_372_036_854_775_808 {
        None
    } else {
        Some(value as i64)
    }
}

// ---------------------------------------------------------------------------
// Recording dividends
// ---------------------------------------------------------------------------

/// A dividend that was reported.
#[derive(Debug)]
pub struct ReportedDividend {
    pub symbol: String,
    pub ex_date: String,
    /// Per share, in the currency of the symbol.
    pub amount: Number,
}

/// A dividend that the user declined.
#[derive(Debug)]
pub struct Exclusion {
    pub symbol: String,
    pub ex_date: String,
}

/// What the recording is made from.
#[derive(Debug)]
pub struct RecordInputs {
    pub trades: Vec<HeldTrade>,
    pub exclusions: Vec<Exclusion>,
    pub config: TextMap<String>,
    /// The stored rates, by pair.
    pub closes: TextMap<Vec<DayClose>>,
}

/// The account that dividends of a currency are paid into, where one is set. To
/// guess one would move real money to the wrong place.
pub open spec fn dividend_account(config: Map<Seq<char>, Seq<char>>, currency: Seq<char>) -> Option<
    int,
> {
    let key = "dividend_account_"@ + upper_case(currency);
    if config.contains_key(key) {
        written_int(trim_text(config[key]))
    } else {
        None
    }
}

/// The account that dividends of a currency are paid into, where one is set.
pub fn dividend_account_for_currency(config: &TextMap<String>, currency: &str) -> (r: Option<i64>)
    ensures
        match r {
            Some(id) => dividend_account(texts(config@), currency@) == Some(id as int),
            None => dividend_account(texts(config@), currency@) is None,
        },
{
    let upper = to_upper(currency);
    let key = joined("dividend_account_", upper.as_str());
    match config.get(key.as_str()) {
        Some(v) => {
            assert(texts(config@)[key@] == v@);
            parse_int(trimmed(v.as_str()))
        },
        None => None,
    }
}

/// Whether the dividend has a transaction already.
pub open spec fn is_recorded(trades: Seq<HeldTrade>, symbol: Seq<char>, date: Seq<char>) -> bool {
    exists|i: int|
        0 <= i < trades.len() && (#[trigger] trades[i]).symbol@ == symbol && trades[i].date@ == date
            && trades[i].transaction_type@ == "dividend"@
}

/// Whether the user declined the dividend.
pub open spec fn is_excluded(exclusions: Seq<Exclusion>, symbol: Seq<char>, date: Seq<char>) -> bool {
    exists|i: int|
        0 <= i < exclusions.len() && (#[trigger] exclusions[i]).symbol@ == symbol
            && exclusions[i].ex_date@ == date
}

/// The currency of a symbol's trades: that of the first one which has one.
pub open spec fn traded_currency(trades: Seq<HeldTrade>, symbol: Seq<char>, i: int) -> Seq<char>
    decreases trades.len() - i,
{
    if i < 0 || i >= trades.len() {
        "AUD"@
    } else if trades[i].symbol@ == symbol && trades[i].currency@.len() > 0 {
        upper_case(trades[i].currency@)
    } else {
        traded_currency(trades, symbol, i + 1)
    }
}

/// A dividend as it is recorded. Prices and amounts are in the base currency;
/// the figures of a foreign one go with them.
#[derive(Debug)]
pub struct PlannedDividend {
    pub symbol: String,
    pub date: String,
    pub quantity: Number,
    pub price: Number,
    pub amount: Number,
    pub currency: String,
    pub original_price: Option<Number>,
    pub fx_rate: Option<Number>,
    pub cash_account_id: i64,
}

/// What is recorded.
pub struct PlanView {
    pub symbol: Seq<char>,
    pub date: Seq<char>,
    pub quantity: Number,
    pub price: Number,
    pub amount: Number,
    pub currency: Seq<char>,
    pub original_price: Option<Number>,
    pub fx_rate: Option<Number>,
    pub cash_account_id: int,
}

impl View for PlannedDividend {
    type V = PlanView;

    open spec fn view(&self) -> PlanView {
        PlanView {
            symbol: self.symbol@,
            date: self.date@,
            quantity: self.quantity,
            price: self.price,
            amount: self.amount,
            currency: self.currency@,
            original_price: self.original_price,
            fx_rate: self.fx_rate,
            cash_account_id: self.cash_account_id as int,
        }
    }
}

/// What comes of a dividend that was reported.
pub enum OutcomeView {
    /// It has a transaction already.
    Recorded,
    /// The user declined it.
    Excluded,
    /// No share was held on its day.
    NotEntitled,
    /// No account is set for its currency.
    Unconfigured(Seq<char>),
    /// No rate is known for its day.
    NoRate(Seq<char>),
    /// It is recorded.
    Plan(PlanView),
}

/// What comes of a dividend that was reported.
pub open spec fn outcome_of<F: Fn(Formula) -> Number>(
    calc: F,
    inputs: RecordInputs,
    d: ReportedDividend,
) -> OutcomeView {
    let trades = inputs.trades@;
    let symbol = d.symbol@;
    let date = d.ex_date@;
    let shares = shares_on(calc, trades, symbol, date);
    let currency = traded_currency(trades, symbol, 0);
    if is_recorded(trades, symbol, date) {
        OutcomeView::Recorded
    } else if is_excluded(inputs.exclusions@, symbol, date) {
        OutcomeView::Excluded
    } else if !is_traded(trades, symbol) || shares.at_most(number(ZERO_BITS)) {
        OutcomeView::NotEntitled
    } else {
        match dividend_account(texts(inputs.config@), currency) {
            None => OutcomeView::Unconfigured(currency),
            Some(account) => {
                let home = PlanView {
                    symbol,
                    date,
                    quantity: shares,
                    price: d.amount,
                    amount: worth(calc, product(num(shares), num(d.amount))),
                    currency,
                    original_price: None,
                    fx_rate: None,
                    cash_account_id: account,
                };
                if currency == "AUD"@ {
                    OutcomeView::Plan(home)
                } else {
                    match rate_as_of(
                        currency,
                        series_of(inputs.closes@, fx_pair(currency)),
                        date,
                    ) {
                        None => OutcomeView::NoRate(
                            symbol + " "@ + date + ": no "@ + currency + "/AUD rate"@,
                        ),
                        Some(rate) => OutcomeView::Plan(
                            PlanView {
                                price: worth(calc, product(num(d.amount), num(rate))),
                                amount: worth(
                                    calc,
                                    product(product(num(shares), num(d.amount)), num(rate)),
                                ),
                                original_price: Some(d.amount),
                                fx_rate: Some(rate),
                                ..home
                            },
                        ),
                    }
                }
            },
        }
    }
}

/// What comes of a dividend that was reported.
#[derive(Debug)]
pub enum Outcome {
    Recorded,
    Excluded,
    NotEntitled,
    Unconfigured(String),
    NoRate(String),
    Plan(PlannedDividend),
}

impl View for Outcome {
    type V = OutcomeView;

    open spec fn view(&self) -> OutcomeView {
        match self {
            Outcome::Recorded => OutcomeView::Recorded,
            Outcome::Excluded => OutcomeView::Excluded,
            Outcome::NotEntitled => OutcomeView::NotEntitled,
            Outcome::Unconfigured(c) => OutcomeView::Unconfigured(c@),
            Outcome::NoRate(e) => OutcomeView::NoRate(e@),
            Outcome::Plan(p) => OutcomeView::Plan(p@),
        }
    }
}

fn recorded(trades: &Vec<HeldTrade>, symbol: &str, date: &str) -> (r: bool)
    ensures
        r == is_recorded(trades@, symbol@, date@),
{
    let mut i: usize = 0;
    while i < trades.len()
        invariant
            i <= trades.len(),
            forall|j: int|
                0 <= j < i ==> !((#[trigger] trades@[j]).symbol@ == symbol@ && trades@[j].date@
                    == date@ && trades@[j].transaction_type@ == "dividend"@),
        decreases trades.len() - i,
    {
        let t = &trades[i];
        if same(t.symbol.as_str(), symbol) && same(t.date.as_str(), date) && same(
            t.transaction_type.as_str(),
            "dividend",
        ) {
            return true;
        }
        i += 1;
    }
    false
}

fn excluded(exclusions: &Vec<Exclusion>, symbol: &str, date: &str) -> (r: bool)
    ensures
        r == is_excluded(exclusions@, symbol@, date@),
{
    let mut i: usize = 0;
    while i < exclusions.len()
        invariant
            i <= exclusions.len(),
            forall|j: int|
                0 <= j < i ==> !((#[trigger] exclusions@[j]).symbol@ == symbol@
                    && exclusions@[j].ex_date@ == date@),
        decreases exclusions.len() - i,
    {
        if same(exclusions[i].symbol.as_str(), symbol) && same(
            exclusions[i].ex_date.as_str(),
            date,
        ) {
            return true;
        }
        i += 1;
    }
    false
}

fn traded(trades: &Vec<HeldTrade>, symbol: &str) -> (r: bool)
    ensures
        r == is_traded(trades@, symbol@),
{
    let mut i: usize = 0;
    while i < trades.len()
        invariant
            i <= trades.len(),
            forall|j: int| 0 <= j < i ==> (#[trigger] trades@[j]).symbol@ != symbol@,
        decreases trades.len() - i,
    {
        if same(trades[i].symbol.as_str(), symbol) {
            return true;
        }
        i += 1;
    }
    false
}

fn currency_traded(trades: &Vec<HeldTrade>, symbol: &str) -> (r: String)
    ensures
        r@ == traded_currency(trades@, symbol@, 0),
{
    let mut i: usize = 0;
    while i < trades.len()
        invariant
            i <= trades.len(),
            traded_currency(trades@, symbol@, 0) == traded_currency(trades@, symbol@, i as int),
        decreases trades.len() - i,
    {
        let t = &trades[i];
        if same(t.symbol.as_str(), symbol) && !t.currency.as_str().is_empty() {
            return to_upper(t.currency.as_str());
        }
        i += 1;
    }
    "AUD".to_owned()
}

/// What comes of a dividend that was reported.
pub fn dividend_outcome<F: Fn(Formula) -> Number>(
    inputs: &RecordInputs,
    d: &ReportedDividend,
    calc: &F,
) -> (r: Outcome)
    requires
        is_calculator(*calc),
    ensures
        r@ == outcome_of(*calc, *inputs, *d),
{
    let symbol = d.symbol.as_str();
    let date = d.ex_date.as_str();
    if recorded(&inputs.trades, symbol, date) {
        return Outcome::Recorded;
    }
    if excluded(&inputs.exclusions, symbol, date) {
        return Outcome::Excluded;
    }
    if !traded(&inputs.trades, symbol) {
        return Outcome::NotEntitled;
    }
    let shares = calculate_shares_on_date(&inputs.trades, symbol, date, calc);
    if shares.no_more_than(Number { bits: ZERO_BITS }) {
        return Outcome::NotEntitled;
    }
    let currency = currency_traded(&inputs.trades, symbol);
    let account = match dividend_account_for_currency(&inputs.config, currency.as_str()) {
        Some(a) => a,
        None => return Outcome::Unconfigured(currency),
    };
    if same(currency.as_str(), "AUD") {
        let amount = evaluate(calc, Formula::of(shares).times(Formula::of(d.amount)));
        return Outcome::Plan(
            PlannedDividend {
                symbol: d.symbol.clone(),
                date: d.ex_date.clone(),
                quantity: shares,
                price: d.amount,
                amount,
                currency,
                original_price: None,
                fx_rate: None,
                cash_account_id: account,
            },
        );
    }
    let pair = fx_pair_symbol(currency.as_str());
    let none: Vec<DayClose> = Vec::new();
    assert(none@ =~= seq![]);
    let rate = match inputs.closes.get(pair.as_str()) {
        Some(points) => fx_rate_on(currency.as_str(), points, date),
        None => fx_rate_on(currency.as_str(), &none, date),
    };
    match rate {
        None => {
            let head = joined5(symbol, " ", date, ": no ", currency.as_str());
            Outcome::NoRate(joined(head.as_str(), "/AUD rate"))
        },
        Some(r) => {
            let price = evaluate(calc, Formula::of(d.amount).times(Formula::of(r)));
            let amount = evaluate(
                calc,
                Formula::of(shares).times(Formula::of(d.amount)).times(Formula::of(r)),
            );
            Outcome::Plan(
                PlannedDividend {
                    symbol: d.symbol.clone(),
                    date: d.ex_date.clone(),
                    quantity: shares,
                    price,
                    amount,
                    currency,
                    original_price: Some(d.amount),
                    fx_rate: Some(r),
                    cash_account_id: account,
                },
            )
        },
    }
}

/// What comes of all dividends that were reported.
#[derive(Debug)]
pub struct DividendRecordResult {
    /// Those to record, in the order they were reported.
    pub plans: Vec<PlannedDividend>,
    /// How many the user declined.
    pub excluded: usize,
    /// The currencies without an account, in order.
    pub unconfigured_currencies: Vec<String>,
    pub errors: Vec<String>,
}

/// The views of some plans.
pub open spec fn plan_views(plans: Seq<PlannedDividend>) -> Seq<PlanView> {
    Seq::new(plans.len(), |i: int| plans[i]@)
}

/// Those to record among some outcomes.
pub open spec fn planned(outcomes: Seq<OutcomeView>) -> Seq<PlanView>
    decreases outcomes.len(),
{
    if outcomes.len() == 0 {
        seq![]
    } else {
        match outcomes.last() {
            OutcomeView::Plan(p) => planned(outcomes.drop_last()).push(p),
            _ => planned(outcomes.drop_last()),
        }
    }
}

/// How many of them the user declined.
pub open spec fn declined(outcomes: Seq<OutcomeView>) -> nat
    decreases outcomes.len(),
{
    if outcomes.len() == 0 {
        0
    } else if outcomes.last() is Excluded {
        declined(outcomes.drop_last()) + 1
    } else {
        declined(outcomes.drop_last())
    }
}

/// What is said of those without a rate.
pub open spec fn rate_errors(outcomes: Seq<OutcomeView>) -> Seq<Seq<char>>
    decreases outcomes.len(),
{
    if outcomes.len() == 0 {
        seq![]
    } else {
        match outcomes.last() {
            OutcomeView::NoRate(e) => rate_errors(outcomes.drop_last()).push(e),
            _ => rate_errors(outcomes.drop_last()),
        }
    }
}

/// The currencies without an account, as they come.
pub open spec fn missing_accounts(outcomes: Seq<OutcomeView>) -> Seq<Seq<char>>
    decreases outcomes.len(),
{
    if outcomes.len() == 0 {
        seq![]
    } else {
        match outcomes.last() {
            OutcomeView::Unconfigured(c) => missing_accounts(outcomes.drop_last()).push(c),
            _ => missing_accounts(outcomes.drop_last()),
        }
    }
}

/// What comes of each dividend that was reported.
pub open spec fn outcomes<F: Fn(Formula) -> Number>(
    calc: F,
    inputs: RecordInputs,
    reported: Seq<ReportedDividend>,
) -> Seq<OutcomeView> {
    Seq::new(reported.len(), |i: int| outcome_of(calc, inputs, reported[i]))
}

/// What comes of all dividends that were reported: those the holder is entitled
/// to, and that are neither recorded nor declined, are to be recorded.
pub fn record_new_dividends<F: Fn(Formula) -> Number>(
    inputs: &RecordInputs,
    reported: &Vec<ReportedDividend>,
    calc: &F,
) -> (r: DividendRecordResult)
    requires
        is_calculator(*calc),
    ensures
        plan_views(r.plans@) == planned(outcomes(*calc, *inputs, reported@)),
        r.excluded == declined(outcomes(*calc, *inputs, reported@)),
        string_views(r.errors@) == rate_errors(outcomes(*calc, *inputs, reported@)),
        strictly_ascending(string_views(r.unconfigured_currencies@)),
        string_views(r.unconfigured_currencies@).to_set() == missing_accounts(
            outcomes(*calc, *inputs, reported@),
        ).to_set(),
{
    let ghost all = outcomes(*calc, *inputs, reported@);
    let mut plans: Vec<PlannedDividend> = Vec::new();
    let mut declined_count: usize = 0;
    let mut missing: Vec<String> = Vec::new();
    let mut errors: Vec<String> = Vec::new();
    let mut i: usize = 0;
    proof {
        assert(plan_views(plans@) =~= seq![]);
        assert(string_views(missing@) =~= seq![]);
        assert(string_views(errors@) =~= seq![]);
    }
    while i < reported.len()
        invariant
            i <= reported.len(),
            is_calculator(*calc),
            all == outcomes(*calc, *inputs, reported@),
            declined_count <= i,
            plan_views(plans@) == planned(all.take(i as int)),
            declined_count == declined(all.take(i as int)),
            string_views(errors@) == rate_errors(all.take(i as int)),
            string_views(missing@) == missing_accounts(all.take(i as int)),
        decreases reported.len() - i,
    {
        let ghost p0 = plan_views(plans@);
        let ghost m0 = string_views(missing@);
        let ghost e0 = string_views(errors@);
        proof {
            assert(all.take(i + 1).drop_last() =~= all.take(i as int));
            assert(all.take(i + 1).last() == outcome_of(*calc, *inputs, reported@[i as int]));
        }
        match dividend_outcome(inputs, &reported[i], calc) {
            Outcome::Plan(p) => {
                let ghost v = p@;
                plans.push(p);
                assert(plan_views(plans@) =~= p0.push(v));
            },
            Outcome::Excluded => {
                declined_count += 1;
            },
            Outcome::Unconfigured(c) => {
                let ghost v = c@;
                missing.push(c);
                assert(string_views(missing@) =~= m0.push(v));
            },
            Outcome::NoRate(e) => {
                let ghost v = e@;
                errors.push(e);
                assert(string_views(errors@) =~= e0.push(v));
            },
            Outcome::Recorded => {},
            Outcome::NotEntitled => {},
        }
        i += 1;
    }
    assert(all.take(reported.len() as int) =~= all);
    let unconfigured_currencies = distinct_sorted(&missing);
    DividendRecordResult { plans, excluded: declined_count, unconfigured_currencies, errors }
}

// ---------------------------------------------------------------------------
// Laws
// ---------------------------------------------------------------------------

/// A dividend with a transaction is never recorded again: running twice does
/// not pay the holder twice.
pub proof fn a_recorded_dividend_is_not_recorded_again<F: Fn(Formula) -> Number>(
    calc: F,
    inputs: RecordInputs,
    d: ReportedDividend,
    i: int,
)
    requires
        0 <= i < inputs.trades@.len(),
        inputs.trades@[i].symbol@ == d.symbol@,
        inputs.trades@[i].date@ == d.ex_date@,
        inputs.trades@[i].transaction_type@ == "dividend"@,
    ensures
        outcome_of(calc, inputs, d) is Recorded,
{
}

/// Whether two rows hold the same transaction.
pub open spec fn same_trade(a: HeldTrade, b: HeldTrade) -> bool {
    &&& a.symbol@ == b.symbol@
    &&& a.transaction_type@ == b.transaction_type@
    &&& a.date@ == b.date@
    &&& a.quantity == b.quantity
    &&& a.currency@ == b.currency@
}

/// Whether `t` is the transaction that a plan is recorded as.
pub open spec fn is_row_of(t: HeldTrade, plan: PlanView) -> bool {
    &&& t.symbol@ == plan.symbol
    &&& t.transaction_type@ == "dividend"@
    &&& t.date@ == plan.date
    &&& t.quantity == Some(plan.quantity)
    &&& t.currency@ == plan.currency
}

/// Whether `after` are the transactions `before` and, anywhere among them, one
/// for each plan.
pub open spec fn are_written(
    after: Seq<HeldTrade>,
    before: Seq<HeldTrade>,
    plans: Seq<PlanView>,
) -> bool
    decreases plans.len(),
{
    if plans.len() == 0 {
        &&& after.len() == before.len()
        &&& forall|i: int| 0 <= i < after.len() ==> same_trade(#[trigger] after[i], before[i])
    } else {
        exists|i: int|
            0 <= i < after.len() && #[trigger] is_row_of(after[i], plans.last()) && are_written(
                after.remove(i),
                before,
                plans.drop_last(),
            )
    }
}

/// Whether a dividend of the symbol is planned.
pub open spec fn is_planned(plans: Seq<PlanView>, symbol: Seq<char>) -> bool {
    exists|i: int| 0 <= i < plans.len() && (#[trigger] plans[i]).symbol == symbol
}

/// Whether two reports are of the same dividend.
pub open spec fn same_report(a: ReportedDividend, b: ReportedDividend) -> bool {
    a.symbol@ == b.symbol@ && a.ex_date@ == b.ex_date@ && a.amount == b.amount
}

/// Recording twice pays nobody twice: once all plans of a run without errors are
/// written, a second run over the same reports plans nothing.
pub proof fn a_second_run_plans_nothing<F: Fn(Formula) -> Number>(
    calc: F,
    first: RecordInputs,
    reported: Seq<ReportedDividend>,
    second: RecordInputs,
    again: Seq<ReportedDividend>,
)
    requires
        rate_errors(outcomes(calc, first, reported)).len() == 0,
        are_written(
            second.trades@,
            first.trades@,
            planned(outcomes(calc, first, reported)),
        ),
        forall|symbol: Seq<char>, date: Seq<char>| #[trigger]
            is_excluded(second.exclusions@, symbol, date) == is_excluded(
                first.exclusions@,
                symbol,
                date,
            ),
        texts(second.config@) == texts(first.config@),
        again.len() == reported.len(),
        forall|i: int| 0 <= i < again.len() ==> same_report(#[trigger] again[i], reported[i]),
    ensures
        planned(outcomes(calc, second, again)).len() == 0,
{
    let before = outcomes(calc, first, reported);
    let now = outcomes(calc, second, again);
    let plans = planned(before);
    lemma_planned_from(before);
    assert forall|i: int| 0 <= i < now.len() implies !(#[trigger] now[i] is Plan) by {
        let d = reported[i];
        let symbol = d.symbol@;
        let date = d.ex_date@;
        assert(same_report(again[i], d));
        lemma_written(calc, second.trades@, first.trades@, plans, symbol, date);
        assert(before[i] == outcome_of(calc, first, d));
        match before[i] {
            OutcomeView::NoRate(e) => {
                lemma_error_counts(before, i);
            },
            OutcomeView::Plan(p) => {
                lemma_plan_counts(before, i);
                let k = choose|k: int| 0 <= k < plans.len() && plans[k] == p;
                lemma_plan_recorded(second.trades@, first.trades@, plans, k);
            },
            _ => {
                if is_planned(plans, symbol) {
                    let k = choose|k: int| 0 <= k < plans.len() && (#[trigger] plans[k]).symbol
                        == symbol;
                    let j = choose|j: int|
                        0 <= j < before.len() && #[trigger] before[j] == OutcomeView::Plan(
                            plans[k],
                        );
                    assert(before[j] == outcome_of(calc, first, reported[j]));
                    assert(reported[j].symbol@ == symbol);
                }
            },
        }
    }
    lemma_none_planned(now);
}

/// Every plan comes of some dividend.
proof fn lemma_planned_from(outs: Seq<OutcomeView>)
    ensures
        forall|k: int|
            0 <= k < planned(outs).len() ==> exists|j: int|
                0 <= j < outs.len() && #[trigger] outs[j] == OutcomeView::Plan(
                    #[trigger] planned(outs)[k],
                ),
    decreases outs.len(),
{
    if outs.len() > 0 {
        let less = outs.drop_last();
        lemma_planned_from(less);
        assert forall|k: int| 0 <= k < planned(outs).len() implies exists|j: int|
            0 <= j < outs.len() && #[trigger] outs[j] == OutcomeView::Plan(
                #[trigger] planned(outs)[k],
            ) by {
            if k < planned(less).len() {
                assert(planned(less)[k] == planned(outs)[k]);
                let j = choose|j: int|
                    0 <= j < less.len() && #[trigger] less[j] == OutcomeView::Plan(
                        planned(less)[k],
                    );
                assert(outs[j] == OutcomeView::Plan(planned(outs)[k]));
            } else {
                assert(outs[outs.len() - 1] == OutcomeView::Plan(planned(outs)[k]));
            }
        }
    }
}

proof fn lemma_plan_counts(outs: Seq<OutcomeView>, i: int)
    requires
        0 <= i < outs.len(),
        outs[i] is Plan,
    ensures
        planned(outs).contains(outs[i]->Plan_0),
    decreases outs.len(),
{
    let less = planned(outs.drop_last());
    if i == outs.len() - 1 {
        assert(planned(outs)[less.len() as int] == outs[i]->Plan_0);
    } else {
        lemma_plan_counts(outs.drop_last(), i);
        let k = choose|k: int| 0 <= k < less.len() && less[k] == outs[i]->Plan_0;
        assert(planned(outs)[k] == outs[i]->Plan_0);
    }
}

proof fn lemma_error_counts(outs: Seq<OutcomeView>, i: int)
    requires
        0 <= i < outs.len(),
        outs[i] is NoRate,
    ensures
        rate_errors(outs).len() > 0,
    decreases outs.len(),
{
    if i < outs.len() - 1 {
        lemma_error_counts(outs.drop_last(), i);
    }
}

proof fn lemma_none_planned(outs: Seq<OutcomeView>)
    requires
        forall|i: int| 0 <= i < outs.len() ==> !(#[trigger] outs[i] is Plan),
    ensures
        planned(outs).len() == 0,
    decreases outs.len(),
{
    if outs.len() > 0 {
        assert(!(outs[outs.len() - 1] is Plan));
        assert forall|i: int| 0 <= i < outs.drop_last().len() implies !(
        #[trigger] outs.drop_last()[i] is Plan) by {
            assert(!(outs[i] is Plan));
        }
        lemma_none_planned(outs.drop_last());
    }
}

/// A plan that is written counts as recorded.
proof fn lemma_plan_recorded(
    after: Seq<HeldTrade>,
    before: Seq<HeldTrade>,
    plans: Seq<PlanView>,
    k: int,
)
    requires
        are_written(after, before, plans),
        0 <= k < plans.len(),
    ensures
        is_recorded(after, plans[k].symbol, plans[k].date),
    decreases plans.len(),
{
    let i = choose|i: int|
        0 <= i < after.len() && #[trigger] is_row_of(after[i], plans.last()) && are_written(
            after.remove(i),
            before,
            plans.drop_last(),
        );
    if k < plans.len() - 1 {
        let less = after.remove(i);
        lemma_plan_recorded(less, before, plans.drop_last(), k);
        lemma_recorded_stays(after, i, plans[k].symbol, plans[k].date);
    } else {
        assert(after[i].symbol@ == plans[k].symbol);
    }
}

/// What is recorded without a row is recorded with it.
proof fn lemma_recorded_stays(trades: Seq<HeldTrade>, i: int, symbol: Seq<char>, date: Seq<char>)
    requires
        0 <= i < trades.len(),
        is_recorded(trades.remove(i), symbol, date),
    ensures
        is_recorded(trades, symbol, date),
{
    let less = trades.remove(i);
    let k = choose|k: int|
        0 <= k < less.len() && (#[trigger] less[k]).symbol@ == symbol && less[k].date@ == date
            && less[k].transaction_type@ == "dividend"@;
    let at = if k < i {
        k
    } else {
        k + 1
    };
    assert(trades[at] == less[k]);
}

/// A dividend's row leaves the shares as they are.
proof fn lemma_dividend_adds_no_shares<F: Fn(Formula) -> Number>(
    calc: F,
    trades: Seq<HeldTrade>,
    i: int,
    symbol: Seq<char>,
    date: Seq<char>,
)
    requires
        0 <= i < trades.len(),
        trades[i].transaction_type@ == "dividend"@,
    ensures
        shares_on(calc, trades.remove(i), symbol, date) == shares_on(calc, trades, symbol, date),
    decreases trades.len(),
{
    reveal_strlit("dividend");
    reveal_strlit("purchase");
    reveal_strlit("sale");
    assert("dividend"@[0] == 'd' && "purchase"@[0] == 'p' && "sale"@[0] == 's');
    if i == trades.len() - 1 {
        assert(trades.remove(i) =~= trades.drop_last());
    } else {
        lemma_dividend_adds_no_shares(calc, trades.drop_last(), i, symbol, date);
        assert(trades.remove(i).drop_last() =~= trades.drop_last().remove(i));
        assert(trades.remove(i).last() == trades.last());
    }
}

/// Rows of other symbols do not settle the currency of a symbol.
proof fn lemma_other_rows_keep_the_currency(
    trades: Seq<HeldTrade>,
    i: int,
    symbol: Seq<char>,
    k: int,
)
    requires
        0 <= i < trades.len(),
        trades[i].symbol@ != symbol,
        0 <= k <= trades.len(),
    ensures
        traded_currency(trades, symbol, k) == traded_currency(
            trades.remove(i),
            symbol,
            if k <= i {
                k
            } else {
                k - 1
            },
        ),
    decreases trades.len() - k,
{
    let less = trades.remove(i);
    if k < trades.len() {
        lemma_other_rows_keep_the_currency(trades, i, symbol, k + 1);
        if k < i {
            assert(less[k] == trades[k]);
        } else if k > i {
            assert(less[k - 1] == trades[k]);
        }
    }
}

proof fn lemma_same_currency(a: Seq<HeldTrade>, b: Seq<HeldTrade>, symbol: Seq<char>, k: int)
    requires
        a.len() == b.len(),
        forall|i: int| 0 <= i < a.len() ==> same_trade(#[trigger] a[i], b[i]),
    ensures
        traded_currency(a, symbol, k) == traded_currency(b, symbol, k),
    decreases a.len() - k,
{
    if 0 <= k < a.len() {
        assert(same_trade(a[k], b[k]));
        lemma_same_currency(a, b, symbol, k + 1);
    }
}

proof fn lemma_same_shares<F: Fn(Formula) -> Number>(
    calc: F,
    a: Seq<HeldTrade>,
    b: Seq<HeldTrade>,
    symbol: Seq<char>,
    date: Seq<char>,
)
    requires
        a.len() == b.len(),
        forall|i: int| 0 <= i < a.len() ==> same_trade(#[trigger] a[i], b[i]),
    ensures
        shares_on(calc, a, symbol, date) == shares_on(calc, b, symbol, date),
    decreases a.len(),
{
    if a.len() > 0 {
        assert(same_trade(a[a.len() - 1], b[b.len() - 1]));
        assert forall|i: int| 0 <= i < a.drop_last().len() implies same_trade(
            #[trigger] a.drop_last()[i],
            b.drop_last()[i],
        ) by {
            assert(same_trade(a[i], b[i]));
        }
        lemma_same_shares(calc, a.drop_last(), b.drop_last(), symbol, date);
    }
}

/// What writing the plans leaves as it was.
proof fn lemma_written<F: Fn(Formula) -> Number>(
    calc: F,
    after: Seq<HeldTrade>,
    before: Seq<HeldTrade>,
    plans: Seq<PlanView>,
    symbol: Seq<char>,
    date: Seq<char>,
)
    requires
        are_written(after, before, plans),
    ensures
        shares_on(calc, after, symbol, date) == shares_on(calc, before, symbol, date),
        is_recorded(before, symbol, date) ==> is_recorded(after, symbol, date),
        !is_planned(plans, symbol) ==> is_traded(after, symbol) == is_traded(before, symbol),
        !is_planned(plans, symbol) ==> traded_currency(after, symbol, 0) == traded_currency(
            before,
            symbol,
            0,
        ),
    decreases plans.len(),
{
    if plans.len() == 0 {
        lemma_same_shares(calc, after, before, symbol, date);
        lemma_same_currency(after, before, symbol, 0);
        if is_recorded(before, symbol, date) {
            let k = choose|k: int|
                0 <= k < before.len() && (#[trigger] before[k]).symbol@ == symbol
                    && before[k].date@ == date && before[k].transaction_type@ == "dividend"@;
            assert(same_trade(after[k], before[k]));
        }
        if is_traded(before, symbol) {
            let k = choose|k: int| 0 <= k < before.len() && (#[trigger] before[k]).symbol@ == symbol;
            assert(same_trade(after[k], before[k]));
        }
        if is_traded(after, symbol) {
            let k = choose|k: int| 0 <= k < after.len() && (#[trigger] after[k]).symbol@ == symbol;
            assert(same_trade(after[k], before[k]));
        }
    } else {
        let i = choose|i: int|
            0 <= i < after.len() && #[trigger] is_row_of(after[i], plans.last()) && are_written(
                after.remove(i),
                before,
                plans.drop_last(),
            );
        let less = after.remove(i);
        lemma_written(calc, less, before, plans.drop_last(), symbol, date);
        lemma_dividend_adds_no_shares(calc, after, i, symbol, date);
        if is_recorded(before, symbol, date) {
            lemma_recorded_stays(after, i, symbol, date);
        }
        if !is_planned(plans, symbol) {
            assert(plans[plans.len() - 1] == plans.last());
            if is_planned(plans.drop_last(), symbol) {
                let k = choose|k: int|
                    0 <= k < plans.drop_last().len() && (#[trigger] plans.drop_last()[k]).symbol
                        == symbol;
                assert(plans[k].symbol == symbol);
            }
            lemma_other_rows_keep_the_currency(after, i, symbol, 0);
            if is_traded(less, symbol) {
                let k = choose|k: int| 0 <= k < less.len() && (#[trigger] less[k]).symbol@ == symbol;
                let at = if k < i {
                    k
                } else {
                    k + 1
                };
                assert(after[at] == less[k]);
            }
            if is_traded(after, symbol) {
                let k = choose|k: int|
                    0 <= k < after.len() && (#[trigger] after[k]).symbol@ == symbol;
                let at = if k < i {
                    k
                } else {
                    k - 1
                };
                assert(less[at] == after[k]);
            }
        }
    }
}

/// A dividend that was declined stays declined.
pub proof fn a_declined_dividend_stays_declined<F: Fn(Formula) -> Number>(
    calc: F,
    inputs: RecordInputs,
    d: ReportedDividend,
    i: int,
)
    requires
        0 <= i < inputs.exclusions@.len(),
        inputs.exclusions@[i].symbol@ == d.symbol@,
        inputs.exclusions@[i].ex_date@ == d.ex_date@,
    ensures
        !(outcome_of(calc, inputs, d) is Plan),
{
}

/// A dividend is recorded only for shares that were held on its day.
pub proof fn only_a_holder_is_paid<F: Fn(Formula) -> Number>(
    calc: F,
    inputs: RecordInputs,
    d: ReportedDividend,
)
    requires
        outcome_of(calc, inputs, d) is Plan,
    ensures
        !shares_on(calc, inputs.trades@, d.symbol@, d.ex_date@).at_most(number(ZERO_BITS)),
{
}

// ---------------------------------------------------------------------------
// The ledger
// ---------------------------------------------------------------------------

/// A line of the ledger: a transaction, or a dividend that was reported and has
/// none.
#[derive(Debug)]
pub struct LedgerLine {
    pub date: String,
    /// Its number among the transactions and the dividends after them.
    pub index: usize,
}

impl Ranked for LedgerLine {
    open spec fn precedes(self, other: LedgerLine) -> bool {
        if self.date@ == other.date@ {
            self.index < other.index
        } else {
            text_before(other.date@, self.date@)
        }
    }

    proof fn precedes_is_irreflexive(a: LedgerLine) {
    }

    proof fn precedes_is_transitive(a: LedgerLine, b: LedgerLine, c: LedgerLine) {
        if a.date@ != b.date@ && b.date@ != c.date@ {
            text_order_is_transitive(c.date@, b.date@, a.date@);
            if a.date@ == c.date@ {
                text_order_is_irreflexive(a.date@);
            }
        }
    }

    proof fn ties_are_transitive(a: LedgerLine, b: LedgerLine, c: LedgerLine) {
        text_order_is_total(a.date@, b.date@);
        text_order_is_total(b.date@, c.date@);
        if a.precedes(c) {
            if a.date@ == b.date@ {
            } else if b.date@ == c.date@ {
            } else {
                text_order_is_transitive(a.date@, b.date@, c.date@);
                if a.date@ == c.date@ {
                    text_order_is_irreflexive(a.date@);
                } else {
                    text_order_is_transitive(a.date@, c.date@, a.date@);
                    text_order_is_irreflexive(a.date@);
                }
            }
        }
    }

    fn goes_before(&self, other: &LedgerLine) -> (r: bool) {
        if same(self.date.as_str(), other.date.as_str()) {
            self.index < other.index
        } else {
            is_before(other.date.as_str(), self.date.as_str())
        }
    }
}

/// Whether a reported dividend is on the ledger: its shares were held on its
/// day, and it has no transaction of its own.
pub open spec fn is_listed<F: Fn(Formula) -> Number>(
    calc: F,
    trades: Seq<HeldTrade>,
    d: ReportedDividend,
) -> bool {
    &&& is_traded(trades, d.symbol@)
    &&& !shares_on(calc, trades, d.symbol@, d.ex_date@).at_most(number(ZERO_BITS))
    &&& !is_recorded(trades, d.symbol@, d.ex_date@)
}

/// The numbers and dates of the transactions, followed by those of the
/// dividends that are listed.
pub open spec fn ledger_lines<F: Fn(Formula) -> Number>(
    calc: F,
    trades: Seq<HeldTrade>,
    reported: Seq<ReportedDividend>,
) -> Seq<(Seq<char>, int)>
    decreases reported.len(),
{
    if reported.len() == 0 {
        Seq::new(trades.len(), |i: int| (trades[i].date@, i))
    } else {
        let earlier = ledger_lines(calc, trades, reported.drop_last());
        if is_listed(calc, trades, reported.last()) {
            earlier.push((reported.last().ex_date@, trades.len() + reported.len() - 1))
        } else {
            earlier
        }
    }
}

/// The dates and numbers of some lines.
pub open spec fn line_views(lines: Seq<LedgerLine>) -> Seq<(Seq<char>, int)> {
    Seq::new(lines.len(), |i: int| (lines[i].date@, lines[i].index as int))
}

/// Whether `lines` are those of the ledger, the newest first.
pub open spec fn is_ledger<F: Fn(Formula) -> Number>(
    calc: F,
    lines: Seq<LedgerLine>,
    trades: Seq<HeldTrade>,
    reported: Seq<ReportedDividend>,
) -> bool {
    exists|unsorted: Seq<LedgerLine>| #[trigger]
        are_ranked(lines, unsorted) && line_views(unsorted) == ledger_lines(calc, trades, reported)
}

/// The ledger: all transactions, and the dividends that were reported while
/// their shares were held and that have no transaction; the newest first.
pub fn transactions_ledger<F: Fn(Formula) -> Number>(
    trades: &Vec<HeldTrade>,
    reported: &Vec<ReportedDividend>,
    calc: &F,
) -> (r: Vec<LedgerLine>)
    requires
        is_calculator(*calc),
        trades.len() + reported.len() <= usize::MAX,
    ensures
        is_ledger(*calc, r@, trades@, reported@),
{
    let mut lines: Vec<LedgerLine> = Vec::new();
    let mut i: usize = 0;
    while i < trades.len()
        invariant
            i <= trades.len(),
            lines@.len() == i,
            forall|j: int|
                0 <= j < i ==> (#[trigger] lines@[j]).date@ == trades@[j].date@ && lines@[j].index
                    == j,
        decreases trades.len() - i,
    {
        lines.push(LedgerLine { date: trades[i].date.clone(), index: i });
        i += 1;
    }
    assert(reported@.take(0) =~= Seq::<ReportedDividend>::empty());
    assert(line_views(lines@) =~= ledger_lines(*calc, trades@, reported@.take(0)));
    let mut k: usize = 0;
    while k < reported.len()
        invariant
            k <= reported.len(),
            is_calculator(*calc),
            trades.len() + reported.len() <= usize::MAX,
            line_views(lines@) == ledger_lines(*calc, trades@, reported@.take(k as int)),
        decreases reported.len() - k,
    {
        let ghost before = line_views(lines@);
        proof {
            assert(reported@.take(k + 1).drop_last() =~= reported@.take(k as int));
            assert(reported@.take(k + 1).last() == reported@[k as int]);
        }
        let d = &reported[k];
        if traded(trades, d.symbol.as_str()) && !recorded(
            trades,
            d.symbol.as_str(),
            d.ex_date.as_str(),
        ) {
            let shares = calculate_shares_on_date(
                trades,
                d.symbol.as_str(),
                d.ex_date.as_str(),
                calc,
            );
            if !shares.no_more_than(Number { bits: ZERO_BITS }) {
                lines.push(LedgerLine { date: d.ex_date.clone(), index: trades.len() + k });
                assert(line_views(lines@) =~= before.push((d.ex_date@, trades.len() + k)));
            }
        }
        k += 1;
    }
    assert(reported@.take(reported.len() as int) =~= reported@);
    let ghost unsorted = lines@;
    let out = sorted(lines);
    assert(are_ranked(out@, unsorted));
    out
}

// ---------------------------------------------------------------------------
// What is recorded of a dividend
// ---------------------------------------------------------------------------

/// A dividend that is recorded is put down with the shares held on its day. One
/// of the base currency pays what it pays for each share, and that times the
/// shares in all. A foreign one pays that in its own currency, and in the base
/// currency that at the rate of its day. It goes to the account that is set for
/// its currency.
pub proof fn a_plan_pays_the_shares_held<F: Fn(Formula) -> Number>(
    calc: F,
    r: Reading,
    inputs: RecordInputs,
    d: ReportedDividend,
    plan: PlanView,
)
    requires
        is_exact(calc, r),
        outcome_of(calc, inputs, d) == OutcomeView::Plan(plan),
        ({
            let shares = shares_on(calc, inputs.trades@, d.symbol@, d.ex_date@);
            &&& r.is_plain(shares) && r.is_plain(d.amount)
            &&& r.can(r.of(shares) * r.of(d.amount))
            &&& plan.fx_rate is Some ==> r.is_plain(plan.fx_rate->0) && r.can(
                r.of(d.amount) * r.of(plan.fx_rate->0),
            ) && r.can((r.of(shares) * r.of(d.amount)) * r.of(plan.fx_rate->0))
        }),
    ensures
        ({
            let shares = shares_on(calc, inputs.trades@, d.symbol@, d.ex_date@);
            let paid = r.of(shares) * r.of(d.amount);
            &&& plan.symbol == d.symbol@ && plan.date == d.ex_date@ && plan.quantity == shares
            &&& plan.currency == "AUD"@ ==> plan.price == d.amount && r.of(plan.amount) == paid
                && plan.original_price is None && plan.fx_rate is None
            &&& plan.currency != "AUD"@ ==> plan.original_price == Some(d.amount)
                && plan.fx_rate is Some && r.of(plan.price) == r.of(d.amount) * r.of(
                plan.fx_rate->0,
            ) && r.of(plan.amount) == paid * r.of(plan.fx_rate->0)
        }),
        plan.currency != "AUD"@ ==> plan.fx_rate == rate_as_of(
            plan.currency,
            series_of(inputs.closes@, fx_pair(plan.currency)),
            d.ex_date@,
        ),
        ({
            let key = "dividend_account_"@ + upper_case(plan.currency);
            inputs.config@.contains_key(key) && written_int(trim_text(inputs.config@[key]@))
                == Some(plan.cash_account_id)
        }),
{
    reveal_with_fuel(exact, 5);
    reveal_with_fuel(unrounded, 5);
    let shares = shares_on(calc, inputs.trades@, d.symbol@, d.ex_date@);
    let f = product(num(shares), num(d.amount));
    lemma_exact(calc, r, f);
    if plan.currency != "AUD"@ {
        lemma_exact(calc, r, product(num(d.amount), num(plan.fx_rate->0)));
        lemma_exact(calc, r, product(f, num(plan.fx_rate->0)));
    }
}

/// What comes of a reported dividend: nothing where a dividend of its symbol and
/// day is on record, where it was declined, or where no share was held on its
/// day; otherwise it is recorded, unless no account is set for its currency or no
/// rate is known.
pub proof fn what_comes_of_a_report<F: Fn(Formula) -> Number>(
    calc: F,
    inputs: RecordInputs,
    d: ReportedDividend,
)
    ensures
        ({
            let recorded = exists|i: int|
                0 <= i < inputs.trades@.len() && (#[trigger] inputs.trades@[i]).symbol@ == d.symbol@
                    && inputs.trades@[i].date@ == d.ex_date@
                    && inputs.trades@[i].transaction_type@ == "dividend"@;
            let declined = exists|i: int|
                0 <= i < inputs.exclusions@.len() && (#[trigger] inputs.exclusions@[i]).symbol@
                    == d.symbol@ && inputs.exclusions@[i].ex_date@ == d.ex_date@;
            let traded = exists|i: int|
                0 <= i < inputs.trades@.len() && (#[trigger] inputs.trades@[i]).symbol@ == d.symbol@;
            let shares = shares_on(calc, inputs.trades@, d.symbol@, d.ex_date@);
            let entitled = traded && !shares.at_most(number(0));
            let outcome = outcome_of(calc, inputs, d);
            &&& recorded ==> outcome == OutcomeView::Recorded
            &&& !recorded && declined ==> outcome == OutcomeView::Excluded
            &&& !recorded && !declined && !entitled ==> outcome == OutcomeView::NotEntitled
            &&& !recorded && !declined && entitled ==> !(outcome is Recorded) && !(
            outcome is Excluded) && !(outcome is NotEntitled)
            &&& outcome is Plan ==> !recorded && !declined && entitled
        }),
{
}

/// The currency of a symbol is that of the first of its trades that names one, in
/// upper case; the base currency where none does.
pub proof fn a_symbol_has_the_currency_of_its_first_trade(
    trades: Seq<HeldTrade>,
    symbol: Seq<char>,
    i: int,
)
    requires
        0 <= i <= trades.len(),
        forall|j: int|
            0 <= j < i ==> (#[trigger] trades[j]).symbol@ != symbol || trades[j].currency@.len()
                == 0,
        i < trades.len() ==> trades[i].symbol@ == symbol && trades[i].currency@.len() > 0,
    ensures
        i < trades.len() ==> traded_currency(trades, symbol, 0) == upper_case(trades[i].currency@),
        i == trades.len() ==> traded_currency(trades, symbol, 0) == "AUD"@,
{
    lemma_currency_from(trades, symbol, i, 0);
}

proof fn lemma_currency_from(trades: Seq<HeldTrade>, symbol: Seq<char>, i: int, from: int)
    requires
        0 <= from <= i <= trades.len(),
        forall|j: int|
            0 <= j < i ==> (#[trigger] trades[j]).symbol@ != symbol || trades[j].currency@.len()
                == 0,
        i < trades.len() ==> trades[i].symbol@ == symbol && trades[i].currency@.len() > 0,
    ensures
        i < trades.len() ==> traded_currency(trades, symbol, from) == upper_case(
            trades[i].currency@,
        ),
        i == trades.len() ==> traded_currency(trades, symbol, from) == "AUD"@,
    decreases i - from,
{
    if from < i {
        lemma_currency_from(trades, symbol, i, from + 1);
    }
}

/// One more report adds what comes of it, and leaves what came of the others.
pub proof fn a_report_adds_its_outcome(outcomes: Seq<OutcomeView>, o: OutcomeView)
    ensures
        o is Plan ==> planned(outcomes.push(o)) == planned(outcomes).push(o->Plan_0),
        !(o is Plan) ==> planned(outcomes.push(o)) == planned(outcomes),
        o is Excluded ==> declined(outcomes.push(o)) == declined(outcomes) + 1,
        !(o is Excluded) ==> declined(outcomes.push(o)) == declined(outcomes),
        o is NoRate ==> rate_errors(outcomes.push(o)) == rate_errors(outcomes).push(o->NoRate_0),
        !(o is NoRate) ==> rate_errors(outcomes.push(o)) == rate_errors(outcomes),
        o is Unconfigured ==> missing_accounts(outcomes.push(o)) == missing_accounts(outcomes).push(
            o->Unconfigured_0,
        ),
        !(o is Unconfigured) ==> missing_accounts(outcomes.push(o)) == missing_accounts(outcomes),
{
    assert(outcomes.push(o).drop_last() =~= outcomes);
}

/// A reported dividend is on the ledger exactly where shares of its symbol were
/// held on its day and no dividend of that symbol and day is recorded. It comes
/// behind the transactions, each of which is on the ledger.
pub proof fn what_is_on_the_ledger<F: Fn(Formula) -> Number>(
    calc: F,
    trades: Seq<HeldTrade>,
    reported: Seq<ReportedDividend>,
    d: ReportedDividend,
)
    ensures
        ({
            let traded = exists|i: int|
                0 <= i < trades.len() && (#[trigger] trades[i]).symbol@ == d.symbol@;
            let recorded = exists|i: int|
                0 <= i < trades.len() && (#[trigger] trades[i]).symbol@ == d.symbol@
                    && trades[i].date@ == d.ex_date@ && trades[i].transaction_type@ == "dividend"@;
            let listed = traded && !recorded && !shares_on(
                calc,
                trades,
                d.symbol@,
                d.ex_date@,
            ).at_most(number(0));
            let was = ledger_lines(calc, trades, reported);
            let now = ledger_lines(calc, trades, reported.push(d));
            &&& listed ==> now == was.push((d.ex_date@, trades.len() + reported.len() as int))
            &&& !listed ==> now == was
        }),
        ledger_lines(calc, trades, Seq::empty()).len() == trades.len(),
        forall|i: int|
            0 <= i < trades.len() ==> #[trigger] ledger_lines(calc, trades, Seq::empty())[i] == (
                trades[i].date@,
                i,
            ),
{
    assert(reported.push(d).drop_last() =~= reported);
}

/// On the ledger a newer line comes before an older one; lines of one day come as
/// the transactions and the dividends after them do.
pub proof fn newer_lines_come_first(a: LedgerLine, b: LedgerLine)
    ensures
        a.date@ != b.date@ ==> (a.precedes(b) <==> text_before(b.date@, a.date@)),
        a.date@ == b.date@ ==> (a.precedes(b) <==> a.index < b.index),
{
}

/// The ledger holds every transaction on its own day, and later days come first.
pub proof fn every_transaction_is_on_the_ledger<F: Fn(Formula) -> Number>(
    calc: F,
    lines: Seq<LedgerLine>,
    trades: Seq<HeldTrade>,
    reported: Seq<ReportedDividend>,
    k: int,
)
    requires
        is_ledger(calc, lines, trades, reported),
        0 <= k < ledger_lines(calc, trades, reported).len(),
    ensures
        exists|i: int|
            0 <= i < lines.len() && (#[trigger] lines[i]).date@ == ledger_lines(
                calc,
                trades,
                reported,
            )[k].0 && lines[i].index == ledger_lines(calc, trades, reported)[k].1,
        lines.len() == ledger_lines(calc, trades, reported).len(),
        forall|i: int, j: int|
            0 <= i < j < lines.len() ==> !text_before(
                (#[trigger] lines[i]).date@,
                (#[trigger] lines[j]).date@,
            ),
        k < trades.len() ==> ledger_lines(calc, trades, reported)[k] == (trades[k].date@, k),
{
    let unsorted = choose|unsorted: Seq<LedgerLine>| #[trigger]
        are_ranked(lines, unsorted) && line_views(unsorted) == ledger_lines(
            calc,
            trades,
            reported,
        );
    let order = choose|order: Seq<int>| #[trigger] ranked_by(lines, unsorted, order);
    lemma_onto(order, unsorted.len() as int, k);
    let i = choose|i: int| 0 <= i < order.len() && order[i] == k;
    assert(lines[i] == unsorted[k]);
    assert(line_views(unsorted)[k] == (unsorted[k].date@, unsorted[k].index as int));
    assert forall|i: int, j: int| 0 <= i < j < lines.len() implies !text_before(
        (#[trigger] lines[i]).date@,
        (#[trigger] lines[j]).date@,
    ) by {
        assert(order[i] != order[j]);
        text_order_is_irreflexive(lines[i].date@);
    }
    lemma_trades_lead(calc, trades, reported);
}

proof fn lemma_trades_lead<F: Fn(Formula) -> Number>(
    calc: F,
    trades: Seq<HeldTrade>,
    reported: Seq<ReportedDividend>,
)
    ensures
        ledger_lines(calc, trades, reported).len() >= trades.len(),
        forall|k: int|
            0 <= k < trades.len() ==> #[trigger] ledger_lines(calc, trades, reported)[k] == (
                trades[k].date@,
                k,
            ),
    decreases reported.len(),
{
    if reported.len() > 0 {
        lemma_trades_lead(calc, trades, reported.drop_last());
    }
}

/// A whole number is written in digits, with a sign before them or without; a
/// minus makes it negative, and a sign alone is no number.
pub proof fn how_a_whole_number_is_written(s: Seq<char>)
    requires
        s.len() > 0,
        s[0] != '+' && s[0] != '-',
        digits_value(s) is Some && digits_value(s)->0 <= i64::MAX,
    ensures
        written_int(s) == Some(digits_value(s)->0 as int),
        written_int(seq!['+'] + s) == Some(digits_value(s)->0 as int),
        written_int(seq!['-'] + s) == Some(-(digits_value(s)->0 as int)),
        written_int(Seq::empty()) is None,
        written_int(seq!['-']) is None,
        written_int(seq!['+']) is None,
{
    assert((seq!['+'] + s).drop_first() =~= s);
    assert((seq!['-'] + s).drop_first() =~= s);
    assert(seq!['-'].drop_first() =~= Seq::<char>::empty());
    assert(seq!['+'].drop_first() =~= Seq::<char>::empty());
}

} // verus!
