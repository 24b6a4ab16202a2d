//! What was sold: what came of the sales, and which prices are looked at
//! afterwards.
use vstd::prelude::*;
use crate::context::found;
use crate::dates::{date_number, date_text, format_day, parse_day, MIN_DAY};
use crate::exact::{exact, is_exact, lemma_exact, lemma_sign, unrounded, Reading};
use crate::history::earliest;
use crate::number::{
    difference, evaluate, is_calculator, num, number, percentage, product, sum, worth, Formula,
    Number, ZERO_BITS,
};
use crate::order::{
    are_ranked, sorted, text_order_is_irreflexive, text_order_is_total, text_order_is_transitive,
    Ranked,
};
use crate::text::{is_before, joined3, option_view, same, string_views, text_before};
use crate::textmap::TextMap;

verus! {

broadcast use vstd::string::group_string_axioms;

/// How many days before the first sale prices are looked at, so that a sale
/// after a weekend still finds the Friday before it.
pub const LOOKBEHIND_DAYS: i32 = 7;

// ---------------------------------------------------------------------------
// From when on
// ---------------------------------------------------------------------------

/// From which day on prices are looked at, the first sale being on day `first`.
pub open spec fn floor_day(first: Option<int>) -> Option<int> {
    match first {
        Some(d) => if d - LOOKBEHIND_DAYS >= MIN_DAY {
            Some(d - LOOKBEHIND_DAYS)
        } else {
            None
        },
        None => None,
    }
}

/// The same, written out; empty where there is no such day.
pub open spec fn floor_text(first: Option<int>) -> Seq<char> {
    match floor_day(first) {
        Some(d) => match date_text(d) {
            Some(t) => t,
            None => ""@,
        },
        None => ""@,
    }
}

/// From which day on prices are looked at.
pub fn judge_floor(first: Option<i32>) -> (r: String)
    ensures
        r@ == floor_text(
            match first {
                Some(d) => Some(d as int),
                None => None,
            },
        ),
{
    match first {
        Some(d) => {
            if d < MIN_DAY + LOOKBEHIND_DAYS {
                return "".to_owned();
            }
            match format_day(d - LOOKBEHIND_DAYS) {
                Some(t) => t,
                None => "".to_owned(),
            }
        },
        None => "".to_owned(),
    }
}

/// From which day on prices are looked at, by the dates of the sales.
pub fn hindsight_floor(dates: &Vec<String>) -> (r: String)
    ensures
        r@ == floor_text(
            match earliest(string_views(dates@)) {
                Some(d) => date_number(d),
                None => None,
            },
        ),
{
    let ghost all = string_views(dates@);
    let mut first: Option<usize> = None;
    let mut i: usize = 0;
    assert(all.take(0) =~= seq![]);
    while i < dates.len()
        invariant
            i <= dates.len(),
            all == string_views(dates@),
            match first {
                Some(k) => k < dates.len() && earliest(all.take(i as int)) == Some(all[k as int]),
                None => earliest(all.take(i as int)) is None,
            },
        decreases dates.len() - i,
    {
        proof {
            assert(all.take(i + 1).drop_last() =~= all.take(i as int));
            assert(all.take(i + 1).last() == dates@[i as int]@);
        }
        let earlier = match first {
            Some(k) => is_before(dates[i].as_str(), dates[k].as_str()),
            None => true,
        };
        if earlier {
            first = Some(i);
        }
        i += 1;
    }
    assert(all.take(dates.len() as int) =~= all);
    match first {
        Some(k) => judge_floor(parse_day(dates[k].as_str())),
        None => judge_floor(None),
    }
}

// ---------------------------------------------------------------------------
// The sales
// ---------------------------------------------------------------------------

/// A sale, in the currency the symbol trades in.
#[derive(Debug)]
pub struct Sale {
    pub symbol: String,
    pub currency: String,
    pub date: String,
    pub quantity: Number,
    pub price: Number,
    /// What a share had cost, where its purchase is on record.
    pub cost: Option<Number>,
}

/// One sale as it is shown.
#[derive(Debug)]
pub struct HindsightRow {
    pub symbol: String,
    pub currency: String,
    pub sale_date: String,
    pub quantity: Number,
    pub sale_price: Number,
    pub purchase_price: Option<Number>,
    /// What the sale made on the purchase, in per cent.
    pub realised_pct: Option<Number>,
    pub delisted_on: Option<String>,
    /// Which sale it is.
    pub sale: usize,
}

/// What a sale made on the purchase, in per cent.
pub open spec fn realised<F: Fn(Formula) -> Number>(
    calc: F,
    price: Number,
    cost: Option<Number>,
) -> Option<Number> {
    match cost {
        Some(c) => if c.positive() {
            Some(worth(calc, percentage(difference(num(price), num(c)), num(c))))
        } else {
            None
        },
        None => None,
    }
}

/// The day from which on the symbol is no longer listed, written out.
pub open spec fn delisted(dead: Map<Seq<char>, String>, symbol: Seq<char>) -> Option<Seq<char>> {
    match found(dead, symbol) {
        Some(d) => match date_number(d@) {
            Some(n) => date_text(n),
            None => None,
        },
        None => None,
    }
}

/// Whether `row` shows sale number `k`.
pub open spec fn shows_sale<F: Fn(Formula) -> Number>(
    calc: F,
    row: HindsightRow,
    sales: Seq<Sale>,
    k: int,
    dead: Map<Seq<char>, String>,
) -> bool {
    &&& row.sale == k
    &&& row.symbol@ == sales[k].symbol@
    &&& row.currency@ == sales[k].currency@
    &&& row.sale_date@ == sales[k].date@
    &&& row.quantity == sales[k].quantity
    &&& row.sale_price == sales[k].price
    &&& row.purchase_price == sales[k].cost
    &&& row.realised_pct == realised(calc, sales[k].price, sales[k].cost)
    &&& option_view(row.delisted_on) == delisted(dead, sales[k].symbol@)
}

/// The sales that have a date, by number.
pub open spec fn dated_sales(sales: Seq<Sale>) -> Seq<int>
    decreases sales.len(),
{
    if sales.len() == 0 {
        seq![]
    } else {
        let earlier = dated_sales(sales.drop_last());
        if date_number(sales.last().date@) is Some {
            earlier.push(sales.len() - 1)
        } else {
            earlier
        }
    }
}

/// Whether the rows show the sales that have a date, one each.
pub open spec fn shows_dated_sales<F: Fn(Formula) -> Number>(
    calc: F,
    rows: Seq<HindsightRow>,
    sales: Seq<Sale>,
    dead: Map<Seq<char>, String>,
) -> bool {
    &&& rows.len() == dated_sales(sales).len()
    &&& forall|i: int|
        0 <= i < rows.len() ==> shows_sale(
            calc,
            #[trigger] rows[i],
            sales,
            dated_sales(sales)[i],
            dead,
        )
}

impl Ranked for HindsightRow {
    open spec fn precedes(self, other: Self) -> bool {
        text_before(other.sale_date@, self.sale_date@) || self.sale_date@ == other.sale_date@
            && text_before(self.symbol@, other.symbol@)
    }

    proof fn precedes_is_irreflexive(a: Self) {
        text_order_is_irreflexive(a.sale_date@);
        text_order_is_irreflexive(a.symbol@);
    }

    proof fn precedes_is_transitive(a: Self, b: Self, c: Self) {
        if text_before(c.sale_date@, b.sale_date@) && text_before(b.sale_date@, a.sale_date@) {
            text_order_is_transitive(c.sale_date@, b.sale_date@, a.sale_date@);
        }
        if text_before(a.symbol@, b.symbol@) && text_before(b.symbol@, c.symbol@) {
            text_order_is_transitive(a.symbol@, b.symbol@, c.symbol@);
        }
    }

    proof fn ties_are_transitive(a: Self, b: Self, c: Self) {
        text_order_is_total(a.sale_date@, b.sale_date@);
        text_order_is_total(b.sale_date@, c.sale_date@);
        text_order_is_total(a.symbol@, b.symbol@);
        text_order_is_total(b.symbol@, c.symbol@);
        text_order_is_irreflexive(a.sale_date@);
        text_order_is_irreflexive(a.symbol@);
        if text_before(c.sale_date@, a.sale_date@) && text_before(a.sale_date@, b.sale_date@) {
            text_order_is_transitive(c.sale_date@, a.sale_date@, b.sale_date@);
        }
        if text_before(b.sale_date@, c.sale_date@) && text_before(c.sale_date@, a.sale_date@) {
            text_order_is_transitive(b.sale_date@, c.sale_date@, a.sale_date@);
        }
        if text_before(a.sale_date@, b.sale_date@) && text_before(b.sale_date@, c.sale_date@) {
            text_order_is_transitive(a.sale_date@, b.sale_date@, c.sale_date@);
            if text_before(c.sale_date@, a.sale_date@) {
                text_order_is_transitive(c.sale_date@, a.sale_date@, c.sale_date@);
                text_order_is_irreflexive(c.sale_date@);
            }
        }
        if text_before(b.symbol@, a.symbol@) && text_before(a.symbol@, c.symbol@) {
            text_order_is_transitive(b.symbol@, a.symbol@, c.symbol@);
        }
        if text_before(a.symbol@, c.symbol@) && text_before(c.symbol@, b.symbol@) {
            text_order_is_transitive(a.symbol@, c.symbol@, b.symbol@);
        }
    }

    fn goes_before(&self, other: &Self) -> (r: bool) {
        if is_before(other.sale_date.as_str(), self.sale_date.as_str()) {
            true
        } else {
            same(self.sale_date.as_str(), other.sale_date.as_str()) && is_before(
                self.symbol.as_str(),
                other.symbol.as_str(),
            )
        }
    }
}

/// What is said of a sale without a date.
pub fn undated_sale(date: &str) -> (r: String)
    ensures
        r@ == "Sale dated '"@ + date@ + "' is not a usable date and was skipped"@,
{
    joined3("Sale dated '", date, "' is not a usable date and was skipped")
}

/// The sales as they are shown: the latest first, by symbol within a day. Sales
/// without a date are left out.
pub fn get_hindsight<F: Fn(Formula) -> Number>(
    sales: &Vec<Sale>,
    dead: &TextMap<String>,
    calc: &F,
) -> (r: Vec<HindsightRow>)
    requires
        is_calculator(*calc),
    ensures
        exists|unsorted: Seq<HindsightRow>| #[trigger]
            are_ranked(r@, unsorted) && shows_dated_sales(
                *calc,
                unsorted,
                sales@,
                dead@,
            ),
{
    let mut rows: Vec<HindsightRow> = Vec::new();
    let mut i: usize = 0;
    assert(sales@.take(0) =~= seq![]);
    while i < sales.len()
        invariant
            i <= sales.len(),
            is_calculator(*calc),
            rows@.len() == dated_sales(sales@.take(i as int)).len(),
            forall|j: int|
                0 <= j < rows@.len() ==> shows_sale(
                    *calc,
                    #[trigger] rows@[j],
                    sales@,
                    dated_sales(sales@.take(i as int))[j],
                    dead@,
                ),
        decreases sales.len() - i,
    {
        proof {
            assert(sales@.take(i + 1).drop_last() =~= sales@.take(i as int));
            assert(sales@.take(i + 1).last() == sales@[i as int]);
        }
        let sale = &sales[i];
        if parse_day(sale.date.as_str()).is_some() {
            let realised_pct = match sale.cost {
                Some(c) => if c.is_positive() {
                    Some(
                        evaluate(
                            calc,
                            Formula::of(sale.price).minus(Formula::of(c)).percent_of(
                                Formula::of(c),
                            ),
                        ),
                    )
                } else {
                    None
                },
                None => None,
            };
            let delisted_on = match dead.get(sale.symbol.as_str()) {
                Some(d) => match parse_day(d.as_str()) {
                    Some(n) => format_day(n),
                    None => None,
                },
                None => None,
            };
            rows.push(
                HindsightRow {
                    symbol: sale.symbol.clone(),
                    currency: sale.currency.clone(),
                    sale_date: sale.date.clone(),
                    quantity: sale.quantity,
                    sale_price: sale.price,
                    purchase_price: sale.cost,
                    realised_pct,
                    delisted_on,
                    sale: i,
                },
            );
        }
        i += 1;
    }
    assert(sales@.take(sales.len() as int) =~= sales@);
    let ghost unsorted = rows@;
    let r = sorted(rows);
    assert(are_ranked(r@, unsorted));
    r
}

// ---------------------------------------------------------------------------
// What was realised
// ---------------------------------------------------------------------------

/// What a sale came to.
#[derive(Debug)]
pub struct SoldEntry {
    pub symbol: String,
    pub date: String,
    pub quantity: Number,
    pub avg_purchase_price: Number,
    pub sale_price: Number,
    pub brokerage: Number,
    pub dividends: Number,
    pub days_held: i64,
    pub realised_pl: Number,
}

impl Ranked for SoldEntry {
    open spec fn precedes(self, other: Self) -> bool {
        text_before(other.date@, self.date@)
    }

    proof fn precedes_is_irreflexive(a: Self) {
        text_order_is_irreflexive(a.date@);
    }

    proof fn precedes_is_transitive(a: Self, b: Self, c: Self) {
        text_order_is_transitive(c.date@, b.date@, a.date@);
    }

    proof fn ties_are_transitive(a: Self, b: Self, c: Self) {
        text_order_is_total(a.date@, b.date@);
        if text_before(c.date@, a.date@) {
            if text_before(a.date@, b.date@) {
                text_order_is_transitive(c.date@, a.date@, b.date@);
            }
        }
    }

    fn goes_before(&self, other: &Self) -> (r: bool) {
        is_before(other.date.as_str(), self.date.as_str())
    }
}

/// What all the sales made.
pub open spec fn total_realised<F: Fn(Formula) -> Number>(calc: F, entries: Seq<SoldEntry>) -> Number
    decreases entries.len(),
{
    if entries.len() == 0 {
        number(ZERO_BITS)
    } else {
        worth(
            calc,
            sum(num(total_realised(calc, entries.drop_last())), num(entries.last().realised_pl)),
        )
    }
}

/// What all that was sold had cost.
pub open spec fn total_cost<F: Fn(Formula) -> Number>(calc: F, entries: Seq<SoldEntry>) -> Number
    decreases entries.len(),
{
    if entries.len() == 0 {
        number(ZERO_BITS)
    } else {
        let e = entries.last();
        worth(
            calc,
            sum(
                num(total_cost(calc, entries.drop_last())),
                product(num(e.avg_purchase_price), num(e.quantity)),
            ),
        )
    }
}

/// The sales with what they come to.
#[derive(Debug)]
pub struct SoldReport {
    pub entries: Vec<SoldEntry>,
    pub total_realised_pl: Number,
    pub total_cost: Number,
}

/// The sales, the latest first, with what they come to.
pub fn get_portfolio_sold<F: Fn(Formula) -> Number>(entries: Vec<SoldEntry>, calc: &F) -> (r:
    SoldReport)
    requires
        is_calculator(*calc),
    ensures
        are_ranked(r.entries@, entries@),
        r.total_realised_pl == total_realised(*calc, r.entries@),
        r.total_cost == total_cost(*calc, r.entries@),
{
    let entries = sorted(entries);
    let mut pl = Number { bits: ZERO_BITS };
    let mut cost = Number { bits: ZERO_BITS };
    let mut i: usize = 0;
    assert(entries@.take(0) =~= seq![]);
    while i < entries.len()
        invariant
            i <= entries.len(),
            is_calculator(*calc),
            pl == total_realised(*calc, entries@.take(i as int)),
            cost == total_cost(*calc, entries@.take(i as int)),
        decreases entries.len() - i,
    {
        assert(entries@.take(i + 1).drop_last() =~= entries@.take(i as int));
        let e = &entries[i];
        pl = evaluate(calc, Formula::of(pl).plus(Formula::of(e.realised_pl)));
        cost = evaluate(
            calc,
            Formula::of(cost).plus(Formula::of(e.avg_purchase_price).times(Formula::of(e.quantity))),
        );
        i += 1;
    }
    assert(entries@.take(entries.len() as int) =~= entries@);
    SoldReport { entries, total_realised_pl: pl, total_cost: cost }
}

/// What a sale made is its price less what a share had cost, in per cent of that;
/// unknown where the cost is, or is nothing.
pub proof fn a_sale_makes_its_price_less_its_cost<F: Fn(Formula) -> Number>(
    calc: F,
    r: Reading,
    price: Number,
    cost: Number,
)
    requires
        is_exact(calc, r),
        r.is_plain(price) && r.is_plain(cost),
        r.of(cost) > 0 as real ==> r.can(r.of(price) - r.of(cost)) && r.can(
            (r.of(price) - r.of(cost)) / r.of(cost),
        ) && r.can((r.of(price) - r.of(cost)) / r.of(cost) * 100 as real),
    ensures
        r.of(cost) > 0 as real ==> realised(calc, price, Some(cost)) is Some && r.of(
            realised(calc, price, Some(cost))->0,
        ) == (r.of(price) - r.of(cost)) / r.of(cost) * 100 as real,
        r.of(cost) <= 0 as real ==> realised(calc, price, Some(cost)) is None,
        realised(calc, price, None) is None,
{
    reveal_with_fuel(exact, 6);
    reveal_with_fuel(unrounded, 6);
    lemma_sign(calc, r, cost);
    if r.of(cost) > 0 as real {
        lemma_exact(calc, r, percentage(difference(num(price), num(cost)), num(cost)));
    }
}

/// The bars that are looked at go back to a week before the first sale.
pub proof fn bars_go_back_a_week_before_the_first_sale(first: int)
    requires
        MIN_DAY + 7 <= first,
    ensures
        floor_day(Some(first)) == Some(first - 7),
        floor_day(None) is None,
{
}

/// Newer sales come first, and of one day those whose symbols come first.
pub proof fn newer_sales_come_first(a: HindsightRow, b: HindsightRow)
    ensures
        text_before(b.sale_date@, a.sale_date@) ==> a.precedes(b),
        a.sale_date@ == b.sale_date@ && text_before(a.symbol@, b.symbol@) ==> a.precedes(b),
        text_before(a.sale_date@, b.sale_date@) ==> !a.precedes(b),
{
    if text_before(a.sale_date@, b.sale_date@) {
        if text_before(b.sale_date@, a.sale_date@) {
            text_order_is_transitive(a.sale_date@, b.sale_date@, a.sale_date@);
        }
        text_order_is_irreflexive(a.sale_date@);
    }
}

/// Of what was sold, the newest comes first.
pub proof fn what_was_sold_last_comes_first(a: SoldEntry, b: SoldEntry)
    ensures
        text_before(b.date@, a.date@) <==> a.precedes(b),
{
}

/// What was realised in all grows by what each sale made, and what was paid for
/// the shares sold by their price times their number.
pub proof fn sold_totals_grow_by_each_sale<F: Fn(Formula) -> Number>(
    calc: F,
    r: Reading,
    entries: Seq<SoldEntry>,
    e: SoldEntry,
)
    requires
        is_exact(calc, r),
        r.is_plain(total_realised(calc, entries)) && r.is_plain(total_cost(calc, entries)),
        r.is_plain(e.realised_pl) && r.is_plain(e.avg_purchase_price) && r.is_plain(e.quantity),
        r.can(r.of(total_realised(calc, entries)) + r.of(e.realised_pl)),
        r.can(r.of(e.avg_purchase_price) * r.of(e.quantity)),
        r.can(
            r.of(total_cost(calc, entries)) + r.of(e.avg_purchase_price) * r.of(e.quantity),
        ),
    ensures
        r.of(total_realised(calc, entries.push(e))) == r.of(total_realised(calc, entries)) + r.of(
            e.realised_pl,
        ),
        r.of(total_cost(calc, entries.push(e))) == r.of(total_cost(calc, entries)) + r.of(
            e.avg_purchase_price,
        ) * r.of(e.quantity),
        total_realised(calc, Seq::empty()) == number(0),
        total_cost(calc, Seq::empty()) == number(0),
{
    reveal_with_fuel(exact, 5);
    reveal_with_fuel(unrounded, 5);
    assert(entries.push(e).drop_last() =~= entries);
    lemma_exact(calc, r, sum(num(total_realised(calc, entries)), num(e.realised_pl)));
    lemma_exact(
        calc,
        r,
        sum(
            num(total_cost(calc, entries)),
            product(num(e.avg_purchase_price), num(e.quantity)),
        ),
    );
}

/// A sale is shown once where its day can be read, and not otherwise.
pub proof fn every_dated_sale_is_shown(sales: Seq<Sale>)
    ensures
        forall|k: int| #[trigger]
            dated_sales(sales).contains(k) <==> 0 <= k < sales.len() && date_number(
                sales[k].date@,
            ) is Some,
        forall|i: int, j: int|
            0 <= i < j < dated_sales(sales).len() ==> dated_sales(sales)[i] < dated_sales(sales)[j],
    decreases sales.len(),
{
    if sales.len() > 0 {
        let less = sales.drop_last();
        every_dated_sale_is_shown(less);
        let before = dated_sales(less);
        let now = dated_sales(sales);
        assert forall|i: int| 0 <= i < before.len() implies #[trigger] before[i] < sales.len() - 1 by {
            assert(before.contains(before[i]));
        }
        assert forall|k: int| #[trigger] now.contains(k) <==> 0 <= k < sales.len() && date_number(
            sales[k].date@,
        ) is Some by {
            if now.contains(k) {
                let i = choose|i: int| 0 <= i < now.len() && now[i] == k;
                if i < before.len() {
                    assert(before.contains(k));
                    assert(less[k] == sales[k]);
                }
            }
            if 0 <= k < sales.len() && date_number(sales[k].date@) is Some {
                if k < sales.len() - 1 {
                    assert(less[k] == sales[k]);
                    assert(before.contains(k));
                    let i = choose|i: int| 0 <= i < before.len() && before[i] == k;
                    assert(now[i] == k);
                } else {
                    assert(now[before.len() as int] == k);
                }
            }
        }
    }
}

/// The bars of a hindsight go back to the text of the day a week before the first
/// sale, and to nothing where there is none; a symbol is delisted on the day it is
/// marked with, where that is one.
pub proof fn how_far_a_hindsight_goes(
    first: int,
    dead: Map<Seq<char>, String>,
    symbol: Seq<char>,
)
    ensures
        MIN_DAY + 7 <= first && date_text(first - 7) is Some ==> floor_text(Some(first))
            == date_text(first - 7)->0,
        first < MIN_DAY + 7 ==> floor_text(Some(first)) == ""@,
        floor_text(None) == ""@,
        !dead.contains_key(symbol) ==> delisted(dead, symbol) is None,
        dead.contains_key(symbol) && date_number(dead[symbol]@) is None ==> delisted(
            dead,
            symbol,
        ) is None,
        dead.contains_key(symbol) && date_number(dead[symbol]@) is Some ==> delisted(dead, symbol)
            == date_text(date_number(dead[symbol]@)->0),
{
}

/// A row shows the sale it is of: its symbol, day, quantity and price, with what
/// the shares had cost.
pub proof fn a_row_shows_its_own_sale<F: Fn(Formula) -> Number>(
    calc: F,
    rows: Seq<HindsightRow>,
    sales: Seq<Sale>,
    dead: Map<Seq<char>, String>,
    i: int,
)
    requires
        shows_dated_sales(calc, rows, sales, dead),
        0 <= i < rows.len(),
    ensures
        ({
            let s = sales[rows[i].sale as int];
            &&& rows[i].sale < sales.len()
            &&& rows[i].symbol@ == s.symbol@ && rows[i].currency@ == s.currency@
            &&& rows[i].sale_date@ == s.date@ && date_number(s.date@) is Some
            &&& rows[i].quantity == s.quantity && rows[i].sale_price == s.price
            &&& rows[i].purchase_price == s.cost
            &&& rows[i].realised_pct is Some ==> s.cost is Some && s.cost->0.positive()
        }),
        forall|j: int| 0 <= j < i ==> (#[trigger] rows[j]).sale < rows[i].sale,
{
    every_dated_sale_is_shown(sales);
    let shown = dated_sales(sales);
    assert(shown.contains(shown[i]));
    assert(shows_sale(calc, rows[i], sales, shown[i], dead));
    assert forall|j: int| 0 <= j < i implies (#[trigger] rows[j]).sale < rows[i].sale by {
        assert(shows_sale(calc, rows[j], sales, shown[j], dead));
        assert(shown[j] < shown[i]);
    }
}

} // verus!
