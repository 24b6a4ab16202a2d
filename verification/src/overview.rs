//! The dashboard's totals: what the portfolio is worth and has earned, by kind
//! and by sector, and its best and worst.
use vstd::prelude::*;
use crate::exact::{exact, is_exact, lemma_exact, lemma_sign, unrounded, Reading};
use crate::lists::{is_top, position_views, rank_views, ranked_positions, shown_before};
use crate::number::{
    difference, evaluate, is_calculator, num, number, percentage, product, sum, worth, Formula, Number,
    ZERO_BITS,
};
use crate::order::lemma_onto;
use crate::stops::nonzero;
use crate::text::{contains_text, same, string_views};
use crate::valuation::{market_value, profit, profit_of, value_of_shares};

verus! {

broadcast use vstd::string::group_string_axioms;

/// The position in one symbol.
#[derive(Debug)]
pub struct PositionRow {
    pub symbol: String,
    /// The shares left.
    pub shares: Number,
    /// The price in the base currency.
    pub price: Option<Number>,
    /// What the shares cost, by the basis that the holdings screen uses too.
    pub cost: Number,
    pub dividends: Number,
    pub etf: bool,
    pub sector: Option<String>,
    pub sold_proceeds: Number,
    pub sold_dividends: Number,
    pub sold_pl: Number,
}

/// Figures added up over several symbols.
#[derive(Clone, Copy, PartialEq, Eq, Structural, Debug)]
pub struct Agg {
    pub count: usize,
    pub value: Number,
    pub dividends: Number,
    pub pl: Number,
    pub cost: Number,
}

/// Figures added up over several symbols.
pub struct AggView {
    pub count: int,
    pub value: Number,
    pub dividends: Number,
    pub pl: Number,
    pub cost: Number,
}

impl View for Agg {
    type V = AggView;

    open spec fn view(&self) -> AggView {
        AggView {
            count: self.count as int,
            value: self.value,
            dividends: self.dividends,
            pl: self.pl,
            cost: self.cost,
        }
    }
}

/// No figures.
pub open spec fn no_figures() -> AggView {
    AggView {
        count: 0,
        value: number(ZERO_BITS),
        dividends: number(ZERO_BITS),
        pl: number(ZERO_BITS),
        cost: number(ZERO_BITS),
    }
}

/// One number added to another.
pub open spec fn plus<F: Fn(Formula) -> Number>(calc: F, a: Number, b: Number) -> Number {
    worth(calc, sum(num(a), num(b)))
}

/// The figures with one more symbol.
pub open spec fn with_symbol<F: Fn(Formula) -> Number>(calc: F, a: AggView, one: AggView) -> AggView {
    AggView {
        count: a.count + 1,
        value: plus(calc, a.value, one.value),
        dividends: plus(calc, a.dividends, one.dividends),
        pl: plus(calc, a.pl, one.pl),
        cost: plus(calc, a.cost, one.cost),
    }
}

/// The figures of what is held of one symbol.
pub open spec fn held_figures<F: Fn(Formula) -> Number>(calc: F, row: PositionRow) -> AggView {
    let value = market_value(calc, row.shares, row.price);
    AggView {
        count: 1,
        value,
        dividends: row.dividends,
        pl: profit(calc, value, row.cost, row.dividends),
        cost: row.cost,
    }
}

/// The figures of what was sold of one symbol. Its cost is what the proceeds
/// leave when the profit is taken off and the dividends are put back.
pub open spec fn sold_figures<F: Fn(Formula) -> Number>(calc: F, row: PositionRow) -> AggView {
    AggView {
        count: 1,
        value: row.sold_proceeds,
        dividends: row.sold_dividends,
        pl: row.sold_pl,
        cost: worth(
            calc,
            sum(
                difference(num(row.sold_proceeds), num(row.sold_pl)),
                num(row.sold_dividends),
            ),
        ),
    }
}

/// The name of a symbol's sector.
pub open spec fn sector_name(row: PositionRow) -> Seq<char> {
    match row.sector {
        Some(s) => s@,
        None => "Unallocated"@,
    }
}

/// Which symbols a sum is taken over.
pub enum Part {
    /// All that are held.
    Held,
    /// Those that are funds.
    Funds,
    /// Those that are none.
    Shares,
    /// Those of a sector.
    Sector(Seq<char>),
}

/// Whether a symbol is held and belongs to that part.
pub open spec fn belongs(row: PositionRow, part: Part) -> bool {
    &&& row.shares.positive()
    &&& match part {
        Part::Held => true,
        Part::Funds => row.etf,
        Part::Shares => !row.etf,
        Part::Sector(name) => sector_name(row) == name,
    }
}

/// The figures of a part of the holdings.
pub open spec fn part_figures<F: Fn(Formula) -> Number>(
    calc: F,
    rows: Seq<PositionRow>,
    part: Part,
) -> AggView
    decreases rows.len(),
{
    if rows.len() == 0 {
        no_figures()
    } else {
        let earlier = part_figures(calc, rows.drop_last(), part);
        if belongs(rows.last(), part) {
            with_symbol(calc, earlier, held_figures(calc, rows.last()))
        } else {
            earlier
        }
    }
}

/// The figures of what was sold.
pub open spec fn sales_figures<F: Fn(Formula) -> Number>(calc: F, rows: Seq<PositionRow>) -> AggView
    decreases rows.len(),
{
    if rows.len() == 0 {
        no_figures()
    } else {
        let earlier = sales_figures(calc, rows.drop_last());
        if rows.last().sold_proceeds.positive() {
            with_symbol(calc, earlier, sold_figures(calc, rows.last()))
        } else {
            earlier
        }
    }
}

/// The profit of all sales.
pub open spec fn sales_profit<F: Fn(Formula) -> Number>(calc: F, rows: Seq<PositionRow>) -> Number
    decreases rows.len(),
{
    if rows.len() == 0 {
        number(ZERO_BITS)
    } else {
        plus(calc, sales_profit(calc, rows.drop_last()), rows.last().sold_pl)
    }
}

/// The sectors of what is held, each once, as they first come.
pub open spec fn sector_names(rows: Seq<PositionRow>) -> Seq<Seq<char>>
    decreases rows.len(),
{
    if rows.len() == 0 {
        seq![]
    } else {
        let earlier = sector_names(rows.drop_last());
        if rows.last().shares.positive() && !earlier.contains(sector_name(rows.last())) {
            earlier.push(sector_name(rows.last()))
        } else {
            earlier
        }
    }
}

// ---------------------------------------------------------------------------
// Adding up
// ---------------------------------------------------------------------------

impl Agg {
    fn none() -> (r: Agg)
        ensures
            r@ == no_figures(),
    {
        let zero = Number { bits: ZERO_BITS };
        Agg { count: 0, value: zero, dividends: zero, pl: zero, cost: zero }
    }

    fn with<F: Fn(Formula) -> Number>(self, one: &Agg, calc: &F) -> (r: Agg)
        requires
            is_calculator(*calc),
            self.count < usize::MAX,
        ensures
            r@ == with_symbol(*calc, self@, one@),
    {
        Agg {
            count: self.count + 1,
            value: evaluate(calc, Formula::of(self.value).plus(Formula::of(one.value))),
            dividends: evaluate(
                calc,
                Formula::of(self.dividends).plus(Formula::of(one.dividends)),
            ),
            pl: evaluate(calc, Formula::of(self.pl).plus(Formula::of(one.pl))),
            cost: evaluate(calc, Formula::of(self.cost).plus(Formula::of(one.cost))),
        }
    }
}

fn held_one<F: Fn(Formula) -> Number>(row: &PositionRow, calc: &F) -> (r: Agg)
    requires
        is_calculator(*calc),
    ensures
        r@ == held_figures(*calc, *row),
{
    let value = value_of_shares(row.shares, row.price, calc);
    Agg {
        count: 1,
        value,
        dividends: row.dividends,
        pl: profit_of(value, row.cost, row.dividends, calc),
        cost: row.cost,
    }
}

fn sold_one<F: Fn(Formula) -> Number>(row: &PositionRow, calc: &F) -> (r: Agg)
    requires
        is_calculator(*calc),
    ensures
        r@ == sold_figures(*calc, *row),
{
    let cost = evaluate(
        calc,
        Formula::of(row.sold_proceeds).minus(Formula::of(row.sold_pl)).plus(
            Formula::of(row.sold_dividends),
        ),
    );
    Agg {
        count: 1,
        value: row.sold_proceeds,
        dividends: row.sold_dividends,
        pl: row.sold_pl,
        cost,
    }
}

/// No part counts more symbols than there are.
proof fn lemma_count<F: Fn(Formula) -> Number>(calc: F, rows: Seq<PositionRow>, part: Part)
    ensures
        0 <= part_figures(calc, rows, part).count <= rows.len(),
        0 <= sales_figures(calc, rows).count <= rows.len(),
    decreases rows.len(),
{
    if rows.len() > 0 {
        lemma_count(calc, rows.drop_last(), part);
    }
}

fn sector_of_row(row: &PositionRow) -> (r: &str)
    ensures
        r@ == sector_name(*row),
{
    match &row.sector {
        Some(s) => s.as_str(),
        None => "Unallocated",
    }
}

/// The figures of one sector.
fn sector_sum<F: Fn(Formula) -> Number>(rows: &Vec<PositionRow>, name: &str, calc: &F) -> (r: Agg)
    requires
        is_calculator(*calc),
    ensures
        r@ == part_figures(*calc, rows@, Part::Sector(name@)),
{
    let mut out = Agg::none();
    let mut i: usize = 0;
    while i < rows.len()
        invariant
            i <= rows.len(),
            is_calculator(*calc),
            out@ == part_figures(*calc, rows@.take(i as int), Part::Sector(name@)),
        decreases rows.len() - i,
    {
        proof {
            assert(rows@.take(i + 1).drop_last() =~= rows@.take(i as int));
            lemma_count(*calc, rows@.take(i as int), Part::Sector(name@));
        }
        if rows[i].shares.is_positive() && same(sector_of_row(&rows[i]), name) {
            let one = held_one(&rows[i], calc);
            out = out.with(&one, calc);
        }
        i += 1;
    }
    assert(rows@.take(rows.len() as int) =~= rows@);
    out
}

/// The figures of a sector.
#[derive(Debug)]
pub struct SectorRow {
    pub name: String,
    pub figures: Agg,
}

/// The dashboard's totals.
#[derive(Debug)]
pub struct OverviewTotals {
    pub holdings: Agg,
    pub equities: Agg,
    pub etfs: Agg,
    pub sold: Agg,
    pub sold_pl: Number,
    /// The profit of what is held and of what was sold.
    pub total_pl: Number,
    /// The sectors, the most valuable first.
    pub sectors: Vec<SectorRow>,
}

/// What the sectors are worth, as ranks.
pub open spec fn sector_ranks<F: Fn(Formula) -> Number>(
    calc: F,
    rows: Seq<PositionRow>,
) -> Seq<Option<int>> {
    Seq::new(
        sector_names(rows).len(),
        |i: int| part_figures(calc, rows, Part::Sector(sector_names(rows)[i])).value.place(),
    )
}

/// Whether `sectors` are the sectors of what is held, the most valuable first.
pub open spec fn are_sectors<F: Fn(Formula) -> Number>(
    calc: F,
    sectors: Seq<SectorRow>,
    rows: Seq<PositionRow>,
) -> bool {
    exists|order: Seq<int>|
        {
            &&& #[trigger] is_top(
                order,
                sector_ranks(calc, rows),
                true,
                sector_names(rows).len() as int,
            )
            &&& sectors.len() == order.len()
            &&& forall|i: int|
                0 <= i < sectors.len() ==> (#[trigger] sectors[i]).name@ == sector_names(
                    rows,
                )[order[i]] && sectors[i].figures@ == part_figures(
                    calc,
                    rows,
                    Part::Sector(sectors[i].name@),
                )
        }
}

fn sectors_of<F: Fn(Formula) -> Number>(rows: &Vec<PositionRow>, calc: &F) -> (r: Vec<SectorRow>)
    requires
        is_calculator(*calc),
    ensures
        are_sectors(*calc, r@, rows@),
{
    let mut names: Vec<String> = Vec::new();
    let mut i: usize = 0;
    assert(string_views(names@) =~= seq![]);
    while i < rows.len()
        invariant
            i <= rows.len(),
            string_views(names@) == sector_names(rows@.take(i as int)),
        decreases rows.len() - i,
    {
        let ghost before = string_views(names@);
        assert(rows@.take(i + 1).drop_last() =~= rows@.take(i as int));
        let name = sector_of_row(&rows[i]);
        if rows[i].shares.is_positive() && !contains_text(&names, name) {
            names.push(name.to_owned());
            assert(string_views(names@) =~= before.push(name@));
        }
        i += 1;
    }
    assert(rows@.take(rows.len() as int) =~= rows@);
    let ghost all = sector_names(rows@);
    let mut sums: Vec<Agg> = Vec::new();
    let mut ranks: Vec<Option<i64>> = Vec::new();
    let mut k: usize = 0;
    while k < names.len()
        invariant
            k <= names.len(),
            is_calculator(*calc),
            all == string_views(names@),
            all == sector_names(rows@),
            sums@.len() == k,
            ranks@.len() == k,
            forall|j: int|
                0 <= j < k ==> (#[trigger] sums@[j])@ == part_figures(
                    *calc,
                    rows@,
                    Part::Sector(all[j]),
                ),
            forall|j: int|
                0 <= j < k ==> (#[trigger] rank_views(ranks@)[j]) == part_figures(
                    *calc,
                    rows@,
                    Part::Sector(all[j]),
                ).value.place(),
        decreases names.len() - k,
    {
        let ghost before = ranks@;
        assert(all[k as int] == names@[k as int]@);
        let figures = sector_sum(rows, names[k].as_str(), calc);
        let rank = figures.value.rank();
        ranks.push(rank);
        sums.push(figures);
        proof {
            assert forall|j: int| 0 <= j <= k implies (#[trigger] rank_views(ranks@)[j])
                == part_figures(*calc, rows@, Part::Sector(all[j])).value.place() by {
                if j < k {
                    assert(rank_views(before)[j] == rank_views(ranks@)[j]);
                }
            }
        }
        k += 1;
    }
    assert(rank_views(ranks@) =~= sector_ranks(*calc, rows@));
    let order = ranked_positions(&ranks, true, names.len());
    let mut out: Vec<SectorRow> = Vec::new();
    let mut m: usize = 0;
    while m < order.len()
        invariant
            m <= order.len(),
            all == string_views(names@),
            sums@.len() == names@.len(),
            ranks@.len() == names@.len(),
            is_top(position_views(order@), rank_views(ranks@), true, names@.len() as int),
            forall|j: int|
                0 <= j < sums@.len() ==> (#[trigger] sums@[j])@ == part_figures(
                    *calc,
                    rows@,
                    Part::Sector(all[j]),
                ),
            out@.len() == m,
            forall|j: int|
                0 <= j < m ==> (#[trigger] out@[j]).name@ == all[position_views(order@)[j]]
                    && out@[j].figures@ == part_figures(
                    *calc,
                    rows@,
                    Part::Sector(out@[j].name@),
                ),
        decreases order.len() - m,
    {
        assert(position_views(order@)[m as int] == order@[m as int]);
        let at: usize = order[m];
        out.push(SectorRow { name: names[at].clone(), figures: sums[at] });
        m += 1;
    }
    out
}

/// Whether these are the totals of some positions.
pub open spec fn are_totals<F: Fn(Formula) -> Number>(
    calc: F,
    totals: OverviewTotals,
    rows: Seq<PositionRow>,
) -> bool {
    &&& totals.holdings@ == part_figures(calc, rows, Part::Held)
    &&& totals.etfs@ == part_figures(calc, rows, Part::Funds)
    &&& totals.equities@ == part_figures(calc, rows, Part::Shares)
    &&& totals.sold@ == sales_figures(calc, rows)
    &&& totals.sold_pl == sales_profit(calc, rows)
    &&& totals.total_pl == plus(calc, totals.holdings.pl, totals.sold_pl)
    &&& are_sectors(calc, totals.sectors@, rows)
}

/// The dashboard's totals, added up over the positions in their order.
pub fn overview_totals<F: Fn(Formula) -> Number>(rows: &Vec<PositionRow>, calc: &F) -> (r:
    OverviewTotals)
    requires
        is_calculator(*calc),
    ensures
        are_totals(*calc, r, rows@),
{
    let mut holdings = Agg::none();
    let mut etfs = Agg::none();
    let mut equities = Agg::none();
    let mut sold = Agg::none();
    let mut sold_pl = Number { bits: ZERO_BITS };
    let mut i: usize = 0;
    while i < rows.len()
        invariant
            i <= rows.len(),
            is_calculator(*calc),
            holdings@ == part_figures(*calc, rows@.take(i as int), Part::Held),
            etfs@ == part_figures(*calc, rows@.take(i as int), Part::Funds),
            equities@ == part_figures(*calc, rows@.take(i as int), Part::Shares),
            sold@ == sales_figures(*calc, rows@.take(i as int)),
            sold_pl == sales_profit(*calc, rows@.take(i as int)),
        decreases rows.len() - i,
    {
        proof {
            assert(rows@.take(i + 1).drop_last() =~= rows@.take(i as int));
            lemma_count(*calc, rows@.take(i as int), Part::Held);
            lemma_count(*calc, rows@.take(i as int), Part::Funds);
            lemma_count(*calc, rows@.take(i as int), Part::Shares);
        }
        let row = &rows[i];
        if row.shares.is_positive() {
            let one = held_one(row, calc);
            holdings = holdings.with(&one, calc);
            if row.etf {
                etfs = etfs.with(&one, calc);
            } else {
                equities = equities.with(&one, calc);
            }
        }
        if row.sold_proceeds.is_positive() {
            let one = sold_one(row, calc);
            sold = sold.with(&one, calc);
        }
        sold_pl = evaluate(calc, Formula::of(sold_pl).plus(Formula::of(row.sold_pl)));
        i += 1;
    }
    assert(rows@.take(rows.len() as int) =~= rows@);
    let total_pl = evaluate(calc, Formula::of(holdings.pl).plus(Formula::of(sold_pl)));
    let sectors = sectors_of(rows, calc);
    OverviewTotals { holdings, equities, etfs, sold, sold_pl, total_pl, sectors }
}

/// Every holding is counted once as a fund or as a share.
pub proof fn funds_and_shares_make_the_holdings<F: Fn(Formula) -> Number>(
    calc: F,
    rows: Seq<PositionRow>,
)
    ensures
        part_figures(calc, rows, Part::Funds).count + part_figures(calc, rows, Part::Shares).count
            == part_figures(calc, rows, Part::Held).count,
    decreases rows.len(),
{
    if rows.len() > 0 {
        funds_and_shares_make_the_holdings(calc, rows.drop_last());
    }
}

/// Every sector that a holding is in is among the sectors, once.
pub proof fn every_holding_is_in_a_sector(rows: Seq<PositionRow>, i: int)
    requires
        0 <= i < rows.len(),
        rows[i].shares.positive(),
    ensures
        sector_names(rows).contains(sector_name(rows[i])),
        sector_names(rows).no_duplicates(),
    decreases rows.len(),
{
    lemma_sectors_distinct(rows);
    let earlier = sector_names(rows.drop_last());
    if i < rows.len() - 1 {
        assert(rows.drop_last()[i] == rows[i]);
        every_holding_is_in_a_sector(rows.drop_last(), i);
        let k = choose|k: int| 0 <= k < earlier.len() && earlier[k] == sector_name(rows[i]);
        assert(sector_names(rows)[k] == sector_name(rows[i]));
    } else if !earlier.contains(sector_name(rows.last())) {
        assert(sector_names(rows)[earlier.len() as int] == sector_name(rows[i]));
    }
}

/// How many holdings some sectors count.
pub open spec fn counted_in(sectors: Seq<SectorRow>) -> int
    decreases sectors.len(),
{
    if sectors.len() == 0 {
        0
    } else {
        counted_in(sectors.drop_last()) + sectors.last().figures@.count
    }
}

/// The sectors make the holdings: their counts add up to the count of what is
/// held. No sector comes twice, and none comes before one that is worth more.
pub proof fn sectors_make_the_holdings<F: Fn(Formula) -> Number>(
    calc: F,
    sectors: Seq<SectorRow>,
    rows: Seq<PositionRow>,
)
    requires
        are_sectors(calc, sectors, rows),
    ensures
        counted_in(sectors) == part_figures(calc, rows, Part::Held).count,
        forall|i: int, j: int|
            0 <= i < j < sectors.len() ==> (#[trigger] sectors[i]).name@ != (
            #[trigger] sectors[j]).name@ && !sectors[i].figures.value.below(
                sectors[j].figures.value,
            ),
{
    let names = sector_names(rows);
    let ranks = sector_ranks(calc, rows);
    let n = names.len() as int;
    let order = choose|order: Seq<int>|
        {
            &&& #[trigger] is_top(order, ranks, true, n)
            &&& sectors.len() == order.len()
            &&& forall|i: int|
                0 <= i < sectors.len() ==> (#[trigger] sectors[i]).name@ == names[order[i]]
                    && sectors[i].figures@ == part_figures(
                    calc,
                    rows,
                    Part::Sector(sectors[i].name@),
                )
        };
    lemma_sectors_distinct(rows);
    assert forall|i: int, j: int| 0 <= i < j < order.len() implies #[trigger] order[i]
        != #[trigger] order[j] by {
        assert(shown_before(ranks, true, order[i], order[j]));
    }
    assert forall|i: int, j: int| 0 <= i < j < sectors.len() implies (#[trigger] sectors[i]).name@
        != (#[trigger] sectors[j]).name@ && !sectors[i].figures.value.below(
        sectors[j].figures.value,
    ) by {
        assert(shown_before(ranks, true, order[i], order[j]));
        assert(names[order[i]] != names[order[j]]);
        assert(ranks[order[i]] == sectors[i].figures@.value.place());
        assert(ranks[order[j]] == sectors[j].figures@.value.place());
    }
    lemma_sectors_weigh(calc, sectors, rows, |row: PositionRow| 1);
    lemma_listed_count(calc, sectors, rows);
    lemma_part_count(calc, rows, Part::Held);
}

/// An amount among the figures.
pub enum Amount {
    Value,
    Dividends,
    Profit,
    Cost,
}

/// An amount among the figures.
pub open spec fn amount_of(figures: AggView, amount: Amount) -> Number {
    match amount {
        Amount::Value => figures.value,
        Amount::Dividends => figures.dividends,
        Amount::Profit => figures.pl,
        Amount::Cost => figures.cost,
    }
}

/// How far two readings lie apart.
pub open spec fn distance(a: int, b: int) -> int {
    if a < b {
        b - a
    } else {
        a - b
    }
}

/// How far adding two numbers misses their sum, numbers being read by `read`.
pub open spec fn addition_error<F: Fn(Formula) -> Number>(
    calc: F,
    read: spec_fn(Number) -> int,
    a: Number,
    b: Number,
) -> int {
    distance(read(plus(calc, a, b)), read(a) + read(b))
}

/// The errors of the additions by which an amount of a part comes about, added
/// up.
pub open spec fn part_error<F: Fn(Formula) -> Number>(
    calc: F,
    read: spec_fn(Number) -> int,
    rows: Seq<PositionRow>,
    part: Part,
    amount: Amount,
) -> int
    decreases rows.len(),
{
    if rows.len() == 0 {
        0
    } else {
        part_error(calc, read, rows.drop_last(), part, amount) + (if belongs(rows.last(), part) {
            addition_error(
                calc,
                read,
                amount_of(part_figures(calc, rows.drop_last(), part), amount),
                amount_of(held_figures(calc, rows.last()), amount),
            )
        } else {
            0
        })
    }
}

/// An amount of some sectors, added up without an error.
pub open spec fn amounts_in(
    read: spec_fn(Number) -> int,
    sectors: Seq<SectorRow>,
    amount: Amount,
) -> int
    decreases sectors.len(),
{
    if sectors.len() == 0 {
        0
    } else {
        amounts_in(read, sectors.drop_last(), amount) + read(
            amount_of(sectors.last().figures@, amount),
        )
    }
}

/// The errors by which an amount of each sector comes about, added up.
pub open spec fn sectors_error<F: Fn(Formula) -> Number>(
    calc: F,
    read: spec_fn(Number) -> int,
    rows: Seq<PositionRow>,
    sectors: Seq<SectorRow>,
    amount: Amount,
) -> int
    decreases sectors.len(),
{
    if sectors.len() == 0 {
        0
    } else {
        sectors_error(calc, read, rows, sectors.drop_last(), amount) + part_error(
            calc,
            read,
            rows,
            Part::Sector(sectors.last().name@),
            amount,
        )
    }
}

/// What a row has of an amount.
spec fn row_amount<F: Fn(Formula) -> Number>(
    calc: F,
    read: spec_fn(Number) -> int,
    amount: Amount,
) -> spec_fn(PositionRow) -> int {
    |row: PositionRow| read(amount_of(held_figures(calc, row), amount))
}

/// Up to rounding, the value, the dividends, the profit and the cost of the
/// holdings are those of the funds and of the shares together: they lie no
/// further apart than the additions made for the three sums err. `read` is any
/// reading of numbers that reads zero as zero; finite numbers are whole multiples
/// of the smallest one, and can be read as how many.
pub proof fn funds_and_shares_make_the_amounts<F: Fn(Formula) -> Number>(
    calc: F,
    read: spec_fn(Number) -> int,
    rows: Seq<PositionRow>,
    amount: Amount,
)
    requires
        read(number(ZERO_BITS)) == 0,
    ensures
        distance(
            read(amount_of(part_figures(calc, rows, Part::Held), amount)),
            read(amount_of(part_figures(calc, rows, Part::Funds), amount)) + read(
                amount_of(part_figures(calc, rows, Part::Shares), amount),
            ),
        ) <= part_error(calc, read, rows, Part::Held, amount) + part_error(
            calc,
            read,
            rows,
            Part::Funds,
            amount,
        ) + part_error(calc, read, rows, Part::Shares, amount),
{
    lemma_part_amount(calc, read, rows, Part::Held, amount);
    lemma_part_amount(calc, read, rows, Part::Funds, amount);
    lemma_part_amount(calc, read, rows, Part::Shares, amount);
    lemma_funds_and_shares_weigh(rows, row_amount(calc, read, amount));
}

/// Up to rounding, the value, the dividends, the profit and the cost of the
/// holdings are those of the sectors together: they lie no further apart than
/// the additions made for all these sums err.
pub proof fn sectors_make_the_amounts<F: Fn(Formula) -> Number>(
    calc: F,
    read: spec_fn(Number) -> int,
    sectors: Seq<SectorRow>,
    rows: Seq<PositionRow>,
    amount: Amount,
)
    requires
        are_sectors(calc, sectors, rows),
        read(number(ZERO_BITS)) == 0,
    ensures
        distance(
            read(amount_of(part_figures(calc, rows, Part::Held), amount)),
            amounts_in(read, sectors, amount),
        ) <= part_error(calc, read, rows, Part::Held, amount) + sectors_error(
            calc,
            read,
            rows,
            sectors,
            amount,
        ),
{
    let weight = row_amount(calc, read, amount);
    lemma_sectors_weigh(calc, sectors, rows, weight);
    lemma_listed_amount(calc, read, sectors, rows, amount);
    lemma_part_amount(calc, read, rows, Part::Held, amount);
}

/// The totals add up. The count of the holdings is that of the shares and of the
/// funds together, and that of the sectors together; up to the errors of the
/// additions made, so is each of their amounts. The whole profit is that of the
/// holdings and that of the sales.
pub proof fn the_totals_add_up<F: Fn(Formula) -> Number>(
    calc: F,
    read: spec_fn(Number) -> int,
    totals: OverviewTotals,
    rows: Seq<PositionRow>,
    amount: Amount,
)
    requires
        are_totals(calc, totals, rows),
        read(number(ZERO_BITS)) == 0,
    ensures
        totals.holdings@.count == totals.equities@.count + totals.etfs@.count,
        totals.holdings@.count == counted_in(totals.sectors@),
        distance(
            read(amount_of(totals.holdings@, amount)),
            read(amount_of(totals.equities@, amount)) + read(amount_of(totals.etfs@, amount)),
        ) <= part_error(calc, read, rows, Part::Held, amount) + part_error(
            calc,
            read,
            rows,
            Part::Funds,
            amount,
        ) + part_error(calc, read, rows, Part::Shares, amount),
        distance(
            read(amount_of(totals.holdings@, amount)),
            amounts_in(read, totals.sectors@, amount),
        ) <= part_error(calc, read, rows, Part::Held, amount) + sectors_error(
            calc,
            read,
            rows,
            totals.sectors@,
            amount,
        ),
        totals.total_pl == plus(calc, totals.holdings.pl, totals.sold_pl),
{
    funds_and_shares_make_the_holdings(calc, rows);
    sectors_make_the_holdings(calc, totals.sectors@, rows);
    funds_and_shares_make_the_amounts(calc, read, rows, amount);
    sectors_make_the_amounts(calc, read, totals.sectors@, rows, amount);
}

proof fn lemma_funds_and_shares_weigh(
    rows: Seq<PositionRow>,
    weight: spec_fn(PositionRow) -> int,
)
    ensures
        weighed(rows, Part::Held, weight) == weighed(rows, Part::Funds, weight) + weighed(
            rows,
            Part::Shares,
            weight,
        ),
    decreases rows.len(),
{
    if rows.len() > 0 {
        lemma_funds_and_shares_weigh(rows.drop_last(), weight);
    }
}

/// What the rows of a part weigh together.
spec fn weighed(rows: Seq<PositionRow>, part: Part, weight: spec_fn(PositionRow) -> int) -> int
    decreases rows.len(),
{
    if rows.len() == 0 {
        0
    } else {
        weighed(rows.drop_last(), part, weight) + (if belongs(rows.last(), part) {
            weight(rows.last())
        } else {
            0
        })
    }
}

/// What the sectors with these names weigh together.
spec fn named_weight(
    rows: Seq<PositionRow>,
    names: Seq<Seq<char>>,
    weight: spec_fn(PositionRow) -> int,
) -> int
    decreases names.len(),
{
    if names.len() == 0 {
        0
    } else {
        named_weight(rows, names.drop_last(), weight) + weighed(
            rows,
            Part::Sector(names.last()),
            weight,
        )
    }
}

spec fn named(names: Seq<Seq<char>>, order: Seq<int>) -> Seq<Seq<char>> {
    Seq::new(order.len(), |i: int| names[order[i]])
}

/// The names of some sectors.
spec fn names_of(sectors: Seq<SectorRow>) -> Seq<Seq<char>> {
    Seq::new(sectors.len(), |i: int| sectors[i].name@)
}

/// A part counts its rows.
proof fn lemma_part_count<F: Fn(Formula) -> Number>(calc: F, rows: Seq<PositionRow>, part: Part)
    ensures
        part_figures(calc, rows, part).count == weighed(rows, part, |row: PositionRow| 1),
    decreases rows.len(),
{
    if rows.len() > 0 {
        lemma_part_count(calc, rows.drop_last(), part);
    }
}

/// An amount of a part is what its rows have of it, but for the errors of
/// adding up.
proof fn lemma_part_amount<F: Fn(Formula) -> Number>(
    calc: F,
    read: spec_fn(Number) -> int,
    rows: Seq<PositionRow>,
    part: Part,
    amount: Amount,
)
    requires
        read(number(ZERO_BITS)) == 0,
    ensures
        distance(
            read(amount_of(part_figures(calc, rows, part), amount)),
            weighed(rows, part, row_amount(calc, read, amount)),
        ) <= part_error(calc, read, rows, part, amount),
    decreases rows.len(),
{
    if rows.len() > 0 {
        lemma_part_amount(calc, read, rows.drop_last(), part, amount);
    }
}

proof fn lemma_listed_count<F: Fn(Formula) -> Number>(
    calc: F,
    sectors: Seq<SectorRow>,
    rows: Seq<PositionRow>,
)
    requires
        forall|i: int|
            0 <= i < sectors.len() ==> (#[trigger] sectors[i]).figures@ == part_figures(
                calc,
                rows,
                Part::Sector(sectors[i].name@),
            ),
    ensures
        counted_in(sectors) == named_weight(rows, names_of(sectors), |row: PositionRow| 1),
    decreases sectors.len(),
{
    if sectors.len() > 0 {
        let less = sectors.drop_last();
        assert forall|i: int| 0 <= i < less.len() implies (#[trigger] less[i]).figures@
            == part_figures(calc, rows, Part::Sector(less[i].name@)) by {
            assert(sectors[i] == less[i]);
        }
        lemma_listed_count(calc, less, rows);
        assert(names_of(sectors).drop_last() =~= names_of(less));
        assert(sectors[sectors.len() - 1] == sectors.last());
        lemma_part_count(calc, rows, Part::Sector(sectors.last().name@));
    }
}

proof fn lemma_listed_amount<F: Fn(Formula) -> Number>(
    calc: F,
    read: spec_fn(Number) -> int,
    sectors: Seq<SectorRow>,
    rows: Seq<PositionRow>,
    amount: Amount,
)
    requires
        read(number(ZERO_BITS)) == 0,
        forall|i: int|
            0 <= i < sectors.len() ==> (#[trigger] sectors[i]).figures@ == part_figures(
                calc,
                rows,
                Part::Sector(sectors[i].name@),
            ),
    ensures
        distance(
            amounts_in(read, sectors, amount),
            named_weight(rows, names_of(sectors), row_amount(calc, read, amount)),
        ) <= sectors_error(calc, read, rows, sectors, amount),
    decreases sectors.len(),
{
    if sectors.len() > 0 {
        let less = sectors.drop_last();
        assert forall|i: int| 0 <= i < less.len() implies (#[trigger] less[i]).figures@
            == part_figures(calc, rows, Part::Sector(less[i].name@)) by {
            assert(sectors[i] == less[i]);
        }
        lemma_listed_amount(calc, read, less, rows, amount);
        assert(names_of(sectors).drop_last() =~= names_of(less));
        assert(sectors[sectors.len() - 1] == sectors.last());
        lemma_part_amount(calc, read, rows, Part::Sector(sectors.last().name@), amount);
    }
}

/// A sum does not change when one of its members comes last.
proof fn lemma_moved(
    rows: Seq<PositionRow>,
    names: Seq<Seq<char>>,
    weight: spec_fn(PositionRow) -> int,
    k: int,
)
    requires
        0 <= k < names.len(),
    ensures
        named_weight(rows, names, weight) == named_weight(rows, names.remove(k), weight) + weighed(
            rows,
            Part::Sector(names[k]),
            weight,
        ),
    decreases names.len(),
{
    if k == names.len() - 1 {
        assert(names.remove(k) =~= names.drop_last());
    } else {
        lemma_moved(rows, names.drop_last(), weight, k);
        assert(names.remove(k).drop_last() =~= names.drop_last().remove(k));
        assert(names.remove(k).last() == names.last());
    }
}

/// Nor does it when all of them come in another order.
proof fn lemma_permuted(
    rows: Seq<PositionRow>,
    names: Seq<Seq<char>>,
    weight: spec_fn(PositionRow) -> int,
    order: Seq<int>,
)
    requires
        order.len() == names.len(),
        forall|i: int| 0 <= i < order.len() ==> 0 <= #[trigger] order[i] < names.len(),
        forall|i: int, j: int|
            0 <= i < j < order.len() ==> #[trigger] order[i] != #[trigger] order[j],
    ensures
        named_weight(rows, named(names, order), weight) == named_weight(rows, names, weight),
    decreases names.len(),
{
    if names.len() > 0 {
        let n = names.len() - 1;
        lemma_onto(order, names.len() as int, n);
        let k = choose|k: int| 0 <= k < order.len() && order[k] == n;
        let less = order.remove(k);
        assert forall|i: int| 0 <= i < less.len() implies 0 <= #[trigger] less[i] < n by {
            let o = if i < k {
                i
            } else {
                i + 1
            };
            assert(less[i] == order[o]);
            if o < k {
                assert(order[o] != order[k]);
            } else {
                assert(order[k] != order[o]);
            }
        }
        assert forall|i: int, j: int| 0 <= i < j < less.len() implies #[trigger] less[i]
            != #[trigger] less[j] by {
            let x = if i < k {
                i
            } else {
                i + 1
            };
            let y = if j < k {
                j
            } else {
                j + 1
            };
            assert(order[x] != order[y]);
        }
        lemma_permuted(rows, names.drop_last(), weight, less);
        lemma_moved(rows, named(names, order), weight, k);
        assert(named(names, order).remove(k) =~= named(names.drop_last(), less));
        assert(named(names, order)[k] == names.last());
    } else {
        assert(named(names, order) =~= names);
    }
}

/// What one more row adds to the sectors with these names.
proof fn lemma_one_more_row(
    rows: Seq<PositionRow>,
    names: Seq<Seq<char>>,
    weight: spec_fn(PositionRow) -> int,
)
    requires
        rows.len() > 0,
        names.no_duplicates(),
    ensures
        named_weight(rows, names, weight) == named_weight(rows.drop_last(), names, weight) + (if
            rows.last().shares.positive() && names.contains(sector_name(rows.last())) {
            weight(rows.last())
        } else {
            0
        }),
    decreases names.len(),
{
    if names.len() > 0 {
        let less = names.drop_last();
        let name = sector_name(rows.last());
        lemma_one_more_row(rows, less, weight);
        assert(names[names.len() - 1] == names.last());
        if less.contains(name) {
            let i = choose|i: int| 0 <= i < less.len() && less[i] == name;
            assert(names[i] == name);
        }
        if names.contains(name) && names.last() != name {
            let i = choose|i: int| 0 <= i < names.len() && names[i] == name;
            assert(less[i] == name);
        }
    }
}

/// A sector that is not among the sectors weighs nothing.
proof fn lemma_absent_sector(
    rows: Seq<PositionRow>,
    name: Seq<char>,
    weight: spec_fn(PositionRow) -> int,
)
    requires
        !sector_names(rows).contains(name),
    ensures
        weighed(rows, Part::Sector(name), weight) == 0,
    decreases rows.len(),
{
    if rows.len() > 0 {
        let earlier = sector_names(rows.drop_last());
        let now = sector_names(rows);
        if earlier.contains(name) {
            let i = choose|i: int| 0 <= i < earlier.len() && earlier[i] == name;
            assert(now[i] == name);
        }
        lemma_absent_sector(rows.drop_last(), name, weight);
        if rows.last().shares.positive() && sector_name(rows.last()) == name {
            assert(now[earlier.len() as int] == name);
        }
    }
}

proof fn lemma_names_weigh(rows: Seq<PositionRow>, weight: spec_fn(PositionRow) -> int)
    ensures
        named_weight(rows, sector_names(rows), weight) == weighed(rows, Part::Held, weight),
    decreases rows.len(),
{
    if rows.len() > 0 {
        let less = rows.drop_last();
        let earlier = sector_names(less);
        let now = sector_names(rows);
        let name = sector_name(rows.last());
        lemma_names_weigh(less, weight);
        lemma_sectors_distinct(rows);
        lemma_one_more_row(rows, now, weight);
        if rows.last().shares.positive() {
            if earlier.contains(name) {
                assert(now == earlier);
            } else {
                lemma_absent_sector(less, name, weight);
                assert(now.drop_last() =~= earlier);
                assert(now[now.len() - 1] == name);
            }
        }
    }
}

/// The sectors weigh what the holdings weigh.
proof fn lemma_sectors_weigh<F: Fn(Formula) -> Number>(
    calc: F,
    sectors: Seq<SectorRow>,
    rows: Seq<PositionRow>,
    weight: spec_fn(PositionRow) -> int,
)
    requires
        are_sectors(calc, sectors, rows),
    ensures
        named_weight(rows, names_of(sectors), weight) == weighed(rows, Part::Held, weight),
        forall|i: int|
            0 <= i < sectors.len() ==> (#[trigger] sectors[i]).figures@ == part_figures(
                calc,
                rows,
                Part::Sector(sectors[i].name@),
            ),
{
    let names = sector_names(rows);
    let ranks = sector_ranks(calc, rows);
    let n = names.len() as int;
    let order = choose|order: Seq<int>|
        {
            &&& #[trigger] is_top(order, ranks, true, n)
            &&& sectors.len() == order.len()
            &&& forall|i: int|
                0 <= i < sectors.len() ==> (#[trigger] sectors[i]).name@ == names[order[i]]
                    && sectors[i].figures@ == part_figures(
                    calc,
                    rows,
                    Part::Sector(sectors[i].name@),
                )
        };
    assert forall|i: int, j: int| 0 <= i < j < order.len() implies #[trigger] order[i]
        != #[trigger] order[j] by {
        assert(shown_before(ranks, true, order[i], order[j]));
    }
    assert(names_of(sectors) =~= named(names, order));
    lemma_permuted(rows, names, weight, order);
    lemma_names_weigh(rows, weight);
}

proof fn lemma_sectors_distinct(rows: Seq<PositionRow>)
    ensures
        sector_names(rows).no_duplicates(),
    decreases rows.len(),
{
    if rows.len() > 0 {
        lemma_sectors_distinct(rows.drop_last());
    }
}

// ---------------------------------------------------------------------------
// The worst holdings and the best watched symbols
// ---------------------------------------------------------------------------

/// How many of them are shown.
pub const TOP_ROWS: usize = 15;

/// A holding with its long average.
#[derive(Debug)]
pub struct AverageRow {
    pub symbol: String,
    pub shares: Number,
    pub price: Option<Number>,
    /// The average of its last 150 closes, in the base currency.
    pub sma150: Option<Number>,
}

/// How far a holding is from its average, in per cent; unknown for what is not
/// held and without a price or an average.
pub open spec fn average_gap<F: Fn(Formula) -> Number>(calc: F, row: AverageRow) -> Option<Number> {
    if row.shares.remains() && nonzero(row.price) && nonzero(row.sma150) {
        Some(
            worth(
                calc,
                percentage(
                    difference(num(row.price->0), num(row.sma150->0)),
                    num(row.sma150->0),
                ),
            ),
        )
    } else {
        None
    }
}

/// The rows with a gap, by position.
pub open spec fn gap_rows<F: Fn(Formula) -> Number>(calc: F, rows: Seq<AverageRow>) -> Seq<
    (int, Number),
>
    decreases rows.len(),
{
    if rows.len() == 0 {
        seq![]
    } else {
        let earlier = gap_rows(calc, rows.drop_last());
        match average_gap(calc, rows.last()) {
            Some(g) => earlier.push((rows.len() - 1, g)),
            None => earlier,
        }
    }
}

/// What these rows are ranked by.
pub open spec fn gap_ranks(gaps: Seq<(int, Number)>) -> Seq<Option<int>> {
    Seq::new(gaps.len(), |i: int| gaps[i].1.place())
}

/// A holding and how far it is from its average.
#[derive(Clone, Copy, PartialEq, Eq, Structural, Debug)]
pub struct WorstRow {
    /// Which holding.
    pub position: usize,
    pub pct_diff: Number,
}

/// Whether `worst` are the holdings furthest under their averages.
pub open spec fn are_worst(worst: Seq<WorstRow>, gaps: Seq<(int, Number)>) -> bool {
    exists|order: Seq<int>|
        {
            &&& #[trigger] is_top(
                order,
                gap_ranks(gaps),
                false,
                TOP_ROWS as int,
            )
            &&& worst.len() == order.len()
            &&& forall|i: int|
                0 <= i < worst.len() ==> (#[trigger] worst[i]).position as int == gaps[order[i]].0
                    && worst[i].pct_diff == gaps[order[i]].1
        }
}

/// The holdings furthest under their averages, the furthest first.
pub fn worst_holdings<F: Fn(Formula) -> Number>(rows: &Vec<AverageRow>, calc: &F) -> (r: Vec<
    WorstRow,
>)
    requires
        is_calculator(*calc),
    ensures
        are_worst(r@, gap_rows(*calc, rows@)),
{
    let mut scored: Vec<WorstRow> = Vec::new();
    let mut ranks: Vec<Option<i64>> = Vec::new();
    let mut i: usize = 0;
    while i < rows.len()
        invariant
            i <= rows.len(),
            is_calculator(*calc),
            scored@.len() == gap_rows(*calc, rows@.take(i as int)).len(),
            ranks@.len() == scored@.len(),
            forall|j: int|
                0 <= j < scored@.len() ==> (#[trigger] scored@[j]).position as int == gap_rows(
                    *calc,
                    rows@.take(i as int),
                )[j].0 && scored@[j].pct_diff == gap_rows(*calc, rows@.take(i as int))[j].1,
            forall|j: int|
                0 <= j < ranks@.len() ==> #[trigger] rank_views(ranks@)[j]
                    == scored@[j].pct_diff.place(),
        decreases rows.len() - i,
    {
        proof {
            assert(rows@.take(i + 1).drop_last() =~= rows@.take(i as int));
            assert(rows@.take(i + 1).last() == rows@[i as int]);
        }
        let row = &rows[i];
        let ghost before = ranks@;
        match (row.price, row.sma150) {
            (Some(p), Some(s)) => {
                if row.shares.is_remaining() && !p.same_value(Number { bits: 0 }) && !s.same_value(
                    Number { bits: 0 },
                ) {
                    let pct = evaluate(
                        calc,
                        Formula::of(p).minus(Formula::of(s)).percent_of(Formula::of(s)),
                    );
                    let rank = pct.rank();
                    scored.push(WorstRow { position: i, pct_diff: pct });
                    ranks.push(rank);
                    proof {
                        assert forall|j: int| 0 <= j < ranks@.len() implies #[trigger] rank_views(
                            ranks@,
                        )[j] == scored@[j].pct_diff.place() by {
                            if j < before.len() {
                                assert(rank_views(before)[j] == rank_views(ranks@)[j]);
                            }
                        }
                    }
                }
            },
            _ => {},
        }
        i += 1;
    }
    assert(rows@.take(rows.len() as int) =~= rows@);
    let ghost gaps = gap_rows(*calc, rows@);
    assert(rank_views(ranks@) =~= gap_ranks(gaps));
    let order = ranked_positions(&ranks, false, TOP_ROWS);
    let mut out: Vec<WorstRow> = Vec::new();
    let mut k: usize = 0;
    while k < order.len()
        invariant
            k <= order.len(),
            ranks@.len() == scored@.len(),
            is_top(position_views(order@), rank_views(ranks@), false, TOP_ROWS as int),
            out@.len() == k,
            forall|j: int| 0 <= j < k ==> #[trigger] out@[j] == scored@[position_views(order@)[j]],
        decreases order.len() - k,
    {
        assert(position_views(order@)[k as int] == order@[k as int]);
        let row = scored[order[k]];
        out.push(row);
        k += 1;
    }
    out
}

/// A watched symbol with its short average and when it rose above it.
#[derive(Debug)]
pub struct RisenRow {
    pub symbol: String,
    pub price: Option<Number>,
    /// The latest average of 50 closes.
    pub sma50: Option<Number>,
    /// The trading days since the price rose above it.
    pub days: i64,
}

/// Whether a watched symbol is above its average.
pub open spec fn has_risen(row: RisenRow) -> bool {
    row.price is Some && row.sma50 is Some && !row.price->0.at_most(row.sma50->0)
}

/// What a watched symbol is ranked by, where it is above its average.
pub open spec fn risen_rank(row: RisenRow) -> Option<int> {
    if has_risen(row) {
        Some(row.days as int)
    } else {
        None
    }
}

/// The positions of the watched symbols above their averages.
pub open spec fn risen_positions(rows: Seq<RisenRow>) -> Seq<int>
    decreases rows.len(),
{
    if rows.len() == 0 {
        seq![]
    } else if has_risen(rows.last()) {
        risen_positions(rows.drop_last()).push(rows.len() - 1)
    } else {
        risen_positions(rows.drop_last())
    }
}

/// What these symbols are ranked by.
pub open spec fn risen_ranks(rows: Seq<RisenRow>) -> Seq<Option<int>> {
    Seq::new(
        risen_positions(rows).len(),
        |i: int| risen_rank(rows[risen_positions(rows)[i]]),
    )
}

/// Whether `best` are those watched symbols that rose above their averages last.
pub open spec fn are_best(best: Seq<int>, rows: Seq<RisenRow>) -> bool {
    exists|order: Seq<int>|
        {
            &&& #[trigger] is_top(
                order,
                risen_ranks(rows),
                false,
                TOP_ROWS as int,
            )
            &&& best == Seq::new(order.len(), |i: int| risen_positions(rows)[order[i]])
        }
}

proof fn lemma_risen_in_range(rows: Seq<RisenRow>)
    ensures
        risen_positions(rows).len() <= rows.len(),
        forall|i: int|
            0 <= i < risen_positions(rows).len() ==> 0 <= #[trigger] risen_positions(rows)[i]
                < rows.len() && has_risen(rows[risen_positions(rows)[i]]),
    decreases rows.len(),
{
    if rows.len() > 0 {
        lemma_risen_in_range(rows.drop_last());
    }
}

/// The watched symbols that rose above their averages last, by position.
pub fn best_watchlist(rows: &Vec<RisenRow>) -> (r: Vec<usize>)
    ensures
        are_best(position_views(r@), rows@),
{
    let mut risen: Vec<usize> = Vec::new();
    let mut ranks: Vec<Option<i64>> = Vec::new();
    let mut i: usize = 0;
    assert(position_views(risen@) =~= seq![]);
    while i < rows.len()
        invariant
            i <= rows.len(),
            position_views(risen@) == risen_positions(rows@.take(i as int)),
            ranks@.len() == risen@.len(),
            forall|j: int| 0 <= j < risen@.len() ==> (#[trigger] risen@[j]) < i,
            forall|j: int|
                0 <= j < ranks@.len() ==> #[trigger] ranks@[j] == Some(
                    rows@[risen@[j] as int].days,
                ),
        decreases rows.len() - i,
    {
        let ghost before = position_views(risen@);
        assert(rows@.take(i + 1).drop_last() =~= rows@.take(i as int));
        match (rows[i].price, rows[i].sma50) {
            (Some(p), Some(s)) => {
                if !p.no_more_than(s) {
                    risen.push(i);
                    ranks.push(Some(rows[i].days));
                    assert(position_views(risen@) =~= before.push(i as int));
                }
            },
            _ => {},
        }
        i += 1;
    }
    assert(rows@.take(rows.len() as int) =~= rows@);
    let ghost all = risen_positions(rows@);
    proof {
        lemma_risen_in_range(rows@);
        let wanted = risen_ranks(rows@);
        assert forall|j: int| 0 <= j < all.len() implies #[trigger] rank_views(ranks@)[j]
            == wanted[j] by {
            assert(position_views(risen@)[j] == risen@[j]);
            assert(ranks@[j] == Some(rows@[risen@[j] as int].days));
            assert(has_risen(rows@[all[j]]));
        }
        assert(rank_views(ranks@) =~= wanted);
    }
    let order = ranked_positions(&ranks, false, TOP_ROWS);
    let mut out: Vec<usize> = Vec::new();
    let mut k: usize = 0;
    while k < order.len()
        invariant
            k <= order.len(),
            ranks@.len() == risen@.len(),
            is_top(position_views(order@), rank_views(ranks@), false, TOP_ROWS as int),
            out@.len() == k,
            forall|j: int| 0 <= j < k ==> #[trigger] out@[j] == risen@[position_views(order@)[j]],
        decreases order.len() - k,
    {
        assert(position_views(order@)[k as int] == order@[k as int]);
        out.push(risen[order[k]]);
        k += 1;
    }
    proof {
        let o = position_views(order@);
        assert forall|j: int| 0 <= j < out@.len() implies #[trigger] position_views(out@)[j]
            == all[o[j]] by {
            assert(0 <= o[j] < all.len());
            assert(position_views(risen@)[o[j]] == risen@[o[j]]);
        }
        assert(position_views(out@) =~= Seq::new(o.len(), |i: int| all[o[i]]));
    }
    out
}

// ---------------------------------------------------------------------------
// What the totals are of
// ---------------------------------------------------------------------------

/// What is held counts where more than no share is left: as a fund or as a share,
/// and in the sector it is put in, or among what is in none.
pub proof fn who_counts_where(row: PositionRow, name: Seq<char>)
    ensures
        ({
            let held = !row.shares.is_nan() && row.shares.key() > 0;
            &&& belongs(row, Part::Held) <==> held
            &&& belongs(row, Part::Funds) <==> held && row.etf
            &&& belongs(row, Part::Shares) <==> held && !row.etf
            &&& row.sector is Some ==> (belongs(row, Part::Sector(name)) <==> held && row.sector->0@
                == name)
            &&& row.sector is None ==> (belongs(row, Part::Sector(name)) <==> held && name
                == "Unallocated"@)
        }),
{
}

/// What is held of a symbol is worth its shares times its price, and nothing
/// without one; its profit is that less its cost and with its dividends.
pub proof fn what_a_holding_adds<F: Fn(Formula) -> Number>(
    calc: F,
    r: Reading,
    row: PositionRow,
    value: real,
)
    requires
        is_exact(calc, r),
        r.is_plain(row.shares) && r.is_plain(row.cost) && r.is_plain(row.dividends),
        row.price is Some ==> r.is_plain(row.price->0),
        value == (match row.price {
            Some(p) => r.of(row.shares) * r.of(p),
            None => 0 as real,
        }),
        r.can(value),
        r.can(value - r.of(row.cost)),
        r.can(value - r.of(row.cost) + r.of(row.dividends)),
    ensures
        ({
            let f = held_figures(calc, row);
            &&& f.count == 1
            &&& r.of(f.value) == value
            &&& f.dividends == row.dividends && f.cost == row.cost
            &&& r.of(f.pl) == value - r.of(row.cost) + r.of(row.dividends)
        }),
{
    reveal_with_fuel(exact, 5);
    reveal_with_fuel(unrounded, 5);
    if row.price is Some {
        lemma_sign(calc, r, row.price->0);
        if r.of(row.price->0) != 0 as real {
            lemma_exact(calc, r, product(num(row.shares), num(row.price->0)));
        } else {
            let s = r.of(row.shares);
            assert(s * (0 as real) == 0 as real) by (nonlinear_arith);
        }
    }
    let v = market_value(calc, row.shares, row.price);
    lemma_exact(calc, r, sum(difference(num(v), num(row.cost)), num(row.dividends)));
}

/// What was sold of a symbol counts with its proceeds, its dividends and its
/// profit; its cost is the proceeds less the profit and with the dividends.
pub proof fn what_a_sale_adds<F: Fn(Formula) -> Number>(calc: F, r: Reading, row: PositionRow)
    requires
        is_exact(calc, r),
        r.is_plain(row.sold_proceeds) && r.is_plain(row.sold_pl) && r.is_plain(row.sold_dividends),
        r.can(r.of(row.sold_proceeds) - r.of(row.sold_pl)),
        r.can(r.of(row.sold_proceeds) - r.of(row.sold_pl) + r.of(row.sold_dividends)),
    ensures
        ({
            let f = sold_figures(calc, row);
            &&& f.count == 1 && f.value == row.sold_proceeds && f.dividends == row.sold_dividends
                && f.pl == row.sold_pl
            &&& r.of(f.cost) == r.of(row.sold_proceeds) - r.of(row.sold_pl) + r.of(
                row.sold_dividends,
            )
        }),
{
    reveal_with_fuel(exact, 5);
    reveal_with_fuel(unrounded, 5);
    lemma_exact(
        calc,
        r,
        sum(difference(num(row.sold_proceeds), num(row.sold_pl)), num(row.sold_dividends)),
    );
}

/// An amount of the rows of a part, added up.
pub open spec fn part_sum<F: Fn(Formula) -> Number>(
    calc: F,
    r: Reading,
    rows: Seq<PositionRow>,
    part: Part,
    amount: Amount,
) -> real
    decreases rows.len(),
{
    if rows.len() == 0 {
        0 as real
    } else {
        part_sum(calc, r, rows.drop_last(), part, amount) + (if belongs(rows.last(), part) {
            r.of(amount_of(held_figures(calc, rows.last()), amount))
        } else {
            0 as real
        })
    }
}

/// The amounts of a part are the sums of those of its rows, where nothing has to
/// be rounded; its count is how many rows belong to it.
pub proof fn a_part_is_the_sum_of_its_rows<F: Fn(Formula) -> Number>(
    calc: F,
    r: Reading,
    rows: Seq<PositionRow>,
    part: Part,
    amount: Amount,
)
    requires
        is_exact(calc, r),
        forall|i: int|
            0 <= i < rows.len() ==> r.is_plain(
                amount_of(held_figures(calc, #[trigger] rows[i]), amount),
            ),
        forall|n: int|
            0 <= n <= rows.len() ==> r.can(part_sum(calc, r, #[trigger] rows.take(n), part, amount)),
    ensures
        r.of(amount_of(part_figures(calc, rows, part), amount)) == part_sum(
            calc,
            r,
            rows,
            part,
            amount,
        ),
        r.is_plain(amount_of(part_figures(calc, rows, part), amount)),
        rows.len() > 0 ==> part_figures(calc, rows, part).count == part_figures(
            calc,
            rows.drop_last(),
            part,
        ).count + (if belongs(rows.last(), part) {
            1int
        } else {
            0
        }),
        rows.len() == 0 ==> part_figures(calc, rows, part).count == 0,
    decreases rows.len(),
{
    reveal_with_fuel(exact, 4);
    reveal_with_fuel(unrounded, 4);
    if rows.len() > 0 {
        let less = rows.drop_last();
        let n = less.len() as int;
        assert forall|i: int| 0 <= i < less.len() implies r.is_plain(
            amount_of(held_figures(calc, #[trigger] less[i]), amount),
        ) by {
            assert(rows[i] == less[i]);
        }
        assert forall|m: int| 0 <= m <= less.len() implies r.can(
            part_sum(calc, r, #[trigger] less.take(m), part, amount),
        ) by {
            assert(rows.take(m) =~= less.take(m));
        }
        a_part_is_the_sum_of_its_rows(calc, r, less, part, amount);
        assert(rows[n] == rows.last());
        assert(rows.take(n + 1) =~= rows);
        if belongs(rows.last(), part) {
            let a = amount_of(part_figures(calc, less, part), amount);
            let b = amount_of(held_figures(calc, rows.last()), amount);
            lemma_exact(calc, r, sum(num(a), num(b)));
        }
    }
}

/// One more row adds its sale to what was sold, where it has proceeds, and its
/// profit to the profit of all sales, whether it has or not. The whole profit is
/// that of the holdings and that of the sales.
pub proof fn a_row_adds_its_sale<F: Fn(Formula) -> Number>(
    calc: F,
    r: Reading,
    rows: Seq<PositionRow>,
    row: PositionRow,
    held: Number,
)
    requires
        is_exact(calc, r),
        r.is_plain(sales_profit(calc, rows)) && r.is_plain(row.sold_pl) && r.is_plain(held),
        r.can(r.of(sales_profit(calc, rows)) + r.of(row.sold_pl)),
        r.can(r.of(held) + r.of(sales_profit(calc, rows))),
    ensures
        r.of(sales_profit(calc, rows.push(row))) == r.of(sales_profit(calc, rows)) + r.of(
            row.sold_pl,
        ),
        r.of(plus(calc, held, sales_profit(calc, rows))) == r.of(held) + r.of(
            sales_profit(calc, rows),
        ),
        row.sold_proceeds.positive() ==> sales_figures(calc, rows.push(row)).count == sales_figures(
            calc,
            rows,
        ).count + 1,
        !row.sold_proceeds.positive() ==> sales_figures(calc, rows.push(row)) == sales_figures(
            calc,
            rows,
        ),
{
    reveal_with_fuel(exact, 4);
    reveal_with_fuel(unrounded, 4);
    assert(rows.push(row).drop_last() =~= rows);
    lemma_exact(calc, r, sum(num(sales_profit(calc, rows)), num(row.sold_pl)));
    lemma_exact(calc, r, sum(num(held), num(sales_profit(calc, rows))));
}

/// What a row with proceeds adds to each amount of what was sold.
pub proof fn a_sale_adds_to_each_amount<F: Fn(Formula) -> Number>(
    calc: F,
    r: Reading,
    rows: Seq<PositionRow>,
    row: PositionRow,
    amount: Amount,
)
    requires
        is_exact(calc, r),
        row.sold_proceeds.positive(),
        r.is_plain(amount_of(sales_figures(calc, rows), amount)),
        r.is_plain(amount_of(sold_figures(calc, row), amount)),
        r.can(
            r.of(amount_of(sales_figures(calc, rows), amount)) + r.of(
                amount_of(sold_figures(calc, row), amount),
            ),
        ),
    ensures
        r.of(amount_of(sales_figures(calc, rows.push(row)), amount)) == r.of(
            amount_of(sales_figures(calc, rows), amount),
        ) + r.of(amount_of(sold_figures(calc, row), amount)),
        r.of(amount_of(sales_figures(calc, Seq::empty()), amount)) == 0 as real,
{
    reveal_with_fuel(exact, 4);
    reveal_with_fuel(unrounded, 4);
    assert(rows.push(row).drop_last() =~= rows);
    lemma_exact(
        calc,
        r,
        sum(
            num(amount_of(sales_figures(calc, rows), amount)),
            num(amount_of(sold_figures(calc, row), amount)),
        ),
    );
}

/// How far a holding is from its average is its price less the average, in per
/// cent of the average; it is known of what is held and has both.
pub proof fn a_gap_is_from_the_average<F: Fn(Formula) -> Number>(
    calc: F,
    r: Reading,
    row: AverageRow,
    price: Number,
    average: Number,
)
    requires
        is_exact(calc, r),
        row.price == Some(price) && row.sma150 == Some(average),
        r.is_plain(row.shares) && r.is_plain(price) && r.is_plain(average),
        r.of(price) != 0 as real && r.of(average) != 0 as real,
        r.can(r.of(price) - r.of(average)),
        r.can((r.of(price) - r.of(average)) / r.of(average)),
        r.can((r.of(price) - r.of(average)) / r.of(average) * 100 as real),
    ensures
        r.of(row.shares) <= 0 as real ==> average_gap(calc, row) is None,
        r.of(row.shares) > 0 as real ==> average_gap(calc, row) is Some && r.of(
            average_gap(calc, row)->0,
        ) == (r.of(price) - r.of(average)) / r.of(average) * 100 as real,
{
    reveal_with_fuel(exact, 6);
    reveal_with_fuel(unrounded, 6);
    lemma_sign(calc, r, row.shares);
    lemma_sign(calc, r, price);
    lemma_sign(calc, r, average);
    lemma_exact(calc, r, percentage(difference(num(price), num(average)), num(average)));
}

/// The worst holdings are fifteen at most; the one furthest under its average
/// comes first.
pub proof fn the_worst_come_first(worst: Seq<WorstRow>, gaps: Seq<(int, Number)>, i: int, j: int)
    requires
        are_worst(worst, gaps),
        0 <= i < j < worst.len(),
    ensures
        !worst[j].pct_diff.below(worst[i].pct_diff),
        worst.len() <= 15,
        worst.len() <= gaps.len(),
{
    let order = choose|order: Seq<int>|
        {
            &&& #[trigger] is_top(order, gap_ranks(gaps), false, TOP_ROWS as int)
            &&& worst.len() == order.len()
            &&& forall|i: int|
                0 <= i < worst.len() ==> (#[trigger] worst[i]).position as int == gaps[order[i]].0
                    && worst[i].pct_diff == gaps[order[i]].1
        };
    assert(shown_before(gap_ranks(gaps), false, order[i], order[j]));
    assert(worst[i].pct_diff == gaps[order[i]].1 && worst[j].pct_diff == gaps[order[j]].1);
}

/// The best watched symbols are fifteen at most, each above its average; the one
/// that rose above it last comes first.
pub proof fn the_last_to_rise_come_first(best: Seq<int>, rows: Seq<RisenRow>, i: int, j: int)
    requires
        are_best(best, rows),
        0 <= i < j < best.len(),
    ensures
        0 <= best[i] < rows.len() && 0 <= best[j] < rows.len(),
        rows[best[i]].price is Some && rows[best[i]].sma50 is Some
            && !rows[best[i]].price->0.at_most(rows[best[i]].sma50->0),
        rows[best[i]].days <= rows[best[j]].days,
        best.len() <= 15,
{
    lemma_risen_in_range(rows);
    let order = choose|order: Seq<int>|
        {
            &&& #[trigger] is_top(order, risen_ranks(rows), false, TOP_ROWS as int)
            &&& best == Seq::new(order.len(), |i: int| risen_positions(rows)[order[i]])
        };
    assert(shown_before(risen_ranks(rows), false, order[i], order[j]));
    assert(has_risen(rows[risen_positions(rows)[order[i]]]));
    assert(has_risen(rows[risen_positions(rows)[order[j]]]));
}

/// Every holding with an average has a gap, and no other.
pub proof fn every_gap_is_looked_at<F: Fn(Formula) -> Number>(
    calc: F,
    rows: Seq<AverageRow>,
    row: AverageRow,
)
    ensures
        gap_rows(calc, Seq::empty()) == Seq::<(int, Number)>::empty(),
        average_gap(calc, row) is None ==> gap_rows(calc, rows.push(row)) == gap_rows(calc, rows),
        average_gap(calc, row) is Some ==> gap_rows(calc, rows.push(row)) == gap_rows(
            calc,
            rows,
        ).push((rows.len() as int, average_gap(calc, row)->0)),
{
    assert(rows.push(row).drop_last() =~= rows);
}

/// The overview tells the holdings, the funds, the shares and the sales apart, and
/// its whole profit is that of the holdings and that of the sales.
pub proof fn the_overview_tells_its_parts_apart<F: Fn(Formula) -> Number>(
    calc: F,
    r: Reading,
    totals: OverviewTotals,
    rows: Seq<PositionRow>,
)
    requires
        is_exact(calc, r),
        are_totals(calc, totals, rows),
        r.is_plain(totals.holdings.pl) && r.is_plain(totals.sold_pl),
        r.can(r.of(totals.holdings.pl) + r.of(totals.sold_pl)),
    ensures
        totals.holdings@ == part_figures(calc, rows, Part::Held),
        totals.etfs@ == part_figures(calc, rows, Part::Funds),
        totals.equities@ == part_figures(calc, rows, Part::Shares),
        totals.sold@ == sales_figures(calc, rows),
        totals.sold_pl == sales_profit(calc, rows),
        r.of(totals.total_pl) == r.of(totals.holdings.pl) + r.of(totals.sold_pl),
{
    reveal_with_fuel(exact, 4);
    reveal_with_fuel(unrounded, 4);
    lemma_exact(calc, r, sum(num(totals.holdings.pl), num(totals.sold_pl)));
}

} // verus!
