//! The portfolio as its screens show it: holdings, lots, risk and totals.
use vstd::prelude::*;
use crate::context::{
    base_rate, bought_in_base, cached_price, chosen_price, currency_of, currency_text,
    entered_price, found, instrument_type, is_context_of, is_fund, known_rate, rate_to_base,
    sector_of, sector_text, symbol_context, PortfolioInputs, SymbolContext,
};
use crate::fields::Field;
use crate::history::{
    close_dates, close_on, last_passed, quoted, rate_on, reached, series_of, trading_currency,
    HistoryInputs,
};
use crate::indicators::{indicator_of, indicator_value, PriceHistoryPoint};
use crate::lists::{HoldingCandidate, WatchCandidate};
use crate::number::{is_calculator, num, percentage, worth, Formula, Number};
use crate::overview::{
    are_totals, are_worst, gap_rows, no_figures, overview_totals, part_figures, with_symbol,
    worst_holdings, AggView, AverageRow, OverviewTotals, Part, PositionRow, WorstRow,
};
use crate::quotes::CurrentPrice;
use crate::risk::{
    display_of, invested_total, is_display, portfolio_risk_row, risk_row, risk_totals, stop_total,
    Display, RiskRow, RiskTotals,
};
use crate::stops::{convert, converted, effective_stop_loss, fields_view, stop_loss_of};
use crate::symbols::fx_pair;
use crate::text::option_view;
use crate::textmap::TextMap;
use crate::valuation::{
    baseline_point, effective_basis, figures_of, figures_of_lot, holding_figures, is_basis,
    lot_figures, stored_baseline, Basis, HoldingFigures, LotFigures, Remaining,
};
use crate::watchlist::WatchRow;

verus! {

broadcast use vstd::string::group_string_axioms;

// ---------------------------------------------------------------------------
// What the screens are made from
// ---------------------------------------------------------------------------

/// What the transactions of a symbol come to.
#[derive(Debug)]
pub struct Standing {
    pub symbol: String,
    pub left: Remaining,
    /// The dividends of what is left.
    pub dividends: Number,
    /// The cost and the dividends of what is left, counted from the baseline,
    /// where there is one.
    pub rebased: Option<(Number, Number)>,
    pub sold_proceeds: Number,
    pub sold_dividends: Number,
    pub sold_pl: Number,
}

/// The portfolio: what is stored about its symbols, and how each stands.
#[derive(Debug)]
pub struct Portfolio {
    pub inputs: PortfolioInputs,
    pub fields: TextMap<TextMap<Field>>,
    /// The stored bars with a high or a close, in the order of their days.
    pub bars: TextMap<Vec<PriceHistoryPoint>>,
    pub standings: Vec<Standing>,
}

impl Portfolio {
    /// The rate that takes a symbol's own currency to the base currency.
    pub open spec fn rate(self, symbol: Seq<char>) -> Option<Number> {
        base_rate(self.inputs.rates@, currency_text(self.inputs.info@, symbol))
    }

    /// The fields of a symbol.
    pub open spec fn fields_of(self, symbol: Seq<char>) -> Option<Map<Seq<char>, Field>> {
        match found(self.fields@, symbol) {
            Some(m) => Some(m@),
            None => None,
        }
    }

    /// The stored bars of a symbol.
    pub open spec fn bars_of(self, symbol: Seq<char>) -> Seq<PriceHistoryPoint> {
        match found(self.bars@, symbol) {
            Some(b) => b@,
            None => seq![],
        }
    }

    /// The price of a symbol in its own currency.
    pub open spec fn native_price(self, symbol: Seq<char>) -> Option<Number> {
        chosen_price(
            found(self.inputs.quotes@, symbol),
            entered_price(self.inputs.config@, symbol),
            found(self.inputs.last_closes@, symbol),
        ).0
    }

    /// The price of a symbol in the base currency.
    pub open spec fn base_price<F: Fn(Formula) -> Number>(self, calc: F, symbol: Seq<char>) -> Option<
        Number,
    > {
        match self.native_price(symbol) {
            Some(n) => Some(converted(calc, n, self.rate(symbol))),
            None => None,
        }
    }

    /// The cost and the dividends by which a symbol is measured.
    pub open spec fn basis(self, s: Standing) -> (Number, Number) {
        match (stored_baseline(self.fields_of(s.symbol@)), s.rebased) {
            (Some(_), Some(r)) => if r.0.positive() {
                r
            } else {
                (s.left.cost, s.dividends)
            },
            _ => (s.left.cost, s.dividends),
        }
    }

    /// The long average of a symbol in the base currency.
    pub open spec fn average<F: Fn(Formula) -> Number>(self, calc: F, symbol: Seq<char>) -> Option<
        Number,
    > {
        match indicator_of(calc, self.bars_of(symbol), "sma150"@) {
            Some(v) => Some(converted(calc, v, self.rate(symbol))),
            None => None,
        }
    }

    fn own_rate(&self, symbol: &str) -> (r: Option<Number>)
        ensures
            r == self.rate(symbol@),
    {
        let currency = currency_of(&self.inputs.info, symbol);
        rate_to_base(&self.inputs.rates, currency.as_str())
    }

    fn long_average<F: Fn(Formula) -> Number>(&self, symbol: &str, calc: &F) -> (r: Option<Number>)
        requires
            is_calculator(*calc),
        ensures
            r == self.average(*calc, symbol@),
    {
        let none: Vec<PriceHistoryPoint> = Vec::new();
        assert(none@ =~= seq![]);
        let bars = match self.bars.get(symbol) {
            Some(b) => b,
            None => &none,
        };
        match indicator_value(bars, "sma150", calc) {
            Some(v) => Some(convert(v, self.own_rate(symbol), calc)),
            None => None,
        }
    }

    fn basis_of(&self, s: &Standing) -> (r: Basis)
        ensures
            is_basis(
                r,
                stored_baseline(self.fields_of(s.symbol@)),
                s.rebased,
                s.left.cost,
                s.dividends,
            ),
            (r.cost, r.dividends) == self.basis(*s),
    {
        let baseline = baseline_point(self.fields.get(s.symbol.as_str()));
        effective_basis(baseline, s.rebased, s.left.cost, s.dividends)
    }
}

// ---------------------------------------------------------------------------
// Holdings
// ---------------------------------------------------------------------------

/// A holding with its figures.
#[derive(Debug)]
pub struct HoldingRow {
    pub context: SymbolContext,
    pub sector: Option<String>,
    pub shares: Number,
    pub basis: Basis,
    pub figures: HoldingFigures,
    /// The average of its last 150 closes, in the base currency.
    pub sma150: Option<Number>,
    /// The stop loss in the symbol's own currency, and whether it trails.
    pub stop: Option<(Number, bool)>,
}

/// Whether `row` shows how a symbol stands.
pub open spec fn is_holding<F: Fn(Formula) -> Number>(
    calc: F,
    row: HoldingRow,
    p: Portfolio,
    s: Standing,
) -> bool {
    let fields = p.fields_of(s.symbol@);
    &&& is_context_of(calc, row.context, s.symbol@, p.inputs)
    &&& option_view(row.sector) == sector_text(p.fields@, s.symbol@)
    &&& row.shares == s.left.shares
    &&& is_basis(row.basis, stored_baseline(fields), s.rebased, s.left.cost, s.dividends)
    &&& Some(row.figures) == holding_figures(
        calc,
        s.left,
        row.basis,
        p.base_price(calc, s.symbol@),
        p.rate(s.symbol@),
    )
    &&& row.sma150 == p.average(calc, s.symbol@)
    &&& row.stop == stop_loss_of(
        calc,
        fields,
        p.bars_of(s.symbol@),
        p.native_price(s.symbol@),
        None,
    )
}

/// The positions of those that are held.
pub open spec fn held(standings: Seq<Standing>) -> Seq<int>
    decreases standings.len(),
{
    if standings.len() == 0 {
        seq![]
    } else {
        let earlier = held(standings.drop_last());
        if standings.last().left.shares.remains() {
            earlier.push(standings.len() - 1)
        } else {
            earlier
        }
    }
}

/// Whether `rows` are the holdings of the portfolio.
pub open spec fn are_holdings<F: Fn(Formula) -> Number>(
    calc: F,
    rows: Seq<HoldingRow>,
    p: Portfolio,
    standings: Seq<Standing>,
) -> bool {
    &&& rows.len() == held(standings).len()
    &&& forall|i: int|
        0 <= i < rows.len() ==> is_holding(
            calc,
            #[trigger] rows[i],
            p,
            standings[held(standings)[i]],
        )
}

/// How a symbol stands, where any share of it is left.
pub fn portfolio_holding<F: Fn(Formula) -> Number>(p: &Portfolio, s: &Standing, calc: &F) -> (r: Option<
    HoldingRow,
>)
    requires
        is_calculator(*calc),
    ensures
        r is Some == s.left.shares.remains(),
        r is Some ==> is_holding(*calc, r->0, *p, *s),
{
    let symbol = s.symbol.as_str();
    let context = symbol_context(symbol, &p.inputs, calc);
    let basis = p.basis_of(s);
    match figures_of(s.left, &basis, context.price.aud, p.own_rate(symbol), calc) {
        None => None,
        Some(figures) => {
            let none: Vec<PriceHistoryPoint> = Vec::new();
            assert(none@ =~= seq![]);
            let bars = match p.bars.get(symbol) {
                Some(b) => b,
                None => &none,
            };
            let stop = effective_stop_loss(
                p.fields.get(symbol),
                bars,
                context.price.native,
                None,
                calc,
            );
            let sma150 = p.long_average(symbol, calc);
            let sector = sector_of(&p.fields, symbol);
            Some(
                HoldingRow {
                    context,
                    sector,
                    shares: s.left.shares,
                    basis,
                    figures,
                    sma150,
                    stop,
                },
            )
        },
    }
}

/// The holdings of the portfolio, in the order of its symbols.
pub fn get_portfolio_holdings<F: Fn(Formula) -> Number>(p: &Portfolio, calc: &F) -> (r: Vec<HoldingRow>)
    requires
        is_calculator(*calc),
    ensures
        are_holdings(*calc, r@, *p, p.standings@),
{
    let mut out: Vec<HoldingRow> = Vec::new();
    let ghost all = p.standings@;
    let mut i: usize = 0;
    while i < p.standings.len()
        invariant
            i <= p.standings.len(),
            is_calculator(*calc),
            all == p.standings@,
            are_holdings(*calc, out@, *p, all.take(i as int)),
        decreases p.standings.len() - i,
    {
        let ghost before = out@;
        let ghost now = all.take(i + 1);
        proof {
            assert(now.drop_last() =~= all.take(i as int));
            lemma_held(all.take(i as int));
        }
        if let Some(row) = portfolio_holding(p, &p.standings[i], calc) {
            out.push(row);
        }
        proof {
            assert forall|k: int| 0 <= k < out@.len() implies is_holding(
                *calc,
                #[trigger] out@[k],
                *p,
                now[held(now)[k]],
            ) by {
                if k < before.len() {
                    assert(out@[k] == before[k]);
                }
            }
        }
        i += 1;
    }
    assert(all.take(all.len() as int) =~= all);
    out
}

proof fn lemma_held(standings: Seq<Standing>)
    ensures
        forall|i: int|
            0 <= i < held(standings).len() ==> 0 <= #[trigger] held(standings)[i] < standings.len(),
    decreases standings.len(),
{
    if standings.len() > 0 {
        let earlier = held(standings.drop_last());
        lemma_held(standings.drop_last());
        assert forall|i: int| 0 <= i < held(standings).len() implies 0 <= #[trigger] held(
            standings,
        )[i] < standings.len() by {
            if i < earlier.len() {
                assert(held(standings)[i] == earlier[i]);
            }
        }
    }
}

// ---------------------------------------------------------------------------
// Lots
// ---------------------------------------------------------------------------

/// A purchase, and what is left of it.
#[derive(Debug)]
pub struct Lot {
    pub transaction_id: i64,
    pub symbol: String,
    pub date: String,
    pub remaining: Number,
    /// What a share cost, in the base currency.
    pub price: Option<Number>,
    pub brokerage: Option<Number>,
}

/// The figures of each lot, in the order of the lots.
pub fn get_portfolio_lots<F: Fn(Formula) -> Number>(p: &Portfolio, lots: &Vec<Lot>, calc: &F) -> (r: Vec<
    LotFigures,
>)
    requires
        is_calculator(*calc),
    ensures
        r@.len() == lots@.len(),
        forall|i: int|
            0 <= i < r@.len() ==> #[trigger] r@[i] == lot_figures(
                *calc,
                lots@[i].remaining,
                p.base_price(*calc, lots@[i].symbol@),
                lots@[i].price,
                lots@[i].brokerage,
            ),
{
    let mut out: Vec<LotFigures> = Vec::new();
    let mut i: usize = 0;
    while i < lots.len()
        invariant
            i <= lots.len(),
            is_calculator(*calc),
            out@.len() == i,
            forall|k: int|
                0 <= k < out@.len() ==> #[trigger] out@[k] == lot_figures(
                    *calc,
                    lots@[k].remaining,
                    p.base_price(*calc, lots@[k].symbol@),
                    lots@[k].price,
                    lots@[k].brokerage,
                ),
        decreases lots.len() - i,
    {
        let lot = &lots[i];
        let context = symbol_context(lot.symbol.as_str(), &p.inputs, calc);
        out.push(
            figures_of_lot(lot.remaining, context.price.aud, lot.price, lot.brokerage, calc),
        );
        i += 1;
    }
    out
}

// ---------------------------------------------------------------------------
// Risk
// ---------------------------------------------------------------------------

/// The risk of a holding, in the currency it is shown in.
#[derive(Debug)]
pub struct RiskLine {
    pub symbol: String,
    pub display: Display,
    pub row: RiskRow,
}

/// Whether `line` shows the risk of a symbol.
pub open spec fn is_risk<F: Fn(Formula) -> Number>(
    calc: F,
    line: RiskLine,
    p: Portfolio,
    s: Standing,
) -> bool {
    &&& line.symbol@ == s.symbol@
    &&& is_display(
        line.display,
        currency_text(p.inputs.info@, s.symbol@),
        bought_in_base(p.inputs.trades@, s.symbol@),
        p.inputs.rates@,
    )
    &&& Some(line.row) == risk_row(
        calc,
        s.left,
        line.display,
        p.native_price(s.symbol@),
        p.fields_of(s.symbol@),
        p.bars_of(s.symbol@),
    )
}

/// Whether `lines` are the risks of what is held.
pub open spec fn are_risks<F: Fn(Formula) -> Number>(
    calc: F,
    lines: Seq<RiskLine>,
    p: Portfolio,
    standings: Seq<Standing>,
) -> bool {
    &&& lines.len() == held(standings).len()
    &&& forall|i: int|
        0 <= i < lines.len() ==> is_risk(
            calc,
            #[trigger] lines[i],
            p,
            standings[held(standings)[i]],
        )
}

/// The rows of some lines.
pub open spec fn risk_rows(lines: Seq<RiskLine>) -> Seq<RiskRow> {
    Seq::new(lines.len(), |i: int| lines[i].row)
}

fn portfolio_risk<F: Fn(Formula) -> Number>(p: &Portfolio, s: &Standing, calc: &F) -> (r: Option<
    RiskLine,
>)
    requires
        is_calculator(*calc),
    ensures
        r is Some == s.left.shares.remains(),
        r is Some ==> is_risk(*calc, r->0, *p, *s),
{
    let symbol = s.symbol.as_str();
    let context = symbol_context(symbol, &p.inputs, calc);
    let currency = currency_of(&p.inputs.info, symbol);
    let display = display_of(currency.as_str(), context.all_aud, &p.inputs.rates);
    let none: Vec<PriceHistoryPoint> = Vec::new();
    assert(none@ =~= seq![]);
    let bars = match p.bars.get(symbol) {
        Some(b) => b,
        None => &none,
    };
    match portfolio_risk_row(
        s.left,
        &display,
        context.price.native,
        p.fields.get(symbol),
        bars,
        calc,
    ) {
        Some(row) => Some(RiskLine { symbol: symbol.to_owned(), display, row }),
        None => None,
    }
}

/// The risk of every holding, and of all of them.
pub fn get_portfolio_risk<F: Fn(Formula) -> Number>(p: &Portfolio, calc: &F) -> (r: (
    Vec<RiskLine>,
    RiskTotals,
))
    requires
        is_calculator(*calc),
    ensures
        are_risks(*calc, r.0@, *p, p.standings@),
        r.1.total_invested == invested_total(*calc, risk_rows(r.0@)),
        r.1.total_sl_dollar == stop_total(*calc, risk_rows(r.0@)),
        r.1.total_sl_pct == (if r.1.total_invested.positive() {
            Some(
                worth(
                    *calc,
                    percentage(num(r.1.total_sl_dollar), num(r.1.total_invested)),
                ),
            )
        } else {
            None
        }),
{
    let mut lines: Vec<RiskLine> = Vec::new();
    let mut rows: Vec<RiskRow> = Vec::new();
    let ghost all = p.standings@;
    let mut i: usize = 0;
    assert(rows@ =~= risk_rows(lines@));
    while i < p.standings.len()
        invariant
            i <= p.standings.len(),
            is_calculator(*calc),
            all == p.standings@,
            are_risks(*calc, lines@, *p, all.take(i as int)),
            rows@ == risk_rows(lines@),
        decreases p.standings.len() - i,
    {
        let ghost before = lines@;
        let ghost now = all.take(i + 1);
        proof {
            assert(now.drop_last() =~= all.take(i as int));
            lemma_held(all.take(i as int));
        }
        if let Some(line) = portfolio_risk(p, &p.standings[i], calc) {
            rows.push(line.row);
            lines.push(line);
            assert(rows@ =~= risk_rows(lines@));
        }
        proof {
            assert forall|k: int| 0 <= k < lines@.len() implies is_risk(
                *calc,
                #[trigger] lines@[k],
                *p,
                now[held(now)[k]],
            ) by {
                if k < before.len() {
                    assert(lines@[k] == before[k]);
                }
            }
        }
        i += 1;
    }
    assert(all.take(all.len() as int) =~= all);
    let totals = risk_totals(&rows, calc);
    (lines, totals)
}


// ---------------------------------------------------------------------------
// The totals
// ---------------------------------------------------------------------------

/// Whether `row` is the position in a symbol.
pub open spec fn is_position<F: Fn(Formula) -> Number>(
    calc: F,
    row: PositionRow,
    p: Portfolio,
    s: Standing,
) -> bool {
    &&& row.symbol@ == s.symbol@
    &&& row.shares == s.left.shares
    &&& row.price == p.base_price(calc, s.symbol@)
    &&& (row.cost, row.dividends) == p.basis(s)
    &&& row.etf == is_fund(instrument_type(p.inputs.config@, p.inputs.info@, s.symbol@))
    &&& option_view(row.sector) == sector_text(p.fields@, s.symbol@)
    &&& row.sold_proceeds == s.sold_proceeds
    &&& row.sold_dividends == s.sold_dividends
    &&& row.sold_pl == s.sold_pl
}

/// Whether `rows` are the positions of the portfolio.
pub open spec fn are_positions<F: Fn(Formula) -> Number>(
    calc: F,
    rows: Seq<PositionRow>,
    p: Portfolio,
    standings: Seq<Standing>,
) -> bool {
    &&& rows.len() == standings.len()
    &&& forall|i: int|
        0 <= i < rows.len() ==> is_position(calc, #[trigger] rows[i], p, standings[i])
}

/// Whether `row` is a symbol with its long average.
pub open spec fn is_average<F: Fn(Formula) -> Number>(
    calc: F,
    row: AverageRow,
    p: Portfolio,
    s: Standing,
) -> bool {
    &&& row.symbol@ == s.symbol@
    &&& row.shares == s.left.shares
    &&& row.price == p.base_price(calc, s.symbol@)
    &&& row.sma150 == p.average(calc, s.symbol@)
}

/// The dashboard's totals and its worst holdings, with the rows they are of.
#[derive(Debug)]
pub struct PortfolioOverview {
    pub positions: Vec<PositionRow>,
    pub averages: Vec<AverageRow>,
    pub totals: OverviewTotals,
    pub worst: Vec<WorstRow>,
}

/// The dashboard's totals: every position by the basis that the holdings screen
/// uses, so that the totals are the sum of what that screen shows.
pub fn get_portfolio_overview<F: Fn(Formula) -> Number>(p: &Portfolio, calc: &F) -> (r:
    PortfolioOverview)
    requires
        is_calculator(*calc),
    ensures
        are_positions(*calc, r.positions@, *p, p.standings@),
        r.averages@.len() == p.standings@.len(),
        forall|i: int|
            0 <= i < r.averages@.len() ==> is_average(
                *calc,
                #[trigger] r.averages@[i],
                *p,
                p.standings@[i],
            ),
        are_totals(*calc, r.totals, r.positions@),
        are_worst(r.worst@, gap_rows(*calc, r.averages@)),
{
    let mut positions: Vec<PositionRow> = Vec::new();
    let mut averages: Vec<AverageRow> = Vec::new();
    let mut i: usize = 0;
    while i < p.standings.len()
        invariant
            i <= p.standings.len(),
            is_calculator(*calc),
            positions@.len() == i,
            averages@.len() == i,
            forall|k: int|
                0 <= k < i ==> is_position(*calc, #[trigger] positions@[k], *p, p.standings@[k]),
            forall|k: int|
                0 <= k < i ==> is_average(*calc, #[trigger] averages@[k], *p, p.standings@[k]),
        decreases p.standings.len() - i,
    {
        let s = &p.standings[i];
        let symbol = s.symbol.as_str();
        let context = symbol_context(symbol, &p.inputs, calc);
        let basis = p.basis_of(s);
        let sma150 = p.long_average(symbol, calc);
        let sector = sector_of(&p.fields, symbol);
        positions.push(
            PositionRow {
                symbol: s.symbol.clone(),
                shares: s.left.shares,
                price: context.price.aud,
                cost: basis.cost,
                dividends: basis.dividends,
                etf: context.etf,
                sector,
                sold_proceeds: s.sold_proceeds,
                sold_dividends: s.sold_dividends,
                sold_pl: s.sold_pl,
            },
        );
        averages.push(
            AverageRow {
                symbol: s.symbol.clone(),
                shares: s.left.shares,
                price: context.price.aud,
                sma150,
            },
        );
        i += 1;
    }
    let totals = overview_totals(&positions, calc);
    let worst = worst_holdings(&averages, calc);
    PortfolioOverview { positions, averages, totals, worst }
}

// ---------------------------------------------------------------------------
// The holdings that may be on a list
// ---------------------------------------------------------------------------

/// Whether `c` is a symbol as the dashboard's lists see it.
pub open spec fn is_candidate(c: HoldingCandidate, p: Portfolio, s: Standing) -> bool {
    &&& c.symbol@ == s.symbol@
    &&& c.shares == s.left.shares
    &&& c.price == p.native_price(s.symbol@)
    &&& c.volume == (match found(p.inputs.quotes@, s.symbol@) {
        Some(q) => q.volume,
        None => None,
    })
    &&& option_view(c.currency) == (match found(p.inputs.info@, s.symbol@) {
        Some(i) => option_view(i.currency),
        None => None,
    })
    &&& fields_view(c.fields) == p.fields_of(s.symbol@)
    &&& c.bars is Some
    &&& c.bars->0@ == p.bars_of(s.symbol@)
}

/// The portfolio's symbols as the dashboard's lists see them. `none` stands for
/// the bars of a symbol that has none.
pub fn holding_candidates<'a, F: Fn(Formula) -> Number>(
    p: &'a Portfolio,
    none: &'a Vec<PriceHistoryPoint>,
    calc: &F,
) -> (r: Vec<HoldingCandidate<'a>>)
    requires
        is_calculator(*calc),
        none@.len() == 0,
    ensures
        r@.len() == p.standings@.len(),
        forall|i: int|
            0 <= i < r@.len() ==> is_candidate(#[trigger] r@[i], *p, p.standings@[i]),
{
    let mut out: Vec<HoldingCandidate<'a>> = Vec::new();
    let mut i: usize = 0;
    while i < p.standings.len()
        invariant
            i <= p.standings.len(),
            is_calculator(*calc),
            none@.len() == 0,
            out@.len() == i,
            forall|k: int| 0 <= k < i ==> is_candidate(#[trigger] out@[k], *p, p.standings@[k]),
        decreases p.standings.len() - i,
    {
        let s = &p.standings[i];
        let symbol = s.symbol.as_str();
        let context = symbol_context(symbol, &p.inputs, calc);
        let currency = match p.inputs.info.get(symbol) {
            Some(info) => match &info.currency {
                Some(c) => Some(c.clone()),
                None => None,
            },
            None => None,
        };
        let bars = match p.bars.get(symbol) {
            Some(b) => b,
            None => none,
        };
        assert(bars@ =~= p.bars_of(s.symbol@));
        out.push(
            HoldingCandidate {
                symbol: s.symbol.clone(),
                shares: s.left.shares,
                price: context.price.native,
                volume: context.price.volume,
                currency,
                fields: p.fields.get(symbol),
                bars: Some(bars),
            },
        );
        i += 1;
    }
    out
}

// ---------------------------------------------------------------------------
// The watched symbols that may be on a list
// ---------------------------------------------------------------------------

/// What is stored about the watched symbols.
#[derive(Debug)]
pub struct Watched {
    pub rows: Vec<WatchRow>,
    pub prices: TextMap<CurrentPrice>,
    pub fields: TextMap<TextMap<Field>>,
    /// The stored bars with a high or a close, in the order of their days.
    pub bars: TextMap<Vec<PriceHistoryPoint>>,
}

/// Whether `c` is a watched symbol as the dashboard's lists see it.
pub open spec fn is_watch_candidate(c: WatchCandidate, w: Watched, row: WatchRow) -> bool {
    let price = found(w.prices@, row.symbol@);
    &&& c.symbol@ == row.symbol@
    &&& c.price == (match price {
        Some(p) => p.price,
        None => None,
    })
    &&& c.volume == (match price {
        Some(p) => p.volume,
        None => None,
    })
    &&& c.breakthrough_price == row.breakthrough_price
    &&& c.stop_loss_price == row.stop_loss_price
    &&& fields_view(c.fields) == (match found(w.fields@, row.symbol@) {
        Some(m) => Some(m@),
        None => None,
    })
    &&& c.bars is Some
    &&& c.bars->0@ == (match found(w.bars@, row.symbol@) {
        Some(b) => b@,
        None => seq![],
    })
}

/// The rows of the watchlist as the dashboard's lists see them, one for each
/// list that a symbol is on. `none` stands for the bars of a symbol that has
/// none.
pub fn watch_candidates<'a>(w: &'a Watched, none: &'a Vec<PriceHistoryPoint>) -> (r: Vec<
    WatchCandidate<'a>,
>)
    requires
        none@.len() == 0,
    ensures
        r@.len() == w.rows@.len(),
        forall|i: int|
            0 <= i < r@.len() ==> is_watch_candidate(#[trigger] r@[i], *w, w.rows@[i]),
{
    let mut out: Vec<WatchCandidate<'a>> = Vec::new();
    let mut i: usize = 0;
    while i < w.rows.len()
        invariant
            i <= w.rows.len(),
            none@.len() == 0,
            out@.len() == i,
            forall|k: int| 0 <= k < i ==> is_watch_candidate(#[trigger] out@[k], *w, w.rows@[k]),
        decreases w.rows.len() - i,
    {
        let row = &w.rows[i];
        let symbol = row.symbol.as_str();
        let (price, volume) = match w.prices.get(symbol) {
            Some(p) => (p.price, p.volume),
            None => (None, None),
        };
        let bars = match w.bars.get(symbol) {
            Some(b) => b,
            None => none,
        };
        assert(none@ =~= seq![]);
        out.push(
            WatchCandidate {
                symbol: row.symbol.clone(),
                price,
                volume,
                breakthrough_price: row.breakthrough_price,
                stop_loss_price: row.stop_loss_price,
                fields: w.fields.get(symbol),
                bars: Some(bars),
            },
        );
        i += 1;
    }
    out
}

// ---------------------------------------------------------------------------
// Laws
// ---------------------------------------------------------------------------

/// What the holdings screen shows, added up.
pub open spec fn shown_total<F: Fn(Formula) -> Number>(calc: F, rows: Seq<HoldingRow>) -> AggView
    decreases rows.len(),
{
    if rows.len() == 0 {
        no_figures()
    } else {
        let f = rows.last().figures;
        with_symbol(
            calc,
            shown_total(calc, rows.drop_last()),
            AggView {
                count: 1,
                value: f.current_value,
                dividends: f.dividends,
                pl: f.pl,
                cost: f.invested,
            },
        )
    }
}

/// The dashboard's totals are the sum of what the holdings screen shows: the two
/// cannot disagree about a position. This holds where every count of shares is a
/// number; one that is none is shown and not added up.
pub proof fn the_totals_are_what_the_holdings_show<F: Fn(Formula) -> Number>(
    calc: F,
    p: Portfolio,
    standings: Seq<Standing>,
    holdings: Seq<HoldingRow>,
    positions: Seq<PositionRow>,
)
    requires
        are_holdings(calc, holdings, p, standings),
        are_positions(calc, positions, p, standings),
        forall|i: int| 0 <= i < standings.len() ==> !(#[trigger] standings[i]).left.shares.is_nan(),
    ensures
        part_figures(calc, positions, Part::Held) == shown_total(calc, holdings),
    decreases standings.len(),
{
    if standings.len() > 0 {
        let s = standings.last();
        let fewer = standings.drop_last();
        lemma_held(fewer);
        assert(!standings[standings.len() - 1].left.shares.is_nan());
        assert forall|i: int| 0 <= i < fewer.len() implies !(#[trigger] fewer[i]).left.shares.is_nan() by {
            assert(!standings[i].left.shares.is_nan());
        }
        assert(is_position(calc, positions.last(), p, s));
        assert forall|i: int| 0 <= i < positions.drop_last().len() implies is_position(
            calc,
            #[trigger] positions.drop_last()[i],
            p,
            fewer[i],
        ) by {
            assert(is_position(calc, positions[i], p, standings[i]));
        }
        if s.left.shares.remains() {
            let n = holdings.len() - 1;
            assert(held(standings)[n] == standings.len() - 1);
            assert(is_holding(calc, holdings[n], p, s));
            assert forall|i: int| 0 <= i < n implies is_holding(
                calc,
                #[trigger] holdings.drop_last()[i],
                p,
                fewer[held(fewer)[i]],
            ) by {
                assert(held(standings)[i] == held(fewer)[i]);
                assert(is_holding(calc, holdings[i], p, standings[held(standings)[i]]));
            }
            the_totals_are_what_the_holdings_show(
                calc,
                p,
                fewer,
                holdings.drop_last(),
                positions.drop_last(),
            );
        } else {
            assert forall|i: int| 0 <= i < holdings.len() implies is_holding(
                calc,
                #[trigger] holdings[i],
                p,
                fewer[held(fewer)[i]],
            ) by {
                assert(is_holding(calc, holdings[i], p, standings[held(standings)[i]]));
            }
            the_totals_are_what_the_holdings_show(
                calc,
                p,
                fewer,
                holdings,
                positions.drop_last(),
            );
        }
    }
}


/// The last point of the chart of the portfolio's value prices a symbol as the
/// holdings screen does: where the two have the same quote, the same price
/// entered by hand and the same last close, today's point takes the same price,
/// and where they have the same live rate, it converts it by the same rate.
pub proof fn todays_point_takes_the_price_of_the_holdings(
    p: Portfolio,
    h: HistoryInputs,
    symbol: Seq<char>,
    days: Seq<Seq<char>>,
    k: int,
)
    requires
        quoted(h.quotes@, symbol) == cached_price(found(p.inputs.quotes@, symbol)),
        quoted(h.manual@, symbol) == entered_price(p.inputs.config@, symbol),
        last_passed(
            series_of(h.closes@, symbol),
            reached(close_dates(series_of(h.closes@, symbol)), days, k),
        ) == (match found(p.inputs.last_closes@, symbol) {
            Some(c) => Some(c.close),
            None => None,
        }),
        trading_currency(h, symbol) == currency_text(p.inputs.info@, symbol),
        quoted(h.quotes@, fx_pair(trading_currency(h, symbol))) == known_rate(
            p.inputs.rates@,
            trading_currency(h, symbol),
        ),
    ensures
        close_on(h, symbol, days, k, days[k]) == p.native_price(symbol),
        p.rate(symbol) is Some ==> rate_on(h, symbol, days, k, days[k]) == p.rate(symbol),
{
}

/// A holding is valued at the price that is shown with it, in the base currency;
/// its stop loss trails the price in its own currency, and its average is shown at
/// the rate that takes its currency to the base.
pub proof fn a_holding_is_valued_at_the_price_shown<F: Fn(Formula) -> Number>(
    calc: F,
    row: HoldingRow,
    p: Portfolio,
    s: Standing,
)
    requires
        is_holding(calc, row, p, s),
    ensures
        row.shares == s.left.shares && row.context.symbol@ == s.symbol@,
        ({
            let rate = base_rate(p.inputs.rates@, currency_text(p.inputs.info@, s.symbol@));
            let bars = match found(p.bars@, s.symbol@) {
                Some(b) => b@,
                None => seq![],
            };
            let average = indicator_of(calc, bars, "sma150"@);
            &&& Some(row.figures) == holding_figures(
                calc,
                s.left,
                row.basis,
                row.context.price.aud,
                rate,
            )
            &&& row.stop == stop_loss_of(
                calc,
                match found(p.fields@, s.symbol@) {
                    Some(m) => Some(m@),
                    None => None,
                },
                bars,
                row.context.price.native,
                None,
            )
            &&& row.sma150 is Some <==> average is Some
            &&& average is Some ==> row.sma150 == Some(converted(calc, average->0, rate))
            &&& row.context.price.native is Some ==> row.context.price.aud == Some(
                converted(calc, row.context.price.native->0, rate),
            )
        }),
{
}

/// Every holding of which shares are left is shown, in the order of the standings,
/// and no other.
pub proof fn what_is_left_is_shown(standings: Seq<Standing>, s: Standing)
    ensures
        held(Seq::empty()) == Seq::<int>::empty(),
        !s.left.shares.at_most(crate::number::number(0)) ==> held(standings.push(s)) == held(
            standings,
        ).push(standings.len() as int),
        s.left.shares.at_most(crate::number::number(0)) ==> held(standings.push(s)) == held(
            standings,
        ),
{
    assert(standings.push(s).drop_last() =~= standings);
}

/// A position of the dashboard is priced and measured as the holding is.
pub proof fn a_position_is_that_of_the_holding<F: Fn(Formula) -> Number>(
    calc: F,
    position: PositionRow,
    row: HoldingRow,
    p: Portfolio,
    s: Standing,
)
    requires
        is_position(calc, position, p, s),
        is_holding(calc, row, p, s),
    ensures
        position.symbol@ == row.context.symbol@,
        position.shares == row.shares,
        position.price == row.context.price.aud,
        position.cost == row.figures.invested,
        position.dividends == row.figures.dividends,
        position.etf == row.context.etf,
        option_view(position.sector) == option_view(row.sector),
{
}

/// What the lists, the averages and the risk of a holding are taken from is what
/// its row shows: the price in its own currency, the price in the base currency,
/// the average, the volume and the shares.
pub proof fn one_holding_is_shown_alike_everywhere<F: Fn(Formula) -> Number>(
    calc: F,
    row: HoldingRow,
    candidate: HoldingCandidate,
    average: AverageRow,
    line: RiskLine,
    p: Portfolio,
    s: Standing,
)
    requires
        is_holding(calc, row, p, s),
        is_candidate(candidate, p, s),
        is_average(calc, average, p, s),
        is_risk(calc, line, p, s),
    ensures
        candidate.symbol@ == row.context.symbol@,
        candidate.shares == row.shares,
        candidate.price == row.context.price.native,
        candidate.volume == row.context.price.volume,
        average.symbol@ == row.context.symbol@,
        average.shares == row.shares,
        average.price == row.context.price.aud,
        average.sma150 == row.sma150,
        line.symbol@ == row.context.symbol@,
        line.row.shares == row.shares,
        row.context.price.native is Some ==> line.row.current_price == Some(
            converted(calc, row.context.price.native->0, line.display.quote_rate),
        ),
        row.context.all_aud ==> line.display.currency@ == "AUD"@,
        !row.context.all_aud ==> line.display.currency@ == currency_text(
            p.inputs.info@,
            s.symbol@,
        ),
{
}

/// What was sold of a symbol counts in the overview as it stands on record.
pub proof fn a_position_brings_along_its_sales<F: Fn(Formula) -> Number>(
    calc: F,
    row: PositionRow,
    p: Portfolio,
    s: Standing,
)
    requires
        is_position(calc, row, p, s),
    ensures
        row.symbol@ == s.symbol@,
        row.sold_proceeds == s.sold_proceeds,
        row.sold_dividends == s.sold_dividends,
        row.sold_pl == s.sold_pl,
{
}

/// There is a line of risk for each symbol of which anything is left, and for no
/// other.
pub proof fn every_holding_has_a_line_of_risk<F: Fn(Formula) -> Number>(
    calc: F,
    lines: Seq<RiskLine>,
    p: Portfolio,
    standings: Seq<Standing>,
    k: int,
)
    requires
        are_risks(calc, lines, p, standings),
        0 <= k < standings.len(),
        standings[k].left.shares.remains(),
    ensures
        exists|i: int| 0 <= i < lines.len() && (#[trigger] lines[i]).symbol@ == standings[k].symbol@,
        lines.len() <= standings.len(),
        risk_rows(lines).len() == lines.len(),
        forall|i: int| 0 <= i < lines.len() ==> #[trigger] risk_rows(lines)[i] == lines[i].row,
{
    lemma_holds(standings, k);
    let i = choose|i: int| 0 <= i < held(standings).len() && held(standings)[i] == k;
    assert(is_risk(calc, lines[i], p, standings[held(standings)[i]]));
}

proof fn lemma_holds(standings: Seq<Standing>, k: int)
    requires
        0 <= k < standings.len(),
        standings[k].left.shares.remains(),
    ensures
        held(standings).contains(k),
        held(standings).len() <= standings.len(),
    decreases standings.len(),
{
    let less = standings.drop_last();
    lemma_held_length(standings);
    if k < less.len() {
        assert(less[k] == standings[k]);
        lemma_holds(less, k);
        let i = choose|i: int| 0 <= i < held(less).len() && held(less)[i] == k;
        assert(held(standings)[i] == k);
    } else {
        assert(held(standings)[held(less).len() as int] == k);
    }
}

proof fn lemma_held_length(standings: Seq<Standing>)
    ensures
        held(standings).len() <= standings.len(),
    decreases standings.len(),
{
    if standings.len() > 0 {
        lemma_held_length(standings.drop_last());
    }
}

/// A watched symbol is listed with its own price, bars, fields and levels.
pub proof fn a_watched_symbol_is_listed_with_its_own_figures(
    c: WatchCandidate,
    w: Watched,
    row: WatchRow,
)
    requires
        is_watch_candidate(c, w, row),
    ensures
        c.symbol@ == row.symbol@,
        w.prices@.contains_key(row.symbol@) ==> c.price == w.prices@[row.symbol@].price && c.volume
            == w.prices@[row.symbol@].volume,
        !w.prices@.contains_key(row.symbol@) ==> c.price is None && c.volume is None,
        w.bars@.contains_key(row.symbol@) ==> c.bars->0@ == w.bars@[row.symbol@]@,
        !w.bars@.contains_key(row.symbol@) ==> c.bars->0@.len() == 0,
        w.fields@.contains_key(row.symbol@) ==> fields_view(c.fields) == Some(
            w.fields@[row.symbol@]@,
        ),
        !w.fields@.contains_key(row.symbol@) ==> fields_view(c.fields) is None,
        c.breakthrough_price == row.breakthrough_price,
        c.stop_loss_price == row.stop_loss_price,
{
}

} // verus!
