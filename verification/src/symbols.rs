//! Symbols: how they are written, which are held, and which no longer trade.
use vstd::prelude::*;
use crate::exact::{exact, is_exact, lemma_exact, lemma_sign, unrounded, Reading};
use crate::dates::{date_text, format_day, weekday, weekday_number};
use crate::number::{evaluate, is_calculator, num, opposite, sum, worth, Formula, Number};
use crate::order::{distinct_sorted, strictly_ascending};
use crate::text::{
    ascii_char, ascii_text, ascii_upper, ascii_upper_text, blank_char, ends_with, has_suffix,
    is_blank, joined, lemma_trim_leaves, lemma_trim_span, same, split, split_text, string_views,
    to_upper, trim_text, trimmed, upper_case, views,
};

verus! {

broadcast use vstd::string::group_string_axioms;

// ---------------------------------------------------------------------------
// How symbols are written
// ---------------------------------------------------------------------------

/// A symbol as it is stored.
pub open spec fn normal_symbol(symbol: Seq<char>) -> Seq<char> {
    upper_case(trim_text(symbol))
}

/// A symbol as it is stored: trimmed, in upper case.
pub fn normalize_symbol(symbol: &str) -> (r: String)
    ensures
        r@ == normal_symbol(symbol@),
{
    to_upper(trimmed(symbol))
}

/// A symbol as it is stored is settled: storing it again changes nothing. It
/// neither begins nor ends with white space, and holds no small letter.
pub proof fn a_stored_symbol_is_settled(symbol: Seq<char>)
    requires
        ascii_text(symbol),
    ensures
        normal_symbol(normal_symbol(symbol)) == normal_symbol(symbol),
        ascii_text(normal_symbol(symbol)),
        normal_symbol(symbol).len() > 0 ==> !blank_char(normal_symbol(symbol).first())
            && !blank_char(normal_symbol(symbol).last()),
        forall|i: int|
            0 <= i < normal_symbol(symbol).len() ==> !('a' <= #[trigger] normal_symbol(symbol)[i]
                <= 'z'),
{
    let span = lemma_trim_span(symbol);
    let t = trim_text(symbol);
    let n = normal_symbol(symbol);
    assert forall|i: int| 0 <= i < t.len() implies ascii_char(#[trigger] t[i]) by {
        assert(t[i] == symbol[span.0 + i]);
    }
    assert forall|i: int| 0 <= i < n.len() implies ascii_char(#[trigger] n[i]) && !('a' <= n[i]
        <= 'z') && blank_char(n[i]) == blank_char(t[i]) by {
        assert(n[i] == ascii_upper(t[i]));
    }
    if n.len() > 0 {
        assert(t[0] == symbol[span.0]);
        assert(t[t.len() - 1] == symbol[span.1 - 1]);
        assert(n.first() == n[0] && n.last() == n[n.len() - 1]);
    }
    lemma_trim_leaves(n, 0, n.len() as int);
    assert(n.subrange(0, n.len() as int) =~= n);
    assert(ascii_upper_text(n) =~= n);
}

/// Neither the case of its letters nor white space round it makes another
/// symbol.
pub proof fn case_and_padding_make_no_other_symbol(
    symbol: Seq<char>,
    recased: Seq<char>,
    before: Seq<char>,
    after: Seq<char>,
)
    requires
        ascii_text(symbol),
        recased.len() == symbol.len(),
        forall|i: int|
            0 <= i < symbol.len() ==> ascii_upper(#[trigger] recased[i]) == ascii_upper(symbol[i]),
        forall|i: int| 0 <= i < before.len() ==> blank_char(#[trigger] before[i]),
        forall|i: int| 0 <= i < after.len() ==> blank_char(#[trigger] after[i]),
    ensures
        normal_symbol(before + recased + after) == normal_symbol(symbol),
{
    let span = lemma_trim_span(symbol);
    let padded = before + recased + after;
    let b = before.len() as int;
    assert forall|i: int| 0 <= i < symbol.len() implies ascii_char(#[trigger] recased[i])
        && blank_char(recased[i]) == blank_char(symbol[i]) by {
        assert(ascii_upper(recased[i]) == ascii_upper(symbol[i]));
        assert(ascii_char(symbol[i]));
    }
    assert forall|i: int| 0 <= i < b + span.0 implies blank_char(#[trigger] padded[i]) by {
        if i < b {
            assert(padded[i] == before[i]);
        } else {
            assert(padded[i] == recased[i - b]);
            assert(blank_char(symbol[i - b]));
        }
    }
    assert forall|i: int| b + span.1 <= i < padded.len() implies blank_char(#[trigger] padded[i]) by {
        if i < b + symbol.len() {
            assert(padded[i] == recased[i - b]);
            assert(blank_char(symbol[i - b]));
        } else {
            assert(padded[i] == after[i - b - symbol.len()]);
        }
    }
    if span.0 < span.1 {
        assert(padded[b + span.0] == recased[span.0]);
        assert(padded[b + span.1 - 1] == recased[span.1 - 1]);
    }
    lemma_trim_leaves(padded, b + span.0, b + span.1);
    let t = trim_text(symbol);
    let p = trim_text(padded);
    assert forall|i: int| 0 <= i < t.len() implies ascii_char(#[trigger] t[i]) && ascii_char(
        #[trigger] p[i],
    ) && ascii_upper(p[i]) == ascii_upper(t[i]) by {
        assert(t[i] == symbol[span.0 + i]);
        assert(p[i] == recased[span.0 + i]);
    }
    assert(ascii_upper_text(p) =~= ascii_upper_text(t));
}

/// The symbol under which the rate of a currency is quoted.
pub open spec fn fx_pair(currency: Seq<char>) -> Seq<char> {
    normal_symbol(currency) + "AUD=X"@
}

/// The symbol under which it is quoted how many Australian dollars one unit of
/// `currency` buys. Rates are stored as ordinary symbols: they are quoted in
/// daily bars as shares are.
pub fn fx_pair_symbol(currency: &str) -> (r: String)
    ensures
        r@ == fx_pair(currency@),
{
    joined(normalize_symbol(currency).as_str(), "AUD=X")
}

/// The symbols of a comma-separated list, without the empty ones.
pub open spec fn symbols_in(pieces: Seq<Seq<char>>) -> Seq<Seq<char>>
    decreases pieces.len(),
{
    if pieces.len() == 0 {
        seq![]
    } else if is_blank(pieces.last()) {
        symbols_in(pieces.drop_last())
    } else {
        symbols_in(pieces.drop_last()).push(normal_symbol(trim_text(pieces.last())))
    }
}

/// The symbols of a comma-separated list, as they are stored.
pub fn parse_symbols(list: &str) -> (r: Vec<String>)
    ensures
        string_views(r@) == symbols_in(split_text(list@, ',')),
{
    let pieces = split(list, ',');
    let ghost all = views(pieces@);
    let mut out: Vec<String> = Vec::new();
    let mut i: usize = 0;
    assert(string_views(out@) =~= seq![]);
    while i < pieces.len()
        invariant
            i <= pieces.len(),
            all == views(pieces@),
            string_views(out@) == symbols_in(all.take(i as int)),
        decreases pieces.len() - i,
    {
        let ghost before = string_views(out@);
        proof {
            assert(all.take(i + 1).drop_last() =~= all.take(i as int));
            assert(all.take(i + 1).last() == pieces@[i as int]@);
        }
        let t = trimmed(pieces[i]);
        if !t.is_empty() {
            out.push(normalize_symbol(t));
            assert(string_views(out@) =~= before.push(normal_symbol(t@)));
        }
        i += 1;
    }
    assert(all.take(pieces.len() as int) =~= all);
    out
}

// ---------------------------------------------------------------------------
// The last day with a bar
// ---------------------------------------------------------------------------

/// How many days before `day` the last expected bar is, at `hour` UTC. On a
/// weekend and early on Monday it is Friday's; the Australian market is open by
/// seven, the others by ten.
pub open spec fn days_back(day: int, hour: int, symbol: Seq<char>) -> int {
    if weekday_number(day) == 5 {
        1
    } else if weekday_number(day) == 6 {
        2
    } else if weekday_number(day) == 0 && hour < (if has_suffix(upper_case(symbol), ".AX"@) {
        7int
    } else {
        10
    }) {
        3
    } else {
        0
    }
}

/// The date of the last bar to expect for `symbol` on `day` at `hour` UTC.
pub fn last_expected_trading_day(day: i32, hour: u32, symbol: &str) -> (r: Option<String>)
    requires
        crate::dates::MIN_DAY <= day <= crate::dates::MAX_DAY,
    ensures
        crate::text::option_view(r) == date_text(day - days_back(day as int, hour as int, symbol@)),
{
    let w = weekday(day);
    let cutoff: u32 = if ends_with(to_upper(symbol).as_str(), ".AX") {
        7
    } else {
        10
    };
    let back: i32 = if w == 5 {
        1
    } else if w == 6 {
        2
    } else if w == 0 && hour < cutoff {
        3
    } else {
        0
    };
    format_day(day - back)
}

/// The last expected bar is never one of a weekend.
pub proof fn no_bar_is_expected_on_a_weekend(day: int, hour: int, symbol: Seq<char>)
    ensures
        0 <= weekday_number(day - days_back(day, hour, symbol)) <= 4,
        day - 3 <= day - days_back(day, hour, symbol) <= day,
{
    let w = weekday_number(day);
    if w == 5 {
        assert((day - 1 - 1) % 7 == 4) by (nonlinear_arith)
            requires
                (day - 1) % 7 == 5,
        ;
    } else if w == 6 {
        assert((day - 2 - 1) % 7 == 4) by (nonlinear_arith)
            requires
                (day - 1) % 7 == 6,
        ;
    } else if w == 0 {
        assert((day - 3 - 1) % 7 == 4) by (nonlinear_arith)
            requires
                (day - 1) % 7 == 0,
        ;
    }
}

// ---------------------------------------------------------------------------
// What is held, sold and exited
// ---------------------------------------------------------------------------

/// A recorded trade: a purchase, a sale or something else.
#[derive(Debug)]
pub struct TradeRow {
    pub symbol: String,
    pub transaction_type: String,
    pub quantity: Option<Number>,
}

impl TradeRow {
    /// What the trade adds to the shares of a symbol.
    pub open spec fn change(self, symbol: Seq<char>) -> Option<Formula> {
        if self.symbol@ != symbol || self.quantity is None {
            None
        } else if self.transaction_type@ == "purchase"@ {
            Some(num(self.quantity->0))
        } else if self.transaction_type@ == "sale"@ {
            Some(opposite(num(self.quantity->0)))
        } else {
            None
        }
    }
}

/// The shares of a symbol: what the trades add to it, one after another. There
/// is no such figure where no trade has a quantity.
pub open spec fn net_shares(rows: Seq<TradeRow>, symbol: Seq<char>) -> Option<Formula>
    decreases rows.len(),
{
    if rows.len() == 0 {
        None
    } else {
        match (net_shares(rows.drop_last(), symbol), rows.last().change(symbol)) {
            (Some(a), Some(b)) => Some(sum(a, b)),
            (None, b) => b,
            (a, None) => a,
        }
    }
}

/// Whether shares of the symbol are held.
pub open spec fn is_held<F: Fn(Formula) -> Number>(
    calc: F,
    rows: Seq<TradeRow>,
    symbol: Seq<char>,
) -> bool {
    match net_shares(rows, symbol) {
        Some(f) => worth(calc, f).positive(),
        None => false,
    }
}

/// Whether the symbol was traded and none of its shares is held.
pub open spec fn is_sold<F: Fn(Formula) -> Number>(
    calc: F,
    rows: Seq<TradeRow>,
    symbol: Seq<char>,
) -> bool {
    match net_shares(rows, symbol) {
        Some(f) => worth(calc, f).at_most(Number { bits: 0 }),
        None => false,
    }
}

/// Whether some shares of the symbol were sold.
pub open spec fn has_sale(rows: Seq<TradeRow>, symbol: Seq<char>) -> bool {
    exists|i: int|
        0 <= i < rows.len() && (#[trigger] rows[i]).symbol@ == symbol && rows[i].transaction_type@
            == "sale"@
}

/// Whether the symbol was sold out of: nothing held, but at least one sale.
pub open spec fn is_exited<F: Fn(Formula) -> Number>(
    calc: F,
    rows: Seq<TradeRow>,
    symbol: Seq<char>,
) -> bool {
    is_sold(calc, rows, symbol) && has_sale(rows, symbol)
}

/// The shares of a symbol.
fn shares_of(rows: &Vec<TradeRow>, symbol: &str) -> (r: Option<Formula>)
    ensures
        r == net_shares(rows@, symbol@),
{
    let mut out: Option<Formula> = None;
    let mut i: usize = 0;
    while i < rows.len()
        invariant
            i <= rows.len(),
            out == net_shares(rows@.take(i as int), symbol@),
        decreases rows.len() - i,
    {
        proof {
            assert(rows@.take(i + 1).drop_last() =~= rows@.take(i as int));
        }
        let row = &rows[i];
        let change = if !same(row.symbol.as_str(), symbol) {
            None
        } else {
            match row.quantity {
                None => None,
                Some(q) => if same(row.transaction_type.as_str(), "purchase") {
                    Some(Formula::of(q))
                } else if same(row.transaction_type.as_str(), "sale") {
                    Some(Formula::of(q).negated())
                } else {
                    None
                },
            }
        };
        out = match (out, change) {
            (Some(a), Some(b)) => Some(a.plus(b)),
            (None, b) => b,
            (a, None) => a,
        };
        i += 1;
    }
    assert(rows@.take(rows.len() as int) =~= rows@);
    out
}

/// How many shares of a symbol are held: what was bought less what was sold.
pub fn shares_held<F: Fn(Formula) -> Number>(rows: &Vec<TradeRow>, symbol: &str, calc: &F) -> (r: Number)
    requires
        is_calculator(*calc),
    ensures
        r == (match net_shares(rows@, symbol@) {
            Some(f) => worth(*calc, f),
            None => Number { bits: 0 },
        }),
{
    match shares_of(rows, symbol) {
        Some(f) => evaluate(calc, f),
        None => Number { bits: 0 },
    }
}

/// Whether some shares of the symbol were sold.
fn any_sale(rows: &Vec<TradeRow>, symbol: &str) -> (r: bool)
    ensures
        r == has_sale(rows@, symbol@),
{
    let mut i: usize = 0;
    while i < rows.len()
        invariant
            i <= rows.len(),
            forall|j: int|
                0 <= j < i ==> !((#[trigger] rows@[j]).symbol@ == symbol@
                    && rows@[j].transaction_type@ == "sale"@),
        decreases rows.len() - i,
    {
        if same(rows[i].symbol.as_str(), symbol) && same(
            rows[i].transaction_type.as_str(),
            "sale",
        ) {
            return true;
        }
        i += 1;
    }
    false
}

/// Which of three questions is asked of a symbol.
#[derive(Clone, Copy, PartialEq, Eq, Structural, Debug)]
pub enum Holding {
    Held,
    Sold,
    Exited,
}

/// The answer to the question.
pub open spec fn holding_is<F: Fn(Formula) -> Number>(
    calc: F,
    rows: Seq<TradeRow>,
    symbol: Seq<char>,
    which: Holding,
) -> bool {
    match which {
        Holding::Held => is_held(calc, rows, symbol),
        Holding::Sold => is_sold(calc, rows, symbol),
        Holding::Exited => is_exited(calc, rows, symbol),
    }
}

proof fn lemma_net_needs_a_row(rows: Seq<TradeRow>, symbol: Seq<char>)
    requires
        net_shares(rows, symbol) is Some,
    ensures
        exists|i: int| 0 <= i < rows.len() && (#[trigger] rows[i]).symbol@ == symbol,
    decreases rows.len(),
{
    if rows.len() > 0 {
        if rows.last().symbol@ == symbol {
            assert(rows[rows.len() - 1].symbol@ == symbol);
        } else {
            lemma_net_needs_a_row(rows.drop_last(), symbol);
            let i = choose|i: int|
                0 <= i < rows.drop_last().len() && (#[trigger] rows.drop_last()[i]).symbol@
                    == symbol;
            assert(rows[i].symbol@ == symbol);
        }
    }
}

/// The symbols of which the question is answered with yes, in order.
fn symbols_that_are<F: Fn(Formula) -> Number>(
    rows: &Vec<TradeRow>,
    which: Holding,
    calc: &F,
) -> (r: Vec<String>)
    requires
        is_calculator(*calc),
    ensures
        strictly_ascending(string_views(r@)),
        forall|s: Seq<char>| #[trigger]
            string_views(r@).contains(s) <==> holding_is(*calc, rows@, s, which),
{
    let mut found: Vec<String> = Vec::new();
    let mut i: usize = 0;
    while i < rows.len()
        invariant
            i <= rows.len(),
            is_calculator(*calc),
            forall|j: int|
                0 <= j < found@.len() ==> holding_is(
                    *calc,
                    rows@,
                    (#[trigger] found@[j])@,
                    which,
                ),
            forall|j: int|
                0 <= j < i && holding_is(*calc, rows@, (#[trigger] rows@[j]).symbol@, which)
                    ==> string_views(found@).contains(rows@[j].symbol@),
        decreases rows.len() - i,
    {
        let symbol = rows[i].symbol.as_str();
        let ghost before = found@;
        let hit = match shares_of(rows, symbol) {
            None => false,
            Some(f) => {
                let net = evaluate(calc, f);
                match which {
                    Holding::Held => net.is_positive(),
                    Holding::Sold => net.no_more_than(Number { bits: 0 }),
                    Holding::Exited => net.no_more_than(Number { bits: 0 }) && any_sale(
                        rows,
                        symbol,
                    ),
                }
            },
        };
        if hit {
            found.push(rows[i].symbol.clone());
            proof {
                assert forall|t: Seq<char>| string_views(before).contains(t) implies string_views(
                    found@,
                ).contains(t) by {
                    let k = choose|k: int|
                        0 <= k < string_views(before).len() && string_views(before)[k] == t;
                    assert(string_views(found@)[k] == t);
                }
                assert(string_views(found@)[before.len() as int] == symbol@);
            }
        }
        i += 1;
    }
    let r = distinct_sorted(&found);
    proof {
        assert forall|s: Seq<char>| #[trigger]
            string_views(r@).contains(s) <==> holding_is(*calc, rows@, s, which) by {
            assert(string_views(r@).contains(s) <==> string_views(r@).to_set().contains(s));
            assert(string_views(found@).contains(s) <==> string_views(found@).to_set().contains(
                s,
            ));
            if string_views(found@).contains(s) {
                let k = choose|k: int|
                    0 <= k < string_views(found@).len() && string_views(found@)[k] == s;
                assert(found@[k]@ == s);
            }
            if holding_is(*calc, rows@, s, which) {
                lemma_net_needs_a_row(rows@, s);
                let j = choose|j: int| 0 <= j < rows@.len() && (#[trigger] rows@[j]).symbol@ == s;
                assert(string_views(found@).contains(rows@[j].symbol@));
            }
        }
    }
    r
}

/// The symbols sold out of entirely, in order: nothing held, but at least one
/// sale. They go on being priced, so that one can see what became of them.
pub fn load_exited_symbols<F: Fn(Formula) -> Number>(rows: &Vec<TradeRow>, calc: &F) -> (r: Vec<
    String,
>)
    requires
        is_calculator(*calc),
    ensures
        strictly_ascending(string_views(r@)),
        forall|s: Seq<char>| #[trigger]
            string_views(r@).contains(s) <==> is_exited(*calc, rows@, s),
{
    symbols_that_are(rows, Holding::Exited, calc)
}

/// The symbols of which shares are held, in order.
pub fn load_holding_symbols<F: Fn(Formula) -> Number>(rows: &Vec<TradeRow>, calc: &F) -> (r: Vec<
    String,
>)
    requires
        is_calculator(*calc),
    ensures
        strictly_ascending(string_views(r@)),
        forall|s: Seq<char>| #[trigger]
            string_views(r@).contains(s) <==> is_held(*calc, rows@, s),
{
    symbols_that_are(rows, Holding::Held, calc)
}

/// The symbols that were traded and of which nothing is held, in order.
pub fn load_sold_symbols<F: Fn(Formula) -> Number>(rows: &Vec<TradeRow>, calc: &F) -> (r: Vec<
    String,
>)
    requires
        is_calculator(*calc),
    ensures
        strictly_ascending(string_views(r@)),
        forall|s: Seq<char>| #[trigger]
            string_views(r@).contains(s) <==> is_sold(*calc, rows@, s),
{
    symbols_that_are(rows, Holding::Sold, calc)
}

/// No symbol is both held and exited: one that were would be priced twice at
/// every refresh.
pub proof fn held_and_exited_do_not_overlap<F: Fn(Formula) -> Number>(
    calc: F,
    rows: Seq<TradeRow>,
    symbol: Seq<char>,
)
    ensures
        !(is_held(calc, rows, symbol) && is_exited(calc, rows, symbol)),
        !(is_held(calc, rows, symbol) && is_sold(calc, rows, symbol)),
{
}

/// Every symbol with a known number of shares is either held or sold: a symbol
/// that were neither would stop being priced.
pub proof fn a_traded_symbol_is_held_or_sold<F: Fn(Formula) -> Number>(
    calc: F,
    rows: Seq<TradeRow>,
    symbol: Seq<char>,
)
    requires
        net_shares(rows, symbol) is Some,
        !worth(calc, net_shares(rows, symbol)->0).is_nan(),
    ensures
        is_held(calc, rows, symbol) || is_sold(calc, rows, symbol),
{
}

/// A symbol of which nothing was ever sold is not exited, whatever is held.
pub proof fn only_what_was_sold_is_exited<F: Fn(Formula) -> Number>(
    calc: F,
    rows: Seq<TradeRow>,
    symbol: Seq<char>,
)
    requires
        !has_sale(rows, symbol),
    ensures
        !is_exited(calc, rows, symbol),
{
}

/// What was bought of a symbol, or sold of it, in trades that name a quantity.
pub open spec fn traded_quantity(
    r: Reading,
    rows: Seq<TradeRow>,
    symbol: Seq<char>,
    transaction_type: Seq<char>,
) -> real
    decreases rows.len(),
{
    if rows.len() == 0 {
        0 as real
    } else {
        let t = rows.last();
        traded_quantity(r, rows.drop_last(), symbol, transaction_type) + (if t.symbol@ == symbol
            && t.transaction_type@ == transaction_type && t.quantity is Some {
            r.of(t.quantity->0)
        } else {
            0 as real
        })
    }
}

/// Whether the shares of a symbol can be counted without rounding.
pub open spec fn counted_plainly(r: Reading, rows: Seq<TradeRow>, symbol: Seq<char>) -> bool {
    &&& forall|i: int|
        0 <= i < rows.len() && (#[trigger] rows[i]).quantity is Some ==> r.is_plain(
            rows[i].quantity->0,
        ) && r.can(0 as real - r.of(rows[i].quantity->0))
    &&& forall|n: int|
        0 <= n <= rows.len() ==> r.can(
            traded_quantity(r, #[trigger] rows.take(n), symbol, "purchase"@) - traded_quantity(
                r,
                rows.take(n),
                symbol,
                "sale"@,
            ),
        )
}

proof fn lemma_net_shares(r: Reading, rows: Seq<TradeRow>, symbol: Seq<char>)
    requires
        counted_plainly(r, rows, symbol),
    ensures
        ({
            let net = traded_quantity(r, rows, symbol, "purchase"@) - traded_quantity(
                r,
                rows,
                symbol,
                "sale"@,
            );
            match net_shares(rows, symbol) {
                Some(f) => exact(r, f) == net && unrounded(r, f),
                None => net == 0 as real,
            }
        }),
    decreases rows.len(),
{
    reveal_strlit("purchase");
    reveal_strlit("sale");
    assert("purchase"@.len() != "sale"@.len());
    if rows.len() > 0 {
        let less = rows.drop_last();
        let t = rows.last();
        let n = less.len() as int;
        assert forall|i: int|
            0 <= i < less.len() && (#[trigger] less[i]).quantity is Some implies r.is_plain(
            less[i].quantity->0,
        ) && r.can(0 as real - r.of(less[i].quantity->0)) by {
            assert(rows[i] == less[i]);
        }
        assert forall|m: int| 0 <= m <= less.len() implies r.can(
            traded_quantity(r, #[trigger] less.take(m), symbol, "purchase"@) - traded_quantity(
                r,
                less.take(m),
                symbol,
                "sale"@,
            ),
        ) by {
            assert(rows.take(m) =~= less.take(m));
        }
        lemma_net_shares(r, less, symbol);
        assert(rows[n] == t);
        assert(rows.take(n + 1) =~= rows);
        if let Some(b) = t.change(symbol) {
            let q = num(t.quantity->0);
            assert(exact(r, q) == r.of(t.quantity->0));
            assert(unrounded(r, q));
            if t.transaction_type@ != "purchase"@ {
                assert(exact(r, opposite(q)) == 0 as real - exact(r, q));
                assert(unrounded(r, opposite(q)));
            }
            if let Some(a) = net_shares(less, symbol) {
                assert(exact(r, sum(a, b)) == exact(r, a) + exact(r, b));
                assert(unrounded(r, sum(a, b)));
            }
        }
    }
}

/// A symbol is held exactly where more of it was bought than sold; it is exited
/// where it was sold, and no more of it was bought than sold.
pub proof fn held_is_bought_and_not_sold<F: Fn(Formula) -> Number>(
    calc: F,
    r: Reading,
    rows: Seq<TradeRow>,
    symbol: Seq<char>,
)
    requires
        is_exact(calc, r),
        counted_plainly(r, rows, symbol),
    ensures
        ({
            let bought = traded_quantity(r, rows, symbol, "purchase"@);
            let sold = traded_quantity(r, rows, symbol, "sale"@);
            &&& is_held(calc, rows, symbol) <==> bought > sold
            &&& is_sold(calc, rows, symbol) ==> bought <= sold
            &&& net_shares(rows, symbol) is Some && bought <= sold ==> is_sold(calc, rows, symbol)
            &&& is_exited(calc, rows, symbol) <==> is_sold(calc, rows, symbol) && exists|i: int|
                0 <= i < rows.len() && (#[trigger] rows[i]).symbol@ == symbol
                    && rows[i].transaction_type@ == "sale"@
            &&& net_shares(rows, symbol) is Some ==> r.of(
                worth(calc, net_shares(rows, symbol)->0),
            ) == bought - sold
        }),
{
    lemma_net_shares(r, rows, symbol);
    if let Some(f) = net_shares(rows, symbol) {
        lemma_exact(calc, r, f);
        lemma_sign(calc, r, worth(calc, f));
    }
}

/// The bar that is expected is that of the last weekday: on a Saturday or a
/// Sunday that of the Friday before, and so on a Monday before its close, which is
/// due at seven for the Australian exchange and at ten for any other; otherwise it
/// is that of the day.
pub proof fn the_last_weekday_has_a_bar(day: int, hour: int, symbol: Seq<char>)
    ensures
        ({
            let expected = day - days_back(day, hour, symbol);
            let weekday = (day - 1) % 7;
            let australian = has_suffix(upper_case(symbol), ".AX"@);
            &&& weekday == 5 ==> expected == day - 1
            &&& weekday == 6 ==> expected == day - 2
            &&& weekday == 0 && australian && hour < 7 ==> expected == day - 3
            &&& weekday == 0 && australian && hour >= 7 ==> expected == day
            &&& weekday == 0 && !australian && hour < 10 ==> expected == day - 3
            &&& weekday == 0 && !australian && hour >= 10 ==> expected == day
            &&& 1 <= weekday <= 4 ==> expected == day
        }),
{
}

/// The symbols of a list are its pieces, trimmed and in upper case, in their
/// order, without the blank ones.
pub proof fn a_list_names_its_pieces(pieces: Seq<Seq<char>>, piece: Seq<char>)
    ensures
        trim_text(piece).len() == 0 ==> symbols_in(pieces.push(piece)) == symbols_in(pieces),
        trim_text(piece).len() > 0 ==> symbols_in(pieces.push(piece)) == symbols_in(pieces).push(
            upper_case(trim_text(trim_text(piece))),
        ),
        symbols_in(Seq::empty()) == Seq::<Seq<char>>::empty(),
{
    assert(pieces.push(piece).drop_last() =~= pieces);
}

} // verus!
