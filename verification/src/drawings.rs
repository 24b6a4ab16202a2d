//! Lines that users draw on the chart of a symbol.
use vstd::prelude::*;
use crate::cash::{signed, signed_text};
use crate::number::Number;
use crate::order::{are_ranked, sorted, Ranked};
use crate::reply::{bad_request, not_found, Reason, Refusal};
use crate::text::{joined3, option_view, same};

verus! {

broadcast use vstd::string::group_string_axioms;

/// A line as it is sent. A level is at one price; a trend goes from one day and
/// price to another.
#[derive(Debug)]
pub struct NewChartDrawing {
    /// A level where nothing is said.
    pub kind: Option<String>,
    pub price: Number,
    pub start_date: Option<String>,
    pub end_date: Option<String>,
    pub end_price: Option<Number>,
}

/// The kind of a line.
pub open spec fn drawing_kind(kind: Option<Seq<char>>) -> Seq<char> {
    match kind {
        Some(k) => k,
        None => "horizontal"@,
    }
}

/// What is wrong with a line, where something is.
pub open spec fn drawing_error(d: NewChartDrawing) -> Option<Seq<char>> {
    let kind = drawing_kind(option_view(d.kind));
    if !d.price.usable() {
        Some("Price level must be a positive number"@)
    } else if kind == "trend"@ {
        if d.start_date is None || d.end_date is None || d.end_price is None
            || !d.end_price->0.usable() {
            Some("A trendline needs both anchors: start_date, end_date and a positive end_price"@)
        } else if d.start_date->0@ == d.end_date->0@ {
            Some("A trendline's two anchors must be on different dates"@)
        } else {
            None
        }
    } else if kind != "horizontal"@ {
        Some("Unknown drawing kind '"@ + kind + "'"@)
    } else {
        None
    }
}

/// Whether a line may be drawn, and its kind. A level at or under zero is no
/// price, and a trend without its second end could be read but never drawn.
pub fn check_drawing(d: &NewChartDrawing) -> (r: Result<String, Refusal>)
    ensures
        match r {
            Ok(kind) => drawing_error(*d) is None && kind@ == drawing_kind(option_view(d.kind)),
            Err(e) => drawing_error(*d) == Some(e@.1) && e@.0 == Reason::BadRequest,
        },
{
    if !d.price.is_usable() {
        return Err(bad_request("Price level must be a positive number"));
    }
    let kind = match &d.kind {
        Some(k) => k.as_str(),
        None => "horizontal",
    };
    if same(kind, "trend") {
        match (&d.start_date, &d.end_date, d.end_price) {
            (Some(start), Some(end), Some(price)) => {
                if !price.is_usable() {
                    return Err(
                        bad_request(
                            "A trendline needs both anchors: start_date, end_date and a positive end_price",
                        ),
                    );
                }
                if same(start.as_str(), end.as_str()) {
                    return Err(
                        bad_request("A trendline's two anchors must be on different dates"),
                    );
                }
            },
            _ => {
                return Err(
                    bad_request(
                        "A trendline needs both anchors: start_date, end_date and a positive end_price",
                    ),
                );
            },
        }
    } else if !same(kind, "horizontal") {
        return Err(bad_request(joined3("Unknown drawing kind '", kind, "'").as_str()));
    }
    Ok(kind.to_owned())
}

/// What keeps a line from being moved to a price, where something does. `kind`
/// is that of the stored line, where there is one. The price of a trend is only
/// its first end: to move that alone would change its slope.
pub open spec fn move_error(id: int, price: Number, kind: Option<Seq<char>>) -> Option<
    (Reason, Seq<char>),
> {
    if !price.usable() {
        Some((Reason::BadRequest, "Price level must be a positive number"@))
    } else {
        match kind {
            None => Some((Reason::NotFound, "Drawing "@ + signed_text(id) + " not found"@)),
            Some(k) => if k != "horizontal"@ {
                Some((Reason::BadRequest, "Only a horizontal level can be moved to a new price"@))
            } else {
                None
            },
        }
    }
}

/// Whether a line may be moved to a price.
pub fn check_move(id: i64, price: Number, kind: Option<&str>) -> (r: Result<(), Refusal>)
    ensures
        match r {
            Ok(_) => move_error(id as int, price, crate::text::option_slice_view(kind)) is None,
            Err(e) => move_error(id as int, price, crate::text::option_slice_view(kind)) == Some(
                e@,
            ),
        },
{
    if !price.is_usable() {
        return Err(bad_request("Price level must be a positive number"));
    }
    match kind {
        None => Err(
            not_found(joined3("Drawing ", signed(id).as_str(), " not found").as_str()),
        ),
        Some(k) => if !same(k, "horizontal") {
            Err(bad_request("Only a horizontal level can be moved to a new price"))
        } else {
            Ok(())
        },
    }
}

/// A stored line.
#[derive(Debug)]
pub struct ChartDrawing {
    pub id: i64,
    pub symbol: String,
    pub kind: String,
    pub price: Number,
    pub label: Option<String>,
    pub colour: Option<String>,
    pub start_date: Option<String>,
    pub end_date: Option<String>,
    pub end_price: Option<Number>,
    pub created_at: String,
}

/// Where a line stands by its price; what is no number stands below all.
pub open spec fn price_place(price: Number) -> int {
    match price.place() {
        Some(k) => k,
        None => i64::MIN as int,
    }
}

fn price_rank(price: Number) -> (r: i64)
    ensures
        r == price_place(price),
{
    match price.rank() {
        Some(k) => k,
        None => i64::MIN,
    }
}

impl Ranked for ChartDrawing {
    open spec fn precedes(self, other: ChartDrawing) -> bool {
        if price_place(self.price) != price_place(other.price) {
            price_place(self.price) > price_place(other.price)
        } else {
            self.id < other.id
        }
    }

    proof fn precedes_is_irreflexive(a: ChartDrawing) {
    }

    proof fn precedes_is_transitive(a: ChartDrawing, b: ChartDrawing, c: ChartDrawing) {
    }

    proof fn ties_are_transitive(a: ChartDrawing, b: ChartDrawing, c: ChartDrawing) {
    }

    fn goes_before(&self, other: &ChartDrawing) -> (r: bool) {
        let a: i64 = price_rank(self.price);
        let b: i64 = price_rank(other.price);
        if a != b {
            a > b
        } else {
            self.id < other.id
        }
    }
}

/// Those lines that are drawn on the chart of the symbol.
pub open spec fn drawn_on(rows: Seq<ChartDrawing>, symbol: Seq<char>) -> Seq<ChartDrawing>
    decreases rows.len(),
{
    if rows.len() == 0 {
        seq![]
    } else if rows.last().symbol@ == symbol {
        drawn_on(rows.drop_last(), symbol).push(rows.last())
    } else {
        drawn_on(rows.drop_last(), symbol)
    }
}

/// The lines on the chart of a symbol, the highest first.
pub fn chart_drawings(rows: Vec<ChartDrawing>, symbol: &str) -> (r: Vec<ChartDrawing>)
    ensures
        are_ranked(r@, drawn_on(rows@, symbol@)),
{
    let mut mine: Vec<ChartDrawing> = Vec::new();
    let ghost all = rows@;
    assert(all.take(0) =~= Seq::<ChartDrawing>::empty());
    for row in it: rows
        invariant
            it.seq() == all,
            mine@ == drawn_on(all.take(it.index() as int), symbol@),
    {
        let ghost n = it.index() as int;
        assert(all.take(n + 1).drop_last() =~= all.take(n));
        assert(all.take(n + 1).last() == row);
        if same(row.symbol.as_str(), symbol) {
            mine.push(row);
        }
    }
    assert(all.take(all.len() as int) =~= all);
    sorted(mine)
}

/// A level can be moved, and to any price at which it could be drawn.
pub proof fn a_level_moves_wherever_it_could_be_drawn(id: int, d: NewChartDrawing)
    requires
        drawing_error(d) is None,
        drawing_kind(option_view(d.kind)) == "horizontal"@,
    ensures
        move_error(id, d.price, Some("horizontal"@)) is None,
{
}

/// A drawing needs a price above zero, and a trendline two anchors on different
/// days, the second with a price above zero; a level is drawn where nothing is
/// said, and nothing of another kind is.
pub proof fn what_a_drawing_needs(d: NewChartDrawing)
    ensures
        ({
            let level = d.kind is None || d.kind->0@ == "horizontal"@;
            let trend = d.kind is Some && d.kind->0@ == "trend"@;
            let priced = d.price.is_finite() && d.price.key() > 0;
            let anchored = d.start_date is Some && d.end_date is Some && d.end_price is Some
                && d.end_price->0.is_finite() && d.end_price->0.key() > 0;
            &&& drawing_error(d) is None <==> priced && (level || trend && anchored
                && d.start_date->0@ != d.end_date->0@)
            &&& !priced ==> drawing_error(d) == Some("Price level must be a positive number"@)
        }),
{
    reveal_strlit("horizontal");
    reveal_strlit("trend");
    assert("horizontal"@.len() != "trend"@.len());
}

/// A level is moved to a price above zero; nothing else is moved.
pub proof fn what_a_move_needs(id: int, price: Number, kind: Option<Seq<char>>)
    ensures
        move_error(id, price, kind) is None <==> price.is_finite() && price.key() > 0 && kind
            == Some("horizontal"@),
        price.is_finite() && price.key() > 0 && kind is None ==> move_error(id, price, kind) is Some
            && (move_error(id, price, kind)->0).0 == Reason::NotFound,
{
}

/// Drawings come from the highest price to the lowest, and of one price the older
/// one first.
pub proof fn the_highest_comes_first(a: ChartDrawing, b: ChartDrawing)
    requires
        !a.price.is_nan() && !b.price.is_nan(),
    ensures
        b.price.below(a.price) ==> a.precedes(b),
        a.price.below(b.price) ==> !a.precedes(b),
        a.price.equals(b.price) ==> (a.precedes(b) <==> a.id < b.id),
{
}

/// A chart shows what is drawn on its own symbol.
pub proof fn a_chart_shows_its_own_drawings(
    rows: Seq<ChartDrawing>,
    row: ChartDrawing,
    symbol: Seq<char>,
)
    ensures
        drawn_on(Seq::empty(), symbol) == Seq::<ChartDrawing>::empty(),
        row.symbol@ == symbol ==> drawn_on(rows.push(row), symbol) == drawn_on(rows, symbol).push(row),
        row.symbol@ != symbol ==> drawn_on(rows.push(row), symbol) == drawn_on(rows, symbol),
{
    assert(rows.push(row).drop_last() =~= rows);
}

} // verus!
