//! Dividends: reading them from a feed's answer, telling repeats apart, and who
//! is entitled to them.
use vstd::prelude::*;
use crate::cash::{signed, signed_text};
use crate::dates::{date_text, format_day, local_day, option_day, yahoo_local_date};
use crate::exact::{exact, is_exact, lemma_exact, lemma_sign, unrounded, Reading};
use crate::lists::{
    is_top, position_views, rank_views, ranked_positions, shown_before, the_order_is_settled,
};
use crate::number::{
    difference, evaluate, is_calculator, num, number, product, sum, worth, Formula, Number,
    ZERO_BITS,
};
use crate::settings::lemma_filter_members;
use crate::text::{is_before, joined, joined5, same, text_before};
use crate::textmap::TextMap;

verus! {

broadcast use vstd::string::group_string_axioms;

// ---------------------------------------------------------------------------
// Events
// ---------------------------------------------------------------------------

/// A dividend as the feed reports it.
#[derive(Debug)]
pub struct DividendEvent {
    pub symbol: String,
    /// The day from which on a buyer is not entitled to it.
    pub ex_date: i32,
    pub payment_date: Option<i32>,
    pub record_date: Option<i32>,
    /// Per share.
    pub amount: Number,
    pub fetched_at: String,
}

/// What an event holds.
pub struct EventView {
    pub symbol: Seq<char>,
    pub ex_date: int,
    pub payment_date: Option<int>,
    pub record_date: Option<int>,
    pub amount: Number,
    pub fetched_at: Seq<char>,
}

impl View for DividendEvent {
    type V = EventView;

    open spec fn view(&self) -> EventView {
        EventView {
            symbol: self.symbol@,
            ex_date: self.ex_date as int,
            payment_date: option_day(self.payment_date),
            record_date: option_day(self.record_date),
            amount: self.amount,
            fetched_at: self.fetched_at@,
        }
    }
}

/// The views of some events.
pub open spec fn event_views(events: Seq<DividendEvent>) -> Seq<EventView> {
    Seq::new(events.len(), |i: int| events[i]@)
}

impl DividendEvent {
    fn copy(&self) -> (r: DividendEvent)
        ensures
            r@ == self@,
    {
        DividendEvent {
            symbol: self.symbol.clone(),
            ex_date: self.ex_date,
            payment_date: self.payment_date,
            record_date: self.record_date,
            amount: self.amount,
            fetched_at: self.fetched_at.clone(),
        }
    }
}

/// The days of some events.
pub open spec fn event_ranks(events: Seq<EventView>) -> Seq<Option<int>> {
    Seq::new(events.len(), |i: int| Some(events[i].ex_date))
}

/// Whether `sorted` are the events in the order of their days, those of one day
/// as they came.
pub open spec fn are_sorted(sorted: Seq<EventView>, events: Seq<EventView>) -> bool {
    exists|order: Seq<int>| #[trigger]
        is_top(order, event_ranks(events), false, events.len() as int) && sorted == Seq::new(
            order.len(),
            |i: int| events[order[i]],
        )
}

/// Sorted events and one more, which comes behind those of its day.
pub open spec fn placed(sorted: Seq<EventView>, event: EventView) -> Seq<EventView>
    decreases sorted.len(),
{
    if sorted.len() == 0 || sorted.last().ex_date <= event.ex_date {
        sorted.push(event)
    } else {
        placed(sorted.drop_last(), event).push(sorted.last())
    }
}

/// The events in the order of their days, those of one day as they came.
pub open spec fn in_order(events: Seq<EventView>) -> Seq<EventView>
    decreases events.len(),
{
    if events.len() == 0 {
        seq![]
    } else {
        placed(in_order(events.drop_last()), events.last())
    }
}

/// Positions in order and one more.
spec fn place_of(order: Seq<int>, events: Seq<EventView>, i: int) -> Seq<int>
    decreases order.len(),
{
    if order.len() == 0 || events[order.last()].ex_date <= events[i].ex_date {
        order.push(i)
    } else {
        place_of(order.drop_last(), events, i).push(order.last())
    }
}

/// The order of the first `n` events.
spec fn order_of(events: Seq<EventView>, n: int) -> Seq<int>
    decreases n,
{
    if n <= 0 {
        seq![]
    } else {
        place_of(order_of(events, n - 1), events, n - 1)
    }
}

spec fn at_positions(events: Seq<EventView>, order: Seq<int>) -> Seq<EventView> {
    Seq::new(order.len(), |i: int| events[order[i]])
}

/// Whether positions stand in order.
spec fn stands(order: Seq<int>, events: Seq<EventView>) -> bool {
    forall|k: int, l: int|
        0 <= k < l < order.len() ==> shown_before(
            event_ranks(events),
            false,
            #[trigger] order[k],
            #[trigger] order[l],
        )
}

proof fn lemma_place_of(order: Seq<int>, events: Seq<EventView>, i: int)
    requires
        0 <= i < events.len(),
        forall|k: int| 0 <= k < order.len() ==> 0 <= #[trigger] order[k] < i,
        stands(order, events),
    ensures
        place_of(order, events, i).len() == order.len() + 1,
        forall|k: int|
            0 <= k < order.len() + 1 ==> {
                let x = #[trigger] place_of(order, events, i)[k];
                x == i || order.contains(x)
            },
        forall|k: int|
            0 <= k < order.len() ==> place_of(order, events, i).contains(#[trigger] order[k]),
        place_of(order, events, i).contains(i),
        stands(place_of(order, events, i), events),
        at_positions(events, place_of(order, events, i)) == placed(
            at_positions(events, order),
            events[i],
        ),
    decreases order.len(),
{
    let now = place_of(order, events, i);
    if order.len() == 0 || events[order.last()].ex_date <= events[i].ex_date {
        assert(now[order.len() as int] == i);
        assert forall|k: int| 0 <= k < order.len() implies now.contains(#[trigger] order[k]) by {
            assert(now[k] == order[k]);
        }
        assert forall|k: int, l: int| 0 <= k < l < now.len() implies shown_before(
            event_ranks(events),
            false,
            #[trigger] now[k],
            #[trigger] now[l],
        ) by {
            if l == order.len() && k < order.len() - 1 {
                assert(shown_before(event_ranks(events), false, order[k], order[order.len() - 1]));
            }
        }
        assert(at_positions(events, now) =~= at_positions(events, order).push(events[i]));
    } else {
        let less = order.drop_last();
        assert(stands(less, events));
        lemma_place_of(less, events, i);
        let inner = place_of(less, events, i);
        assert forall|k: int| 0 <= k < now.len() implies {
            let x = #[trigger] now[k];
            x == i || order.contains(x)
        } by {
            if k < inner.len() {
                assert(now[k] == inner[k]);
                if inner[k] != i {
                    let m = choose|m: int| 0 <= m < less.len() && less[m] == inner[k];
                    assert(order[m] == inner[k]);
                }
            } else {
                assert(now[k] == order[order.len() - 1]);
            }
        }
        assert forall|k: int| 0 <= k < order.len() implies now.contains(#[trigger] order[k]) by {
            if k < less.len() {
                assert(less[k] == order[k]);
                let m = choose|m: int| 0 <= m < inner.len() && inner[m] == order[k];
                assert(now[m] == order[k]);
            } else {
                assert(now[inner.len() as int] == order[k]);
            }
        }
        assert(now.contains(i)) by {
            let m = choose|m: int| 0 <= m < inner.len() && inner[m] == i;
            assert(now[m] == i);
        }
        assert forall|k: int, l: int| 0 <= k < l < now.len() implies shown_before(
            event_ranks(events),
            false,
            #[trigger] now[k],
            #[trigger] now[l],
        ) by {
            assert(now[k] == inner[k]);
            if l < inner.len() {
                assert(now[l] == inner[l]);
            } else {
                assert(now[l] == order[order.len() - 1]);
                if inner[k] != i {
                    let m = choose|m: int| 0 <= m < less.len() && less[m] == inner[k];
                    assert(order[m] == inner[k]);
                }
            }
        }
        assert(at_positions(events, order).drop_last() =~= at_positions(events, less));
        assert(at_positions(events, now) =~= at_positions(events, inner).push(
            events[order.last()],
        ));
    }
}

proof fn lemma_order_of(events: Seq<EventView>, n: int)
    requires
        0 <= n <= events.len(),
    ensures
        order_of(events, n).len() == n,
        forall|k: int| 0 <= k < n ==> 0 <= #[trigger] order_of(events, n)[k] < n,
        forall|x: int| 0 <= x < n ==> #[trigger] order_of(events, n).contains(x),
        stands(order_of(events, n), events),
        at_positions(events, order_of(events, n)) == in_order(events.take(n)),
    decreases n,
{
    if n > 0 {
        lemma_order_of(events, n - 1);
        let before = order_of(events, n - 1);
        let now = order_of(events, n);
        lemma_place_of(before, events, n - 1);
        assert forall|k: int| 0 <= k < n implies 0 <= #[trigger] now[k] < n by {
            if now[k] != n - 1 {
                let m = choose|m: int| 0 <= m < before.len() && before[m] == now[k];
                assert(0 <= before[m] < n - 1);
            }
        }
        assert forall|x: int| 0 <= x < n implies #[trigger] now.contains(x) by {
            if x < n - 1 {
                assert(before.contains(x));
                let m = choose|m: int| 0 <= m < before.len() && before[m] == x;
                assert(now.contains(before[m]));
            }
        }
        assert(events.take(n).drop_last() =~= events.take(n - 1));
        assert(events.take(n).last() == events[n - 1]);
    } else {
        assert(at_positions(events, order_of(events, n)) =~= seq![]);
    }
}

/// The events have one order by their days that leaves those of a day as they
/// came.
pub proof fn the_order_of_days_is_the_only_one(sorted: Seq<EventView>, events: Seq<EventView>)
    ensures
        are_sorted(sorted, events) <==> sorted == in_order(events),
{
    let n = events.len() as int;
    let ranks = event_ranks(events);
    let own = order_of(events, n);
    lemma_order_of(events, n);
    assert(events.take(n) =~= events);
    assert(is_top(own, ranks, false, n));
    assert(at_positions(events, own) =~= Seq::new(own.len(), |i: int| events[own[i]]));
    assert(are_sorted(in_order(events), events));
    if are_sorted(sorted, events) {
        let order = choose|order: Seq<int>| #[trigger]
            is_top(order, ranks, false, n) && sorted == Seq::new(
                order.len(),
                |i: int| events[order[i]],
            );
        the_order_is_settled(order, own, ranks, false, n);
    }
}

/// The events in the order of their days.
pub fn sort_events(events: &Vec<DividendEvent>) -> (r: Vec<DividendEvent>)
    ensures
        event_views(r@) == in_order(event_views(events@)),
{
    let ghost all = event_views(events@);
    let mut ranks: Vec<Option<i64>> = Vec::new();
    let mut i: usize = 0;
    while i < events.len()
        invariant
            i <= events.len(),
            ranks@.len() == i,
            forall|j: int| 0 <= j < i ==> #[trigger] ranks@[j] == Some(events@[j].ex_date as i64),
        decreases events.len() - i,
    {
        ranks.push(Some(events[i].ex_date as i64));
        i += 1;
    }
    assert(rank_views(ranks@) =~= event_ranks(all));
    let order = ranked_positions(&ranks, false, events.len());
    let mut out: Vec<DividendEvent> = Vec::new();
    let mut k: usize = 0;
    while k < order.len()
        invariant
            k <= order.len(),
            ranks@.len() == events@.len(),
            is_top(position_views(order@), rank_views(ranks@), false, events@.len() as int),
            out@.len() == k,
            forall|j: int|
                0 <= j < k ==> (#[trigger] out@[j])@ == events@[position_views(order@)[j]]@,
        decreases order.len() - k,
    {
        assert(position_views(order@)[k as int] == order@[k as int]);
        let e = events[order[k]].copy();
        out.push(e);
        k += 1;
    }
    proof {
        let o = position_views(order@);
        let want = Seq::new(o.len(), |i: int| all[o[i]]);
        assert forall|j: int| 0 <= j < o.len() implies #[trigger] event_views(out@)[j] == want[j] by {
            assert(0 <= o[j] < all.len());
            assert(out@[j]@ == events@[o[j]]@);
        }
        assert(event_views(out@) =~= want);
        assert(are_sorted(event_views(out@), all));
        the_order_of_days_is_the_only_one(event_views(out@), all);
    }
    out
}

/// The days of the sorted events never go back.
pub proof fn sorted_events_ascend(events: Seq<EventView>, i: int, j: int)
    requires
        0 <= i < j < in_order(events).len(),
    ensures
        in_order(events)[i].ex_date <= in_order(events)[j].ex_date,
{
    let sorted = in_order(events);
    the_order_of_days_is_the_only_one(sorted, events);
    let order = choose|order: Seq<int>| #[trigger]
        is_top(order, event_ranks(events), false, events.len() as int) && sorted == Seq::new(
            order.len(),
            |i: int| events[order[i]],
        );
    assert(shown_before(event_ranks(events), false, order[i], order[j]));
}

// ---------------------------------------------------------------------------
// Reading an answer
// ---------------------------------------------------------------------------

/// An entry of the feed's answer: times are in seconds since the start of 1970.
#[derive(Clone, Copy, PartialEq, Eq, Structural, Debug)]
pub struct DividendEntry {
    pub amount: Option<Number>,
    pub date: Option<i64>,
    pub ex_date: Option<i64>,
    pub payment_date: Option<i64>,
    pub record_date: Option<i64>,
}

/// Whether a time can be shifted by the exchange's offset.
pub open spec fn shiftable(ts: Option<i64>, gmtoffset: Option<i64>) -> bool {
    match ts {
        Some(t) => i64::MIN <= t + (if gmtoffset is Some {
            gmtoffset->0 as int
        } else {
            0
        }) <= i64::MAX,
        None => true,
    }
}

/// Whether every time of the entries can be.
pub open spec fn entries_shiftable(entries: Seq<DividendEntry>, gmtoffset: Option<i64>) -> bool {
    forall|i: int|
        0 <= i < entries.len() ==> shiftable((#[trigger] entries[i]).date, gmtoffset) && shiftable(
            entries[i].ex_date,
            gmtoffset,
        ) && shiftable(entries[i].payment_date, gmtoffset) && shiftable(
            entries[i].record_date,
            gmtoffset,
        )
}

/// The exchange's day of a time, where it is given and the calendar holds it.
pub open spec fn day_of(ts: Option<i64>, gmtoffset: Option<i64>) -> Option<int> {
    match ts {
        Some(t) => local_day(t as int, gmtoffset),
        None => None,
    }
}

/// The time of an entry.
pub open spec fn entry_time(e: DividendEntry) -> Option<i64> {
    if e.ex_date is Some {
        e.ex_date
    } else {
        e.date
    }
}

/// Whether an entry pays nothing.
pub open spec fn pays_nothing(e: DividendEntry) -> bool {
    match e.amount {
        Some(a) => a.at_most(number(ZERO_BITS)),
        None => true,
    }
}

/// The events of the first `n` entries: those that pay something. An entry
/// without a day makes the whole answer faulty.
pub open spec fn events_read(
    symbol: Seq<char>,
    entries: Seq<DividendEntry>,
    gmtoffset: Option<i64>,
    now: Seq<char>,
    n: int,
) -> Result<Seq<EventView>, Seq<char>>
    decreases n,
{
    if n <= 0 {
        Ok(seq![])
    } else {
        let e = entries[n - 1];
        match events_read(symbol, entries, gmtoffset, now, n - 1) {
            Err(x) => Err(x),
            Ok(events) => if pays_nothing(e) {
                Ok(events)
            } else {
                match entry_time(e) {
                    None => Err("Dividend entry missing date for "@ + symbol),
                    Some(t) => match local_day(t as int, gmtoffset) {
                        None => Err(
                            "Invalid timestamp "@ + signed_text(t as int) + " for "@ + symbol,
                        ),
                        Some(day) => Ok(
                            events.push(
                                EventView {
                                    symbol,
                                    ex_date: day,
                                    payment_date: day_of(e.payment_date, gmtoffset),
                                    record_date: day_of(e.record_date, gmtoffset),
                                    amount: e.amount->0,
                                    fetched_at: now,
                                },
                            ),
                        ),
                    },
                }
            },
        }
    }
}

proof fn lemma_fault_stays(
    symbol: Seq<char>,
    entries: Seq<DividendEntry>,
    gmtoffset: Option<i64>,
    now: Seq<char>,
    n: int,
    m: int,
)
    requires
        0 <= n <= m,
        events_read(symbol, entries, gmtoffset, now, n) is Err,
    ensures
        events_read(symbol, entries, gmtoffset, now, m) == events_read(
            symbol,
            entries,
            gmtoffset,
            now,
            n,
        ),
    decreases m - n,
{
    if n < m {
        lemma_fault_stays(symbol, entries, gmtoffset, now, n, m - 1);
    }
}

fn local_day_of(ts: Option<i64>, gmtoffset: Option<i64>) -> (r: Option<i32>)
    requires
        shiftable(ts, gmtoffset),
    ensures
        option_day(r) == day_of(ts, gmtoffset),
{
    match ts {
        Some(t) => yahoo_local_date(t, gmtoffset),
        None => None,
    }
}

/// The events of an answer in the order of their days, or what is wrong with it.
pub fn read_dividends(
    symbol: &str,
    entries: &Vec<DividendEntry>,
    gmtoffset: Option<i64>,
    now: &str,
) -> (r: Result<Vec<DividendEvent>, String>)
    requires
        entries_shiftable(entries@, gmtoffset),
    ensures
        match (r, events_read(symbol@, entries@, gmtoffset, now@, entries@.len() as int)) {
            (Ok(sorted), Ok(events)) => event_views(sorted@) == in_order(events),
            (Err(e), Err(x)) => e@ == x,
            _ => false,
        },
{
    let mut out: Vec<DividendEvent> = Vec::new();
    let mut i: usize = 0;
    assert(event_views(out@) =~= seq![]);
    while i < entries.len()
        invariant
            i <= entries.len(),
            entries_shiftable(entries@, gmtoffset),
            events_read(symbol@, entries@, gmtoffset, now@, i as int) == Ok::<
                Seq<EventView>,
                Seq<char>,
            >(event_views(out@)),
        decreases entries.len() - i,
    {
        let e = entries[i];
        let ghost before = event_views(out@);
        assert(shiftable(entries@[i as int].date, gmtoffset));
        let amount = match e.amount {
            Some(a) => a,
            None => Number { bits: ZERO_BITS },
        };
        if !amount.no_more_than(Number { bits: ZERO_BITS }) {
            let time = match e.ex_date {
                Some(t) => Some(t),
                None => e.date,
            };
            let ts = match time {
                Some(t) => t,
                None => {
                    proof {
                        lemma_fault_stays(
                            symbol@,
                            entries@,
                            gmtoffset,
                            now@,
                            i + 1,
                            entries@.len() as int,
                        );
                    }
                    return Err(joined("Dividend entry missing date for ", symbol));
                },
            };
            match yahoo_local_date(ts, gmtoffset) {
                None => {
                    let head = joined5("Invalid timestamp ", signed(ts).as_str(), " for ", symbol, "");
                    proof {
                        reveal_strlit("");
                        assert(head@ =~= "Invalid timestamp "@ + signed_text(ts as int) + " for "@
                            + symbol@);
                        lemma_fault_stays(
                            symbol@,
                            entries@,
                            gmtoffset,
                            now@,
                            i + 1,
                            entries@.len() as int,
                        );
                    }
                    return Err(head);
                },
                Some(day) => {
                    let event = DividendEvent {
                        symbol: symbol.to_owned(),
                        ex_date: day,
                        payment_date: local_day_of(e.payment_date, gmtoffset),
                        record_date: local_day_of(e.record_date, gmtoffset),
                        amount,
                        fetched_at: now.to_owned(),
                    };
                    let ghost v = event@;
                    out.push(event);
                    assert(event_views(out@) =~= before.push(v));
                },
            }
        }
        i += 1;
    }
    Ok(sort_events(&out))
}

// ---------------------------------------------------------------------------
// Repeats
// ---------------------------------------------------------------------------

/// Within how many days two equal amounts are taken to be one distribution.
pub const DIVIDEND_DUPLICATE_WINDOW_DAYS: i32 = 4;

/// The bits of the difference under which two amounts are equal, a millionth.
pub const SAME_AMOUNT_BITS: u64 = 0x3EB0_C6F7_A0B5_ED8D;

/// Whether an event repeats one that came before it.
pub open spec fn repeats<F: Fn(Formula) -> Number>(
    calc: F,
    earlier: EventView,
    event: EventView,
) -> bool {
    &&& worth(calc, difference(num(earlier.amount), num(event.amount))).absolute().below(
        number(SAME_AMOUNT_BITS),
    )
    &&& event.ex_date - earlier.ex_date <= DIVIDEND_DUPLICATE_WINDOW_DAYS
}

/// Whether an event repeats one of those kept.
pub open spec fn repeats_any<F: Fn(Formula) -> Number>(
    calc: F,
    kept: Seq<EventView>,
    event: EventView,
) -> bool {
    exists|i: int| 0 <= i < kept.len() && repeats(calc, #[trigger] kept[i], event)
}

/// The events without those that repeat an earlier one.
pub open spec fn first_reports<F: Fn(Formula) -> Number>(calc: F, sorted: Seq<EventView>) -> Seq<
    EventView,
>
    decreases sorted.len(),
{
    if sorted.len() == 0 {
        seq![]
    } else {
        let kept = first_reports(calc, sorted.drop_last());
        if repeats_any(calc, kept, sorted.last()) {
            kept
        } else {
            kept.push(sorted.last())
        }
    }
}

fn is_repeat<F: Fn(Formula) -> Number>(
    kept: &Vec<DividendEvent>,
    event: &DividendEvent,
    calc: &F,
) -> (r: bool)
    requires
        is_calculator(*calc),
    ensures
        r == repeats_any(*calc, event_views(kept@), event@),
{
    let mut i: usize = 0;
    while i < kept.len()
        invariant
            i <= kept.len(),
            is_calculator(*calc),
            forall|j: int|
                0 <= j < i ==> !repeats(*calc, #[trigger] event_views(kept@)[j], event@),
        decreases kept.len() - i,
    {
        assert(event_views(kept@)[i as int] == kept@[i as int]@);
        let gap = evaluate(
            calc,
            Formula::of(kept[i].amount).minus(Formula::of(event.amount)),
        );
        let near = event.ex_date as i64 - kept[i].ex_date as i64
            <= DIVIDEND_DUPLICATE_WINDOW_DAYS as i64;
        if near && gap.abs().less_than(Number { bits: SAME_AMOUNT_BITS }) {
            return true;
        }
        i += 1;
    }
    false
}

/// Collapses a distribution that is reported more than once: equal amounts
/// within a few days are one, and the earliest is kept.
pub fn dedupe_dividend_events<F: Fn(Formula) -> Number>(events: &Vec<DividendEvent>, calc: &F) -> (r:
    Vec<DividendEvent>)
    requires
        is_calculator(*calc),
    ensures
        event_views(r@) == first_reports(*calc, in_order(event_views(events@))),
{
    let sorted = sort_events(events);
    let ghost all = event_views(sorted@);
    let mut kept: Vec<DividendEvent> = Vec::new();
    let mut i: usize = 0;
    assert(event_views(kept@) =~= seq![]);
    while i < sorted.len()
        invariant
            i <= sorted.len(),
            is_calculator(*calc),
            all == event_views(sorted@),
            event_views(kept@) == first_reports(*calc, all.take(i as int)),
        decreases sorted.len() - i,
    {
        let ghost before = event_views(kept@);
        proof {
            assert(all.take(i + 1).drop_last() =~= all.take(i as int));
            assert(all.take(i + 1).last() == sorted@[i as int]@);
        }
        if !is_repeat(&kept, &sorted[i], calc) {
            let e = sorted[i].copy();
            let ghost v = e@;
            kept.push(e);
            assert(event_views(kept@) =~= before.push(v));
        }
        i += 1;
    }
    assert(all.take(sorted.len() as int) =~= all);
    kept
}

/// No distribution is kept twice: no event that is kept repeats another.
pub proof fn no_distribution_is_kept_twice<F: Fn(Formula) -> Number>(
    calc: F,
    sorted: Seq<EventView>,
    i: int,
    j: int,
)
    requires
        0 <= i < j < first_reports(calc, sorted).len(),
    ensures
        !repeats(calc, first_reports(calc, sorted)[i], first_reports(calc, sorted)[j]),
    decreases sorted.len(),
{
    let less = first_reports(calc, sorted.drop_last());
    if j < less.len() {
        no_distribution_is_kept_twice(calc, sorted.drop_last(), i, j);
    } else {
        assert(!repeats(calc, less[i], sorted.last()));
    }
}

/// Nothing is lost: every event is kept, or repeats one that is.
pub proof fn every_event_is_kept_or_repeats<F: Fn(Formula) -> Number>(
    calc: F,
    sorted: Seq<EventView>,
    i: int,
)
    requires
        0 <= i < sorted.len(),
    ensures
        first_reports(calc, sorted).contains(sorted[i]) || repeats_any(
            calc,
            first_reports(calc, sorted),
            sorted[i],
        ),
    decreases sorted.len(),
{
    let kept = first_reports(calc, sorted.drop_last());
    let now = first_reports(calc, sorted);
    if i == sorted.len() - 1 {
        if !repeats_any(calc, kept, sorted.last()) {
            assert(now[kept.len() as int] == sorted[i]);
        }
    } else {
        every_event_is_kept_or_repeats(calc, sorted.drop_last(), i);
        assert(sorted.drop_last()[i] == sorted[i]);
        if kept.contains(sorted[i]) {
            let k = choose|k: int| 0 <= k < kept.len() && kept[k] == sorted[i];
            assert(now[k] == sorted[i]);
        } else {
            let k = choose|k: int| 0 <= k < kept.len() && repeats(calc, #[trigger] kept[k], sorted[i]);
            assert(now[k] == kept[k]);
        }
    }
}

/// Which events are not of that symbol and day.
pub open spec fn not_of(symbol: Seq<char>, day: int) -> spec_fn(EventView) -> bool {
    |e: EventView| !(e.symbol == symbol && e.ex_date == day)
}

/// The events with one for each symbol and day: of several the last.
pub open spec fn last_of_each_day(events: Seq<EventView>) -> Seq<EventView>
    decreases events.len(),
{
    if events.len() == 0 {
        seq![]
    } else {
        let e = events.last();
        last_of_each_day(events.drop_last()).filter(not_of(e.symbol, e.ex_date)).push(e)
    }
}

fn without_day(events: Vec<DividendEvent>, symbol: &str, day: i32) -> (r: Vec<DividendEvent>)
    ensures
        event_views(r@) == event_views(events@).filter(not_of(symbol@, day as int)),
{
    let ghost all = event_views(events@);
    let ghost keep = not_of(symbol@, day as int);
    let mut out: Vec<DividendEvent> = Vec::new();
    assert(event_views(out@) =~= all.take(0).filter(keep)) by {
        reveal(Seq::filter);
    }
    for e in it: events
        invariant
            it.seq() == events@,
            all == event_views(events@),
            keep == not_of(symbol@, day as int),
            event_views(out@) == all.take(it.index() as int).filter(keep),
    {
        let ghost n = it.index() as int;
        let ghost before = event_views(out@);
        let ghost this = e@;
        proof {
            assert(all.take(n + 1) =~= all.take(n).push(this));
            crate::settings::lemma_filter_push(all.take(n), this, keep);
        }
        if !(same(e.symbol.as_str(), symbol) && e.ex_date == day) {
            out.push(e);
            assert(event_views(out@) =~= before.push(this));
        }
    }
    assert(all.take(all.len() as int) =~= all);
    out
}

fn one_a_day(events: Vec<DividendEvent>) -> (r: Vec<DividendEvent>)
    ensures
        event_views(r@) == last_of_each_day(event_views(events@)),
{
    let ghost all = event_views(events@);
    let mut out: Vec<DividendEvent> = Vec::new();
    assert(event_views(out@) =~= seq![]);
    for e in it: events
        invariant
            it.seq() == events@,
            all == event_views(events@),
            event_views(out@) == last_of_each_day(all.take(it.index() as int)),
    {
        let ghost n = it.index() as int;
        let ghost this = e@;
        proof {
            assert(all.take(n + 1).drop_last() =~= all.take(n));
            assert(all.take(n + 1).last() == this);
        }
        let mut kept = without_day(out, e.symbol.as_str(), e.ex_date);
        let ghost before = event_views(kept@);
        kept.push(e);
        assert(event_views(kept@) =~= before.push(this));
        out = kept;
    }
    assert(all.take(all.len() as int) =~= all);
    out
}

/// Which events are of other symbols.
pub open spec fn of_another(symbol: Seq<char>) -> spec_fn(EventView) -> bool {
    |e: EventView| e.symbol != symbol
}

/// The events as those of a symbol.
pub open spec fn under(symbol: Seq<char>, events: Seq<EventView>) -> Seq<EventView> {
    Seq::new(events.len(), |i: int| EventView { symbol, ..events[i] })
}

/// What stays on record of an answer of the feed: each distribution once, and
/// one event for each day.
pub open spec fn events_kept<F: Fn(Formula) -> Number>(
    calc: F,
    symbol: Seq<char>,
    fetched: Seq<EventView>,
) -> Seq<EventView> {
    last_of_each_day(under(symbol, first_reports(calc, in_order(fetched))))
}

/// The stored events of all symbols once a feed has answered for one.
pub open spec fn events_after<F: Fn(Formula) -> Number>(
    calc: F,
    table: Seq<EventView>,
    symbol: Seq<char>,
    fetched: Seq<EventView>,
) -> Seq<EventView> {
    if fetched.len() == 0 {
        table
    } else {
        table.filter(of_another(symbol)) + events_kept(calc, symbol, fetched)
    }
}

fn without_symbol(events: Vec<DividendEvent>, symbol: &str) -> (r: Vec<DividendEvent>)
    ensures
        event_views(r@) == event_views(events@).filter(of_another(symbol@)),
{
    let ghost all = event_views(events@);
    let ghost keep = of_another(symbol@);
    let mut out: Vec<DividendEvent> = Vec::new();
    assert(event_views(out@) =~= all.take(0).filter(keep)) by {
        reveal(Seq::filter);
    }
    for e in it: events
        invariant
            it.seq() == events@,
            all == event_views(events@),
            keep == of_another(symbol@),
            event_views(out@) == all.take(it.index() as int).filter(keep),
    {
        let ghost n = it.index() as int;
        let ghost before = event_views(out@);
        let ghost this = e@;
        proof {
            assert(all.take(n + 1) =~= all.take(n).push(this));
            crate::settings::lemma_filter_push(all.take(n), this, keep);
        }
        if !same(e.symbol.as_str(), symbol) {
            out.push(e);
            assert(event_views(out@) =~= before.push(this));
        }
    }
    assert(all.take(all.len() as int) =~= all);
    out
}

fn put_under(events: Vec<DividendEvent>, symbol: &str) -> (r: Vec<DividendEvent>)
    ensures
        event_views(r@) == under(symbol@, event_views(events@)),
{
    let ghost all = under(symbol@, event_views(events@));
    let mut out: Vec<DividendEvent> = Vec::new();
    for e in it: events
        invariant
            it.seq() == events@,
            all == under(symbol@, event_views(events@)),
            event_views(out@) =~= all.take(it.index() as int),
    {
        let ghost before = event_views(out@);
        let own = DividendEvent {
            symbol: symbol.to_owned(),
            ex_date: e.ex_date,
            payment_date: e.payment_date,
            record_date: e.record_date,
            amount: e.amount,
            fetched_at: e.fetched_at,
        };
        let ghost v = own@;
        out.push(own);
        assert(event_views(out@) =~= before.push(v));
    }
    assert(all.take(all.len() as int) =~= all);
    out
}

/// Stores what a feed reports of a symbol. The answer is its whole history, so
/// it takes the place of what is stored of the symbol. An empty answer is no news
/// that there never was a dividend, and changes nothing.
pub fn store_dividend_events_for_symbol<F: Fn(Formula) -> Number>(
    table: Vec<DividendEvent>,
    symbol: &str,
    fetched: &Vec<DividendEvent>,
    calc: &F,
) -> (r: Vec<DividendEvent>)
    requires
        is_calculator(*calc),
    ensures
        event_views(r@) == events_after(
            *calc,
            event_views(table@),
            symbol@,
            event_views(fetched@),
        ),
{
    if fetched.len() == 0 {
        return table;
    }
    let mut out = without_symbol(table, symbol);
    let ghost others = event_views(out@);
    let mut kept = one_a_day(put_under(dedupe_dividend_events(fetched, calc), symbol));
    let ghost own = event_views(kept@);
    out.append(&mut kept);
    assert(event_views(out@) =~= others + own);
    out
}

/// An event but for when it was fetched.
pub open spec fn unstamped(e: EventView) -> EventView {
    EventView { fetched_at: seq![], ..e }
}

/// Some events but for when they were fetched.
pub open spec fn all_unstamped(events: Seq<EventView>) -> Seq<EventView> {
    Seq::new(events.len(), |i: int| unstamped(events[i]))
}

/// A refresh converges: storing the same report of a symbol again changes no
/// symbol, day or amount of any stored event.
pub proof fn storing_a_report_again_changes_nothing<F: Fn(Formula) -> Number>(
    calc: F,
    table: Seq<EventView>,
    symbol: Seq<char>,
    fetched: Seq<EventView>,
    again: Seq<EventView>,
)
    requires
        all_unstamped(again) == all_unstamped(fetched),
    ensures
        all_unstamped(
            events_after(calc, events_after(calc, table, symbol, fetched), symbol, again),
        ) == all_unstamped(events_after(calc, table, symbol, fetched)),
{
    assert(all_unstamped(again).len() == again.len());
    assert(all_unstamped(fetched).len() == fetched.len());
    if fetched.len() > 0 {
        let once = events_after(calc, table, symbol, fetched);
        let twice = events_after(calc, once, symbol, again);
        let others = table.filter(of_another(symbol));
        let a = events_kept(calc, symbol, fetched);
        let b = events_kept(calc, symbol, again);
        assert(once == others + a);
        assert(once.filter(of_another(symbol)) == others) by {
            a_report_replaces_the_symbols_events(calc, table, symbol, fetched);
        }
        assert(twice == others + b);
        assert(all_unstamped(a) == all_unstamped(b)) by {
            lemma_kept_unstamped(calc, symbol, fetched);
            lemma_kept_unstamped(calc, symbol, again);
        }
        lemma_unstamped_together(others, a);
        lemma_unstamped_together(others, b);
        assert(all_unstamped(twice) == all_unstamped(once));
    } else {
        assert(again.len() == 0);
    }
}

proof fn lemma_unstamped_together(a: Seq<EventView>, b: Seq<EventView>)
    ensures
        all_unstamped(a + b) == all_unstamped(a) + all_unstamped(b),
{
    assert(all_unstamped(a + b) =~= all_unstamped(a) + all_unstamped(b));
}

/// A report replaces what is stored of its symbol, whatever that was, and leaves
/// the events of every other symbol as they are.
pub proof fn a_report_replaces_the_symbols_events<F: Fn(Formula) -> Number>(
    calc: F,
    table: Seq<EventView>,
    symbol: Seq<char>,
    fetched: Seq<EventView>,
)
    requires
        fetched.len() > 0,
    ensures
        events_after(calc, table, symbol, fetched).filter(of_another(symbol)) == table.filter(
            of_another(symbol),
        ),
        events_after(calc, table, symbol, fetched).filter(|e: EventView| e.symbol == symbol)
            == events_kept(calc, symbol, fetched),
{
    let other = of_another(symbol);
    let own = |e: EventView| e.symbol == symbol;
    let others = table.filter(other);
    let kept = events_kept(calc, symbol, fetched);
    let reports = under(symbol, first_reports(calc, in_order(fetched)));
    lemma_days_are_of(reports);
    lemma_filter_members(table, other);
    assert forall|i: int| 0 <= i < others.len() implies other(#[trigger] others[i]) by {
        assert(others.contains(others[i]));
    }
    assert forall|i: int| 0 <= i < kept.len() implies own(#[trigger] kept[i]) by {
        assert(reports.contains(kept[i]));
    }
    Seq::filter_distributes_over_add(others, kept, other);
    Seq::filter_distributes_over_add(others, kept, own);
    lemma_filter_passes(others, other);
    lemma_filter_stops(kept, other);
    lemma_filter_stops(others, own);
    lemma_filter_passes(kept, own);
    assert(others + Seq::<EventView>::empty() =~= others);
    assert(Seq::<EventView>::empty() + kept =~= kept);
}

proof fn lemma_filter_passes(s: Seq<EventView>, keep: spec_fn(EventView) -> bool)
    requires
        forall|i: int| 0 <= i < s.len() ==> keep(#[trigger] s[i]),
    ensures
        s.filter(keep) == s,
    decreases s.len(),
{
    reveal(Seq::filter);
    if s.len() > 0 {
        lemma_filter_passes(s.drop_last(), keep);
        assert(s =~= s.drop_last().push(s.last()));
    } else {
        assert(s.filter(keep) =~= s);
    }
}

proof fn lemma_filter_stops(s: Seq<EventView>, keep: spec_fn(EventView) -> bool)
    requires
        forall|i: int| 0 <= i < s.len() ==> !keep(#[trigger] s[i]),
    ensures
        s.filter(keep) == Seq::<EventView>::empty(),
    decreases s.len(),
{
    reveal(Seq::filter);
    if s.len() > 0 {
        lemma_filter_stops(s.drop_last(), keep);
    } else {
        assert(s.filter(keep) =~= Seq::<EventView>::empty());
    }
}

/// The last events of each day are among the events.
proof fn lemma_days_are_of(events: Seq<EventView>)
    ensures
        forall|i: int|
            0 <= i < last_of_each_day(events).len() ==> events.contains(
                #[trigger] last_of_each_day(events)[i],
            ),
    decreases events.len(),
{
    if events.len() > 0 {
        let less = events.drop_last();
        let e = events.last();
        let keep = not_of(e.symbol, e.ex_date);
        let now = last_of_each_day(events);
        let kept = last_of_each_day(less).filter(keep);
        lemma_days_are_of(less);
        lemma_filter_members(last_of_each_day(less), keep);
        assert forall|i: int| 0 <= i < now.len() implies events.contains(#[trigger] now[i]) by {
            if i < kept.len() {
                assert(kept.contains(now[i]));
                assert(last_of_each_day(less).contains(now[i]));
                let k = choose|k: int|
                    0 <= k < last_of_each_day(less).len() && last_of_each_day(less)[k] == now[i];
                assert(less.contains(last_of_each_day(less)[k]));
                let m = choose|m: int| 0 <= m < less.len() && less[m] == now[i];
                assert(events[m] == now[i]);
            } else {
                assert(events[events.len() - 1] == now[i]);
            }
        }
    }
}

/// When events were fetched does not matter to which stay on record.
proof fn lemma_kept_unstamped<F: Fn(Formula) -> Number>(
    calc: F,
    symbol: Seq<char>,
    fetched: Seq<EventView>,
)
    ensures
        all_unstamped(events_kept(calc, symbol, fetched)) == events_kept(
            calc,
            symbol,
            all_unstamped(fetched),
        ),
{
    let sorted = in_order(fetched);
    let reports = first_reports(calc, sorted);
    lemma_in_order_unstamped(fetched);
    lemma_reports_unstamped(calc, sorted);
    assert(all_unstamped(under(symbol, reports)) =~= under(symbol, all_unstamped(reports)));
    lemma_days_unstamped(under(symbol, reports));
}

proof fn lemma_placed_unstamped(sorted: Seq<EventView>, e: EventView)
    ensures
        all_unstamped(placed(sorted, e)) == placed(all_unstamped(sorted), unstamped(e)),
    decreases sorted.len(),
{
    if sorted.len() == 0 || sorted.last().ex_date <= e.ex_date {
        assert(all_unstamped(sorted.push(e)) =~= all_unstamped(sorted).push(unstamped(e)));
    } else {
        let less = sorted.drop_last();
        lemma_placed_unstamped(less, e);
        assert(all_unstamped(sorted).drop_last() =~= all_unstamped(less));
        assert(all_unstamped(placed(less, e).push(sorted.last())) =~= all_unstamped(
            placed(less, e),
        ).push(unstamped(sorted.last())));
    }
}

proof fn lemma_in_order_unstamped(events: Seq<EventView>)
    ensures
        all_unstamped(in_order(events)) == in_order(all_unstamped(events)),
    decreases events.len(),
{
    if events.len() > 0 {
        let less = events.drop_last();
        lemma_in_order_unstamped(less);
        lemma_placed_unstamped(in_order(less), events.last());
        assert(all_unstamped(events).drop_last() =~= all_unstamped(less));
    } else {
        assert(all_unstamped(in_order(events)) =~= in_order(all_unstamped(events)));
    }
}

proof fn lemma_reports_unstamped<F: Fn(Formula) -> Number>(calc: F, sorted: Seq<EventView>)
    ensures
        all_unstamped(first_reports(calc, sorted)) == first_reports(calc, all_unstamped(sorted)),
    decreases sorted.len(),
{
    if sorted.len() > 0 {
        let less = sorted.drop_last();
        let e = sorted.last();
        let kept = first_reports(calc, less);
        lemma_reports_unstamped(calc, less);
        assert(all_unstamped(sorted).drop_last() =~= all_unstamped(less));
        assert(repeats_any(calc, all_unstamped(kept), unstamped(e)) == repeats_any(calc, kept, e))
            by {
            if repeats_any(calc, kept, e) {
                let i = choose|i: int| 0 <= i < kept.len() && repeats(calc, #[trigger] kept[i], e);
                assert(repeats(calc, all_unstamped(kept)[i], unstamped(e)));
            }
            if repeats_any(calc, all_unstamped(kept), unstamped(e)) {
                let i = choose|i: int|
                    0 <= i < kept.len() && repeats(
                        calc,
                        #[trigger] all_unstamped(kept)[i],
                        unstamped(e),
                    );
                assert(repeats(calc, kept[i], e));
            }
        }
        assert(all_unstamped(kept.push(e)) =~= all_unstamped(kept).push(unstamped(e)));
    } else {
        assert(all_unstamped(first_reports(calc, sorted)) =~= first_reports(
            calc,
            all_unstamped(sorted),
        ));
    }
}

proof fn lemma_filter_unstamped(events: Seq<EventView>, symbol: Seq<char>, day: int)
    ensures
        all_unstamped(events.filter(not_of(symbol, day))) == all_unstamped(events).filter(
            not_of(symbol, day),
        ),
    decreases events.len(),
{
    reveal(Seq::filter);
    let keep = not_of(symbol, day);
    if events.len() > 0 {
        let less = events.drop_last();
        let e = events.last();
        lemma_filter_unstamped(less, symbol, day);
        assert(all_unstamped(events).drop_last() =~= all_unstamped(less));
        assert(all_unstamped(less.filter(keep).push(e)) =~= all_unstamped(less.filter(keep)).push(
            unstamped(e),
        ));
    } else {
        assert(all_unstamped(events.filter(keep)) =~= all_unstamped(events).filter(keep));
    }
}

proof fn lemma_days_unstamped(events: Seq<EventView>)
    ensures
        all_unstamped(last_of_each_day(events)) == last_of_each_day(all_unstamped(events)),
    decreases events.len(),
{
    if events.len() > 0 {
        let less = events.drop_last();
        let e = events.last();
        lemma_days_unstamped(less);
        lemma_filter_unstamped(last_of_each_day(less), e.symbol, e.ex_date);
        assert(all_unstamped(events).drop_last() =~= all_unstamped(less));
        let kept = last_of_each_day(less).filter(not_of(e.symbol, e.ex_date));
        assert(all_unstamped(kept.push(e)) =~= all_unstamped(kept).push(unstamped(e)));
    } else {
        assert(all_unstamped(last_of_each_day(events)) =~= last_of_each_day(
            all_unstamped(events),
        ));
    }
}

/// Of the events of one symbol and day the last one stays, and no other: no two
/// that are kept share symbol and day, and an event after which no other of its
/// symbol and day comes is kept.
pub proof fn one_event_stays_of_each_day(events: Seq<EventView>, i: int)
    requires
        0 <= i < events.len(),
        forall|j: int|
            i < j < events.len() ==> (#[trigger] events[j]).symbol != events[i].symbol
                || events[j].ex_date != events[i].ex_date,
    ensures
        last_of_each_day(events).contains(events[i]),
        forall|a: int, b: int|
            0 <= a < b < last_of_each_day(events).len() ==> (#[trigger] last_of_each_day(
                events,
            )[a]).symbol != (#[trigger] last_of_each_day(events)[b]).symbol
                || last_of_each_day(events)[a].ex_date != last_of_each_day(events)[b].ex_date,
    decreases events.len(),
{
    lemma_days_differ(events);
    let less = events.drop_last();
    let e = events.last();
    let keep = not_of(e.symbol, e.ex_date);
    let now = last_of_each_day(events);
    if i == events.len() - 1 {
        assert(now[now.len() - 1] == events[i]);
    } else {
        assert forall|j: int| i < j < less.len() implies (#[trigger] less[j]).symbol
            != less[i].symbol || less[j].ex_date != less[i].ex_date by {
            assert(events[j] == less[j]);
        }
        one_event_stays_of_each_day(less, i);
        lemma_filter_members(last_of_each_day(less), keep);
        assert(events[events.len() - 1] == e);
        assert(keep(events[i]));
        let kept = last_of_each_day(less).filter(keep);
        assert(kept.contains(events[i]));
        let k = choose|k: int| 0 <= k < kept.len() && kept[k] == events[i];
        assert(now[k] == events[i]);
    }
}

/// No two events share symbol and day.
spec fn days_differ(events: Seq<EventView>) -> bool {
    forall|a: int, b: int|
        0 <= a < b < events.len() ==> (#[trigger] events[a]).symbol != (#[trigger] events[b]).symbol
            || events[a].ex_date != events[b].ex_date
}

proof fn lemma_filter_days_differ(events: Seq<EventView>, keep: spec_fn(EventView) -> bool)
    requires
        days_differ(events),
    ensures
        days_differ(events.filter(keep)),
    decreases events.len(),
{
    reveal(Seq::filter);
    if events.len() > 0 {
        let less = events.drop_last();
        assert(days_differ(less)) by {
            assert forall|a: int, b: int| 0 <= a < b < less.len() implies (#[trigger] less[a]).symbol
                != (#[trigger] less[b]).symbol || less[a].ex_date != less[b].ex_date by {
                assert(events[a] == less[a] && events[b] == less[b]);
            }
        }
        lemma_filter_days_differ(less, keep);
        lemma_filter_members(less, keep);
        let f = less.filter(keep);
        assert forall|a: int| 0 <= a < f.len() implies (#[trigger] f[a]).symbol
            != events.last().symbol || f[a].ex_date != events.last().ex_date by {
            assert(f.contains(f[a]));
            let k = choose|k: int| 0 <= k < less.len() && less[k] == f[a];
            assert(events[k] == f[a]);
            assert(events[events.len() - 1] == events.last());
        }
    }
}

proof fn lemma_days_differ(events: Seq<EventView>)
    ensures
        days_differ(last_of_each_day(events)),
    decreases events.len(),
{
    if events.len() > 0 {
        let less = last_of_each_day(events.drop_last());
        let e = events.last();
        let keep = not_of(e.symbol, e.ex_date);
        lemma_days_differ(events.drop_last());
        lemma_filter_days_differ(less, keep);
        lemma_filter_members(less, keep);
        let f = less.filter(keep);
        assert forall|a: int| 0 <= a < f.len() implies (#[trigger] f[a]).symbol != e.symbol
            || f[a].ex_date != e.ex_date by {
            assert(f.contains(f[a]));
            assert(keep(f[a]));
        }
    }
}

// ---------------------------------------------------------------------------
// Entitlement
// ---------------------------------------------------------------------------

/// A recorded transaction, as far as entitlement depends on it.
#[derive(Debug)]
pub struct HeldTrade {
    pub symbol: String,
    pub transaction_type: String,
    pub date: String,
    pub quantity: Option<Number>,
    pub currency: String,
}

/// The shares after one more transaction, if it is of the symbol and not after
/// the day.
pub open spec fn shares_with<F: Fn(Formula) -> Number>(
    calc: F,
    shares: Number,
    t: HeldTrade,
    symbol: Seq<char>,
    date: Seq<char>,
) -> Number {
    if t.symbol@ != symbol || text_before(date, t.date@) || t.quantity is None {
        shares
    } else if t.transaction_type@ == "purchase"@ {
        worth(calc, sum(num(shares), num(t.quantity->0)))
    } else if t.transaction_type@ == "sale"@ {
        worth(calc, difference(num(shares), num(t.quantity->0)))
    } else {
        shares
    }
}

/// The shares of a symbol held on a day, its own trades included.
pub open spec fn shares_on<F: Fn(Formula) -> Number>(
    calc: F,
    trades: Seq<HeldTrade>,
    symbol: Seq<char>,
    date: Seq<char>,
) -> Number
    decreases trades.len(),
{
    if trades.len() == 0 {
        number(ZERO_BITS)
    } else {
        shares_with(
            calc,
            shares_on(calc, trades.drop_last(), symbol, date),
            trades.last(),
            symbol,
            date,
        )
    }
}

/// The shares of a symbol held on a day, its own trades included.
pub fn calculate_shares_on_date<F: Fn(Formula) -> Number>(
    trades: &Vec<HeldTrade>,
    symbol: &str,
    date: &str,
    calc: &F,
) -> (r: Number)
    requires
        is_calculator(*calc),
    ensures
        r == shares_on(*calc, trades@, symbol@, date@),
{
    let mut out = Number { bits: ZERO_BITS };
    let mut i: usize = 0;
    while i < trades.len()
        invariant
            i <= trades.len(),
            is_calculator(*calc),
            out == shares_on(*calc, trades@.take(i as int), symbol@, date@),
        decreases trades.len() - i,
    {
        assert(trades@.take(i + 1).drop_last() =~= trades@.take(i as int));
        let t = &trades[i];
        if same(t.symbol.as_str(), symbol) && !is_before(date, t.date.as_str()) {
            match t.quantity {
                Some(q) => {
                    if same(t.transaction_type.as_str(), "purchase") {
                        out = evaluate(calc, Formula::of(out).plus(Formula::of(q)));
                    } else if same(t.transaction_type.as_str(), "sale") {
                        out = evaluate(calc, Formula::of(out).minus(Formula::of(q)));
                    }
                },
                None => {},
            }
        }
        i += 1;
    }
    assert(trades@.take(trades.len() as int) =~= trades@);
    out
}

/// What an event pays the holder.
#[derive(Clone, Copy, PartialEq, Eq, Structural, Debug)]
pub struct DividendPayment {
    /// Which event.
    pub event: usize,
    pub shares_held: Number,
    pub total_payment: Number,
}

/// What an event pays the holder, where any share was held.
pub open spec fn payment_of<F: Fn(Formula) -> Number>(
    calc: F,
    trades: Seq<HeldTrade>,
    event: EventView,
    i: int,
) -> Option<DividendPayment> {
    match date_text(event.ex_date) {
        Some(date) => {
            let shares = shares_on(calc, trades, event.symbol, date);
            if shares.positive() {
                Some(
                    DividendPayment {
                        event: i as usize,
                        shares_held: shares,
                        total_payment: worth(calc, product(num(shares), num(event.amount))),
                    },
                )
            } else {
                None
            }
        },
        None => None,
    }
}

/// What the events pay the holder.
pub open spec fn payments<F: Fn(Formula) -> Number>(
    calc: F,
    trades: Seq<HeldTrade>,
    events: Seq<EventView>,
) -> Seq<DividendPayment>
    decreases events.len(),
{
    if events.len() == 0 {
        seq![]
    } else {
        let earlier = payments(calc, trades, events.drop_last());
        match payment_of(calc, trades, events.last(), events.len() - 1) {
            Some(p) => earlier.push(p),
            None => earlier,
        }
    }
}

fn payment<F: Fn(Formula) -> Number>(
    trades: &Vec<HeldTrade>,
    event: &DividendEvent,
    i: usize,
    calc: &F,
) -> (r: Option<DividendPayment>)
    requires
        is_calculator(*calc),
    ensures
        r == payment_of(*calc, trades@, event@, i as int),
{
    match format_day(event.ex_date) {
        Some(date) => {
            let shares = calculate_shares_on_date(
                trades,
                event.symbol.as_str(),
                date.as_str(),
                calc,
            );
            if shares.is_positive() {
                let total = evaluate(calc, Formula::of(shares).times(Formula::of(event.amount)));
                Some(DividendPayment { event: i, shares_held: shares, total_payment: total })
            } else {
                None
            }
        },
        None => None,
    }
}

/// What the events pay the holder: each by the shares held on its day.
pub fn calculate_dividend_payments<F: Fn(Formula) -> Number>(
    trades: &Vec<HeldTrade>,
    events: &Vec<DividendEvent>,
    calc: &F,
) -> (r: Vec<DividendPayment>)
    requires
        is_calculator(*calc),
    ensures
        r@ == payments(*calc, trades@, event_views(events@)),
{
    let ghost all = event_views(events@);
    let mut out: Vec<DividendPayment> = Vec::new();
    let mut i: usize = 0;
    while i < events.len()
        invariant
            i <= events.len(),
            is_calculator(*calc),
            all == event_views(events@),
            out@ == payments(*calc, trades@, all.take(i as int)),
        decreases events.len() - i,
    {
        proof {
            assert(all.take(i + 1).drop_last() =~= all.take(i as int));
            assert(all.take(i + 1).last() == events@[i as int]@);
        }
        if let Some(paid) = payment(trades, &events[i], i, calc) {
            out.push(paid);
        }
        i += 1;
    }
    assert(all.take(events.len() as int) =~= all);
    out
}

/// What the events of a symbol pay the holder in all.
pub open spec fn dividends_paid<F: Fn(Formula) -> Number>(
    calc: F,
    trades: Seq<HeldTrade>,
    events: Seq<EventView>,
    symbol: Seq<char>,
) -> Number
    decreases events.len(),
{
    if events.len() == 0 {
        number(ZERO_BITS)
    } else {
        let earlier = dividends_paid(calc, trades, events.drop_last(), symbol);
        match payment_of(calc, trades, events.last(), events.len() - 1) {
            Some(p) => if events.last().symbol == symbol {
                worth(calc, sum(num(earlier), num(p.total_payment)))
            } else {
                earlier
            },
            None => earlier,
        }
    }
}

fn paid_in_all<F: Fn(Formula) -> Number>(
    trades: &Vec<HeldTrade>,
    events: &Vec<DividendEvent>,
    symbol: &str,
    calc: &F,
) -> (r: Number)
    requires
        is_calculator(*calc),
    ensures
        r == dividends_paid(*calc, trades@, event_views(events@), symbol@),
{
    let ghost all = event_views(events@);
    let mut out = Number { bits: ZERO_BITS };
    let mut i: usize = 0;
    while i < events.len()
        invariant
            i <= events.len(),
            is_calculator(*calc),
            all == event_views(events@),
            out == dividends_paid(*calc, trades@, all.take(i as int), symbol@),
        decreases events.len() - i,
    {
        proof {
            assert(all.take(i + 1).drop_last() =~= all.take(i as int));
            assert(all.take(i + 1).last() == events@[i as int]@);
        }
        if same(events[i].symbol.as_str(), symbol) {
            if let Some(paid) = payment(trades, &events[i], i, calc) {
                out = evaluate(calc, Formula::of(out).plus(Formula::of(paid.total_payment)));
            }
        }
        i += 1;
    }
    assert(all.take(events.len() as int) =~= all);
    out
}

/// Whether the symbol was ever traded.
pub open spec fn is_traded(trades: Seq<HeldTrade>, symbol: Seq<char>) -> bool {
    exists|i: int| 0 <= i < trades.len() && (#[trigger] trades[i]).symbol@ == symbol
}

/// What the events pay the holder in all, for every symbol that was traded.
pub fn calculate_dividend_totals<F: Fn(Formula) -> Number>(
    trades: &Vec<HeldTrade>,
    events: &Vec<DividendEvent>,
    calc: &F,
) -> (r: TextMap<Number>)
    requires
        is_calculator(*calc),
    ensures
        forall|symbol: Seq<char>| #[trigger]
            r@.contains_key(symbol) <==> is_traded(trades@, symbol),
        forall|symbol: Seq<char>| #[trigger]
            r@.contains_key(symbol) ==> r@[symbol] == dividends_paid(
                *calc,
                trades@,
                event_views(events@),
                symbol,
            ),
{
    let mut totals: TextMap<Number> = TextMap::new();
    let mut i: usize = 0;
    while i < trades.len()
        invariant
            i <= trades.len(),
            is_calculator(*calc),
            forall|symbol: Seq<char>| #[trigger]
                totals@.contains_key(symbol) <==> is_traded(trades@.take(i as int), symbol),
            forall|symbol: Seq<char>| #[trigger]
                totals@.contains_key(symbol) ==> totals@[symbol] == dividends_paid(
                    *calc,
                    trades@,
                    event_views(events@),
                    symbol,
                ),
        decreases trades.len() - i,
    {
        let ghost before = totals@;
        let symbol = trades[i].symbol.as_str();
        let ghost this = symbol@;
        if !totals.contains_key(symbol) {
            let paid = paid_in_all(trades, events, symbol, calc);
            totals.insert(symbol.to_owned(), paid);
        }
        proof {
            let earlier = trades@.take(i as int);
            let now = trades@.take(i + 1);
            assert(now[i as int].symbol@ == this);
            assert forall|s: Seq<char>| #[trigger] totals@.contains_key(s) <==> is_traded(
                now,
                s,
            ) by {
                if is_traded(earlier, s) {
                    let k = choose|k: int| 0 <= k < earlier.len() && (#[trigger] earlier[k]).symbol@ == s;
                    assert(now[k].symbol@ == s);
                }
                if is_traded(now, s) && s != this {
                    let k = choose|k: int| 0 <= k < now.len() && (#[trigger] now[k]).symbol@ == s;
                    assert(earlier[k].symbol@ == s);
                }
                assert(before.contains_key(s) <==> is_traded(earlier, s));
            }
        }
        i += 1;
    }
    assert(trades@.take(trades.len() as int) =~= trades@);
    totals
}

/// A transaction after the day does not count towards what is held on it.
pub proof fn later_trades_do_not_count<F: Fn(Formula) -> Number>(
    calc: F,
    trades: Seq<HeldTrade>,
    later: HeldTrade,
    symbol: Seq<char>,
    date: Seq<char>,
)
    requires
        text_before(date, later.date@),
    ensures
        shares_on(calc, trades.push(later), symbol, date) == shares_on(calc, trades, symbol, date),
{
    assert(trades.push(later).drop_last() =~= trades);
}

// ---------------------------------------------------------------------------
// What a dividend pays
// ---------------------------------------------------------------------------

/// What was bought of a symbol, or sold of it, on or before a day.
pub open spec fn quantity_until(
    r: Reading,
    trades: Seq<HeldTrade>,
    symbol: Seq<char>,
    date: Seq<char>,
    transaction_type: Seq<char>,
) -> real
    decreases trades.len(),
{
    if trades.len() == 0 {
        0 as real
    } else {
        let t = trades.last();
        quantity_until(r, trades.drop_last(), symbol, date, transaction_type) + (if t.symbol@
            == symbol && t.transaction_type@ == transaction_type && !text_before(date, t.date@)
            && t.quantity is Some {
            r.of(t.quantity->0)
        } else {
            0 as real
        })
    }
}

/// Whether the shares of a day can be counted without rounding.
pub open spec fn countable_until(
    r: Reading,
    trades: Seq<HeldTrade>,
    symbol: Seq<char>,
    date: Seq<char>,
) -> bool {
    &&& forall|i: int|
        0 <= i < trades.len() && (#[trigger] trades[i]).quantity is Some ==> r.is_plain(
            trades[i].quantity->0,
        )
    &&& forall|n: int|
        0 <= n <= trades.len() ==> r.can(
            quantity_until(r, #[trigger] trades.take(n), symbol, date, "purchase"@)
                - quantity_until(r, trades.take(n), symbol, date, "sale"@),
        )
}

/// The shares held on a day are those bought on or before it less those sold.
pub proof fn shares_on_a_day_are_bought_less_sold<F: Fn(Formula) -> Number>(
    calc: F,
    r: Reading,
    trades: Seq<HeldTrade>,
    symbol: Seq<char>,
    date: Seq<char>,
)
    requires
        is_exact(calc, r),
        countable_until(r, trades, symbol, date),
    ensures
        r.of(shares_on(calc, trades, symbol, date)) == quantity_until(
            r,
            trades,
            symbol,
            date,
            "purchase"@,
        ) - quantity_until(r, trades, symbol, date, "sale"@),
        r.is_plain(shares_on(calc, trades, symbol, date)),
    decreases trades.len(),
{
    reveal_strlit("purchase");
    reveal_strlit("sale");
    reveal_with_fuel(exact, 4);
    reveal_with_fuel(unrounded, 4);
    assert("purchase"@.len() != "sale"@.len());
    if trades.len() > 0 {
        let less = trades.drop_last();
        let t = trades.last();
        let n = less.len() as int;
        assert forall|i: int|
            0 <= i < less.len() && (#[trigger] less[i]).quantity is Some implies r.is_plain(
            less[i].quantity->0,
        ) by {
            assert(trades[i] == less[i]);
        }
        assert forall|m: int| 0 <= m <= less.len() implies r.can(
            quantity_until(r, #[trigger] less.take(m), symbol, date, "purchase"@) - quantity_until(
                r,
                less.take(m),
                symbol,
                date,
                "sale"@,
            ),
        ) by {
            assert(trades.take(m) =~= less.take(m));
        }
        shares_on_a_day_are_bought_less_sold(calc, r, less, symbol, date);
        assert(trades[n] == t);
        assert(trades.take(n + 1) =~= trades);
        let before = shares_on(calc, less, symbol, date);
        if t.quantity is Some && t.symbol@ == symbol && !text_before(date, t.date@) {
            if t.transaction_type@ == "purchase"@ {
                lemma_exact(calc, r, sum(num(before), num(t.quantity->0)));
            } else if t.transaction_type@ == "sale"@ {
                lemma_exact(calc, r, difference(num(before), num(t.quantity->0)));
            }
        }
    }
}

/// A dividend pays the shares held on its day times what it pays for each, and
/// nothing to who holds none.
pub proof fn a_dividend_pays_for_each_share_held<F: Fn(Formula) -> Number>(
    calc: F,
    r: Reading,
    trades: Seq<HeldTrade>,
    event: EventView,
    i: int,
    date: Seq<char>,
)
    requires
        is_exact(calc, r),
        date_text(event.ex_date) == Some(date),
        countable_until(r, trades, event.symbol, date),
        r.is_plain(event.amount),
        ({
            let held = quantity_until(r, trades, event.symbol, date, "purchase"@) - quantity_until(
                r,
                trades,
                event.symbol,
                date,
                "sale"@,
            );
            r.can(held * r.of(event.amount))
        }),
    ensures
        ({
            let held = quantity_until(r, trades, event.symbol, date, "purchase"@) - quantity_until(
                r,
                trades,
                event.symbol,
                date,
                "sale"@,
            );
            &&& held <= 0 as real ==> payment_of(calc, trades, event, i) is None
            &&& held > 0 as real ==> (payment_of(calc, trades, event, i) matches Some(p) && r.of(
                p.shares_held,
            ) == held && r.of(p.total_payment) == held * r.of(event.amount) && p.event
                == i as usize)
        }),
{
    reveal_with_fuel(exact, 4);
    reveal_with_fuel(unrounded, 4);
    shares_on_a_day_are_bought_less_sold(calc, r, trades, event.symbol, date);
    let shares = shares_on(calc, trades, event.symbol, date);
    lemma_sign(calc, r, shares);
    lemma_exact(calc, r, product(num(shares), num(event.amount)));
}

/// The payments of the events of a symbol, added up.
pub open spec fn paid_for<F: Fn(Formula) -> Number>(
    calc: F,
    r: Reading,
    trades: Seq<HeldTrade>,
    events: Seq<EventView>,
    symbol: Seq<char>,
) -> real
    decreases events.len(),
{
    if events.len() == 0 {
        0 as real
    } else {
        paid_for(calc, r, trades, events.drop_last(), symbol) + (if events.last().symbol == symbol {
            match payment_of(calc, trades, events.last(), events.len() - 1) {
                Some(p) => r.of(p.total_payment),
                None => 0 as real,
            }
        } else {
            0 as real
        })
    }
}

/// The dividends of a symbol are the sum of its payments, and of no other's.
pub proof fn dividends_are_the_sum_of_the_payments<F: Fn(Formula) -> Number>(
    calc: F,
    r: Reading,
    trades: Seq<HeldTrade>,
    events: Seq<EventView>,
    symbol: Seq<char>,
)
    requires
        is_exact(calc, r),
        forall|n: int|
            0 <= n <= events.len() ==> r.can(
                paid_for(calc, r, trades, #[trigger] events.take(n), symbol),
            ),
        forall|i: int|
            0 <= i < events.len() && (#[trigger] payment_of(calc, trades, events[i], i)) is Some
                ==> r.is_plain(payment_of(calc, trades, events[i], i)->0.total_payment),
    ensures
        r.of(dividends_paid(calc, trades, events, symbol)) == paid_for(
            calc,
            r,
            trades,
            events,
            symbol,
        ),
        r.is_plain(dividends_paid(calc, trades, events, symbol)),
    decreases events.len(),
{
    reveal_with_fuel(exact, 4);
    reveal_with_fuel(unrounded, 4);
    if events.len() > 0 {
        let less = events.drop_last();
        let n = less.len() as int;
        assert forall|m: int| 0 <= m <= less.len() implies r.can(
            paid_for(calc, r, trades, #[trigger] less.take(m), symbol),
        ) by {
            assert(events.take(m) =~= less.take(m));
        }
        assert forall|i: int|
            0 <= i < less.len() && (#[trigger] payment_of(calc, trades, less[i], i)) is Some implies r.is_plain(
            payment_of(calc, trades, less[i], i)->0.total_payment,
        ) by {
            assert(events[i] == less[i]);
            assert(payment_of(calc, trades, events[i], i) is Some);
        }
        dividends_are_the_sum_of_the_payments(calc, r, trades, less, symbol);
        assert(events.take(n + 1) =~= events);
        assert(events[n] == events.last());
        if let Some(p) = payment_of(calc, trades, events[n], n) {
            assert(r.is_plain(p.total_payment));
            if events.last().symbol == symbol {
                lemma_exact(
                    calc,
                    r,
                    sum(num(dividends_paid(calc, trades, less, symbol)), num(p.total_payment)),
                );
            }
        }
    }
}

/// Two reports are one distribution exactly where their amounts differ by less
/// than a millionth and the later one comes at most four days after the other.
pub proof fn equal_amounts_within_four_days_are_one_distribution<F: Fn(Formula) -> Number>(
    calc: F,
    r: Reading,
    earlier: EventView,
    event: EventView,
)
    requires
        is_exact(calc, r),
        r.is_plain(earlier.amount) && r.is_plain(event.amount),
        r.can(r.of(earlier.amount) - r.of(event.amount)),
        r.is_plain(Number { bits: 0x3EB0_C6F7_A0B5_ED8D }),
    ensures
        ({
            let gap = r.of(earlier.amount) - r.of(event.amount);
            let limit = r.of(Number { bits: 0x3EB0_C6F7_A0B5_ED8D });
            repeats(calc, earlier, event) <==> 0 as real - limit < gap && gap < limit
                && event.ex_date <= earlier.ex_date + 4
        }),
{
    reveal_with_fuel(exact, 4);
    reveal_with_fuel(unrounded, 4);
    let f = difference(num(earlier.amount), num(event.amount));
    lemma_exact(calc, r, f);
    let gap = worth(calc, f);
    let limit = Number { bits: 0x3EB0_C6F7_A0B5_ED8D };
    assert(r.is_plain(gap.absolute()));
    assert(gap.absolute().below(limit) <==> r.of(gap.absolute()) < r.of(limit));
}

/// Of the reports in the order of their days the first one is kept, and each of
/// the others exactly where it repeats none that is kept. What is kept comes in
/// the order of the reports.
pub proof fn a_report_is_kept_unless_it_repeats_one<F: Fn(Formula) -> Number>(
    calc: F,
    sorted: Seq<EventView>,
    event: EventView,
)
    ensures
        first_reports(calc, seq![event]) == seq![event],
        ({
            let kept = first_reports(calc, sorted);
            let now = first_reports(calc, sorted.push(event));
            let repeated = exists|i: int| 0 <= i < kept.len() && repeats(calc, #[trigger] kept[i], event);
            &&& repeated ==> now == kept
            &&& !repeated ==> now == kept.push(event)
        }),
{
    assert(sorted.push(event).drop_last() =~= sorted);
    assert(seq![event].drop_last() =~= Seq::<EventView>::empty());
    assert(first_reports(calc, seq![event].drop_last()) == Seq::<EventView>::empty());
    assert(Seq::<EventView>::empty().push(event) =~= seq![event]);
}

/// One more entry of an answer is one more event: of the day of its ex-dividend
/// time, or else of its time, where the exchange is; with the days it is paid and
/// recorded on, and its amount. One that pays nothing is none, and one without a
/// time, or with one that no calendar holds, makes the answer faulty.
pub proof fn an_entry_is_an_event_of_its_day(
    symbol: Seq<char>,
    entries: Seq<DividendEntry>,
    e: DividendEntry,
    gmtoffset: Option<i64>,
    now: Seq<char>,
    before: Seq<EventView>,
)
    requires
        events_read(symbol, entries, gmtoffset, now, entries.len() as int) == Ok::<
            Seq<EventView>,
            Seq<char>,
        >(before),
    ensures
        ({
            let read = events_read(
                symbol,
                entries.push(e),
                gmtoffset,
                now,
                entries.len() as int + 1,
            );
            let time = if e.ex_date is Some {
                e.ex_date
            } else {
                e.date
            };
            let pays = e.amount is Some && !e.amount->0.at_most(Number { bits: 0 });
            &&& !pays ==> read == Ok::<Seq<EventView>, Seq<char>>(before)
            &&& pays && time is None ==> read == Err::<Seq<EventView>, Seq<char>>(
                "Dividend entry missing date for "@ + symbol,
            )
            &&& pays && time is Some && local_day(time->0 as int, gmtoffset) is None
                ==> read is Err
            &&& pays && time is Some && local_day(time->0 as int, gmtoffset) is Some ==> (
            read matches Ok(events) && events.len() == before.len() + 1 && events.drop_last()
                == before && events.last().symbol == symbol && events.last().ex_date == local_day(
                time->0 as int,
                gmtoffset,
            )->0 && Some(events.last().amount) == e.amount && events.last().fetched_at == now && (
            e.payment_date is None ==> events.last().payment_date is None) && (
            e.payment_date is Some ==> events.last().payment_date == local_day(
                e.payment_date->0 as int,
                gmtoffset,
            )) && (e.record_date is None ==> events.last().record_date is None) && (
            e.record_date is Some ==> events.last().record_date == local_day(
                e.record_date->0 as int,
                gmtoffset,
            )))
        }),
{
    let all = entries.push(e);
    let n = entries.len() as int;
    lemma_read_prefix(symbol, all, entries, gmtoffset, now, n);
    assert(all[n] == e);
    if let Ok(events) = events_read(symbol, all, gmtoffset, now, n + 1) {
        if events.len() > before.len() {
            assert(events.drop_last() =~= before);
        }
    }
}

proof fn lemma_read_prefix(
    symbol: Seq<char>,
    a: Seq<DividendEntry>,
    b: Seq<DividendEntry>,
    gmtoffset: Option<i64>,
    now: Seq<char>,
    n: int,
)
    requires
        0 <= n <= a.len(),
        n <= b.len(),
        forall|i: int| 0 <= i < n ==> a[i] == b[i],
    ensures
        events_read(symbol, a, gmtoffset, now, n) == events_read(symbol, b, gmtoffset, now, n),
    decreases n,
{
    if n > 0 {
        lemma_read_prefix(symbol, a, b, gmtoffset, now, n - 1);
    }
}

/// Each event that pays anything is a payment, in the order of the events.
pub proof fn every_event_that_pays_is_a_payment<F: Fn(Formula) -> Number>(
    calc: F,
    trades: Seq<HeldTrade>,
    events: Seq<EventView>,
    event: EventView,
)
    ensures
        payments(calc, trades, Seq::empty()) == Seq::<DividendPayment>::empty(),
        payment_of(calc, trades, event, events.len() as int) is None ==> payments(
            calc,
            trades,
            events.push(event),
        ) == payments(calc, trades, events),
        payment_of(calc, trades, event, events.len() as int) is Some ==> payments(
            calc,
            trades,
            events.push(event),
        ) == payments(calc, trades, events).push(
            payment_of(calc, trades, event, events.len() as int)->0,
        ),
{
    assert(events.push(event).drop_last() =~= events);
}

} // verus!
