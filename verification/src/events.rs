//! The event log: reading it by pages.
use vstd::prelude::*;
use crate::order::{are_ranked, sorted, Ranked};
use crate::text::{option_view, same};

verus! {

broadcast use vstd::string::group_string_axioms;

/// An entry of the log.
#[derive(Debug)]
pub struct EventLogEntry {
    pub id: i64,
    pub timestamp: String,
    pub level: String,
    pub source: String,
    pub event_type: String,
    pub symbol: Option<String>,
    pub details: Option<String>,
}

/// What of the log is asked for.
#[derive(Debug)]
pub struct EventQuery {
    pub page: Option<u32>,
    pub size: Option<u32>,
    pub level: Option<String>,
    pub source: Option<String>,
    pub event_type: Option<String>,
    pub symbol: Option<String>,
}

impl EventQuery {
    /// The page that is meant: the first where none or number 0 is asked for.
    pub open spec fn page_number(self) -> int {
        match self.page {
            Some(p) => if p < 1 {
                1
            } else {
                p as int
            },
            None => 1,
        }
    }

    /// How many entries a page has: 50 where nothing is asked for, and from 1 to
    /// 1000.
    pub open spec fn page_size(self) -> int {
        match self.size {
            Some(s) => if s < 1 {
                1
            } else if s > 1000 {
                1000
            } else {
                s as int
            },
            None => 50,
        }
    }

    /// How many entries stand before the page.
    pub open spec fn offset(self) -> int {
        (self.page_number() - 1) * self.page_size()
    }
}

/// Whether a text is the one asked for, where one is.
pub open spec fn asked(wanted: Option<String>, text: Option<Seq<char>>) -> bool {
    wanted is Some ==> text == Some(wanted->0@)
}

/// Whether an entry is asked for.
pub open spec fn is_asked(q: EventQuery, e: EventLogEntry) -> bool {
    asked(q.level, Some(e.level@)) && asked(q.source, Some(e.source@)) && asked(
        q.event_type,
        Some(e.event_type@),
    ) && asked(q.symbol, option_view(e.symbol))
}

fn matches_text(wanted: &Option<String>, text: &str) -> (r: bool)
    ensures
        r == asked(*wanted, Some(text@)),
{
    match wanted {
        Some(w) => same(w.as_str(), text),
        None => true,
    }
}

fn matches_query(q: &EventQuery, e: &EventLogEntry) -> (r: bool)
    ensures
        r == is_asked(*q, *e),
{
    let symbol = match (&q.symbol, &e.symbol) {
        (Some(w), Some(s)) => same(w.as_str(), s.as_str()),
        (Some(_), None) => false,
        (None, _) => true,
    };
    matches_text(&q.level, e.level.as_str()) && matches_text(&q.source, e.source.as_str())
        && matches_text(&q.event_type, e.event_type.as_str()) && symbol
}

impl Ranked for EventLogEntry {
    open spec fn precedes(self, other: Self) -> bool {
        self.id > other.id
    }

    proof fn precedes_is_irreflexive(a: Self) {
    }

    proof fn precedes_is_transitive(a: Self, b: Self, c: Self) {
    }

    proof fn ties_are_transitive(a: Self, b: Self, c: Self) {
    }

    fn goes_before(&self, other: &Self) -> (r: bool) {
        self.id > other.id
    }
}

/// The entries asked for, in the order they came in.
pub open spec fn asked_entries(q: EventQuery, log: Seq<EventLogEntry>) -> Seq<EventLogEntry> {
    log.filter(|e: EventLogEntry| is_asked(q, e))
}

/// The page of a sequence.
pub open spec fn page_of(q: EventQuery, all: Seq<EventLogEntry>) -> Seq<EventLogEntry> {
    let from = if q.offset() > all.len() {
        all.len() as int
    } else {
        q.offset()
    };
    let to = if from + q.page_size() > all.len() {
        all.len() as int
    } else {
        from + q.page_size()
    };
    all.subrange(from, to)
}

/// The page number and size that a query means, and how many entries stand
/// before the page.
pub fn page_bounds(q: &EventQuery) -> (r: (u32, u32, u64))
    ensures
        r.0 == q.page_number(),
        r.1 == q.page_size(),
        r.2 == q.offset(),
{
    let page: u32 = match q.page {
        Some(p) => if p < 1 {
            1
        } else {
            p
        },
        None => 1,
    };
    let size: u32 = match q.size {
        Some(s) => if s < 1 {
            1
        } else if s > 1000 {
            1000
        } else {
            s
        },
        None => 50,
    };
    let before: u64 = (page - 1) as u64;
    assert(before * (size as u64) <= 0xffff_ffffu64 * 1000) by (nonlinear_arith)
        requires
            before <= 0xffff_ffff,
            size <= 1000,
    ;
    let offset: u64 = before * (size as u64);
    (page, size, offset)
}

/// The entries asked for, the newest first, of the page asked for, and how many
/// there are on all pages.
pub fn fetch_event_log(log: Vec<EventLogEntry>, q: &EventQuery) -> (r: (Vec<EventLogEntry>, usize))
    ensures
        r.1 == asked_entries(*q, log@).len(),
        exists|all: Seq<EventLogEntry>| #[trigger]
            are_ranked(all, asked_entries(*q, log@)) && r.0@ == page_of(*q, all),
{
    let ghost keep = |e: EventLogEntry| is_asked(*q, e);
    let ghost whole = log@;
    let mut found: Vec<EventLogEntry> = Vec::new();
    assert(found@ =~= whole.take(0).filter(keep)) by {
        reveal(Seq::filter);
    }
    for e in it: log
        invariant
            it.seq() == whole,
            keep == (|e: EventLogEntry| is_asked(*q, e)),
            found@ == whole.take(it.index() as int).filter(keep),
    {
        let ghost n = it.index() as int;
        proof {
            assert(whole.take(n + 1) =~= whole.take(n).push(e));
            crate::settings::lemma_filter_push(whole.take(n), e, keep);
        }
        if matches_query(q, &e) {
            found.push(e);
        }
    }
    assert(whole.take(whole.len() as int) =~= whole);
    let ghost entries = found@;
    let all = sorted(found);
    let total: usize = all.len();
    let (_, size, offset) = page_bounds(q);
    let ghost sorted_all = all@;
    assert(are_ranked(sorted_all, entries));
    let mut out: Vec<EventLogEntry> = Vec::new();
    let from: u64 = if offset > total as u64 {
        total as u64
    } else {
        offset
    };
    let to: u64 = if total as u64 - from < size as u64 {
        total as u64
    } else {
        from + size as u64
    };
    let mut i: u64 = 0;
    for e in it: all
        invariant
            it.seq() == sorted_all,
            i == it.index(),
            total == sorted_all.len(),
            from <= to <= total,
            out@ == sorted_all.subrange(
                from as int,
                if i < from {
                    from as int
                } else if i < to {
                    i as int
                } else {
                    to as int
                },
            ),
    {
        assert(sorted_all[i as int] == e);
        if from <= i && i < to {
            let ghost before = out@;
            out.push(e);
            assert(out@ =~= sorted_all.subrange(from as int, i + 1));
        }
        i += 1;
    }
    assert(out@ =~= page_of(*q, sorted_all));
    assert(entries == asked_entries(*q, log@));
    assert(are_ranked(sorted_all, asked_entries(*q, log@)));
    (out, total)
}

/// A page starts where the one before it ends: no entry is left out between the
/// two and none stands on both.
pub proof fn pages_follow_on(q: EventQuery, next: EventQuery, all: Seq<EventLogEntry>)
    requires
        next.page_number() == q.page_number() + 1,
        next.page_size() == q.page_size(),
        next.offset() <= all.len(),
    ensures
        page_of(q, all) == all.subrange(q.offset(), next.offset()),
        page_of(next, all) == all.subrange(
            next.offset(),
            if next.offset() + next.page_size() > all.len() {
                all.len() as int
            } else {
                next.offset() + next.page_size()
            },
        ),
{
    let page = q.page_number();
    let size = q.page_size();
    assert((page + 1 - 1) * size == (page - 1) * size + size) by (nonlinear_arith);
    assert((page - 1) * size >= 0) by (nonlinear_arith)
        requires
            page >= 1,
            size >= 1,
    ;
}

/// A page is of 50 entries where nothing is said, and of 1 to 1000 in any case; the
/// first page is number one. Newer entries come first.
pub proof fn how_large_a_page_is(q: EventQuery, a: EventLogEntry, b: EventLogEntry)
    ensures
        q.size is None ==> q.page_size() == 50,
        q.size is Some && 1 <= q.size->0 <= 1000 ==> q.page_size() == q.size->0,
        q.size is Some && q.size->0 > 1000 ==> q.page_size() == 1000,
        q.size == Some(0u32) ==> q.page_size() == 1,
        q.page is None ==> q.page_number() == 1,
        q.page is Some && q.page->0 >= 1 ==> q.page_number() == q.page->0,
        q.page_number() == 1 ==> q.offset() == 0,
        q.page_number() == 3 ==> q.offset() == 2 * q.page_size(),
        a.precedes(b) <==> a.id > b.id,
{
}

/// An entry is asked for where it is of the level, the source, the type and the
/// symbol that the query names; what the query does not name does not matter.
pub proof fn which_entries_are_asked_for(q: EventQuery, e: EventLogEntry)
    ensures
        is_asked(q, e) <==> (q.level is None || q.level->0@ == e.level@) && (q.source is None
            || q.source->0@ == e.source@) && (q.event_type is None || q.event_type->0@
            == e.event_type@) && (q.symbol is None || (e.symbol is Some && e.symbol->0@
            == q.symbol->0@)),
{
}

/// The entries asked for are looked at in the order of the log, and no others.
pub proof fn no_entry_asked_for_is_left_out(
    q: EventQuery,
    log: Seq<EventLogEntry>,
    e: EventLogEntry,
)
    ensures
        asked_entries(q, Seq::empty()) == Seq::<EventLogEntry>::empty(),
        is_asked(q, e) ==> asked_entries(q, log.push(e)) == asked_entries(q, log).push(e),
        !is_asked(q, e) ==> asked_entries(q, log.push(e)) == asked_entries(q, log),
{
    reveal(Seq::filter);
    assert(log.push(e).drop_last() =~= log);
}

} // verus!
