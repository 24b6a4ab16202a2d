//! Exchange rates: which are asked for, and which of several counts.
use vstd::prelude::*;
use crate::bars::{bar_date, times_in_range};
use crate::dates::{
    date_number, elapsed_seconds, format_day, option_day, parse_day, seconds_between, yahoo_local_date,
    DAY_SECONDS, EPOCH_DAY,
};
use crate::fields::DayClose;
use crate::history::{advance, close_dates, last_passed, SeriesCursor};
use crate::number::{is_usable_quote, number, Number, ONE_BITS};
use crate::order::{distinct_sorted, strictly_ascending};
use crate::reply::{bad_request, Reason, Refusal};
use crate::symbols::{normal_symbol, normalize_symbol};
use crate::text::{
    chars_of, has_prefix, is_before, joined, same, split, split_text, starts_with, string_views,
    text_before, views,
};

verus! {

broadcast use vstd::string::group_string_axioms;

// ---------------------------------------------------------------------------
// Stored rates
// ---------------------------------------------------------------------------

/// The rate of a currency on a day: the latest stored one on or before it. The
/// base currency's is one.
pub open spec fn rate_as_of(currency: Seq<char>, points: Seq<DayClose>, date: Seq<char>) -> Option<
    Number,
> {
    if normal_symbol(currency).len() == 0 || normal_symbol(currency) == "AUD"@ {
        Some(number(ONE_BITS))
    } else {
        last_passed(points, advance(close_dates(points), 0, date))
    }
}

/// The rate of a currency on a day. Rates are not quoted at weekends, but
/// holdings are valued then too. `points` are the stored rates of its pair, in
/// the order of their days.
pub fn fx_rate_on(currency: &str, points: &Vec<DayClose>, date: &str) -> (r: Option<Number>)
    ensures
        r == rate_as_of(currency@, points@, date@),
{
    let code = normalize_symbol(currency);
    if code.as_str().is_empty() || same(code.as_str(), "AUD") {
        return Some(Number { bits: ONE_BITS });
    }
    let mut cursor = SeriesCursor::new(points);
    cursor.value_on(date)
}

// ---------------------------------------------------------------------------
// Rates asked for by date
// ---------------------------------------------------------------------------

/// Whether a request for the rate on a date, which names `day`, is answered so.
pub open spec fn rate_request_verdict(
    r: Result<(String, i32), Refusal>,
    currency: Seq<char>,
    day: Option<int>,
) -> bool {
    match (r, day) {
        (Ok(q), Some(d)) => q.0@ == normal_symbol(currency) && q.1 == d,
        (Err(e), None) => e@ == (Reason::BadRequest, "Invalid date format, use YYYY-MM-DD"@),
        _ => false,
    }
}

/// The currency and the day of a request for a rate, or what is wrong with it.
pub fn rate_request(currency: &str, date: &str) -> (r: Result<(String, i32), Refusal>)
    ensures
        rate_request_verdict(r, currency@, date_number(date@)),
{
    judge_rate_request(currency, parse_day(date))
}

/// The currency and the day of a request for a rate whose date names `day`.
pub fn judge_rate_request(currency: &str, day: Option<i32>) -> (r: Result<(String, i32), Refusal>)
    ensures
        rate_request_verdict(r, currency@, option_day(day)),
{
    match day {
        Some(d) => Ok((normalize_symbol(currency), d)),
        None => Err(bad_request("Invalid date format, use YYYY-MM-DD")),
    }
}

/// How many days before the day asked for an answer begins: weekends and
/// holidays have no rate.
pub const DAYS_BEFORE: i64 = 7;

/// How many days after it the answer ends.
pub const DAYS_AFTER: i64 = 2;

/// The times between which rates are asked for to find that of a day, in seconds
/// since the start of 1970.
pub fn rate_window(day: i32) -> (r: (i64, i64))
    ensures
        r.0 == (day - DAYS_BEFORE - EPOCH_DAY) * DAY_SECONDS,
        r.1 == (day + DAYS_AFTER - EPOCH_DAY) * DAY_SECONDS,
{
    let at: i64 = day as i64 - EPOCH_DAY;
    ((at - DAYS_BEFORE) * DAY_SECONDS, (at + DAYS_AFTER) * DAY_SECONDS)
}

/// The last rate on or before the target among the first `n` of an answer, with
/// its date. A timestamp that no calendar holds has an empty date.
pub open spec fn best_rate(
    timestamps: Seq<i64>,
    closes: Seq<Option<Number>>,
    gmtoffset: Option<i64>,
    target: Seq<char>,
    n: int,
) -> Option<(Number, Seq<char>)>
    decreases n,
{
    if n <= 0 {
        None
    } else {
        let date = match bar_date(timestamps, gmtoffset, n - 1) {
            Some(d) => d,
            None => seq![],
        };
        if !text_before(target, date) && n - 1 < closes.len() && closes[n - 1] is Some {
            Some((closes[n - 1]->0, date))
        } else {
            best_rate(timestamps, closes, gmtoffset, target, n - 1)
        }
    }
}

/// A rate and the day it is of.
#[derive(Debug)]
pub struct DatedRate {
    pub rate: Number,
    pub date: String,
}

/// The last rate on or before the target in an answer, or what is said where
/// there is none.
pub fn pick_rate(
    timestamps: &Vec<i64>,
    closes: &Vec<Option<Number>>,
    gmtoffset: Option<i64>,
    target: &str,
) -> (r: Result<DatedRate, String>)
    requires
        times_in_range(timestamps@, gmtoffset),
    ensures
        match r {
            Ok(d) => best_rate(
                timestamps@,
                closes@,
                gmtoffset,
                target@,
                timestamps@.len() as int,
            ) == Some((d.rate, d.date@)),
            Err(e) => best_rate(
                timestamps@,
                closes@,
                gmtoffset,
                target@,
                timestamps@.len() as int,
            ) is None && e@ == "No FX rate found on or before "@ + target@,
        },
{
    let mut best: Option<DatedRate> = None;
    let mut i: usize = 0;
    while i < timestamps.len()
        invariant
            i <= timestamps.len(),
            times_in_range(timestamps@, gmtoffset),
            match best {
                Some(d) => best_rate(timestamps@, closes@, gmtoffset, target@, i as int) == Some(
                    (d.rate, d.date@),
                ),
                None => best_rate(timestamps@, closes@, gmtoffset, target@, i as int) is None,
            },
        decreases timestamps.len() - i,
    {
        assert(i64::MIN <= timestamps@[i as int] + (if gmtoffset is Some {
            gmtoffset->0 as int
        } else {
            0
        }) <= i64::MAX);
        let date = match yahoo_local_date(timestamps[i], gmtoffset) {
            Some(day) => format_day(day),
            None => None,
        };
        let text = match date {
            Some(d) => d,
            None => String::new(),
        };
        proof {
            if bar_date(timestamps@, gmtoffset, i as int) is None {
                assert(text@ =~= seq![]);
            }
        }
        if !is_before(target, text.as_str()) && i < closes.len() {
            match closes[i] {
                Some(rate) => {
                    best = Some(DatedRate { rate, date: text });
                },
                None => {},
            }
        }
        i += 1;
    }
    match best {
        Some(d) => Ok(d),
        None => Err(joined("No FX rate found on or before ", target)),
    }
}

/// Whether a failure to get a rate means that there is none: it is then not
/// found, and otherwise the server's fault.
pub fn is_missing_rate(error: &str) -> (r: bool)
    ensures
        r == has_prefix(error@, "No "@),
{
    starts_with(error, "No ")
}

// ---------------------------------------------------------------------------
// Which currencies are asked for
// ---------------------------------------------------------------------------

/// Whether a text is the code of a currency other than the base.
pub open spec fn is_currency_code(s: Seq<char>) -> bool {
    &&& s != "AUD"@
    &&& s.len() == 3
    &&& forall|i: int|
        0 <= i < s.len() ==> ('a' <= #[trigger] s[i] <= 'z' || 'A' <= s[i] <= 'Z')
}

fn currency_code(s: &str) -> (r: bool)
    ensures
        r == is_currency_code(s@),
{
    if same(s, "AUD") {
        return false;
    }
    let cs = chars_of(s);
    if cs.len() != 3 {
        return false;
    }
    let mut i: usize = 0;
    while i < cs.len()
        invariant
            i <= cs.len(),
            cs@ == s@,
            forall|j: int|
                0 <= j < i ==> ('a' <= #[trigger] cs@[j] <= 'z' || 'A' <= cs@[j] <= 'Z'),
        decreases cs.len() - i,
    {
        let c = cs[i];
        if !(('a' <= c && c <= 'z') || ('A' <= c && c <= 'Z')) {
            assert(!('a' <= s@[i as int] <= 'z' || 'A' <= s@[i as int] <= 'Z'));
            return false;
        }
        i += 1;
    }
    true
}

/// Whether a request asks for the rate of a currency.
pub open spec fn rate_asked(pieces: Seq<Seq<char>>, code: Seq<char>) -> bool {
    is_currency_code(code) && exists|i: int|
        0 <= i < pieces.len() && normal_symbol(#[trigger] pieces[i]) == code
}

/// The currencies whose rates a comma-separated list asks for, in order, each
/// once.
pub fn asked_currencies(list: &str) -> (r: Vec<String>)
    ensures
        strictly_ascending(string_views(r@)),
        forall|c: Seq<char>| #[trigger]
            string_views(r@).contains(c) <==> rate_asked(split_text(list@, ','), c),
{
    let pieces = split(list, ',');
    let ghost all = views(pieces@);
    let mut found: Vec<String> = Vec::new();
    let mut i: usize = 0;
    while i < pieces.len()
        invariant
            i <= pieces.len(),
            all == views(pieces@),
            forall|j: int| 0 <= j < found@.len() ==> rate_asked(all, (#[trigger] found@[j])@),
            forall|j: int|
                0 <= j < i && is_currency_code(normal_symbol(#[trigger] all[j]))
                    ==> string_views(found@).contains(normal_symbol(all[j])),
        decreases pieces.len() - i,
    {
        let code = normalize_symbol(pieces[i]);
        let ghost before = found@;
        assert(all[i as int] == pieces@[i as int]@);
        if currency_code(code.as_str()) {
            assert(rate_asked(all, code@)) by {
                assert(normal_symbol(all[i as int]) == code@);
            }
            found.push(code);
            proof {
                assert forall|t: Seq<char>| string_views(before).contains(t) implies string_views(
                    found@,
                ).contains(t) by {
                    let k = choose|k: int|
                        0 <= k < string_views(before).len() && string_views(before)[k] == t;
                    assert(string_views(found@)[k] == t);
                }
                assert(string_views(found@)[before.len() as int] == code@);
            }
        }
        i += 1;
    }
    let r = distinct_sorted(&found);
    proof {
        assert forall|c: Seq<char>| #[trigger]
            string_views(r@).contains(c) <==> rate_asked(all, c) by {
            assert(string_views(r@).contains(c) <==> string_views(r@).to_set().contains(c));
            assert(string_views(found@).contains(c) <==> string_views(found@).to_set().contains(
                c,
            ));
            if string_views(found@).contains(c) {
                let k = choose|k: int|
                    0 <= k < string_views(found@).len() && string_views(found@)[k] == c;
                assert(found@[k]@ == c);
            }
            if rate_asked(all, c) {
                let j = choose|j: int|
                    0 <= j < all.len() && normal_symbol(#[trigger] all[j]) == c;
                assert(string_views(found@).contains(normal_symbol(all[j])));
            }
        }
    }
    r
}

// ---------------------------------------------------------------------------
// Cached rates
// ---------------------------------------------------------------------------

/// For how many seconds a cached rate is served without asking.
pub const RATE_FRESH_SECS: i64 = 3600;

/// A cached rate and when it was fetched.
#[derive(Debug)]
pub struct CachedRate {
    pub price: Option<Number>,
    pub last_updated: String,
}

/// Whether a cached rate is served without asking, `age` being the seconds
/// since it was fetched, where that can be told.
pub open spec fn is_fresh(cached: Option<CachedRate>, age: Option<int>) -> bool {
    cached is Some && cached->0.price is Some && age is Some && age->0 < RATE_FRESH_SECS
}

/// The age of a cached rate.
pub open spec fn rate_age(cached: Option<CachedRate>, now: Seq<char>) -> Option<int> {
    match cached {
        Some(c) => elapsed_seconds(c.last_updated@, now),
        None => None,
    }
}

/// Whether a cached rate of that age is served without asking.
pub fn judge_fresh(cached: Option<&CachedRate>, age: Option<i64>) -> (r: bool)
    ensures
        r == is_fresh(
            crate::context::deref(cached),
            match age {
                Some(a) => Some(a as int),
                None => None,
            },
        ),
{
    match (cached, age) {
        (Some(c), Some(a)) => c.price.is_some() && a < RATE_FRESH_SECS,
        _ => false,
    }
}

/// Whether a cached rate is served without asking.
pub fn rate_is_fresh(cached: Option<&CachedRate>, now: &str) -> (r: bool)
    ensures
        r == is_fresh(
            crate::context::deref(cached),
            rate_age(crate::context::deref(cached), now@),
        ),
{
    match cached {
        None => judge_fresh(None, None),
        Some(c) => judge_fresh(Some(c), seconds_between(c.last_updated.as_str(), now)),
    }
}

/// The rate that counts once the feed has been asked: its answer where that is
/// a price, and otherwise the cached one, however old.
pub open spec fn rate_after(live: Option<Number>, cached: Option<CachedRate>) -> Option<Number> {
    if live is Some && live->0.usable() {
        live
    } else {
        match cached {
            Some(c) => c.price,
            None => None,
        }
    }
}

/// The rate that counts once the feed has been asked, and whether it is new.
pub fn choose_rate(live: Option<Number>, cached: Option<&CachedRate>) -> (r: (Option<Number>, bool))
    ensures
        r.0 == rate_after(live, crate::context::deref(cached)),
        r.1 == (live is Some && live->0.usable()),
{
    if is_usable_quote(live) {
        return (live, true);
    }
    let kept = match cached {
        Some(c) => c.price,
        None => None,
    };
    (kept, false)
}

/// A feed that answers nothing, or nothing that is a price, never takes a rate
/// away.
pub proof fn a_failed_fetch_keeps_the_cached_rate(live: Option<Number>, cached: CachedRate)
    requires
        live is None || !live->0.usable(),
    ensures
        rate_after(live, Some(cached)) == cached.price,
{
}

/// The rate of a day is the last stored one that is not dated after it: every rate
/// up to it is dated on or before the day, and the next one after it. The base
/// currency's, and that of no currency, is one.
pub proof fn the_last_rate_on_or_before_the_day_counts(
    currency: Seq<char>,
    points: Seq<DayClose>,
    date: Seq<char>,
    n: int,
)
    requires
        0 <= n <= points.len(),
        forall|i: int| 0 <= i < n ==> !text_before(date, (#[trigger] points[i]).date@),
        n < points.len() ==> text_before(date, points[n].date@),
    ensures
        ({
            let code = normal_symbol(currency);
            &&& code == "AUD"@ || code.len() == 0 ==> rate_as_of(currency, points, date) == Some(
                number(0x3FF0_0000_0000_0000),
            )
            &&& code != "AUD"@ && code.len() > 0 && n > 0 ==> rate_as_of(currency, points, date)
                == Some(points[n - 1].close)
            &&& code != "AUD"@ && code.len() > 0 && n == 0 ==> rate_as_of(
                currency,
                points,
                date,
            ) is None
        }),
{
    lemma_advance_to(points, date, n, 0);
}

proof fn lemma_advance_to(points: Seq<DayClose>, date: Seq<char>, n: int, from: int)
    requires
        0 <= from <= n <= points.len(),
        forall|i: int| 0 <= i < n ==> !text_before(date, (#[trigger] points[i]).date@),
        n < points.len() ==> text_before(date, points[n].date@),
    ensures
        advance(close_dates(points), from, date) == n,
    decreases n - from,
{
    if from < points.len() {
        assert(close_dates(points)[from] == points[from].date@);
    }
    if from < n {
        lemma_advance_to(points, date, n, from + 1);
    }
}

/// The rate picked from an answer is the last one whose day is not after the one
/// asked for: none that comes later in the answer would do, and it would.
pub proof fn the_rate_picked_is_the_last_that_will_do(
    timestamps: Seq<i64>,
    closes: Seq<Option<Number>>,
    gmtoffset: Option<i64>,
    target: Seq<char>,
    n: int,
)
    requires
        0 <= n <= timestamps.len(),
    ensures
        ({
            let date = |i: int|
                match bar_date(timestamps, gmtoffset, i) {
                    Some(d) => d,
                    None => seq![],
                };
            match best_rate(timestamps, closes, gmtoffset, target, n) {
                Some(found) => exists|i: int|
                    0 <= i < n && i < closes.len() && #[trigger] closes[i] == Some(found.0)
                        && found.1 == date(i) && !text_before(target, date(i)) && forall|j: int|
                        i < j < n && j < closes.len() && (#[trigger] closes[j]) is Some
                            ==> text_before(target, date(j)),
                None => forall|j: int|
                    0 <= j < n && j < closes.len() && (#[trigger] closes[j]) is Some
                        ==> text_before(target, date(j)),
            }
        }),
    decreases n,
{
    if n > 0 {
        the_rate_picked_is_the_last_that_will_do(timestamps, closes, gmtoffset, target, n - 1);
        let date = match bar_date(timestamps, gmtoffset, n - 1) {
            Some(d) => d,
            None => seq![],
        };
        if !text_before(target, date) && n - 1 < closes.len() && closes[n - 1] is Some {
            assert(closes[n - 1] == Some(closes[n - 1]->0));
        }
    }
}

/// A cached rate is fresh where it has a price and is younger than an hour.
pub proof fn a_rate_is_fresh_for_an_hour(cached: Option<CachedRate>, age: Option<int>)
    ensures
        is_fresh(cached, age) <==> cached is Some && cached->0.price is Some && age is Some && age->0
            < 3600,
{
}

/// A live rate counts where it is a price, positive and finite; otherwise the
/// cached one stays.
pub proof fn a_live_rate_counts_where_it_is_a_price(live: Option<Number>, cached: Option<CachedRate>)
    ensures
        live is Some && live->0.usable() ==> rate_after(live, cached) == live,
        !(live is Some && live->0.usable()) && cached is Some ==> rate_after(live, cached)
            == cached->0.price,
        !(live is Some && live->0.usable()) && cached is None ==> rate_after(live, cached) is None,
{
}

/// A rate is asked for around its day, from a week before to two days after: nine
/// days in all.
pub proof fn rates_are_asked_for_around_the_day(day: int)
    ensures
        (day - DAYS_BEFORE - EPOCH_DAY) * DAY_SECONDS == (day - 7 - 719_163) * 86_400,
        (day + DAYS_AFTER - EPOCH_DAY) * DAY_SECONDS == (day + 2 - 719_163) * 86_400,
{
}

/// A rate is asked for by three letters, each of them a letter, that are not those
/// of the base currency and that a piece of the list comes to.
pub proof fn which_rates_are_asked_for(pieces: Seq<Seq<char>>, code: Seq<char>, i: int)
    requires
        0 <= i < pieces.len(),
    ensures
        rate_asked(pieces, code) ==> code != "AUD"@ && code.len() == 3,
        rate_asked(pieces, code) ==> ('a' <= code[0] <= 'z' || 'A' <= code[0] <= 'Z') && ('a'
            <= code[1] <= 'z' || 'A' <= code[1] <= 'Z') && ('a' <= code[2] <= 'z' || 'A' <= code[2]
            <= 'Z'),
        normal_symbol(pieces[i]) == code && code != "AUD"@ && code.len() == 3 && (forall|j: int|
            0 <= j < 3 ==> 'A' <= #[trigger] code[j] <= 'Z') ==> rate_asked(pieces, code),
        !rate_asked(Seq::empty(), code),
{
}

/// A rate is asked for on a day of its own; what is no day is refused.
pub proof fn a_rate_is_asked_for_on_a_day(
    r: Result<(String, i32), Refusal>,
    currency: Seq<char>,
    day: Option<int>,
)
    requires
        rate_request_verdict(r, currency, day),
    ensures
        r is Ok <==> day is Some,
        day is Some ==> (r->Ok_0).1 == day->0 && (r->Ok_0).0@ == normal_symbol(currency),
        day is None ==> (r->Err_0)@.0 == Reason::BadRequest,
{
}

} // verus!
