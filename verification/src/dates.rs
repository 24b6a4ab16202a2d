//! Calendar days as numbers: 1 January of year 1 is day 1.
use vstd::prelude::*;

verus! {

broadcast use vstd::string::group_string_axioms;

/// The first day the calendar holds, 1 January 262144 BCE.
pub const MIN_DAY: i32 = -95_746_129;

/// The last day the calendar holds, 31 December 262142.
pub const MAX_DAY: i32 = 95_745_399;

/// 31 December 9999, the last day that is written with four digits of year.
pub const LAST_FOUR_DIGIT_DAY: i32 = 3_652_059;

/// The day on which the count of seconds starts, 1 January 1970.
pub const EPOCH_DAY: i64 = 719_163;

/// The seconds of a day.
pub const DAY_SECONDS: i64 = 86_400;

/// The day that a text in the form YYYY-MM-DD names, where it names one.
pub uninterp spec fn date_number(s: Seq<char>) -> Option<int>;

/// The day `n` in the form YYYY-MM-DD, where the calendar holds it.
pub uninterp spec fn date_text(n: int) -> Option<Seq<char>>;

/// The whole seconds from one RFC 3339 time to another, where both are such
/// times.
pub uninterp spec fn elapsed_seconds(since: Seq<char>, now: Seq<char>) -> Option<int>;

/// The days that are written with four digits of year.
pub open spec fn four_digit_day(n: int) -> bool {
    1 <= n <= LAST_FOUR_DIGIT_DAY
}

/// The day on which the second `secs` after the start of 1970 falls.
pub open spec fn day_of_second(secs: int) -> int {
    secs / (DAY_SECONDS as int) + EPOCH_DAY
}

/// The day of the week of day `n`, Monday being 0.
pub open spec fn weekday_number(n: int) -> int {
    (n - 1) % 7
}

/// The Monday of the week of day `n`.
pub open spec fn monday_of(n: int) -> int {
    n - weekday_number(n)
}

/// The view of an optional day.
pub open spec fn option_day(d: Option<i32>) -> Option<int> {
    match d {
        Some(n) => Some(n as int),
        None => None,
    }
}

// ---------------------------------------------------------------------------
// Trusted: the calendar
// ---------------------------------------------------------------------------

/// `chrono::NaiveDate::parse_from_str` with the form `%Y-%m-%d`: the day the
/// text names, as its number, or nothing where it names none. The calendar's
/// range bounds the number.
#[verifier::external_body]
pub(crate) fn parse_day(s: &str) -> (r: Option<i32>)
    ensures
        option_day(r) == date_number(s@),
        r is Some ==> MIN_DAY <= r->0 <= MAX_DAY,
{
    let date = chrono::NaiveDate::parse_from_str(s, "%Y-%m-%d").ok()?;
    Some(chrono::Datelike::num_days_from_ce(&date))
}

/// `chrono::NaiveDate::format` with the form `%Y-%m-%d`: the text of a day the
/// calendar holds. A day of the years 1 to 9999 is written in ten characters
/// and reads back as itself.
#[verifier::external_body]
pub(crate) fn format_day(n: i32) -> (r: Option<String>)
    ensures
        r is Some <==> MIN_DAY <= n <= MAX_DAY,
        crate::text::option_view(r) == date_text(n as int),
        r is Some && four_digit_day(n as int) ==> date_number(r->0@) == Some(n as int) && r->0@.len()
            == 10,
{
    let date = chrono::NaiveDate::from_num_days_from_ce_opt(n)?;
    Some(date.format("%Y-%m-%d").to_string())
}

/// `chrono::DateTime::from_timestamp`: the UTC day of a count of seconds since
/// the start of 1970, or nothing where the calendar does not reach it.
#[verifier::external_body]
pub(crate) fn day_of_timestamp(secs: i64) -> (r: Option<i32>)
    ensures
        option_day(r) == (if MIN_DAY <= day_of_second(secs as int) <= MAX_DAY {
            Some(day_of_second(secs as int))
        } else {
            None
        }),
{
    let time = chrono::DateTime::from_timestamp(secs, 0)?;
    Some(chrono::Datelike::num_days_from_ce(&time.date_naive()))
}

/// `chrono::DateTime::parse_from_rfc3339` on both texts and
/// `chrono::TimeDelta::num_seconds` of the difference: the whole seconds from
/// one to the other; nothing where one of them is no such time.
#[verifier::external_body]
pub(crate) fn seconds_between(since: &str, now: &str) -> (r: Option<i64>)
    ensures
        match r {
            Some(n) => elapsed_seconds(since@, now@) == Some(n as int),
            None => elapsed_seconds(since@, now@) is None,
        },
{
    let from = chrono::DateTime::parse_from_rfc3339(since).ok()?;
    let to = chrono::DateTime::parse_from_rfc3339(now).ok()?;
    Some((to - from).num_seconds())
}

// ---------------------------------------------------------------------------
// Days
// ---------------------------------------------------------------------------

/// The day of the week of day `n`, Monday being 0.
pub fn weekday(n: i32) -> (r: i32)
    ensures
        r == weekday_number(n as int),
        0 <= r < 7,
{
    let m: i64 = n as i64 - 1;
    let q: i64 = if m >= 0 {
        m % 7
    } else {
        let k: i64 = (-m) % 7;
        if k == 0 {
            0
        } else {
            7 - k
        }
    };
    proof {
        if m < 0 {
            let k = (-m) % 7;
            assert((m as int) % 7 == (if k == 0 {
                0int
            } else {
                7 - k
            })) by (nonlinear_arith)
                requires
                    m < 0,
                    k == (-m) % 7,
            ;
        }
    }
    q as i32
}

/// The exchange's own calendar day of a quote stamped `ts` seconds after the
/// start of 1970, `gmtoffset` being the exchange's offset from UTC in seconds.
///
/// Daily bars carry the time of the market's opening. East of Greenwich that
/// can still be the day before in UTC, so the offset goes on first.
pub fn yahoo_local_date(ts: i64, gmtoffset: Option<i64>) -> (r: Option<i32>)
    requires
        i64::MIN <= ts + (if gmtoffset is Some {
            gmtoffset->0 as int
        } else {
            0
        }) <= i64::MAX,
    ensures
        option_day(r) == local_day(ts as int, gmtoffset),
{
    let offset: i64 = gmtoffset.unwrap_or(0);
    day_of_timestamp(ts + offset)
}

/// The day that [`yahoo_local_date`] gives.
pub open spec fn local_day(ts: int, gmtoffset: Option<i64>) -> Option<int> {
    let day = day_of_second(
        ts + (if gmtoffset is Some {
            gmtoffset->0 as int
        } else {
            0
        }),
    );
    if MIN_DAY <= day <= MAX_DAY {
        Some(day)
    } else {
        None
    }
}

/// Every day lies in the week that its Monday starts.
pub proof fn monday_starts_the_week(n: int)
    ensures
        monday_of(n) <= n < monday_of(n) + 7,
        weekday_number(monday_of(n)) == 0,
{
    assert(weekday_number(monday_of(n)) == 0) by (nonlinear_arith)
        requires
            weekday_number(monday_of(n)) == (n - (n - 1) % 7 - 1) % 7,
    ;
}

/// The day of a time is the one within whose 86,400 seconds the time lies, once
/// the exchange's offset has been put on: the first day of 1970 is number 719,163.
pub proof fn a_time_lies_within_its_day(ts: int, gmtoffset: Option<i64>)
    ensures
        ({
            let shifted = match gmtoffset {
                Some(o) => ts + o,
                None => ts,
            };
            match local_day(ts, gmtoffset) {
                Some(day) => (day - 719_163) * 86_400 <= shifted < (day - 719_162) * 86_400,
                None => shifted < (MIN_DAY - 719_163) * 86_400 || shifted >= (MAX_DAY - 719_162)
                    * 86_400,
            }
        }),
{
}

/// Days a week apart fall on one day of the week; the first day of 1970 was a
/// Thursday.
pub proof fn the_week_has_seven_days(n: int)
    ensures
        weekday_number(n + 7) == weekday_number(n),
        weekday_number(719_163) == 3,
        weekday_number(n) < 6 ==> weekday_number(n + 1) == weekday_number(n) + 1,
        weekday_number(n) == 6 ==> weekday_number(n + 1) == 0,
        0 <= weekday_number(n) <= 6,
{
}

} // verus!
