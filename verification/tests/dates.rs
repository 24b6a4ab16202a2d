use chrono::{Datelike, NaiveDate, TimeZone, Utc};
use stocks_api::dates::{
    weekday, yahoo_local_date, EPOCH_DAY, LAST_FOUR_DIGIT_DAY, MAX_DAY, MIN_DAY,
};

const AEDT: i64 = 11 * 3600;
const AEST: i64 = 10 * 3600;
const EST: i64 = -5 * 3600;

fn utc_ts(y: i32, m: u32, d: u32, h: u32, min: u32) -> i64 {
    Utc.with_ymd_and_hms(y, m, d, h, min, 0).unwrap().timestamp()
}

fn day(y: i32, m: u32, d: u32) -> Option<i32> {
    NaiveDate::from_ymd_opt(y, m, d).map(|date| date.num_days_from_ce())
}

#[test]
fn yahoo_local_date_aedt_open_dates_as_local_trading_day() {
    let ts = utc_ts(2026, 1, 4, 23, 0);
    assert_eq!(yahoo_local_date(ts, Some(AEDT)), day(2026, 1, 5));
}

#[test]
fn yahoo_local_date_aest_open_is_unchanged() {
    let ts = utc_ts(2026, 6, 1, 0, 0);
    assert_eq!(yahoo_local_date(ts, Some(AEST)), day(2026, 6, 1));
}

#[test]
fn yahoo_local_date_us_open_is_unchanged() {
    let ts = utc_ts(2026, 1, 5, 14, 30);
    assert_eq!(yahoo_local_date(ts, Some(EST)), day(2026, 1, 5));
}

#[test]
fn yahoo_local_date_missing_offset_falls_back_to_utc() {
    let ts = utc_ts(2026, 1, 4, 23, 0);
    assert_eq!(yahoo_local_date(ts, None), day(2026, 1, 4));
}

#[test]
fn a_day_before_the_epoch_is_dated_too() {
    assert_eq!(yahoo_local_date(-1, None), day(1969, 12, 31));
    assert_eq!(yahoo_local_date(0, None), day(1970, 1, 1));
    assert_eq!(yahoo_local_date(i64::MAX, None), None);
}

#[test]
fn the_calendar_has_the_bounds_it_is_said_to_have() {
    assert_eq!(NaiveDate::MIN.num_days_from_ce(), MIN_DAY);
    assert_eq!(NaiveDate::MAX.num_days_from_ce(), MAX_DAY);
    assert_eq!(day(1970, 1, 1), Some(EPOCH_DAY as i32));
    assert_eq!(day(9999, 12, 31), Some(LAST_FOUR_DIGIT_DAY));
}

#[test]
fn the_week_starts_on_monday() {
    let start = NaiveDate::from_ymd_opt(2025, 12, 1).unwrap();
    for k in 0..40 {
        let date = start + chrono::Duration::days(k);
        assert_eq!(
            weekday(date.num_days_from_ce()),
            date.weekday().num_days_from_monday() as i32
        );
    }
    assert_eq!(weekday(0), NaiveDate::from_num_days_from_ce_opt(0).unwrap().weekday().num_days_from_monday() as i32);
    assert_eq!(weekday(-5), NaiveDate::from_num_days_from_ce_opt(-5).unwrap().weekday().num_days_from_monday() as i32);
}
