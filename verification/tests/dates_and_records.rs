use chrono::{Datelike, NaiveDate, TimeZone, Utc};
use tokemon::cards::{
    build_daily_sparkline, build_hourly_sparkline, daily_sparkline_on, hourly_sparkline_on,
    tokens_on_day, tokens_since,
};
use tokemon::cache::entry_from_row;
use tokemon::date::{Date, Timestamp, MAX_DAYS, MIN_DAYS};
use tokemon::scope::{records_window_start, Scope};
use tokemon::record::{sum_tokens, Record};

fn day(y: i32, m: u32, d: u32) -> Date {
    Date::from_days(NaiveDate::from_ymd_opt(y, m, d).unwrap().num_days_from_ce()).unwrap()
}

fn at(y: i32, m: u32, d: u32, h: u32) -> Timestamp {
    let secs = Utc.with_ymd_and_hms(y, m, d, h, 0, 0).unwrap().timestamp();
    Timestamp::from_parts(secs, 0).unwrap()
}

fn record(ts: Timestamp, input: u64, output: u64) -> Record {
    Record {
        timestamp: ts,
        provider: "gemini-cli".to_string(),
        model: Some("test-model".to_string()),
        input_tokens: input,
        output_tokens: output,
        cache_read_tokens: 0,
        cache_creation_tokens: 0,
        thinking_tokens: 0,
        message_id: None,
        request_id: None,
        session_id: None,
    }
}

#[test]
fn date_bounds_match_chrono() {
    assert_eq!(NaiveDate::MIN.num_days_from_ce(), MIN_DAYS);
    assert_eq!(NaiveDate::MAX.num_days_from_ce(), MAX_DAYS);
    assert!(Date::from_days(MIN_DAYS - 1).is_none());
    assert!(Date::from_days(MAX_DAYS + 1).is_none());
    assert!(Date::from_days(0).is_some());
}

#[test]
fn timestamp_parts_are_checked() {
    assert!(Timestamp::from_parts(0, 0).is_some());
    assert!(Timestamp::from_parts(0, 1_000_000_000).is_none());
    assert!(Timestamp::from_parts(59, 1_500_000_000).is_some());
    assert!(Timestamp::from_parts(i64::MAX, 0).is_none());
}

#[test]
fn timestamp_date_and_hour() {
    let t = at(2026, 2, 20, 10);
    assert_eq!(t.date(), day(2026, 2, 20));
    assert_eq!(t.hour(), 10);
    let before_epoch = Timestamp::from_parts(-1, 0).unwrap();
    assert_eq!(before_epoch.date(), day(1969, 12, 31));
    assert_eq!(before_epoch.hour(), 23);
}

#[test]
fn date_arithmetic_at_the_edges() {
    let first = Date::from_days(MIN_DAYS).unwrap();
    assert_eq!(records_window_start(first), None);
    let d = day(2026, 2, 20);
    assert_eq!(records_window_start(d), Some(day(2026, 1, 2)));
    let today = Scope::Today.since().unwrap();
    assert!(today.days > day(2020, 1, 1).days);
}

fn parsed(text: &str) -> Timestamp {
    entry_from_row("amp".into(), text, None, 0, 0, 0, 0, 0, None, None, None).unwrap().timestamp
}

#[test]
fn rfc3339_parsing() {
    let t = parsed("2026-02-20T10:00:00Z");
    assert_eq!(t, at(2026, 2, 20, 10));
    assert_eq!(parsed("2026-02-20T12:00:00+02:00"), t);
    let frac = parsed("2026-02-20T10:00:00.250Z");
    assert_eq!(frac.secs, t.secs);
    assert_eq!(frac.nanos, 250_000_000);
}

#[test]
fn record_totals() {
    let mut r = record(at(2026, 2, 20, 10), 100, 50);
    r.cache_read_tokens = 7;
    r.cache_creation_tokens = 3;
    r.thinking_tokens = 5;
    assert_eq!(r.total_tokens(), 165);
    let rs = vec![r, record(at(2026, 2, 21, 1), 1, 2)];
    assert_eq!(sum_tokens(&rs), 168);
    assert_eq!(sum_tokens(&[]), 0);
}

#[test]
fn daily_sparkline_slots() {
    let today = day(2026, 2, 20);
    let rs = vec![
        record(at(2026, 2, 20, 10), 100, 50),
        record(at(2026, 2, 19, 23), 10, 0),
        record(at(2026, 2, 14, 0), 1, 0),
        record(at(2026, 2, 13, 0), 1000, 0),
        record(at(2026, 2, 21, 0), 5000, 0),
    ];
    let s = daily_sparkline_on(&rs, 7, today);
    assert_eq!(s, vec![1, 0, 0, 0, 0, 10, 150]);
    let s30 = daily_sparkline_on(&rs, 30, today);
    assert_eq!(s30.len(), 30);
    assert_eq!(s30[29], 150);
    assert_eq!(s30[22], 1000);
    assert_eq!(s30.iter().sum::<u64>(), 1161);
    assert!(daily_sparkline_on(&rs, 0, today).is_empty());
    assert_eq!(build_daily_sparkline(&rs, 7).unwrap().len(), 7);
}

#[test]
fn hourly_sparkline_slots() {
    let today = day(2026, 2, 20);
    let rs = vec![
        record(at(2026, 2, 20, 10), 100, 50),
        record(at(2026, 2, 20, 10), 1, 1),
        record(at(2026, 2, 20, 23), 4, 0),
        record(at(2026, 2, 19, 10), 99, 0),
    ];
    let s = hourly_sparkline_on(&rs, today);
    assert_eq!(s.len(), 24);
    assert_eq!(s[10], 152);
    assert_eq!(s[23], 4);
    assert_eq!(s.iter().sum::<u64>(), tokens_on_day(&rs, today));
    assert_eq!(build_hourly_sparkline(&rs).unwrap().len(), 24);
}

#[test]
fn window_token_sums() {
    let rs = vec![
        record(at(2026, 2, 20, 10), 100, 50),
        record(at(2026, 2, 16, 0), 10, 0),
        record(at(2026, 2, 1, 0), 1, 0),
        record(at(2026, 1, 31, 23), 1000, 0),
    ];
    assert_eq!(tokens_on_day(&rs, day(2026, 2, 20)), 150);
    assert_eq!(tokens_since(&rs, day(2026, 2, 16)), 160);
    assert_eq!(tokens_since(&rs, day(2026, 2, 1)), 161);
    assert_eq!(tokens_since(&rs, day(2026, 3, 1)), 0);
}
