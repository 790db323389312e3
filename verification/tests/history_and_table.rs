use chrono::{Datelike, NaiveDate, TimeZone, Utc};
use tokemon::app::{records_fit, App, Event, Key, UiState};
use tokemon::cache::{decimal_text, parse_u64, rediscovery_due};
use tokemon::date::{Date, Timestamp, EPOCH_DAYS};
use tokemon::history::{history, period_starts};
use tokemon::record::{time_order, Record};
use tokemon::scope::Scope;
use tokemon::table::{is_current_period, plan_rows, table_fits, PlannedRow};

fn day(y: i32, m: u32, d: u32) -> Date {
    Date::from_days(NaiveDate::from_ymd_opt(y, m, d).unwrap().num_days_from_ce()).unwrap()
}

fn rec(y: i32, m: u32, d: u32, model: &str, input: u64) -> Record {
    let secs = Utc.with_ymd_and_hms(y, m, d, 12, 0, 0).unwrap().timestamp();
    Record {
        timestamp: Timestamp::from_parts(secs, 0).unwrap(),
        provider: "codex".to_string(),
        model: Some(model.to_string()),
        input_tokens: input,
        output_tokens: 1,
        cache_read_tokens: 2,
        cache_creation_tokens: 3,
        thinking_tokens: 4,
        message_id: None,
        request_id: None,
        session_id: None,
    }
}

fn ui(show_history: bool, breakdown: bool) -> UiState {
    UiState {
        scope: Scope::Week,
        breakdown,
        show_history,
        scroll_offset: 0,
        should_quit: false,
        show_help: false,
    }
}

#[test]
fn daily_and_weekly_period_starts() {
    let rs = vec![
        rec(2026, 2, 20, "a", 1),
        rec(2026, 2, 18, "a", 1),
        rec(2026, 2, 20, "b", 1),
        rec(2026, 2, 9, "a", 1),
        rec(2026, 1, 30, "a", 1),
    ];
    let daily = period_starts(&rs, day(2026, 2, 1), false);
    assert_eq!(daily, vec![day(2026, 2, 9), day(2026, 2, 18), day(2026, 2, 20)]);
    // 2026-02-16 and 2026-02-09 are Mondays; 2026-01-26 is the Monday of January 30.
    let weekly = period_starts(&rs, day(2026, 1, 1), true);
    assert_eq!(weekly, vec![day(2026, 1, 26), day(2026, 2, 9), day(2026, 2, 16)]);
    assert!(period_starts(&rs, day(2026, 3, 1), false).is_empty());
}

#[test]
fn history_groups_each_period_by_model() {
    let rs = vec![
        rec(2026, 2, 20, "a", 10),
        rec(2026, 2, 18, "a", 20),
        rec(2026, 2, 20, "b", 30),
        rec(2026, 2, 20, "a", 40),
    ];
    let days = history(&rs, Scope::Week, day(2026, 2, 16));
    assert_eq!(days.len(), 2);
    assert_eq!(days[0].start, day(2026, 2, 18));
    assert_eq!(days[0].rows.len(), 1);
    assert_eq!(days[0].rows[0].input_tokens, 20);
    assert_eq!(days[1].start, day(2026, 2, 20));
    assert_eq!(days[1].rows.len(), 2);
    assert_eq!(days[1].rows[0].model.as_deref(), Some("a"));
    assert_eq!(days[1].rows[0].input_tokens, 50);
    assert_eq!(days[1].rows[0].cache_read_tokens, 4);
    assert_eq!(days[1].rows[0].cache_creation_tokens, 6);
    assert_eq!(days[1].rows[0].thinking_tokens, 8);
    assert_eq!(days[1].rows[0].members, vec![0, 3]);
    assert_eq!(days[1].rows[1].members, vec![2]);
    let weeks = history(&rs, Scope::Month, day(2026, 2, 1));
    assert_eq!(weeks.len(), 1);
    assert_eq!(weeks[0].start, day(2026, 2, 16));
    assert_eq!(weeks[0].rows[0].input_tokens, 70);
    assert_eq!(weeks[0].rows[0].request_count, 3);
    assert_eq!(weeks[0].input_tokens, 100);
    assert_eq!(weeks[0].output_tokens, 4);
    assert_eq!(weeks[0].total_tokens, 100 + 4 * 10);
    assert_eq!(days[1].input_tokens, 80);
}

#[test]
fn records_in_time_order() {
    let mut early = rec(2026, 2, 18, "a", 1);
    early.timestamp.nanos = 5;
    let rs = vec![
        rec(2026, 2, 20, "a", 1),
        early,
        rec(2026, 2, 18, "b", 1),
        rec(2026, 2, 20, "c", 1),
        rec(2026, 1, 1, "d", 1),
    ];
    assert_eq!(time_order(&rs), vec![4, 2, 1, 0, 3]);
    assert!(time_order(&[]).is_empty());
}

#[test]
fn dedup_keys() {
    let mut r = rec(2026, 2, 20, "a", 1);
    assert_eq!(r.dedup_key(), None);
    r.request_id = Some("req".to_string());
    assert_eq!(r.dedup_key().as_deref(), Some("req"));
    r.message_id = Some("msg".to_string());
    assert_eq!(r.dedup_key().as_deref(), Some("msg:req"));
    r.request_id = None;
    assert_eq!(r.dedup_key().as_deref(), Some("msg"));
}

#[test]
fn table_size_guard() {
    assert!(table_fits(3, 20));
    assert!(!table_fits(2, 80));
    assert!(!table_fits(30, 19));
}

#[test]
fn current_history_periods() {
    let today = day(2026, 2, 20);
    let week = Some(day(2026, 2, 16));
    let month = Some(day(2026, 2, 1));
    assert!(is_current_period(today, today, Scope::Today, week, month));
    assert!(!is_current_period(day(2026, 2, 17), today, Scope::Today, week, month));
    assert!(is_current_period(day(2026, 2, 17), today, Scope::Week, week, month));
    assert!(!is_current_period(day(2026, 2, 9), today, Scope::Week, week, month));
    assert!(is_current_period(day(2026, 2, 9), today, Scope::Month, week, month));
    assert!(!is_current_period(day(2026, 2, 9), today, Scope::Month, week, None));
}

#[test]
fn planned_rows_by_display_mode() {
    let current = vec![false, true];
    let models = vec![2, 1];
    let rows = plan_rows(ui(true, true), &current, &models, 5);
    assert_eq!(
        rows,
        vec![
            PlannedRow::Period { period: 0, current: false },
            PlannedRow::PeriodModel { period: 0, model: 0, current: false },
            PlannedRow::PeriodModel { period: 0, model: 1, current: false },
            PlannedRow::Period { period: 1, current: true },
            PlannedRow::PeriodModel { period: 1, model: 0, current: true },
            PlannedRow::Total,
        ]
    );
    let compact = plan_rows(ui(true, false), &current, &models, 5);
    assert_eq!(
        compact,
        vec![
            PlannedRow::Period { period: 0, current: false },
            PlannedRow::Period { period: 1, current: true },
            PlannedRow::Total,
        ]
    );
    let flat = plan_rows(ui(false, true), &current, &models, 2);
    assert_eq!(flat, vec![PlannedRow::Model { model: 0 }, PlannedRow::Model { model: 1 }, PlannedRow::Total]);
    let no_periods = plan_rows(ui(true, true), &[], &[], 1);
    assert_eq!(no_periods, vec![PlannedRow::Model { model: 0 }, PlannedRow::Total]);
}

#[test]
fn records_fit_checks_sums_and_times() {
    let mut rs = vec![rec(2026, 2, 20, "a", 10)];
    assert!(records_fit(&rs));
    assert!(records_fit(&[]));
    rs.push(rec(2026, 2, 21, "a", u64::MAX - 20));
    assert!(!records_fit(&rs));
    let mut bad = rec(2026, 2, 20, "a", 1);
    bad.timestamp.nanos = 2_000_000_000;
    assert!(!records_fit(&[bad]));
}

#[test]
fn decimal_text_round_trip() {
    assert_eq!(decimal_text(0), "0");
    assert_eq!(decimal_text(1_771_584_000), "1771584000");
    assert_eq!(decimal_text(u64::MAX), u64::MAX.to_string());
    assert_eq!(parse_u64(&decimal_text(1_771_584_000)), Some(1_771_584_000));
    assert_eq!(parse_u64("+42"), Some(42));
    assert_eq!(parse_u64(""), None);
    assert_eq!(parse_u64("+"), None);
    assert_eq!(parse_u64("4a"), None);
    assert_eq!(parse_u64("18446744073709551616"), None);
    assert_eq!(parse_u64("18446744073709551615"), Some(u64::MAX));
    let t = 1_771_584_000;
    let stored = decimal_text(t);
    assert!(!rediscovery_due(Some(&stored), t, 0));
    assert!(!rediscovery_due(Some(&stored), t + 100, 100));
    assert!(rediscovery_due(Some(&stored), t + 101, 100));
}

#[test]
fn events_keep_card_shape() {
    let mut app = App::new(Scope::Today);
    assert!(app.refresh_data(vec![rec(2026, 2, 20, "a", 1)]));
    for e in [Event::Tick, Event::Key(Key::Char('w')), Event::Render, Event::Key(Key::Char('h'))] {
        app.handle_event(e);
        assert_eq!(
            [app.cards[0].label, app.cards[1].label, app.cards[2].label],
            ["Today", "This Week", "This Month"]
        );
        assert_eq!(
            [app.cards[0].sparkline.len(), app.cards[1].sparkline.len(), app.cards[2].sparkline.len()],
            [24, 7, 30]
        );
    }
    assert_eq!(app.ui_state().scope, Scope::Week);
    assert!(i64::from(Scope::Month.since().unwrap().days) >= EPOCH_DAYS);
}

#[test]
fn week_starts_on_monday() {
    let week = Scope::Week.since_on(day(2026, 3, 1));
    assert_eq!(week, day(2026, 2, 23));
    assert_eq!(Scope::Month.since_on(day(2026, 3, 1)), day(2026, 3, 1));
    let since = Scope::Week.since().unwrap();
    let d = NaiveDate::from_num_days_from_ce_opt(since.days).unwrap();
    assert_eq!(d.weekday(), chrono::Weekday::Mon);
}
