use chrono::{Datelike, NaiveDate, TimeZone, Utc};
use tokemon::date::{Date, Timestamp};
use tokemon::detail::group_by_model;
use tokemon::record::Record;

fn day(y: i32, m: u32, d: u32) -> Date {
    Date::from_days(NaiveDate::from_ymd_opt(y, m, d).unwrap().num_days_from_ce()).unwrap()
}

fn rec(d: u32, model: Option<&str>, provider: &str, input: u64, output: u64, cache: u64) -> Record {
    let secs = Utc.with_ymd_and_hms(2026, 2, d, 12, 0, 0).unwrap().timestamp();
    Record {
        timestamp: Timestamp::from_parts(secs, 0).unwrap(),
        provider: provider.to_string(),
        model: model.map(String::from),
        input_tokens: input,
        output_tokens: output,
        cache_read_tokens: cache,
        cache_creation_tokens: 0,
        thinking_tokens: 1,
        message_id: None,
        request_id: None,
        session_id: None,
    }
}

#[test]
fn groups_by_model_and_provider() {
    let rs = vec![
        rec(20, Some("gpt-5"), "codex", 10, 1, 0),
        rec(20, Some("gemini-2.5-pro"), "gemini-cli", 100, 10, 5),
        rec(21, Some("gpt-5"), "codex", 20, 2, 0),
        rec(19, Some("gpt-5"), "codex", 1000, 0, 0),
        rec(21, Some("gpt-5"), "amp", 7, 0, 0),
        rec(21, None, "amp", 3, 0, 0),
    ];
    let rows = group_by_model(&rs, day(2026, 2, 20), None);
    assert_eq!(rows.len(), 4);
    assert_eq!(rows[0].model.as_deref(), Some("gpt-5"));
    assert_eq!(rows[0].provider, "codex");
    assert_eq!(rows[0].input_tokens, 30);
    assert_eq!(rows[0].output_tokens, 3);
    assert_eq!(rows[0].total_tokens, 35);
    assert_eq!(rows[0].request_count, 2);
    assert_eq!(rows[0].members, vec![0, 2]);
    assert_eq!(rows[1].total_tokens, 116);
    assert_eq!(rows[1].members, vec![1]);
    assert_eq!(rows[2].provider, "amp");
    assert_eq!(rows[2].members, vec![4]);
    assert_eq!(rows[3].model, None);
    assert_eq!(rows[3].total_tokens, 4);
    let all: u64 = rows.iter().map(|r| r.total_tokens).sum();
    assert_eq!(all, 35 + 116 + 8 + 4);
}

#[test]
fn groups_within_a_bounded_range() {
    let rs = vec![
        rec(20, Some("gpt-5"), "codex", 10, 1, 0),
        rec(21, Some("gpt-5"), "codex", 20, 2, 0),
    ];
    let rows = group_by_model(&rs, day(2026, 2, 20), Some(day(2026, 2, 21)));
    assert_eq!(rows.len(), 1);
    assert_eq!(rows[0].members, vec![0]);
    assert_eq!(rows[0].total_tokens, 12);
    assert!(group_by_model(&rs, day(2026, 3, 1), None).is_empty());
    assert!(group_by_model(&[], day(2026, 3, 1), None).is_empty());
}
