use chrono::{Datelike, NaiveDate, TimeZone, Utc};
use tokemon::cache::{
    all_entries_query, entry_columns, entry_from_row, files_to_preserve, filtered_entries_query,
    prune_before_query, rediscovery_due,
};
use tokemon::date::{Date, Timestamp, MAX_DAYS};
use tokemon::opencode::{message_entry, message_record, timestamp_from_numeric, OpenCodeSource};
use tokemon::text::join_with;

fn day(y: i32, m: u32, d: u32) -> Date {
    Date::from_days(NaiveDate::from_ymd_opt(y, m, d).unwrap().num_days_from_ce()).unwrap()
}

const COLUMNS: &str = "provider, timestamp, model, input_tokens, output_tokens, \
    cache_read_tokens, cache_creation_tokens, thinking_tokens, \
    cost_usd, message_id, request_id, session_id";

#[test]
fn column_list() {
    assert_eq!(entry_columns(), COLUMNS);
}

#[test]
fn unfiltered_queries() {
    let q = all_entries_query();
    assert_eq!(q.sql, format!("SELECT {} FROM usage_entries ORDER BY timestamp", COLUMNS));
    assert!(q.params.is_empty());
    let f = filtered_entries_query(None, None, &vec![]);
    assert_eq!(f.sql, q.sql);
    assert!(f.params.is_empty());
}

#[test]
fn filtered_query_with_everything() {
    let providers = vec!["gemini-cli".to_string(), "codex".to_string()];
    let q = filtered_entries_query(Some(day(2026, 1, 1)), Some(day(2026, 2, 28)), &providers);
    assert_eq!(
        q.sql,
        format!(
            "SELECT {} FROM usage_entries WHERE timestamp >= ? AND timestamp < ? \
             AND provider IN (?,?) ORDER BY timestamp",
            COLUMNS
        )
    );
    assert_eq!(q.params, vec!["2026-01-01", "2026-03-01", "gemini-cli", "codex"]);
    assert_eq!(q.sql.matches('?').count(), q.params.len());
}

#[test]
fn filtered_query_parts() {
    let q = filtered_entries_query(None, Some(day(2025, 12, 31)), &vec![]);
    assert_eq!(
        q.sql,
        format!("SELECT {} FROM usage_entries WHERE timestamp < ? ORDER BY timestamp", COLUMNS)
    );
    assert_eq!(q.params, vec!["2026-01-01"]);
    let last = Date::from_days(MAX_DAYS).unwrap();
    let q = filtered_entries_query(None, Some(last), &vec!["amp".to_string()]);
    assert_eq!(
        q.sql,
        format!("SELECT {} FROM usage_entries WHERE provider IN (?) ORDER BY timestamp", COLUMNS)
    );
    assert_eq!(q.params, vec!["amp"]);
}

#[test]
fn prune_statement() {
    let q = prune_before_query(day(2026, 1, 1));
    assert_eq!(q.sql, "DELETE FROM usage_entries WHERE preserved = 1 AND timestamp < ?1");
    assert_eq!(q.params, vec!["2026-01-01"]);
}

#[test]
fn rediscovery_decision() {
    assert!(rediscovery_due(None, 0, 100));
    assert!(!rediscovery_due(Some("1000"), 1050, 100));
    assert!(!rediscovery_due(Some("1000"), 1100, 100));
    assert!(rediscovery_due(Some("1000"), 1101, 100));
    assert!(!rediscovery_due(Some("5000"), 1000, 100));
    assert!(rediscovery_due(Some("garbage"), 101, 100));
    assert!(!rediscovery_due(Some("garbage"), 100, 100));
    assert!(!rediscovery_due(Some("+1000"), 1050, 100));
    assert!(rediscovery_due(Some("-1000"), 1050, 100));
}

#[test]
fn preserve_files_missing_from_disk() {
    let discovered = vec!["/data/file_a.jsonl".to_string()];
    let cached = vec!["/data/file_a.jsonl".to_string(), "/data/file_b.jsonl".to_string()];
    assert_eq!(files_to_preserve(&discovered, &cached), vec!["/data/file_b.jsonl"]);
}

#[test]
fn preserve_nothing_when_nothing_discovered() {
    let cached = vec!["/data/file.jsonl".to_string()];
    assert!(files_to_preserve(&vec![], &cached).is_empty());
    assert!(files_to_preserve(&vec!["/x".to_string()], &vec![]).is_empty());
}

#[test]
fn cached_row_to_record() {
    let r = entry_from_row(
        "gemini-cli".to_string(),
        "2026-02-20T10:00:00+00:00",
        Some("test-model".to_string()),
        100,
        50,
        0,
        0,
        -1,
        None,
        None,
        Some("sess-1".to_string()),
    )
    .unwrap();
    let secs = Utc.with_ymd_and_hms(2026, 2, 20, 10, 0, 0).unwrap().timestamp();
    assert_eq!(r.timestamp, Timestamp::from_parts(secs, 0).unwrap());
    assert_eq!(r.provider, "gemini-cli");
    assert_eq!(r.session_id.as_deref(), Some("sess-1"));
    assert_eq!(r.input_tokens, 100);
    assert_eq!(r.thinking_tokens, u64::MAX);
    let undated =
        entry_from_row("x".into(), "bad", None, 0, 0, 0, 0, 0, None, None, None).unwrap();
    assert!(undated.timestamp.secs > secs);
}

fn strings(v: &[&str]) -> Vec<String> {
    v.iter().map(|s| s.to_string()).collect()
}

#[test]
fn opencode_paths() {
    let s = OpenCodeSource::new("/home/u");
    assert_eq!(s.name(), "opencode");
    assert_eq!(s.display_name(), "OpenCode");
    assert_eq!(s.data_dir(), "/home/u/.local/share/opencode/storage/message");
    let found = strings(&[
        "/home/u/.local/share/opencode/storage/message/ses_1/msg_1.json",
        "/home/u/.local/share/opencode/storage/message/ses_1/notes.txt",
        "/home/u/.local/share/opencode/storage/messages/ses_1/msg_2.json",
        "/home/u/.local/share/opencode/storage/message/msg_3.json",
        "/home/u/.local/share/opencode/storage/message/ses_2/.json",
        "/home/u/.opencode/opencode.db",
    ]);
    assert_eq!(
        s.discover_files(&found),
        strings(&[
            "/home/u/.local/share/opencode/storage/message/ses_1/msg_1.json",
            "/home/u/.local/share/opencode/storage/message/msg_3.json",
        ])
    );
    assert!(s.discover_files(&[]).is_empty());
    let slash = OpenCodeSource::new("/home/u/");
    assert_eq!(slash.data_dir(), "/home/u/.local/share/opencode/storage/message");
    let empty = OpenCodeSource::new("");
    assert_eq!(empty.data_dir(), ".local/share/opencode/storage/message");
    let root = OpenCodeSource::new("/");
    assert_eq!(root.data_dir(), "/.local/share/opencode/storage/message");
}

#[test]
fn opencode_numeric_times() {
    let secs = timestamp_from_numeric(1_700_000_000).unwrap();
    assert_eq!((secs.secs, secs.nanos), (1_700_000_000, 0));
    let millis = timestamp_from_numeric(1_700_000_000_250).unwrap();
    assert_eq!((millis.secs, millis.nanos), (1_700_000_000, 250_000_000));
    let before = timestamp_from_numeric(-100_000_000_001).unwrap();
    assert_eq!((before.secs, before.nanos), (-100_000_001, 999_000_000));
    assert_eq!(timestamp_from_numeric(99_999_999_999).unwrap().secs, 99_999_999_999);
    assert!(timestamp_from_numeric(i64::MIN).is_none());
    assert!(timestamp_from_numeric(i64::MAX).is_none());
    assert!(timestamp_from_numeric(8_000_000_000_000_000).is_some());
}

#[test]
fn opencode_message_record() {
    let r = message_record(
        "assistant",
        Some("msg_1".to_string()),
        Some("ses_1".to_string()),
        Some("gpt-5".to_string()),
        1_700_000_000_000,
        1200,
        30,
        7,
        500,
        40,
    )
    .unwrap();
    assert_eq!(r.provider, "opencode");
    assert_eq!(r.input_tokens, 1200);
    assert_eq!(r.output_tokens, 30);
    assert_eq!(r.thinking_tokens, 7);
    assert_eq!(r.cache_read_tokens, 500);
    assert_eq!(r.cache_creation_tokens, 40);
    assert_eq!(r.message_id.as_deref(), Some("msg_1"));
    assert_eq!(r.session_id.as_deref(), Some("ses_1"));
    assert_eq!(r.request_id, None);
    assert_eq!(r.model.as_deref(), Some("gpt-5"));
    assert_eq!(r.timestamp, Timestamp::from_parts(1_700_000_000, 0).unwrap());
    assert!(message_record("user", None, None, None, 1_700_000_000_000, 5, 5, 0, 0, 0).is_none());
    assert!(message_record("assistant", None, None, None, 1_700_000_000_000, 0, 0, 0, 0, 0)
        .is_none());
    assert!(message_record("assistant", None, None, None, 1_700_000_000_000, 0, 0, 0, 3, 0)
        .is_some());
    assert!(message_record("assistant", None, None, None, i64::MAX, 1, 0, 0, 0, 0).is_none());
}

#[test]
fn opencode_message_json() {
    let text = r#"{"id":"msg_1","role":"assistant","sessionID":"ses_1","modelID":"gpt-5",
        "providerID":"openai","cost":0.25,"time":{"created":1700000000250,"completed":1700000001000},
        "tokens":{"input":1200,"output":30,"reasoning":7,"cache":{"read":500,"write":40}}}"#;
    let r = message_entry(text).unwrap();
    assert_eq!(r.provider, "opencode");
    assert_eq!(r.model.as_deref(), Some("gpt-5"));
    assert_eq!(r.message_id.as_deref(), Some("msg_1"));
    assert_eq!(r.session_id.as_deref(), Some("ses_1"));
    assert_eq!(r.request_id, None);
    assert_eq!((r.input_tokens, r.output_tokens, r.thinking_tokens), (1200, 30, 7));
    assert_eq!((r.cache_read_tokens, r.cache_creation_tokens), (500, 40));
    assert_eq!(r.timestamp, Timestamp::from_parts(1_700_000_000, 250_000_000).unwrap());
    let partial = r#"{"role":"assistant","time":{"created":1700000000},"tokens":{"output":3}}"#;
    let p = message_entry(partial).unwrap();
    assert_eq!((p.input_tokens, p.output_tokens, p.cache_read_tokens), (0, 3, 0));
    assert_eq!(p.model, None);
    assert_eq!(p.timestamp.secs, 1_700_000_000);
    let user = r#"{"role":"user","time":{"created":1700000000},"tokens":{"input":5}}"#;
    assert!(message_entry(user).is_none());
    let no_time = r#"{"role":"assistant","tokens":{"input":5}}"#;
    assert!(message_entry(no_time).is_none());
    let no_tokens = r#"{"role":"assistant","time":{"created":1700000000},"tokens":{"input":0}}"#;
    assert!(message_entry(no_tokens).is_none());
    assert!(message_entry("not json").is_none());
}

#[test]
fn joining_texts() {
    let parts = vec!["a".to_string(), "bc".to_string(), "".to_string()];
    assert_eq!(join_with(&parts, ", "), "a, bc, ");
    assert_eq!(join_with(&vec![], ","), "");
    assert_eq!(join_with(&vec!["x".to_string()], ","), "x");
}
