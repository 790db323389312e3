use chrono::{Datelike, NaiveDate, TimeZone, Utc};
use tokemon::app::{from_terminal, App, Event, Key, Response, TerminalEvent, Work};
use tokemon::columns::{choose_columns, CellStyle, CellText, ColumnSet, ColumnWidth};
use tokemon::date::{Date, Timestamp};
use tokemon::record::Record;
use tokemon::scope::{frame_millis, initial_scope, records_window_start, tick_secs, Scope};
use tokemon::theme::{tokens_style, Style};

fn day(y: i32, m: u32, d: u32) -> Date {
    Date::from_days(NaiveDate::from_ymd_opt(y, m, d).unwrap().num_days_from_ce()).unwrap()
}

fn record_at(y: i32, m: u32, d: u32, h: u32, input: u64) -> Record {
    let secs = Utc.with_ymd_and_hms(y, m, d, h, 0, 0).unwrap().timestamp();
    Record {
        timestamp: Timestamp::from_parts(secs, 0).unwrap(),
        provider: "codex".to_string(),
        model: None,
        input_tokens: input,
        output_tokens: 0,
        cache_read_tokens: 0,
        cache_creation_tokens: 0,
        thinking_tokens: 0,
        message_id: None,
        request_id: None,
        session_id: None,
    }
}

const REDRAW: Response = Response { redraw: true, work: Work::Nothing };
const IGNORED: Response = Response { redraw: false, work: Work::Nothing };
const RECOMPUTE: Response = Response { redraw: true, work: Work::RecomputeDetail };

#[test]
fn scope_labels() {
    assert_eq!(Scope::Today.label(), "Today");
    assert_eq!(Scope::Week.label(), "This Week");
    assert_eq!(Scope::Month.label(), "This Month");
}

#[test]
fn scope_starts() {
    let today = day(2026, 2, 20);
    assert_eq!(Scope::Today.since_on(today), today);
    assert_eq!(Scope::Week.since_on(today), day(2026, 2, 16));
    assert_eq!(Scope::Month.since_on(today), day(2026, 2, 1));
    let monday = day(2026, 2, 16);
    assert_eq!(Scope::Week.since_on(monday), monday);
    assert_eq!(Scope::Month.since_on(day(2026, 3, 31)), day(2026, 3, 1));
    assert!(Scope::Today.since().is_some());
    assert!(Scope::Week.since().is_some());
    assert_eq!(records_window_start(today), Some(day(2026, 1, 2)));
}

#[test]
fn startup_choices() {
    assert_eq!(initial_scope("week"), Scope::Week);
    assert_eq!(initial_scope("w"), Scope::Week);
    assert_eq!(initial_scope("month"), Scope::Month);
    assert_eq!(initial_scope("m"), Scope::Month);
    assert_eq!(initial_scope("today"), Scope::Today);
    assert_eq!(initial_scope("Week"), Scope::Today);
    assert_eq!(initial_scope(""), Scope::Today);
    assert_eq!(tick_secs(0), 2);
    assert_eq!(tick_secs(5), 5);
    assert_eq!(frame_millis(), 33);
}

#[test]
fn new_app_state() {
    let app = App::new(Scope::Week);
    assert_eq!(app.scope, Scope::Week);
    assert!(app.breakdown);
    assert!(!app.show_history);
    assert_eq!(app.scroll_offset, 0);
    assert!(!app.should_quit);
    assert!(!app.show_help);
    assert_eq!(app.cards[0].label, "Today");
    assert_eq!(app.cards[1].label, "This Week");
    assert_eq!(app.cards[2].label, "This Month");
    assert!(app.cards.iter().all(|c| c.tokens == 0 && c.sparkline.is_empty()));
    assert!(app.cached_records.is_empty());
}

#[test]
fn keys_change_the_view() {
    let mut app = App::new(Scope::Today);
    assert_eq!(app.handle_key(Key::Char('j')), REDRAW);
    assert_eq!(app.handle_key(Key::Down), REDRAW);
    assert_eq!(app.scroll_offset, 2);
    assert_eq!(app.handle_key(Key::Char('w')), RECOMPUTE);
    assert_eq!(app.scope, Scope::Week);
    assert_eq!(app.scroll_offset, 0);
    assert_eq!(app.handle_key(Key::Char('m')), RECOMPUTE);
    assert_eq!(app.scope, Scope::Month);
    assert_eq!(app.handle_key(Key::Char('t')), RECOMPUTE);
    assert_eq!(app.scope, Scope::Today);
    assert_eq!(app.handle_key(Key::Char('b')), REDRAW);
    assert!(!app.breakdown);
    assert_eq!(app.handle_key(Key::Char('b')), REDRAW);
    assert!(app.breakdown);
    assert_eq!(app.handle_key(Key::Char('h')), RECOMPUTE);
    assert!(app.show_history);
    assert_eq!(app.handle_key(Key::Up), REDRAW);
    assert_eq!(app.scroll_offset, 0);
    assert_eq!(app.handle_key(Key::Char('x')), IGNORED);
    assert_eq!(app.handle_key(Key::Other), IGNORED);
}

#[test]
fn help_overlay_swallows_one_key() {
    let mut app = App::new(Scope::Today);
    assert_eq!(app.handle_key(Key::Char('?')), REDRAW);
    assert!(app.show_help);
    assert_eq!(app.handle_key(Key::Char('q')), REDRAW);
    assert!(!app.show_help);
    assert!(!app.should_quit);
    assert_eq!(app.handle_key(Key::Esc), IGNORED);
    assert!(app.should_quit);
}

#[test]
fn scroll_saturates() {
    let mut app = App::new(Scope::Today);
    app.scroll_offset = u16::MAX;
    app.handle_key(Key::Char('j'));
    assert_eq!(app.scroll_offset, u16::MAX);
    app.handle_key(Key::Char('k'));
    assert_eq!(app.scroll_offset, u16::MAX - 1);
}

#[test]
fn events_ask_for_work() {
    let mut app = App::new(Scope::Today);
    let refresh = Response { redraw: true, work: Work::RefreshData };
    assert_eq!(app.handle_event(Event::Tick), refresh);
    assert_eq!(app.handle_event(Event::DataChanged), refresh);
    assert_eq!(app.handle_event(Event::Render), REDRAW);
    assert_eq!(app.handle_event(Event::Resize(80, 24)), REDRAW);
    assert_eq!(app.handle_event(Event::Key(Key::Char('q'))), IGNORED);
    assert!(app.should_quit);
}

#[test]
fn terminal_events() {
    let k = TerminalEvent::Key { key: Key::Char('q'), pressed: true };
    assert_eq!(from_terminal(k), Some(Event::Key(Key::Char('q'))));
    let released = TerminalEvent::Key { key: Key::Char('q'), pressed: false };
    assert_eq!(from_terminal(released), None);
    assert_eq!(from_terminal(TerminalEvent::Resize(10, 20)), Some(Event::Resize(10, 20)));
    assert_eq!(from_terminal(TerminalEvent::Other), None);
}

#[test]
fn cards_from_records() {
    let mut app = App::new(Scope::Today);
    app.cached_records = vec![
        record_at(2026, 2, 20, 9, 100),
        record_at(2026, 2, 20, 9, 20),
        record_at(2026, 2, 17, 3, 10),
        record_at(2026, 2, 2, 3, 1),
        record_at(2026, 1, 30, 3, 1000),
    ];
    app.recompute_cards_on(day(2026, 2, 20));
    assert_eq!(app.cards[0].tokens, 120);
    assert_eq!(app.cards[1].tokens, 130);
    assert_eq!(app.cards[2].tokens, 131);
    assert_eq!(app.cards[0].sparkline[9], 120);
    assert_eq!(app.cards[0].sparkline.iter().sum::<u64>(), 120);
    assert_eq!(app.cards[1].sparkline, vec![0, 0, 0, 10, 0, 0, 120]);
    assert_eq!(app.cards[2].sparkline.len(), 30);
    assert_eq!(app.cards[2].sparkline.iter().sum::<u64>(), 1131);
    assert_eq!(app.cards[1].label, "This Week");
}

#[test]
fn refresh_takes_records() {
    let mut app = App::new(Scope::Month);
    let done = app.refresh_data(vec![record_at(2026, 2, 20, 9, 100)]);
    assert!(done);
    assert_eq!(app.cached_records.len(), 1);
    assert_eq!(app.cards[0].sparkline.len(), 24);
    assert_eq!(app.scope, Scope::Month);
}

#[test]
fn columns_by_width() {
    let all = ColumnSet { show_api: true, show_client: true, show_input: true, show_output: true };
    assert_eq!(choose_columns(120), all);
    assert_eq!(choose_columns(80), all);
    let no_client = ColumnSet { show_client: false, ..all };
    assert_eq!(choose_columns(79), no_client);
    assert_eq!(choose_columns(65), no_client);
    let no_api = ColumnSet { show_api: false, ..no_client };
    assert_eq!(choose_columns(64), no_api);
    assert_eq!(choose_columns(50), no_api);
    let narrow = ColumnSet { show_input: false, show_output: false, ..no_api };
    assert_eq!(choose_columns(49), narrow);
    assert_eq!(choose_columns(0), narrow);
}

#[test]
fn headers_and_widths() {
    let all = choose_columns(100);
    assert_eq!(
        all.headers(),
        vec!["Model", "API", "Client", "Input", "Output", "Total", "Cost"]
    );
    assert_eq!(
        all.widths(),
        vec![
            ColumnWidth::Min(12),
            ColumnWidth::Length(12),
            ColumnWidth::Length(14),
            ColumnWidth::Length(8),
            ColumnWidth::Length(8),
            ColumnWidth::Length(8),
            ColumnWidth::Length(10),
        ]
    );
    let narrow = choose_columns(30);
    assert_eq!(narrow.headers(), vec!["Model", "Total", "Cost"]);
    assert_eq!(
        narrow.widths(),
        vec![ColumnWidth::Min(12), ColumnWidth::Length(8), ColumnWidth::Length(10)]
    );
    let mid = choose_columns(70);
    assert_eq!(mid.headers(), vec!["Model", "API", "Input", "Output", "Total", "Cost"]);
}

#[test]
fn data_row_cells() {
    let cs = choose_columns(70);
    let row = cs.build_row("gpt-5", "openai", "gemini-cli", 0, 5, 5, Style::TextBold, true);
    assert_eq!(row.len(), cs.headers().len());
    assert!(matches!(&row[0].text, CellText::Label(s) if s == "gpt-5"));
    assert!(matches!(&row[1].text, CellText::Label(s) if s == "openai"));
    assert!(matches!(row[2].text, CellText::Tokens(0)));
    assert_eq!(row[2].style, CellStyle::Fixed(Style::TextDim));
    assert!(matches!(row[3].text, CellText::Tokens(5)));
    assert_eq!(row[3].style, CellStyle::Fixed(Style::Text));
    assert!(matches!(row[5].text, CellText::Cost));
    assert_eq!(row[5].style, CellStyle::ByCost);
    let plain = cs.build_row("2026-02-20", "", "", 1, 2, 3, Style::TextDim, false);
    assert!(plain.iter().all(|c| c.style == CellStyle::Fixed(Style::TextDim)));
    assert!(matches!(row[4].text, CellText::Tokens(5)));
}

#[test]
fn total_row_cells() {
    let cs = choose_columns(100);
    let row = cs.build_total_row(1234);
    assert_eq!(row.len(), 7);
    assert!(matches!(&row[0].text, CellText::Label(s) if s == "TOTAL"));
    for c in &row[1..5] {
        assert!(matches!(&c.text, CellText::Label(s) if s.is_empty()));
    }
    assert!(matches!(row[5].text, CellText::Tokens(1234)));
    assert!(matches!(row[6].text, CellText::Cost));
    assert!(row.iter().all(|c| c.style == CellStyle::Fixed(Style::TotalRow)));
    assert_eq!(choose_columns(10).build_total_row(0).len(), 3);
}

#[test]
fn token_style() {
    assert_eq!(tokens_style(0), Style::TextDim);
    assert_eq!(tokens_style(1), Style::Text);
}
