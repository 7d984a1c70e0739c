use pplx::history::{display_log, render, History, HistoryRow, LogReport};
use pplx::record::LogEntry;

fn entry(n: usize) -> LogEntry {
    LogEntry::new(
        &format!("2026-02-14T15:{:02}:12+01:00", n % 60),
        "search",
        "sonar",
        &format!("query number {}", n),
        100 + n,
        6_000,
        1_234,
    )
}

fn entries(count: usize) -> Vec<LogEntry> {
    let mut out = Vec::new();
    for n in 0..count {
        out.push(entry(n));
    }
    out
}

fn with_query(query: &str) -> Vec<LogEntry> {
    vec![LogEntry::new("2026-02-14T15:30:12+01:00", "ask", "sonar-pro", query, 1, 10_000, 900)]
}

fn with_cost(micros: u64) -> String {
    let e = LogEntry::new("2026-02-14T15:30:12+01:00", "ask", "sonar-pro", "q", 1, micros, 0);
    render(&vec![e], false).rows[0].cost.clone()
}

fn with_duration(ms: u64) -> String {
    let e = LogEntry::new("2026-02-14T15:30:12+01:00", "ask", "sonar-pro", "q", 1, 0, ms);
    render(&vec![e], false).rows[0].duration.clone()
}

#[test]
fn twenty_five_records_show_the_last_twenty() {
    let log = entries(25);
    let history = render(&log, false);
    assert_eq!(history.total, 25);
    assert_eq!(history.rows.len(), 20);
    assert_eq!(history.hidden(), 5);
    for k in 0..20 {
        assert_eq!(history.rows[k].query, format!("query number {}", k + 5));
    }
}

#[test]
fn twenty_five_records_show_all_on_request() {
    let log = entries(25);
    let history = render(&log, true);
    assert_eq!(history.total, 25);
    assert_eq!(history.rows.len(), 25);
    assert_eq!(history.hidden(), 0);
    for k in 0..25 {
        assert_eq!(history.rows[k].query, format!("query number {}", k));
    }
}

#[test]
fn twenty_records_are_all_shown() {
    let history = render(&entries(20), false);
    assert_eq!(history.rows.len(), 20);
    assert_eq!(history.hidden(), 0);
    assert_eq!(history.rows[0].query, "query number 0");
}

#[test]
fn twenty_one_records_hide_the_oldest() {
    let history = render(&entries(21), false);
    assert_eq!(history.rows.len(), 20);
    assert_eq!(history.hidden(), 1);
    assert_eq!(history.rows[0].query, "query number 1");
    assert_eq!(history.rows[19].query, "query number 20");
}

#[test]
fn render_of_an_empty_log_has_no_rows() {
    let history = render(&Vec::new(), false);
    assert_eq!(history, History { total: 0, rows: Vec::new() });
    assert_eq!(history.hidden(), 0);
}

#[test]
fn hidden_is_zero_when_rows_outnumber_the_total() {
    let row = HistoryRow {
        timestamp: String::new(),
        mode: String::new(),
        cost: String::new(),
        duration: String::new(),
        query: String::new(),
    };
    let history = History { total: 0, rows: vec![row] };
    assert_eq!(history.hidden(), 0);
}

#[test]
fn a_row_holds_the_rendered_fields() {
    let e = LogEntry::new(
        "2026-02-14T15:30:12+01:00",
        "research",
        "sonar-deep-research",
        "what is rust",
        4096,
        400_000,
        61_250,
    );
    let history = render(&vec![e], false);
    assert_eq!(
        history.rows[0],
        HistoryRow {
            timestamp: String::from("2026-02-14T15:30"),
            mode: String::from("research"),
            cost: String::from("$0.400"),
            duration: String::from("61.2s"),
            query: String::from("what is rust"),
        }
    );
}

#[test]
fn a_query_of_eighty_characters_is_cut_to_fifty_nine() {
    let query = "x".repeat(80);
    let shown = render(&with_query(&query), false).rows[0].query.clone();
    assert_eq!(shown.chars().count(), 60);
    assert_eq!(shown, format!("{}…", "x".repeat(59)));
}

#[test]
fn a_query_of_sixty_characters_is_shown_whole() {
    let query = "y".repeat(60);
    let shown = render(&with_query(&query), false).rows[0].query.clone();
    assert_eq!(shown, query);
}

#[test]
fn a_query_of_sixty_one_characters_is_cut() {
    let query = format!("{}ab", "z".repeat(59));
    let shown = render(&with_query(&query), false).rows[0].query.clone();
    assert_eq!(shown, format!("{}…", "z".repeat(59)));
}

#[test]
fn query_length_counts_characters() {
    let sixty = "é".repeat(60);
    assert_eq!(render(&with_query(&sixty), false).rows[0].query, sixty);
    let more = "é".repeat(61);
    assert_eq!(
        render(&with_query(&more), false).rows[0].query,
        format!("{}…", "é".repeat(59))
    );
}

#[test]
fn a_short_timestamp_is_shown_whole() {
    let e = LogEntry::new("2026-02-14", "ask", "sonar-pro", "q", 1, 0, 0);
    assert_eq!(render(&vec![e], false).rows[0].timestamp, "2026-02-14");
}

#[test]
fn an_unknown_mode_is_kept() {
    let e = LogEntry::new("2026-02-14T15:30:12+01:00", "chat", "m", "q", 1, 0, 0);
    assert_eq!(render(&vec![e], false).rows[0].mode, "chat");
}

#[test]
fn cost_has_three_decimals() {
    assert_eq!(with_cost(0), "$0.000");
    assert_eq!(with_cost(6_000), "$0.006");
    assert_eq!(with_cost(10_000), "$0.010");
    assert_eq!(with_cost(400_000), "$0.400");
    assert_eq!(with_cost(1_234_567), "$1.235");
    assert_eq!(with_cost(12_345_000_000), "$12345.000");
    assert_eq!(with_cost(u64::MAX), "$18446744073709.552");
}

#[test]
fn cost_rounds_to_the_nearest_thousandth() {
    assert_eq!(with_cost(499), "$0.000");
    assert_eq!(with_cost(500), "$0.000");
    assert_eq!(with_cost(501), "$0.001");
    assert_eq!(with_cost(1_500), "$0.002");
    assert_eq!(with_cost(2_500), "$0.002");
    assert_eq!(with_cost(999_999), "$1.000");
}

#[test]
fn duration_has_one_decimal() {
    assert_eq!(with_duration(0), "0.0s");
    assert_eq!(with_duration(49), "0.0s");
    assert_eq!(with_duration(51), "0.1s");
    assert_eq!(with_duration(1_234), "1.2s");
    assert_eq!(with_duration(250), "0.2s");
    assert_eq!(with_duration(350), "0.4s");
    assert_eq!(with_duration(999), "1.0s");
    assert_eq!(with_duration(61_250), "61.2s");
    assert_eq!(with_duration(u64::MAX), "18446744073709551.6s");
}

#[test]
fn display_of_an_empty_log_says_so() {
    let report = display_log(&Vec::new(), false);
    assert_eq!(
        report,
        LogReport { notice: None, lines: vec![String::from("  No log entries yet.")] }
    );
    assert_eq!(display_log(&Vec::new(), true), report);
}

#[test]
fn display_line_of_a_known_mode() {
    let e = LogEntry::new(
        "2026-02-14T15:30:12+01:00",
        "search",
        "sonar",
        "what is rust",
        4096,
        6_000,
        1_234,
    );
    let report = display_log(&vec![e], false);
    assert_eq!(report.notice, None);
    assert_eq!(
        report.lines,
        vec![String::from(
            "  \x1b[2m2026-02-14T15:30\x1b[0m \x1b[36msearch\x1b[39m \x1b[2m$0.006\x1b[0m \x1b[2m 1.2s\x1b[0m  what is rust"
        )]
    );
}

#[test]
fn display_line_of_an_unknown_mode_is_padded() {
    let e = LogEntry::new("2026-02-14T15:30:12+01:00", "chat", "m", "hi", 1, 12_345_678, 123_456);
    let report = display_log(&vec![e], false);
    assert_eq!(
        report.lines,
        vec![String::from(
            "  \x1b[2m2026-02-14T15:30\x1b[0m chat       \x1b[2m$12.346\x1b[0m \x1b[2m123.5s\x1b[0m  hi"
        )]
    );
}

#[test]
fn display_notes_how_many_records_exist() {
    let report = display_log(&entries(25), false);
    assert_eq!(
        report.notice,
        Some(String::from(
            "\x1b[2m  (showing last 20 of 25 — use --all for full log)\x1b[0m"
        ))
    );
    assert_eq!(report.lines.len(), 20);
    assert!(report.lines[0].ends_with("  query number 5"));
    assert!(report.lines[19].ends_with("  query number 24"));
}

#[test]
fn display_of_all_has_no_notice() {
    let report = display_log(&entries(25), true);
    assert_eq!(report.notice, None);
    assert_eq!(report.lines.len(), 25);
    assert!(report.lines[0].ends_with("  query number 0"));
}

#[test]
fn display_of_twenty_has_no_notice() {
    let report = display_log(&entries(20), false);
    assert_eq!(report.notice, None);
    assert_eq!(report.lines.len(), 20);
}

#[test]
fn rendering_leaves_the_log_as_it_was() {
    let log = entries(3);
    let copy = log.clone();
    let _ = render(&log, false);
    let _ = display_log(&log, true);
    assert_eq!(log, copy);
}
