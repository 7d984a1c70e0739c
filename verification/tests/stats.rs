use pplx::record::LogEntry;
use pplx::stats::{aggregate, display_stats, ModeTotal};

fn entry(ts: &str, mode: &str, cost: u64) -> LogEntry {
    LogEntry::new(ts, mode, "model", "query", 10, cost, 500)
}

fn group(mode: &str, count: usize, cost_micros: u128) -> ModeTotal {
    ModeTotal { mode: String::from(mode), count, cost_micros }
}

fn sample() -> Vec<LogEntry> {
    vec![
        entry("2026-02-14T15:30:12+01:00", "ask", 10_000),
        entry("2026-02-15T09:00:00+01:00", "search", 6_000),
        entry("2026-03-01T23:59:59+01:00", "ask", 10_000),
    ]
}

#[test]
fn aggregate_groups_by_mode_and_lists_search_before_ask() {
    let summary = aggregate(&sample()).unwrap();
    assert_eq!(summary.groups, vec![group("search", 1, 6_000), group("ask", 2, 20_000)]);
    assert_eq!(summary.total_micros, 26_000);
    assert_eq!(summary.count, 3);
}

#[test]
fn aggregate_order_does_not_depend_on_the_order_of_the_log() {
    let mut log = sample();
    log.reverse();
    let summary = aggregate(&log).unwrap();
    assert_eq!(summary.groups, vec![group("search", 1, 6_000), group("ask", 2, 20_000)]);
    log.swap(0, 1);
    let summary = aggregate(&log).unwrap();
    assert_eq!(summary.groups, vec![group("search", 1, 6_000), group("ask", 2, 20_000)]);
}

#[test]
fn aggregate_gives_the_span_of_days() {
    let summary = aggregate(&sample()).unwrap();
    assert_eq!(summary.first_day, "2026-02-14");
    assert_eq!(summary.last_day, "2026-03-01");
}

#[test]
fn aggregate_of_one_record() {
    let summary = aggregate(&vec![entry("2026-02-14T15:30:12+01:00", "reason", 10_000)]).unwrap();
    assert_eq!(summary.count, 1);
    assert_eq!(summary.first_day, "2026-02-14");
    assert_eq!(summary.last_day, "2026-02-14");
    assert_eq!(summary.groups, vec![group("reason", 1, 10_000)]);
    assert_eq!(summary.total_micros, 10_000);
}

#[test]
fn aggregate_of_an_empty_log_is_nothing() {
    assert_eq!(aggregate(&Vec::new()), None);
}

#[test]
fn known_modes_come_first_and_others_in_order_of_first_occurrence() {
    let log = vec![
        entry("2026-01-01T00:00:00+00:00", "zeta", 1),
        entry("2026-01-02T00:00:00+00:00", "research", 400_000),
        entry("2026-01-03T00:00:00+00:00", "alpha", 2),
        entry("2026-01-04T00:00:00+00:00", "reason", 10_000),
        entry("2026-01-05T00:00:00+00:00", "zeta", 3),
        entry("2026-01-06T00:00:00+00:00", "ask", 10_000),
        entry("2026-01-07T00:00:00+00:00", "search", 6_000),
        entry("2026-01-08T00:00:00+00:00", "", 5),
        entry("2026-01-09T00:00:00+00:00", "alpha", 7),
    ];
    let summary = aggregate(&log).unwrap();
    assert_eq!(
        summary.groups,
        vec![
            group("search", 1, 6_000),
            group("ask", 1, 10_000),
            group("reason", 1, 10_000),
            group("research", 1, 400_000),
            group("zeta", 2, 4),
            group("alpha", 2, 9),
            group("", 1, 5),
        ]
    );
    assert_eq!(summary.total_micros, 426_018);
    assert_eq!(summary.count, 9);
}

#[test]
fn sums_do_not_overflow() {
    let log = vec![
        entry("2026-01-01T00:00:00+00:00", "ask", u64::MAX),
        entry("2026-01-02T00:00:00+00:00", "ask", u64::MAX),
        entry("2026-01-03T00:00:00+00:00", "search", u64::MAX),
    ];
    let summary = aggregate(&log).unwrap();
    assert_eq!(summary.total_micros, 3 * (u64::MAX as u128));
    assert_eq!(
        summary.groups,
        vec![group("search", 1, u64::MAX as u128), group("ask", 2, 2 * (u64::MAX as u128))]
    );
}

#[test]
fn a_short_timestamp_gives_a_short_day() {
    let summary = aggregate(&vec![entry("2026", "ask", 0)]).unwrap();
    assert_eq!(summary.first_day, "2026");
    assert_eq!(summary.last_day, "2026");
}

#[test]
fn stats_of_an_empty_log_say_so() {
    assert_eq!(display_stats(&Vec::new()), vec![String::from("  No log entries yet.")]);
}

#[test]
fn stats_table() {
    let rule = "─".repeat(30);
    assert_eq!(
        display_stats(&sample()),
        vec![
            String::from("  3 queries from 2026-02-14 to 2026-03-01"),
            String::new(),
            String::from(
                "  \x1b[2mMode        \x1b[0m\x1b[2m   Count\x1b[0m\x1b[2m      Cost\x1b[0m"
            ),
            String::from("  \x1b[36msearch\x1b[39m       1     $0.01"),
            String::from("  \x1b[32mask\x1b[39m       2     $0.02"),
            format!("  \x1b[2m{}\x1b[0m", rule),
            String::from("  \x1b[1mTotal       \x1b[0m       3\x1b[1m     $0.03\x1b[0m"),
        ]
    );
}

#[test]
fn stats_line_of_an_unknown_mode_is_padded() {
    let lines = display_stats(&vec![entry("2026-02-14T15:30:12+01:00", "chat", 1_234_567)]);
    assert_eq!(lines.len(), 6);
    assert_eq!(lines[0], "  1 queries from 2026-02-14 to 2026-02-14");
    assert_eq!(lines[3], "  chat               1     $1.23");
    assert_eq!(lines[5], "  \x1b[1mTotal       \x1b[0m       1\x1b[1m     $1.23\x1b[0m");
}

#[test]
fn sums_have_two_decimals_and_round_to_the_nearest_cent() {
    let cost = |micros: u64| {
        let lines = display_stats(&vec![entry("2026-02-14T15:30:12+01:00", "chat", micros)]);
        String::from(lines[3].split_whitespace().last().unwrap())
    };
    assert_eq!(cost(0), "$0.00");
    assert_eq!(cost(4_999), "$0.00");
    assert_eq!(cost(5_000), "$0.00");
    assert_eq!(cost(5_001), "$0.01");
    assert_eq!(cost(15_000), "$0.02");
    assert_eq!(cost(25_000), "$0.02");
    assert_eq!(cost(400_000), "$0.40");
    assert_eq!(cost(123_456_789), "$123.46");
}

#[test]
fn aggregation_leaves_the_log_as_it_was() {
    let log = sample();
    let copy = log.clone();
    let _ = aggregate(&log);
    let _ = display_stats(&log);
    assert_eq!(log, copy);
}

fn mixed_log() -> Vec<LogEntry> {
    let modes = ["chat", "ask", "research", "chat", "search", "ask", "reason", "beta", "ask"];
    let mut log = Vec::new();
    for (n, mode) in modes.iter().enumerate() {
        log.push(entry(&format!("2026-01-{:02}T00:00:00+00:00", n + 1), mode, 1_000 * (n as u64 + 1)));
    }
    log
}

#[test]
fn the_groups_account_for_every_record_and_all_cost() {
    let log = mixed_log();
    let summary = aggregate(&log).unwrap();
    let counts: usize = summary.groups.iter().map(|g| g.count).sum();
    let costs: u128 = summary.groups.iter().map(|g| g.cost_micros).sum();
    assert_eq!(counts, log.len());
    assert_eq!(counts, summary.count);
    assert_eq!(costs, summary.total_micros);
    assert_eq!(costs, 45_000);
}

#[test]
fn the_listing_follows_the_ranks() {
    let summary = aggregate(&mixed_log()).unwrap();
    let modes: Vec<&str> = summary.groups.iter().map(|g| g.mode.as_str()).collect();
    assert_eq!(modes, vec!["search", "ask", "reason", "research", "chat", "beta"]);
}

#[test]
fn each_mode_is_listed_once() {
    let summary = aggregate(&mixed_log()).unwrap();
    for (i, g) in summary.groups.iter().enumerate() {
        for h in &summary.groups[i + 1..] {
            assert_ne!(g.mode, h.mode);
        }
    }
}
