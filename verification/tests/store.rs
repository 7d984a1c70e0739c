use pplx::record::LogEntry;
use pplx::store::{collect_present, frame, record_lines};
use std::io::{BufRead, BufReader, Cursor};

// A stand-in for the caller's codec: `mode|query|cost`.
fn encode(e: &LogEntry) -> String {
    format!("{}|{}|{}", e.mode, e.query, e.est_cost_micros)
}

fn decode(line: &str) -> Option<LogEntry> {
    let parts: Vec<&str> = line.split('|').collect();
    if parts.len() != 3 {
        return None;
    }
    let cost = parts[2].parse::<u64>().ok()?;
    Some(LogEntry::new("2026-02-14T15:30:12+01:00", parts[0], "model", parts[1], 0, cost, 0))
}

fn record(mode: &str, query: &str, cost: u64) -> LogEntry {
    LogEntry::new("2026-02-14T15:30:12+01:00", mode, "model", query, 0, cost, 0)
}

fn append(content: &mut String, e: &LogEntry) {
    let line = frame(&encode(e)).unwrap();
    content.push_str(&line);
}

fn read_all(content: &str) -> Vec<LogEntry> {
    let parsed: Vec<Option<LogEntry>> =
        record_lines(content).iter().map(|l| decode(l)).collect();
    collect_present(parsed)
}

fn strings(items: &[&str]) -> Vec<String> {
    items.iter().map(|s| String::from(*s)).collect()
}

#[test]
fn frame_closes_the_line() {
    assert_eq!(frame("{\"ts\":\"x\"}"), Some(String::from("{\"ts\":\"x\"}\n")));
    assert_eq!(frame("x"), Some(String::from("x\n")));
    assert_eq!(frame(" x "), Some(String::from(" x \n")));
}

#[test]
fn frame_refuses_what_would_not_read_back() {
    assert_eq!(frame("a\nb"), None);
    assert_eq!(frame("a\n"), None);
    assert_eq!(frame(""), None);
    assert_eq!(frame("  \t "), None);
    assert_eq!(frame("a\r"), None);
    assert_eq!(frame("\r"), None);
}

#[test]
fn lines_of_an_empty_log() {
    assert_eq!(record_lines(""), Vec::<String>::new());
}

#[test]
fn lines_are_split_at_line_feeds() {
    assert_eq!(record_lines("a\nb\nc\n"), strings(&["a", "b", "c"]));
    assert_eq!(record_lines("a"), strings(&["a"]));
    assert_eq!(record_lines("a\nb"), strings(&["a", "b"]));
}

#[test]
fn blank_lines_are_passed_over() {
    assert_eq!(record_lines("a\n\nb\n   \n\t\nc\n\n"), strings(&["a", "b", "c"]));
    assert_eq!(record_lines("\n\n\n"), Vec::<String>::new());
    assert_eq!(record_lines("  "), Vec::<String>::new());
    assert_eq!(record_lines("\u{3000}\nx\n"), strings(&["x"]));
}

#[test]
fn a_carriage_return_right_before_the_line_feed_is_dropped() {
    assert_eq!(record_lines("a\r\nb\r\n"), strings(&["a", "b"]));
    assert_eq!(record_lines("a\r\r\nb\r"), strings(&["a\r", "b\r"]));
    assert_eq!(record_lines("\r\n"), Vec::<String>::new());
    assert_eq!(record_lines("a\rb\n"), strings(&["a\rb"]));
}

#[test]
fn lines_agree_with_a_buffered_reader() {
    for content in [
        "",
        "a",
        "a\n",
        "a\nb",
        "\n",
        "\n\n",
        "a\r\n\r\nb\r",
        "x\r\r\n",
        "\r",
        " \n y \n",
        "é…\n\u{a0}\nz",
        "{\"a\":1}\n{\"b\":2}\n{\"c\"",
    ] {
        let reader = BufReader::new(Cursor::new(content.as_bytes()));
        let mut expected = Vec::new();
        for line in reader.lines() {
            let line = line.unwrap();
            if line.trim().is_empty() {
                continue;
            }
            expected.push(line);
        }
        assert_eq!(record_lines(content), expected, "{:?}", content);
    }
}

#[test]
fn collect_present_keeps_the_order() {
    assert_eq!(collect_present(vec![Some(1), None, Some(3), None]), vec![1, 3]);
    assert_eq!(collect_present(vec![None::<u8>, None]), Vec::<u8>::new());
    assert_eq!(collect_present(Vec::<Option<u8>>::new()), Vec::<u8>::new());
    assert_eq!(collect_present(vec![Some("a"), Some("b")]), vec!["a", "b"]);
}

#[test]
fn an_appended_record_is_read_back_last() {
    let mut content = String::new();
    append(&mut content, &record("ask", "first", 10_000));
    append(&mut content, &record("search", "second", 6_000));
    let r = record("reason", "third, with \"quotes\" and é", 10_000);
    append(&mut content, &r);
    let read = read_all(&content);
    assert_eq!(read.len(), 3);
    assert_eq!(read.last(), Some(&r));
}

#[test]
fn records_are_read_in_the_order_of_the_appends() {
    let mut content = String::new();
    let mut written = Vec::new();
    for n in 0..50u64 {
        let r = record("ask", &format!("query {}", n), n);
        append(&mut content, &r);
        written.push(r);
    }
    assert_eq!(read_all(&content), written);
}

#[test]
fn a_corrupt_line_between_two_records_is_dropped() {
    let a = record("ask", "one", 1);
    let b = record("search", "two", 2);
    let mut content = String::new();
    append(&mut content, &a);
    content.push_str("{\"ts\": \"2026-02-1\n");
    append(&mut content, &b);
    assert_eq!(read_all(&content), vec![a, b]);
}

#[test]
fn a_torn_last_line_is_dropped() {
    let a = record("ask", "one", 1);
    let mut content = String::new();
    append(&mut content, &a);
    content.push_str("ask|tw");
    assert_eq!(read_all(&content), vec![a]);
}

#[test]
fn an_empty_log_reads_as_no_records() {
    assert_eq!(read_all(""), Vec::<LogEntry>::new());
}

#[test]
fn appending_to_a_torn_log_loses_the_record() {
    let mut content = String::from("ask|tw");
    append(&mut content, &record("search", "two", 2));
    assert_eq!(read_all(&content), Vec::<LogEntry>::new());
}
