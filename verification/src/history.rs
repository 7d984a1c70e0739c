//! The history view: the most recent records, one row each, oldest first.

use crate::color::{dimmed, dimmed_text};
use crate::mode::{label, label_text};
use crate::record::{EntryModel, LogEntry};
use crate::text::{
    decimal, decimal_string, first_chars, fixed_point, fixed_point_string, pad_end, pad_left,
    pad_right, pad_start, prefix, round_half_even, rounded_quotient,
};
use vstd::prelude::*;
use vstd::string::*;

verus! {

/// Rows shown unless the whole log is asked for.
pub const HISTORY_LIMIT: usize = 20;

/// Longest query, in characters, that is shown whole.
pub const QUERY_LIMIT: usize = 60;

/// Characters of the timestamp that are shown: the date, `T`, hour and minute.
pub const TIMESTAMP_WIDTH: usize = 16;

/// One record as the history shows it.
#[derive(Clone, Debug, PartialEq, Eq)]
pub struct HistoryRow {
    pub timestamp: String,
    pub mode: String,
    pub cost: String,
    pub duration: String,
    pub query: String,
}

/// What a `HistoryRow` is, mathematically.
pub struct RowModel {
    pub timestamp: Seq<char>,
    pub mode: Seq<char>,
    pub cost: Seq<char>,
    pub duration: Seq<char>,
    pub query: Seq<char>,
}

impl View for HistoryRow {
    type V = RowModel;

    open spec fn view(&self) -> RowModel {
        RowModel {
            timestamp: self.timestamp@,
            mode: self.mode@,
            cost: self.cost@,
            duration: self.duration@,
            query: self.query@,
        }
    }
}

impl DeepView for HistoryRow {
    type V = RowModel;

    open spec fn deep_view(&self) -> RowModel {
        self@
    }
}

/// The rendered history: the rows that are shown and the size of the log they come from.
#[derive(Clone, Debug, PartialEq, Eq)]
pub struct History {
    /// Number of records in the log.
    pub total: usize,
    /// The rows shown, oldest first.
    pub rows: Vec<HistoryRow>,
}

/// What a `History` is, mathematically.
pub struct HistoryModel {
    pub total: nat,
    pub rows: Seq<RowModel>,
}

impl View for History {
    type V = HistoryModel;

    open spec fn view(&self) -> HistoryModel {
        HistoryModel { total: self.total as nat, rows: self.rows.deep_view() }
    }
}

/// What is printed for the history: an optional remark for the error stream,
/// then the lines for standard output.
#[derive(Clone, Debug, PartialEq, Eq)]
pub struct LogReport {
    pub notice: Option<String>,
    pub lines: Vec<String>,
}

/// What a `LogReport` is, mathematically.
pub struct LogReportModel {
    pub notice: Option<Seq<char>>,
    pub lines: Seq<Seq<char>>,
}

impl View for LogReport {
    type V = LogReportModel;

    open spec fn view(&self) -> LogReportModel {
        LogReportModel {
            notice: match self.notice {
                Some(n) => Some(n@),
                None => None,
            },
            lines: self.lines.deep_view(),
        }
    }
}

/// A cost in millionths of a dollar, as dollars with three decimals.
pub open spec fn cost_text(micros: nat) -> Seq<char> {
    "$"@ + fixed_point(round_half_even(micros, 1000), 3)
}

/// A duration in milliseconds, as seconds with one decimal.
pub open spec fn duration_text(ms: nat) -> Seq<char> {
    fixed_point(round_half_even(ms, 100), 1) + "s"@
}

/// A query of more than `QUERY_LIMIT` characters is cut to one character less
/// than the limit and closed with an ellipsis.
pub open spec fn shortened_query(query: Seq<char>) -> Seq<char> {
    if query.len() > QUERY_LIMIT {
        query.take(QUERY_LIMIT - 1) + "…"@
    } else {
        query
    }
}

/// The row of a record: the timestamp to the minute, the mode as it is, the
/// cost and the duration as text, and the query cut to length.
pub open spec fn row_of(e: EntryModel) -> RowModel {
    RowModel {
        timestamp: prefix(e.ts, TIMESTAMP_WIDTH as nat),
        mode: e.mode,
        cost: cost_text(e.est_cost_micros),
        duration: duration_text(e.duration_ms),
        query: shortened_query(e.query),
    }
}

/// The records that are shown: all of them on request or when they are at
/// most `HISTORY_LIMIT`, else the last `HISTORY_LIMIT`.
pub open spec fn shown(records: Seq<EntryModel>, show_all: bool) -> Seq<EntryModel> {
    if show_all || records.len() <= HISTORY_LIMIT {
        records
    } else {
        records.skip(records.len() - HISTORY_LIMIT)
    }
}

/// The history of a log: its size, and a row for each record that is shown.
pub open spec fn rendered(records: Seq<EntryModel>, show_all: bool) -> HistoryModel {
    HistoryModel {
        total: records.len(),
        rows: shown(records, show_all).map_values(|e: EntryModel| row_of(e)),
    }
}

/// The line printed for a row.
pub open spec fn row_line(r: RowModel) -> Seq<char> {
    "  "@ + dimmed_text(r.timestamp) + " "@ + pad_end(label_text(r.mode), 10) + " "@ + dimmed_text(
        pad_start(r.cost, 6),
    ) + " "@ + dimmed_text(pad_start(r.duration, 5)) + "  "@ + r.query
}

/// The remark that older records exist, with the size of the whole log.
pub open spec fn notice_text(total: nat) -> Seq<char> {
    dimmed_text(
        "  (showing last 20 of "@ + decimal(total) + " — use --all for full log)"@,
    )
}

/// The line that stands for an empty log.
pub open spec fn no_entries_text() -> Seq<char> {
    "  No log entries yet."@
}

/// What is printed for the history of a log.
pub open spec fn log_report(records: Seq<EntryModel>, all: bool) -> LogReportModel {
    if records.len() == 0 {
        LogReportModel { notice: None, lines: seq![no_entries_text()] }
    } else {
        LogReportModel {
            notice: if !all && records.len() > HISTORY_LIMIT {
                Some(notice_text(records.len()))
            } else {
                None
            },
            lines: rendered(records, all).rows.map_values(|r: RowModel| row_line(r)),
        }
    }
}

impl History {
    /// Number of records of the log that are not shown.
    pub fn hidden(&self) -> (n: usize)
        ensures
            n == if self.total >= self.rows.len() {
                self.total - self.rows.len()
            } else {
                0
            },
    {
        if self.total >= self.rows.len() {
            self.total - self.rows.len()
        } else {
            0
        }
    }
}

fn format_cost(micros: u64) -> (out: String)
    ensures
        out@ == cost_text(micros as nat),
{
    let mut out = "$".to_owned();
    let digits = fixed_point_string(rounded_quotient(micros as u128, 1000), 3);
    out.append(digits.as_str());
    out
}

fn format_duration(ms: u64) -> (out: String)
    ensures
        out@ == duration_text(ms as nat),
{
    let mut out = fixed_point_string(rounded_quotient(ms as u128, 100), 1);
    out.append("s");
    out
}

fn shorten_query(query: &str) -> (out: String)
    ensures
        out@ == shortened_query(query@),
{
    let len = query.unicode_len();
    if len > QUERY_LIMIT {
        let mut out = first_chars(query, QUERY_LIMIT - 1);
        out.append("…");
        out
    } else {
        query.to_owned()
    }
}

fn render_row(e: &LogEntry) -> (row: HistoryRow)
    ensures
        row@ == row_of(e@),
{
    HistoryRow {
        timestamp: first_chars(e.ts.as_str(), TIMESTAMP_WIDTH),
        mode: e.mode.clone(),
        cost: format_cost(e.est_cost_micros),
        duration: format_duration(e.duration_ms),
        query: shorten_query(e.query.as_str()),
    }
}

/// Renders the history of `records`, which stand in the order of the log.
///
/// With `show_all`, or when the log holds at most `HISTORY_LIMIT` records,
/// every record gets a row; otherwise only the last `HISTORY_LIMIT` do. Rows
/// keep the order of the log.
pub fn render(records: &Vec<LogEntry>, show_all: bool) -> (history: History)
    ensures
        history@ == rendered(records.deep_view(), show_all),
{
    let total = records.len();
    let start: usize = if show_all || total <= HISTORY_LIMIT {
        0
    } else {
        total - HISTORY_LIMIT
    };
    let mut rows: Vec<HistoryRow> = Vec::new();
    let mut i: usize = start;
    while i < total
        invariant
            start <= i <= total,
            total == records.len(),
            rows@.len() == i - start,
            forall|j: int| 0 <= j < rows@.len() ==> (#[trigger] rows@[j])@ == row_of(records@[start + j]@),
        decreases total - i,
    {
        let row = render_row(&records[i]);
        rows.push(row);
        i += 1;
    }
    let history = History { total, rows };
    proof {
        let models = records.deep_view();
        let want = rendered(models, show_all);
        assert(shown(models, show_all) == models.skip(start as int));
        assert(history@.rows.len() == want.rows.len());
        assert forall|j: int| 0 <= j < want.rows.len() implies history@.rows[j] == want.rows[j] by {
            assert(history@.rows[j] == history.rows@[j]@);
            assert(models.skip(start as int)[j] == records@[start + j]@);
        }
        assert(history@.rows =~= want.rows);
    }
    history
}

fn format_row(row: &HistoryRow) -> (out: String)
    ensures
        out@ == row_line(row@),
{
    let mut out = "  ".to_owned();
    out.append(dimmed(row.timestamp.as_str()).as_str());
    out.append(" ");
    out.append(pad_right(label(row.mode.as_str()).as_str(), 10).as_str());
    out.append(" ");
    out.append(dimmed(pad_left(row.cost.as_str(), 6).as_str()).as_str());
    out.append(" ");
    out.append(dimmed(pad_left(row.duration.as_str(), 5).as_str()).as_str());
    out.append("  ");
    out.append(row.query.as_str());
    out
}

fn format_notice(total: usize) -> (out: String)
    ensures
        out@ == notice_text(total as nat),
{
    let mut plain = "  (showing last 20 of ".to_owned();
    plain.append(decimal_string(total as u128).as_str());
    plain.append(" — use --all for full log)");
    dimmed(plain.as_str())
}

/// What the history command prints for the log `entries`.
///
/// An empty log gives the single line that says so. Otherwise there is one
/// line for each row of `render(entries, all)`, and, when rows were left out,
/// a remark that names the size of the whole log.
pub fn display_log(entries: &Vec<LogEntry>, all: bool) -> (report: LogReport)
    ensures
        report@ == log_report(entries.deep_view(), all),
{
    let mut lines: Vec<String> = Vec::new();
    if entries.len() == 0 {
        lines.push("  No log entries yet.".to_owned());
        let report = LogReport { notice: None, lines };
        assert(report@.lines =~= seq![no_entries_text()]);
        return report;
    }
    let history = render(entries, all);
    let notice = if !all && entries.len() > HISTORY_LIMIT {
        Some(format_notice(entries.len()))
    } else {
        None
    };
    let mut i: usize = 0;
    while i < history.rows.len()
        invariant
            i <= history.rows.len(),
            lines@.len() == i,
            forall|j: int| 0 <= j < i ==> (#[trigger] lines@[j])@ == row_line(history.rows@[j]@),
        decreases history.rows.len() - i,
    {
        lines.push(format_row(&history.rows[i]));
        i += 1;
    }
    let report = LogReport { notice, lines };
    proof {
        let want = log_report(entries.deep_view(), all);
        assert(report@.lines.len() == want.lines.len());
        assert forall|j: int| 0 <= j < want.lines.len() implies report@.lines[j] == want.lines[j] by {
            assert(report@.lines[j] == report.lines@[j]@);
            assert(history@.rows[j] == history.rows@[j]@);
        }
        assert(report@.lines =~= want.lines);
    }
    report
}

} // verus!
