//! The record kept for each completed query.

use vstd::prelude::*;

verus! {

/// One completed query, as it is kept in the log.
///
/// The estimated cost is held in millionths of a dollar, so that sums and
/// roundings are exact.
#[derive(Clone, Debug, PartialEq, Eq)]
pub struct LogEntry {
    /// Local time of completion with zone offset, to the second; sorts as text.
    pub ts: String,
    pub mode: String,
    pub model: String,
    pub query: String,
    pub response_len: usize,
    pub est_cost_micros: u64,
    pub duration_ms: u64,
}

/// What a `LogEntry` is, mathematically.
pub struct EntryModel {
    pub ts: Seq<char>,
    pub mode: Seq<char>,
    pub model: Seq<char>,
    pub query: Seq<char>,
    pub response_len: nat,
    pub est_cost_micros: nat,
    pub duration_ms: nat,
}

impl View for LogEntry {
    type V = EntryModel;

    open spec fn view(&self) -> EntryModel {
        EntryModel {
            ts: self.ts@,
            mode: self.mode@,
            model: self.model@,
            query: self.query@,
            response_len: self.response_len as nat,
            est_cost_micros: self.est_cost_micros as nat,
            duration_ms: self.duration_ms as nat,
        }
    }
}

impl DeepView for LogEntry {
    type V = EntryModel;

    open spec fn deep_view(&self) -> EntryModel {
        self@
    }
}

impl LogEntry {
    /// The record of a query that completed at `ts`.
    pub fn new(
        ts: &str,
        mode: &str,
        model: &str,
        query: &str,
        response_len: usize,
        est_cost_micros: u64,
        duration_ms: u64,
    ) -> (entry: LogEntry)
        ensures
            entry@ == (EntryModel {
                ts: ts@,
                mode: mode@,
                model: model@,
                query: query@,
                response_len: response_len as nat,
                est_cost_micros: est_cost_micros as nat,
                duration_ms: duration_ms as nat,
            }),
    {
        LogEntry {
            ts: ts.to_owned(),
            mode: mode.to_owned(),
            model: model.to_owned(),
            query: query.to_owned(),
            response_len,
            est_cost_micros,
            duration_ms,
        }
    }
}

} // verus!
