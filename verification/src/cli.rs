//! The commands of the client, and what each query command stands for.

use vstd::prelude::*;

verus! {

/// A command, as given on the command line.
#[derive(Clone, Debug, PartialEq, Eq)]
pub enum Command {
    /// Quick search.
    Search { query: String },
    /// Pro search.
    Ask { query: String },
    /// Deep research.
    Research { query: String },
    /// Reasoning.
    Reason { query: String },
    /// Show the usage log: its history, or with `stats` its statistics.
    Log { all: bool, stats: bool },
}

/// Estimated cost of a quick search, in millionths of a dollar.
pub const SEARCH_COST_MICROS: u64 = 6_000;

/// Estimated cost of a pro search, in millionths of a dollar.
pub const ASK_COST_MICROS: u64 = 10_000;

/// Estimated cost of a deep research, in millionths of a dollar.
pub const RESEARCH_COST_MICROS: u64 = 400_000;

/// Estimated cost of a reasoning query, in millionths of a dollar.
pub const REASON_COST_MICROS: u64 = 10_000;

/// Mode tag, model and estimated cost of a query command.
pub open spec fn plan_of(cmd: Command) -> Option<(Seq<char>, Seq<char>, nat)> {
    match cmd {
        Command::Search { .. } => Some(("search"@, "sonar"@, SEARCH_COST_MICROS as nat)),
        Command::Ask { .. } => Some(("ask"@, "sonar-pro"@, ASK_COST_MICROS as nat)),
        Command::Research { .. } => Some(
            ("research"@, "sonar-deep-research"@, RESEARCH_COST_MICROS as nat),
        ),
        Command::Reason { .. } => Some(
            ("reason"@, "sonar-reasoning-pro"@, REASON_COST_MICROS as nat),
        ),
        Command::Log { .. } => None,
    }
}

/// The query of a query command.
pub open spec fn query_of(cmd: Command) -> Option<Seq<char>> {
    match cmd {
        Command::Search { query } => Some(query@),
        Command::Ask { query } => Some(query@),
        Command::Research { query } => Some(query@),
        Command::Reason { query } => Some(query@),
        Command::Log { .. } => None,
    }
}

/// The mode tag, the model and the estimated cost in millionths of a dollar
/// that go with a query command; nothing for the log command.
pub fn mode_and_model(cmd: &Command) -> (plan: Option<(&'static str, &'static str, u64)>)
    ensures
        match plan {
            Some((mode, model, cost)) => plan_of(*cmd) == Some((mode@, model@, cost as nat)),
            None => plan_of(*cmd) is None,
        },
{
    match cmd {
        Command::Search { .. } => Some(("search", "sonar", SEARCH_COST_MICROS)),
        Command::Ask { .. } => Some(("ask", "sonar-pro", ASK_COST_MICROS)),
        Command::Research { .. } => Some(("research", "sonar-deep-research", RESEARCH_COST_MICROS)),
        Command::Reason { .. } => Some(("reason", "sonar-reasoning-pro", REASON_COST_MICROS)),
        Command::Log { .. } => None,
    }
}

/// The text of the query that a command carries; nothing for the log command.
pub fn query_text(cmd: &Command) -> (text: Option<&str>)
    ensures
        match text {
            Some(q) => query_of(*cmd) == Some(q@),
            None => query_of(*cmd) is None,
        },
{
    match cmd {
        Command::Search { query } => Some(query.as_str()),
        Command::Ask { query } => Some(query.as_str()),
        Command::Research { query } => Some(query.as_str()),
        Command::Reason { query } => Some(query.as_str()),
        Command::Log { .. } => None,
    }
}

} // verus!
