//! Query modes: the four the client knows, and a bucket for every other tag
//! that may turn up in a log.

use crate::color::{cyan, cyan_text, green, green_text, magenta, magenta_text, yellow, yellow_text};
use crate::text::same_text;
use vstd::prelude::*;

verus! {

/// The category of a mode tag. The variants stand in display order.
#[derive(Clone, Copy, Debug, PartialEq, Eq, Structural)]
pub enum ModeKind {
    Search,
    Ask,
    Reason,
    Research,
    Other,
}

/// The category that a tag falls in; tags are matched exactly.
pub open spec fn kind_of(mode: Seq<char>) -> ModeKind {
    if mode == "search"@ {
        ModeKind::Search
    } else if mode == "ask"@ {
        ModeKind::Ask
    } else if mode == "reason"@ {
        ModeKind::Reason
    } else if mode == "research"@ {
        ModeKind::Research
    } else {
        ModeKind::Other
    }
}

/// Position of a category in listings: search, ask, reason, research, then the rest.
pub open spec fn rank(kind: ModeKind) -> nat {
    match kind {
        ModeKind::Search => 0,
        ModeKind::Ask => 1,
        ModeKind::Reason => 2,
        ModeKind::Research => 3,
        ModeKind::Other => 4,
    }
}

/// The tag as it is shown: known modes in their colour, any other tag as it is.
pub open spec fn label_text(mode: Seq<char>) -> Seq<char> {
    match kind_of(mode) {
        ModeKind::Search => cyan_text(mode),
        ModeKind::Ask => green_text(mode),
        ModeKind::Reason => yellow_text(mode),
        ModeKind::Research => magenta_text(mode),
        ModeKind::Other => mode,
    }
}

/// The category of a mode tag.
pub fn classify(mode: &str) -> (kind: ModeKind)
    ensures
        kind == kind_of(mode@),
{
    if same_text(mode, "search") {
        ModeKind::Search
    } else if same_text(mode, "ask") {
        ModeKind::Ask
    } else if same_text(mode, "reason") {
        ModeKind::Reason
    } else if same_text(mode, "research") {
        ModeKind::Research
    } else {
        ModeKind::Other
    }
}

/// The position of a category in listings.
pub fn rank_of(kind: ModeKind) -> (r: u8)
    ensures
        r == rank(kind),
{
    match kind {
        ModeKind::Search => 0,
        ModeKind::Ask => 1,
        ModeKind::Reason => 2,
        ModeKind::Research => 3,
        ModeKind::Other => 4,
    }
}

/// The tag as it is shown on a terminal.
pub fn label(mode: &str) -> (out: String)
    ensures
        out@ == label_text(mode@),
{
    match classify(mode) {
        ModeKind::Search => cyan(mode),
        ModeKind::Ask => green(mode),
        ModeKind::Reason => yellow(mode),
        ModeKind::Research => magenta(mode),
        ModeKind::Other => mode.to_owned(),
    }
}

} // verus!
