//! Usage statistics: per-mode counts and costs, the grand total, and the days
//! the log spans.

use crate::color::{bold, bold_text, dimmed, dimmed_text};
use crate::mode::{classify, kind_of, label, label_text, rank, rank_of};
use crate::record::{EntryModel, LogEntry};
use crate::text::{
    decimal, decimal_string, first_chars, fixed_point, fixed_point_string, pad_end, pad_left,
    pad_right, pad_start, prefix, push_repeated, round_half_even, rounded_quotient, same_text,
};
use vstd::prelude::*;
use vstd::string::*;

verus! {

/// Characters of a timestamp that make up its date.
pub const DATE_WIDTH: usize = 10;

/// Number of mode categories, and so of ranks in a listing.
pub const RANKS: u8 = 5;

/// The records of one mode, summed up.
#[derive(Clone, Debug, PartialEq, Eq)]
pub struct ModeTotal {
    pub mode: String,
    /// Number of records with this mode.
    pub count: usize,
    /// Sum of their estimated costs, in millionths of a dollar.
    pub cost_micros: u128,
}

/// What a `ModeTotal` is, mathematically.
pub struct ModeTotalModel {
    pub mode: Seq<char>,
    pub count: nat,
    pub cost_micros: nat,
}

impl View for ModeTotal {
    type V = ModeTotalModel;

    open spec fn view(&self) -> ModeTotalModel {
        ModeTotalModel {
            mode: self.mode@,
            count: self.count as nat,
            cost_micros: self.cost_micros as nat,
        }
    }
}

impl DeepView for ModeTotal {
    type V = ModeTotalModel;

    open spec fn deep_view(&self) -> ModeTotalModel {
        self@
    }
}

/// The statistics of a log that holds at least one record.
#[derive(Clone, Debug, PartialEq, Eq)]
pub struct Summary {
    /// Number of records.
    pub count: usize,
    /// Date of the first record.
    pub first_day: String,
    /// Date of the last record.
    pub last_day: String,
    /// One entry for each mode that occurs, in listing order.
    pub groups: Vec<ModeTotal>,
    /// Sum of all estimated costs, in millionths of a dollar.
    pub total_micros: u128,
}

/// What a `Summary` is, mathematically.
pub struct SummaryModel {
    pub count: nat,
    pub first_day: Seq<char>,
    pub last_day: Seq<char>,
    pub groups: Seq<ModeTotalModel>,
    pub total_micros: nat,
}

impl DeepView for Summary {
    type V = SummaryModel;

    open spec fn deep_view(&self) -> SummaryModel {
        self@
    }
}

impl View for Summary {
    type V = SummaryModel;

    open spec fn view(&self) -> SummaryModel {
        SummaryModel {
            count: self.count as nat,
            first_day: self.first_day@,
            last_day: self.last_day@,
            groups: self.groups.deep_view(),
            total_micros: self.total_micros as nat,
        }
    }
}

/// Number of records with the given mode.
pub open spec fn count_of(records: Seq<EntryModel>, mode: Seq<char>) -> nat
    decreases records.len(),
{
    if records.len() == 0 {
        0
    } else {
        count_of(records.drop_last(), mode) + if records.last().mode == mode {
            1nat
        } else {
            0nat
        }
    }
}

/// Sum of the estimated costs of the records with the given mode.
pub open spec fn cost_of(records: Seq<EntryModel>, mode: Seq<char>) -> nat
    decreases records.len(),
{
    if records.len() == 0 {
        0
    } else {
        cost_of(records.drop_last(), mode) + if records.last().mode == mode {
            records.last().est_cost_micros
        } else {
            0nat
        }
    }
}

/// Sum of the estimated costs of all records.
pub open spec fn total_cost(records: Seq<EntryModel>) -> nat
    decreases records.len(),
{
    if records.len() == 0 {
        0
    } else {
        total_cost(records.drop_last()) + records.last().est_cost_micros
    }
}

/// The modes that occur, each once, in the order in which they first occur.
pub open spec fn modes_seen(records: Seq<EntryModel>) -> Seq<Seq<char>>
    decreases records.len(),
{
    if records.len() == 0 {
        Seq::empty()
    } else {
        let earlier = modes_seen(records.drop_last());
        if earlier.contains(records.last().mode) {
            earlier
        } else {
            earlier.push(records.last().mode)
        }
    }
}

/// The modes of `modes` whose category has rank `r`, in their order.
pub open spec fn of_rank(modes: Seq<Seq<char>>, r: nat) -> Seq<Seq<char>>
    decreases modes.len(),
{
    if modes.len() == 0 {
        Seq::empty()
    } else {
        let earlier = of_rank(modes.drop_last(), r);
        if rank(kind_of(modes.last())) == r {
            earlier.push(modes.last())
        } else {
            earlier
        }
    }
}

/// The modes of `modes` with a rank below `ranks`: by rank, and within a rank
/// in their order in `modes`.
pub open spec fn by_rank(modes: Seq<Seq<char>>, ranks: nat) -> Seq<Seq<char>>
    decreases ranks,
{
    if ranks == 0 {
        Seq::empty()
    } else {
        by_rank(modes, (ranks - 1) as nat) + of_rank(modes, (ranks - 1) as nat)
    }
}

/// The modes of a log in listing order: search, ask, reason, research, then
/// every other mode in the order of first occurrence.
pub open spec fn listed_modes(records: Seq<EntryModel>) -> Seq<Seq<char>> {
    by_rank(modes_seen(records), RANKS as nat)
}

/// The records of `mode`, summed up.
pub open spec fn group_of(records: Seq<EntryModel>, mode: Seq<char>) -> ModeTotalModel {
    ModeTotalModel {
        mode,
        count: count_of(records, mode),
        cost_micros: cost_of(records, mode),
    }
}

/// The statistics of `records`; an empty log has none.
pub open spec fn summary_of(records: Seq<EntryModel>) -> Option<SummaryModel> {
    if records.len() == 0 {
        None
    } else {
        Some(
            SummaryModel {
                count: records.len(),
                first_day: prefix(records.first().ts, DATE_WIDTH as nat),
                last_day: prefix(records.last().ts, DATE_WIDTH as nat),
                groups: listed_modes(records).map_values(|m: Seq<char>| group_of(records, m)),
                total_micros: total_cost(records),
            },
        )
    }
}

/// A sum of costs in millionths of a dollar, as dollars with two decimals.
pub open spec fn sum_text(micros: nat) -> Seq<char> {
    "$"@ + fixed_point(round_half_even(micros, 10000), 2)
}

/// The line that tells how many records the log holds and which days it spans.
pub open spec fn span_line(s: SummaryModel) -> Seq<char> {
    "  "@ + decimal(s.count) + " queries from "@ + s.first_day + " to "@ + s.last_day
}

/// The heading of the table.
pub open spec fn heading_line() -> Seq<char> {
    "  "@ + dimmed_text(pad_end("Mode"@, 12)) + dimmed_text(pad_start("Count"@, 8)) + dimmed_text(
        pad_start("Cost"@, 10),
    )
}

/// The line of the table for one mode.
pub open spec fn group_line(g: ModeTotalModel) -> Seq<char> {
    "  "@ + pad_end(label_text(g.mode), 12) + pad_start(decimal(g.count), 8) + pad_start(
        sum_text(g.cost_micros),
        10,
    )
}

/// The rule between the modes and the total.
pub open spec fn rule_line() -> Seq<char> {
    "  "@ + dimmed_text(Seq::new(30, |i: int| '─'))
}

/// The line of the table for the whole log.
pub open spec fn total_line(s: SummaryModel) -> Seq<char> {
    "  "@ + bold_text(pad_end("Total"@, 12)) + pad_start(decimal(s.count), 8) + bold_text(
        pad_start(sum_text(s.total_micros), 10),
    )
}

/// The lines of the statistics table: the span of the log, an empty line,
/// the heading, one line for each mode, a rule, and the total.
pub open spec fn summary_lines(s: SummaryModel) -> Seq<Seq<char>> {
    seq![span_line(s), Seq::empty(), heading_line()] + s.groups.map_values(
        |g: ModeTotalModel| group_line(g),
    ) + seq![rule_line(), total_line(s)]
}

/// What is printed for the statistics of a log.
pub open spec fn stats_report(records: Seq<EntryModel>) -> Seq<Seq<char>> {
    match summary_of(records) {
        None => seq![crate::history::no_entries_text()],
        Some(s) => summary_lines(s),
    }
}

proof fn lemma_take_step(records: Seq<EntryModel>, i: int)
    requires
        0 <= i < records.len(),
    ensures
        records.take(i + 1).drop_last() == records.take(i),
        records.take(i + 1).last() == records[i],
{
}

/// The tallies of the modes that occur, in the order of first occurrence.
struct Tally {
    modes: Vec<String>,
    counts: Vec<usize>,
    costs: Vec<u128>,
    total: u128,
}

impl Tally {
    spec fn covers(&self, records: Seq<EntryModel>) -> bool {
        &&& self.modes.deep_view() == modes_seen(records)
        &&& self.counts@.len() == self.modes@.len()
        &&& self.costs@.len() == self.modes@.len()
        &&& forall|j: int|
            0 <= j < self.modes@.len() ==> self.counts@[j] == count_of(
                records,
                #[trigger] self.modes@[j]@,
            )
        &&& forall|j: int|
            0 <= j < self.modes@.len() ==> self.costs@[j] == cost_of(
                records,
                #[trigger] self.modes@[j]@,
            )
        &&& self.total == total_cost(records)
    }

    spec fn bounded(&self, n: nat) -> bool {
        &&& self.total <= n * u64::MAX
        &&& forall|j: int| 0 <= j < self.counts@.len() ==> #[trigger] self.counts@[j] <= n
        &&& forall|j: int| 0 <= j < self.costs@.len() ==> #[trigger] self.costs@[j] <= n * u64::MAX
    }
}

/// Index of `mode` among `modes`.
fn position(modes: &Vec<String>, mode: &str) -> (found: Option<usize>)
    ensures
        match found {
            Some(j) => j < modes@.len() && modes@[j as int]@ == mode@,
            None => !modes.deep_view().contains(mode@),
        },
{
    let mut j: usize = 0;
    while j < modes.len()
        invariant
            j <= modes.len(),
            forall|k: int| 0 <= k < j ==> (#[trigger] modes@[k])@ != mode@,
        decreases modes.len() - j,
    {
        if same_text(modes[j].as_str(), mode) {
            return Some(j);
        }
        j += 1;
    }
    proof {
        let views = modes.deep_view();
        assert forall|k: int| 0 <= k < views.len() implies views[k] != mode@ by {
            assert(views[k] == modes@[k]@);
        }
    }
    None
}

fn tally(records: &Vec<LogEntry>) -> (t: Tally)
    ensures
        t.covers(records.deep_view()),
        t.bounded(records@.len()),
{
    let ghost models = records.deep_view();
    let mut t = Tally { modes: Vec::new(), counts: Vec::new(), costs: Vec::new(), total: 0 };
    let mut i: usize = 0;
    assert(models.take(0) =~= Seq::empty());
    assert(t.modes.deep_view() =~= Seq::empty());
    while i < records.len()
        invariant
            i <= records.len(),
            models == records.deep_view(),
            t.covers(models.take(i as int)),
            t.bounded(i as nat),
        decreases records.len() - i,
    {
        let entry = &records[i];
        let cost = entry.est_cost_micros;
        let ghost before = t;
        let ghost past = models.take(i as int);
        let ghost now = models.take(i + 1);
        proof {
            lemma_take_step(models, i as int);
            assert(models[i as int] == entry@);
            assert(i * u64::MAX + u64::MAX == (i + 1) * u64::MAX) by (nonlinear_arith);
            assert((i + 1) * u64::MAX <= usize::MAX * u64::MAX) by (nonlinear_arith)
                requires
                    i + 1 <= usize::MAX,
            ;
            assert(usize::MAX * u64::MAX <= u64::MAX * u64::MAX) by (nonlinear_arith)
                requires
                    usize::MAX <= u64::MAX,
            ;
            assert(u64::MAX * u64::MAX < u128::MAX) by (nonlinear_arith);
        }
        match position(&t.modes, entry.mode.as_str()) {
            Some(j) => {
                let count = t.counts[j];
                let sum = t.costs[j];
                t.counts.set(j, count + 1);
                t.costs.set(j, sum + cost as u128);
                proof {
                    assert(before.modes.deep_view()[j as int] == entry@.mode);
                    assert(modes_seen(past).contains(entry@.mode));
                    assert(t.modes.deep_view() == modes_seen(now));
                }
            },
            None => {
                t.modes.push(entry.mode.clone());
                t.counts.push(1);
                t.costs.push(cost as u128);
                proof {
                    lemma_absent_mode(past, entry@.mode);
                    assert(t.modes.deep_view() =~= before.modes.deep_view().push(entry@.mode));
                }
            },
        }
        t.total = t.total + cost as u128;
        proof {
            assert forall|k: int| 0 <= k < t.modes@.len() implies t.counts@[k] == count_of(
                now,
                #[trigger] t.modes@[k]@,
            ) && t.costs@[k] == cost_of(now, t.modes@[k]@) by {
                if k < before.modes@.len() {
                    assert(t.modes@[k] == before.modes@[k]);
                    assert(before.counts@[k] == count_of(past, before.modes@[k]@));
                    assert(before.costs@[k] == cost_of(past, before.modes@[k]@));
                    if t.modes@[k]@ != entry@.mode {
                        assert(t.counts@[k] == before.counts@[k]);
                    } else {
                        lemma_distinct_modes(past);
                        assert(before.modes.deep_view()[k] == before.modes@[k]@);
                    }
                }
            }
        }
        i += 1;
    }
    assert(models.take(records@.len() as int) == models);
    t
}

/// A mode that has not occurred has no records and no cost.
pub proof fn lemma_absent_mode(records: Seq<EntryModel>, mode: Seq<char>)
    requires
        !modes_seen(records).contains(mode),
    ensures
        count_of(records, mode) == 0,
        cost_of(records, mode) == 0,
    decreases records.len(),
{
    if records.len() > 0 {
        let earlier = modes_seen(records.drop_last());
        if earlier.contains(records.last().mode) {
        } else {
            assert(modes_seen(records).last() == records.last().mode);
            assert(modes_seen(records)[earlier.len() as int] == records.last().mode);
            assert forall|k: int| 0 <= k < earlier.len() implies earlier[k] != mode by {
                assert(modes_seen(records)[k] == earlier[k]);
            }
        }
        assert(records.last().mode != mode) by {
            if records.last().mode == mode {
                if earlier.contains(mode) {
                    let k = choose|k: int| 0 <= k < earlier.len() && earlier[k] == mode;
                    assert(modes_seen(records)[k] == mode);
                } else {
                    assert(modes_seen(records)[earlier.len() as int] == mode);
                }
            }
        }
        assert(!earlier.contains(mode)) by {
            if earlier.contains(mode) {
                let k = choose|k: int| 0 <= k < earlier.len() && earlier[k] == mode;
                assert(modes_seen(records)[k] == mode);
            }
        }
        lemma_absent_mode(records.drop_last(), mode);
    }
}

/// No mode is listed twice.
pub proof fn lemma_distinct_modes(records: Seq<EntryModel>)
    ensures
        forall|j: int, k: int|
            0 <= j < k < modes_seen(records).len() ==> modes_seen(records)[j] != modes_seen(
                records,
            )[k],
    decreases records.len(),
{
    if records.len() > 0 {
        lemma_distinct_modes(records.drop_last());
        let earlier = modes_seen(records.drop_last());
        if !earlier.contains(records.last().mode) {
            assert forall|j: int, k: int| 0 <= j < k < modes_seen(records).len() implies modes_seen(
                records,
            )[j] != modes_seen(records)[k] by {
                if k == earlier.len() {
                    assert(earlier[j] == modes_seen(records)[j]);
                } else {
                    assert(earlier[j] == modes_seen(records)[j]);
                    assert(earlier[k] == modes_seen(records)[k]);
                }
            }
        }
    }
}

/// The tallies put in listing order.
fn arrange(t: &Tally, Ghost(records): Ghost<Seq<EntryModel>>) -> (groups: Vec<ModeTotal>)
    requires
        t.covers(records),
    ensures
        groups.deep_view() == listed_modes(records).map_values(
            |m: Seq<char>| group_of(records, m),
        ),
{
    let ghost seen = modes_seen(records);
    let mut groups: Vec<ModeTotal> = Vec::new();
    let mut r: u8 = 0;
    while r < RANKS
        invariant
            r <= RANKS,
            t.covers(records),
            seen == modes_seen(records),
            groups@.len() == by_rank(seen, r as nat).len(),
            forall|k: int|
                0 <= k < groups@.len() ==> (#[trigger] groups@[k])@ == group_of(
                    records,
                    by_rank(seen, r as nat)[k],
                ),
        decreases RANKS - r,
    {
        let mut j: usize = 0;
        assert(seen.take(0) =~= Seq::empty());
        while j < t.modes.len()
            invariant
                j <= t.modes.len(),
                r < RANKS,
                t.covers(records),
                seen == modes_seen(records),
                groups@.len() == (by_rank(seen, r as nat) + of_rank(seen.take(j as int), r as nat)).len(),
                forall|k: int|
                    0 <= k < groups@.len() ==> (#[trigger] groups@[k])@ == group_of(
                        records,
                        (by_rank(seen, r as nat) + of_rank(seen.take(j as int), r as nat))[k],
                    ),
            decreases t.modes.len() - j,
        {
            proof {
                assert(seen.take(j + 1).drop_last() == seen.take(j as int));
                assert(seen.take(j + 1).last() == seen[j as int]);
                assert(seen[j as int] == t.modes@[j as int]@);
            }
            if rank_of(classify(t.modes[j].as_str())) == r {
                groups.push(
                    ModeTotal {
                        mode: t.modes[j].clone(),
                        count: t.counts[j],
                        cost_micros: t.costs[j],
                    },
                );
            }
            j += 1;
        }
        assert(seen.take(t.modes@.len() as int) == seen);
        r += 1;
    }
    proof {
        let want = listed_modes(records).map_values(|m: Seq<char>| group_of(records, m));
        assert(groups.deep_view().len() == want.len());
        assert forall|k: int| 0 <= k < want.len() implies groups.deep_view()[k] == want[k] by {
            assert(groups.deep_view()[k] == groups@[k]@);
        }
        assert(groups.deep_view() =~= want);
    }
    groups
}

/// Sums up `records`, which stand in the order of the log.
///
/// An empty log has no statistics. Otherwise the summary holds the number of
/// records, the dates of the first and the last one, the sum of all costs,
/// and for each mode that occurs its number of records and the sum of their
/// costs. The modes are listed by category (search, ask, reason, research,
/// the rest); modes outside the four known ones keep the order in which they
/// first occur in the log.
pub fn aggregate(records: &Vec<LogEntry>) -> (summary: Option<Summary>)
    ensures
        summary.deep_view() == summary_of(records.deep_view()),
{
    let count = records.len();
    if count == 0 {
        return None;
    }
    let t = tally(records);
    let groups = arrange(&t, Ghost(records.deep_view()));
    let first_day = first_chars(records[0].ts.as_str(), DATE_WIDTH);
    let last_day = first_chars(records[count - 1].ts.as_str(), DATE_WIDTH);
    proof {
        assert(records.deep_view().first() == records@[0]@);
        assert(records.deep_view().last() == records@[count - 1]@);
    }
    Some(Summary { count, first_day, last_day, groups, total_micros: t.total })
}

fn format_sum(micros: u128) -> (out: String)
    ensures
        out@ == sum_text(micros as nat),
{
    let mut out = "$".to_owned();
    out.append(fixed_point_string(rounded_quotient(micros, 10000), 2).as_str());
    out
}

fn format_span(s: &Summary) -> (out: String)
    ensures
        out@ == span_line(s@),
{
    let mut out = "  ".to_owned();
    out.append(decimal_string(s.count as u128).as_str());
    out.append(" queries from ");
    out.append(s.first_day.as_str());
    out.append(" to ");
    out.append(s.last_day.as_str());
    out
}

fn format_heading() -> (out: String)
    ensures
        out@ == heading_line(),
{
    let mut out = "  ".to_owned();
    out.append(dimmed(pad_right("Mode", 12).as_str()).as_str());
    out.append(dimmed(pad_left("Count", 8).as_str()).as_str());
    out.append(dimmed(pad_left("Cost", 10).as_str()).as_str());
    out
}

fn format_group(g: &ModeTotal) -> (out: String)
    ensures
        out@ == group_line(g@),
{
    let mut out = "  ".to_owned();
    out.append(pad_right(label(g.mode.as_str()).as_str(), 12).as_str());
    out.append(pad_left(decimal_string(g.count as u128).as_str(), 8).as_str());
    out.append(pad_left(format_sum(g.cost_micros).as_str(), 10).as_str());
    out
}

fn format_rule() -> (out: String)
    ensures
        out@ == rule_line(),
{
    let mut rule = String::new();
    push_repeated(&mut rule, '─', 30);
    let mut out = "  ".to_owned();
    out.append(dimmed(rule.as_str()).as_str());
    out
}

fn format_total(s: &Summary) -> (out: String)
    ensures
        out@ == total_line(s@),
{
    let mut out = "  ".to_owned();
    out.append(bold(pad_right("Total", 12).as_str()).as_str());
    out.append(pad_left(decimal_string(s.count as u128).as_str(), 8).as_str());
    out.append(bold(pad_left(format_sum(s.total_micros).as_str(), 10).as_str()).as_str());
    out
}

/// What the statistics command prints for the log `entries`.
///
/// An empty log gives the single line that says so. Otherwise the lines are
/// those of the table for `aggregate(entries)`.
pub fn display_stats(entries: &Vec<LogEntry>) -> (lines: Vec<String>)
    ensures
        lines.deep_view() == stats_report(entries.deep_view()),
{
    let mut lines: Vec<String> = Vec::new();
    match aggregate(entries) {
        None => {
            lines.push("  No log entries yet.".to_owned());
            assert(lines.deep_view() =~= seq![crate::history::no_entries_text()]);
        },
        Some(s) => {
            lines.push(format_span(&s));
            lines.push(String::new());
            lines.push(format_heading());
            let ghost head = seq![span_line(s@), Seq::empty(), heading_line()];
            let mut i: usize = 0;
            while i < s.groups.len()
                invariant
                    i <= s.groups.len(),
                    head == seq![span_line(s@), Seq::<char>::empty(), heading_line()],
                    lines@.len() == 3 + i,
                    forall|k: int| 0 <= k < 3 ==> (#[trigger] lines@[k])@ == head[k],
                    forall|k: int|
                        0 <= k < i ==> (#[trigger] lines@[3 + k])@ == group_line(s.groups@[k]@),
                decreases s.groups.len() - i,
            {
                lines.push(format_group(&s.groups[i]));
                i += 1;
            }
            lines.push(format_rule());
            lines.push(format_total(&s));
            proof {
                let want = summary_lines(s@);
                let got = lines.deep_view();
                assert(got.len() == want.len());
                assert forall|k: int| 0 <= k < want.len() implies got[k] == want[k] by {
                    assert(got[k] == lines@[k]@);
                    if 3 <= k < 3 + i {
                        assert(lines@[3 + (k - 3)]@ == group_line(s.groups@[k - 3]@));
                        assert(s@.groups[k - 3] == s.groups@[k - 3]@);
                    }
                }
                assert(got =~= want);
            }
        },
    }
    lines
}

} // verus!
