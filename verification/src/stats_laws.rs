//! What holds of every summary: the listing follows the ranks of the modes,
//! and the groups account for every record and for all of the cost.

use crate::mode::{kind_of, rank};
use crate::record::EntryModel;
use crate::stats::{
    by_rank, cost_of, count_of, group_of, lemma_absent_mode, lemma_distinct_modes, listed_modes,
    modes_seen, of_rank, summary_of, total_cost, ModeTotalModel, RANKS,
};
use vstd::prelude::*;

verus! {

/// Sum of the counts of `groups`.
pub open spec fn group_counts(groups: Seq<ModeTotalModel>) -> nat
    decreases groups.len(),
{
    if groups.len() == 0 {
        0
    } else {
        group_counts(groups.drop_last()) + groups.last().count
    }
}

/// Sum of the costs of `groups`.
pub open spec fn group_costs(groups: Seq<ModeTotalModel>) -> nat
    decreases groups.len(),
{
    if groups.len() == 0 {
        0
    } else {
        group_costs(groups.drop_last()) + groups.last().cost_micros
    }
}

/// Sum of `f` over `modes`.
pub open spec fn sum_over(modes: Seq<Seq<char>>, f: spec_fn(Seq<char>) -> nat) -> nat
    decreases modes.len(),
{
    if modes.len() == 0 {
        0
    } else {
        sum_over(modes.drop_last(), f) + f(modes.last())
    }
}

/// How often `mode` stands in `modes`.
pub open spec fn occurrences(modes: Seq<Seq<char>>, mode: Seq<char>) -> nat
    decreases modes.len(),
{
    if modes.len() == 0 {
        0
    } else {
        occurrences(modes.drop_last(), mode) + if modes.last() == mode {
            1nat
        } else {
            0nat
        }
    }
}

proof fn lemma_of_rank_ranks(modes: Seq<Seq<char>>, r: nat)
    ensures
        forall|k: int|
            0 <= k < of_rank(modes, r).len() ==> rank(kind_of(#[trigger] of_rank(modes, r)[k])) == r,
    decreases modes.len(),
{
    if modes.len() > 0 {
        lemma_of_rank_ranks(modes.drop_last(), r);
    }
}

proof fn lemma_by_rank_ranks(modes: Seq<Seq<char>>, n: nat)
    ensures
        forall|k: int|
            0 <= k < by_rank(modes, n).len() ==> rank(kind_of(#[trigger] by_rank(modes, n)[k])) < n,
        forall|i: int, j: int|
            0 <= i < j < by_rank(modes, n).len() ==> rank(kind_of(by_rank(modes, n)[i])) <= rank(
                kind_of(by_rank(modes, n)[j]),
            ),
    decreases n,
{
    if n > 0 {
        let below = by_rank(modes, (n - 1) as nat);
        let at = of_rank(modes, (n - 1) as nat);
        lemma_by_rank_ranks(modes, (n - 1) as nat);
        lemma_of_rank_ranks(modes, (n - 1) as nat);
        let all = by_rank(modes, n);
        assert forall|k: int| 0 <= k < all.len() implies rank(kind_of(#[trigger] all[k])) < n by {
            if k < below.len() {
                assert(all[k] == below[k]);
            } else {
                assert(all[k] == at[k - below.len()]);
            }
        }
        assert forall|i: int, j: int| 0 <= i < j < all.len() implies rank(kind_of(all[i])) <= rank(
            kind_of(all[j]),
        ) by {
            if j < below.len() {
                assert(all[i] == below[i]);
                assert(all[j] == below[j]);
            } else {
                assert(all[j] == at[j - below.len()]);
                if i < below.len() {
                    assert(all[i] == below[i]);
                } else {
                    assert(all[i] == at[i - below.len()]);
                }
            }
        }
    }
}

/// The listing follows the ranks: a mode of a lower rank never stands after
/// one of a higher rank, whatever the order of the log. So search comes
/// before ask, ask before reason, reason before research, and these before
/// every other mode.
pub proof fn lemma_listing_is_ranked(records: Seq<EntryModel>)
    ensures
        forall|i: int, j: int|
            0 <= i < j < listed_modes(records).len() ==> rank(kind_of(listed_modes(records)[i]))
                <= rank(kind_of(listed_modes(records)[j])),
{
    lemma_by_rank_ranks(modes_seen(records), RANKS as nat);
}

proof fn lemma_sum_over_concat(a: Seq<Seq<char>>, b: Seq<Seq<char>>, f: spec_fn(Seq<char>) -> nat)
    ensures
        sum_over(a + b, f) == sum_over(a, f) + sum_over(b, f),
    decreases b.len(),
{
    if b.len() == 0 {
        assert(a + b == a);
    } else {
        assert((a + b).drop_last() == a + b.drop_last());
        assert((a + b).last() == b.last());
        lemma_sum_over_concat(a, b.drop_last(), f);
    }
}

proof fn lemma_by_rank_of_none(n: nat)
    ensures
        by_rank(Seq::<Seq<char>>::empty(), n) == Seq::<Seq<char>>::empty(),
    decreases n,
{
    if n > 0 {
        lemma_by_rank_of_none((n - 1) as nat);
        assert(of_rank(Seq::<Seq<char>>::empty(), (n - 1) as nat) == Seq::<Seq<char>>::empty());
        assert(Seq::<Seq<char>>::empty() + Seq::<Seq<char>>::empty() == Seq::<Seq<char>>::empty(
        ));
    }
}

/// One more mode adds its term to the sum over the listing, if its rank is listed.
proof fn lemma_sum_by_rank_step(modes: Seq<Seq<char>>, n: nat, f: spec_fn(Seq<char>) -> nat)
    requires
        modes.len() > 0,
    ensures
        sum_over(by_rank(modes, n), f) == sum_over(by_rank(modes.drop_last(), n), f) + if rank(
            kind_of(modes.last()),
        ) < n {
            f(modes.last())
        } else {
            0
        },
    decreases n,
{
    if n > 0 {
        let r = (n - 1) as nat;
        let shorter = modes.drop_last();
        lemma_sum_by_rank_step(modes, r, f);
        lemma_sum_over_concat(by_rank(modes, r), of_rank(modes, r), f);
        lemma_sum_over_concat(by_rank(shorter, r), of_rank(shorter, r), f);
        if rank(kind_of(modes.last())) == r {
            let grown = of_rank(shorter, r).push(modes.last());
            assert(grown.drop_last() == of_rank(shorter, r));
            assert(grown.last() == modes.last());
        }
    }
}

/// Listing by rank leaves no mode out and takes none twice: a sum over the
/// listing is the sum over the modes.
proof fn lemma_sum_by_rank(modes: Seq<Seq<char>>, f: spec_fn(Seq<char>) -> nat)
    ensures
        sum_over(by_rank(modes, RANKS as nat), f) == sum_over(modes, f),
    decreases modes.len(),
{
    if modes.len() == 0 {
        lemma_by_rank_of_none(RANKS as nat);
        assert(modes == Seq::<Seq<char>>::empty());
    } else {
        lemma_sum_by_rank_step(modes, RANKS as nat, f);
        lemma_sum_by_rank(modes.drop_last(), f);
    }
}

/// Where `after` exceeds `before` by `w` at `mode` and nowhere else, its sum
/// exceeds by `w` for each time that `mode` stands in `modes`.
proof fn lemma_sum_shift(
    modes: Seq<Seq<char>>,
    before: spec_fn(Seq<char>) -> nat,
    after: spec_fn(Seq<char>) -> nat,
    mode: Seq<char>,
    w: nat,
)
    requires
        forall|m: Seq<char>| #[trigger]
            after(m) == before(m) + if m == mode {
                w
            } else {
                0
            },
    ensures
        sum_over(modes, after) == sum_over(modes, before) + occurrences(modes, mode) * w,
    decreases modes.len(),
{
    if modes.len() > 0 {
        lemma_sum_shift(modes.drop_last(), before, after, mode, w);
        let o = occurrences(modes.drop_last(), mode);
        assert((o + 1) * w == o * w + w) by (nonlinear_arith);
        assert(after(modes.last()) == before(modes.last()) + if modes.last() == mode {
            w
        } else {
            0
        });
    } else {
        assert(0 * w == 0) by (nonlinear_arith);
    }
}

proof fn lemma_occurrences(modes: Seq<Seq<char>>, mode: Seq<char>)
    requires
        forall|j: int, k: int| 0 <= j < k < modes.len() ==> modes[j] != modes[k],
    ensures
        occurrences(modes, mode) == if modes.contains(mode) {
            1nat
        } else {
            0nat
        },
    decreases modes.len(),
{
    if modes.len() > 0 {
        let shorter = modes.drop_last();
        assert forall|j: int, k: int| 0 <= j < k < shorter.len() implies shorter[j] != shorter[k] by {
            assert(shorter[j] == modes[j]);
            assert(shorter[k] == modes[k]);
        }
        lemma_occurrences(shorter, mode);
        if modes.last() == mode {
            assert(modes[modes.len() - 1] == mode);
            if shorter.contains(mode) {
                let k = choose|k: int| 0 <= k < shorter.len() && shorter[k] == mode;
                assert(modes[k] == mode);
            }
        } else {
            if modes.contains(mode) {
                let k = choose|k: int| 0 <= k < modes.len() && modes[k] == mode;
                assert(shorter[k] == mode);
            }
            if shorter.contains(mode) {
                let k = choose|k: int| 0 <= k < shorter.len() && shorter[k] == mode;
                assert(modes[k] == mode);
            }
        }
    }
}

/// Summed over the modes that occur, the counts give the number of records
/// and the costs give the total cost.
proof fn lemma_seen_modes_add_up(records: Seq<EntryModel>)
    ensures
        sum_over(modes_seen(records), |m: Seq<char>| count_of(records, m)) == records.len(),
        sum_over(modes_seen(records), |m: Seq<char>| cost_of(records, m)) == total_cost(records),
    decreases records.len(),
{
    if records.len() > 0 {
        let past = records.drop_last();
        let e = records.last();
        let earlier = modes_seen(past);
        let seen = modes_seen(records);
        let counts0 = |m: Seq<char>| count_of(past, m);
        let counts1 = |m: Seq<char>| count_of(records, m);
        let costs0 = |m: Seq<char>| cost_of(past, m);
        let costs1 = |m: Seq<char>| cost_of(records, m);
        lemma_seen_modes_add_up(past);
        lemma_distinct_modes(past);
        lemma_occurrences(earlier, e.mode);
        lemma_sum_shift(earlier, counts0, counts1, e.mode, 1);
        lemma_sum_shift(earlier, costs0, costs1, e.mode, e.est_cost_micros);
        if earlier.contains(e.mode) {
            assert(1 * e.est_cost_micros == e.est_cost_micros) by (nonlinear_arith);
        } else {
            lemma_absent_mode(past, e.mode);
            assert(seen.drop_last() == earlier);
            assert(seen.last() == e.mode);
            assert(0 * e.est_cost_micros == 0) by (nonlinear_arith);
        }
    }
}

proof fn lemma_group_sums(records: Seq<EntryModel>, modes: Seq<Seq<char>>)
    ensures
        group_counts(modes.map_values(|m: Seq<char>| group_of(records, m))) == sum_over(
            modes,
            |m: Seq<char>| count_of(records, m),
        ),
        group_costs(modes.map_values(|m: Seq<char>| group_of(records, m))) == sum_over(
            modes,
            |m: Seq<char>| cost_of(records, m),
        ),
    decreases modes.len(),
{
    if modes.len() > 0 {
        lemma_group_sums(records, modes.drop_last());
        let groups = modes.map_values(|m: Seq<char>| group_of(records, m));
        assert(groups.drop_last() == modes.drop_last().map_values(
            |m: Seq<char>| group_of(records, m),
        ));
        assert(groups.last() == group_of(records, modes.last()));
    }
}

/// The groups of a summary account for every record: their counts add up to
/// the number of records, and their costs to the total cost.
pub proof fn lemma_groups_add_up(records: Seq<EntryModel>)
    requires
        records.len() > 0,
    ensures
        group_counts(summary_of(records)->0.groups) == records.len(),
        group_costs(summary_of(records)->0.groups) == total_cost(records),
        summary_of(records)->0.total_micros == total_cost(records),
        summary_of(records)->0.count == records.len(),
{
    lemma_group_sums(records, listed_modes(records));
    lemma_sum_by_rank(modes_seen(records), |m: Seq<char>| count_of(records, m));
    lemma_sum_by_rank(modes_seen(records), |m: Seq<char>| cost_of(records, m));
    lemma_seen_modes_add_up(records);
}

proof fn lemma_occurrences_as_sum(modes: Seq<Seq<char>>, mode: Seq<char>)
    ensures
        occurrences(modes, mode) == sum_over(
            modes,
            |m: Seq<char>|
                if m == mode {
                    1nat
                } else {
                    0nat
                },
        ),
    decreases modes.len(),
{
    if modes.len() > 0 {
        lemma_occurrences_as_sum(modes.drop_last(), mode);
    }
}

/// A mode that has occurred has at least one record.
proof fn lemma_seen_mode_has_records(records: Seq<EntryModel>, mode: Seq<char>)
    requires
        modes_seen(records).contains(mode),
    ensures
        count_of(records, mode) > 0,
    decreases records.len(),
{
    if records.len() > 0 {
        let earlier = modes_seen(records.drop_last());
        if records.last().mode != mode {
            let k = choose|k: int|
                0 <= k < modes_seen(records).len() && modes_seen(records)[k] == mode;
            assert(k < earlier.len());
            assert(earlier[k] == mode);
            lemma_seen_mode_has_records(records.drop_last(), mode);
        }
    }
}

/// Each mode that has a record is listed exactly once, and no other mode is listed.
pub proof fn lemma_each_mode_listed_once(records: Seq<EntryModel>, mode: Seq<char>)
    ensures
        occurrences(listed_modes(records), mode) == if count_of(records, mode) > 0 {
            1nat
        } else {
            0nat
        },
{
    let seen = modes_seen(records);
    let is_mode = |m: Seq<char>|
        if m == mode {
            1nat
        } else {
            0nat
        };
    lemma_occurrences_as_sum(listed_modes(records), mode);
    lemma_occurrences_as_sum(seen, mode);
    lemma_sum_by_rank(seen, is_mode);
    lemma_distinct_modes(records);
    lemma_occurrences(seen, mode);
    if seen.contains(mode) {
        lemma_seen_mode_has_records(records, mode);
    } else {
        lemma_absent_mode(records, mode);
    }
}

} // verus!
