//! What holds of the Nx value for every set of read lengths: how it relates to
//! the shortest and the longest read, that it ignores the order of the reads, and
//! that it is the length-weighted percentile its name promises.

use crate::nx::{
    ascending, cumulative, is_ascending, is_first_exceeding, is_longest, is_shortest,
    lemma_ascending_is_unique, lemma_ascending_properties, lemma_nx_value_at,
    lemma_prefix_totals_grow, lemma_target_below_total, lemma_total_nonnegative,
    lemma_total_step, nx_of, nx_value, total, Ratio,
};
use vstd::prelude::*;
use vstd::seq_lib::{lemma_fold_left_permutation, to_multiset_contains};

verus! {

/// The lengths that are at least `bound`.
pub open spec fn at_least(bound: u64) -> spec_fn(u64) -> bool {
    |len: u64| len >= bound
}

/// The lengths that are more than `bound`.
pub open spec fn above(bound: u64) -> spec_fn(u64) -> bool {
    |len: u64| len > bound
}

/// Bases held by the reads of at least `bound` bases.
pub open spec fn bases_in_reads_from(lengths: Seq<u64>, bound: u64) -> int {
    total(lengths.filter(at_least(bound)))
}

/// Bases held by the reads of more than `bound` bases.
pub open spec fn bases_in_reads_above(lengths: Seq<u64>, bound: u64) -> int {
    total(lengths.filter(above(bound)))
}

/// Rearrangements hold the same values.
proof fn lemma_same_members(a: Seq<u64>, b: Seq<u64>, value: u64)
    requires
        a.to_multiset() == b.to_multiset(),
    ensures
        a.contains(value) == b.contains(value),
{
    to_multiset_contains(a, value);
    to_multiset_contains(b, value);
}

/// The ascending arrangement starts with the shortest length and ends with the
/// longest.
pub proof fn lemma_ascending_ends(lengths: Seq<u64>)
    requires
        lengths.len() > 0,
    ensures
        is_shortest(lengths, ascending(lengths).first()),
        is_longest(lengths, ascending(lengths).last()),
{
    let sorted = ascending(lengths);
    lemma_ascending_properties(lengths);
    assert(sorted.contains(sorted[0]));
    assert(sorted.contains(sorted[sorted.len() - 1]));
    lemma_same_members(sorted, lengths, sorted.first());
    lemma_same_members(sorted, lengths, sorted.last());
    assert forall|i: int| 0 <= i < lengths.len() implies sorted.first() <= lengths[i]
        && lengths[i] <= sorted.last() by {
        assert(lengths.contains(lengths[i]));
        lemma_same_members(sorted, lengths, lengths[i]);
        let j = choose|j: int| 0 <= j < sorted.len() && sorted[j] == lengths[i];
        assert(sorted[0] <= sorted[j] <= sorted[sorted.len() - 1]);
    }
}

/// With a single read of positive length, every fraction below one gives that
/// read's length.
pub proof fn lemma_nx_of_single_read(lengths: Seq<u64>, fraction: Ratio)
    requires
        lengths.len() == 1,
        lengths[0] > 0,
        fraction.below_one(),
    ensures
        nx_of(lengths, fraction) == lengths[0],
{
    assert(lengths.take(1) =~= lengths);
    assert(lengths.drop_last() =~= Seq::<u64>::empty());
    assert(total(lengths) == lengths[0]) by {
        reveal_with_fuel(Seq::fold_left, 2);
    }
    let target = fraction.of(total(lengths));
    lemma_target_below_total(fraction, total(lengths));
    assert(is_first_exceeding(lengths, target, 0));
    lemma_nx_value_at(lengths, lengths, target, 0);
}

/// When the target lies below every length, as it does for a fraction just above
/// zero, the Nx value is the shortest length.
pub proof fn lemma_nx_of_small_fraction(lengths: Seq<u64>, fraction: Ratio)
    requires
        lengths.len() > 0,
        forall|i: int| 0 <= i < lengths.len() ==> fraction.of(total(lengths)) < lengths[i],
    ensures
        is_shortest(lengths, nx_of(lengths, fraction)),
{
    let sorted = ascending(lengths);
    let target = fraction.of(total(lengths));
    lemma_ascending_properties(lengths);
    lemma_ascending_ends(lengths);
    lemma_total_step(sorted, 0);
    assert(sorted.take(0) =~= Seq::<u64>::empty());
    let i = choose|i: int| 0 <= i < lengths.len() && lengths[i] == sorted[0];
    assert(target < lengths[i]);
    assert(is_first_exceeding(sorted, target, 0));
    lemma_nx_value_at(lengths, sorted, target, 0);
}

/// When the target lies within the longest read, as it does for a fraction just
/// below one, the Nx value is the longest length.
pub proof fn lemma_nx_of_large_fraction(lengths: Seq<u64>, fraction: Ratio, longest: u64)
    requires
        is_longest(lengths, longest),
        total(lengths) - longest <= fraction.of(total(lengths)) < total(lengths),
    ensures
        nx_of(lengths, fraction) == longest,
{
    let sorted = ascending(lengths);
    let target = fraction.of(total(lengths));
    let last = sorted.len() - 1;
    lemma_ascending_properties(lengths);
    lemma_ascending_ends(lengths);
    assert(sorted.last() == longest) by {
        let i = choose|i: int| 0 <= i < lengths.len() && lengths[i] == longest;
        let j = choose|j: int| 0 <= j < lengths.len() && lengths[j] == sorted.last();
        assert(lengths[i] <= sorted.last());
        assert(lengths[j] <= longest);
    }
    lemma_total_step(sorted, last);
    sorted.lemma_take_len();
    assert forall|j: int| 0 <= j < last implies cumulative(sorted, j) <= target by {
        lemma_prefix_totals_grow(sorted, j + 1, last);
    }
    assert(is_first_exceeding(sorted, target, last));
    lemma_nx_value_at(lengths, sorted, target, last);
}

/// The Nx value does not depend on the order of the reads.
pub proof fn lemma_nx_ignores_order(a: Seq<u64>, b: Seq<u64>, target: int)
    requires
        a.to_multiset() == b.to_multiset(),
    ensures
        nx_value(a, target) == nx_value(b, target),
{
    lemma_ascending_properties(a);
    lemma_ascending_is_unique(ascending(a), b);
}

/// Some position is the first to exceed a target below the total.
pub proof fn lemma_first_exceeding_exists(lengths: Seq<u64>, target: int)
    requires
        0 <= target < total(lengths),
    ensures
        exists|k: int| is_first_exceeding(lengths, target, k),
    decreases lengths.len(),
{
    let last = lengths.len() - 1;
    let rest = lengths.drop_last();
    if total(rest) > target {
        lemma_first_exceeding_exists(rest, target);
        let k = choose|k: int| is_first_exceeding(rest, target, k);
        assert forall|j: int| 0 <= j <= k implies cumulative(lengths, j) == cumulative(rest, j) by {
            assert(lengths.take(j + 1) =~= rest.take(j + 1));
        }
        assert(is_first_exceeding(lengths, target, k));
    } else {
        lengths.lemma_take_len();
        assert forall|j: int| 0 <= j < last implies cumulative(lengths, j) <= target by {
            lemma_prefix_totals_grow(lengths, j + 1, last);
            assert(lengths.take(last) =~= rest);
        }
        assert(is_first_exceeding(lengths, target, last));
    }
}

/// Keeping some of the lengths: one more length adds itself to the total kept
/// when it is kept, and nothing otherwise.
proof fn lemma_kept_total_step(lengths: Seq<u64>, i: int, keep: spec_fn(u64) -> bool)
    requires
        0 <= i < lengths.len(),
    ensures
        total(lengths.take(i + 1).filter(keep)) == total(lengths.take(i).filter(keep)) + if keep(
            lengths[i],
        ) {
            lengths[i] as int
        } else {
            0
        },
        0 <= total(lengths.take(i).filter(keep)),
{
    let before = lengths.take(i);
    lengths.lemma_take_succ_push(i);
    before.lemma_filter_push(lengths[i], keep);
    if keep(lengths[i]) {
        assert(before.filter(keep).push(lengths[i]).drop_last() =~= before.filter(keep));
    }
    lemma_total_nonnegative(before.filter(keep));
}

/// The total of the lengths kept is a fold that adds each length kept.
proof fn lemma_kept_total_is_a_fold(lengths: Seq<u64>, keep: spec_fn(u64) -> bool)
    ensures
        total(lengths.filter(keep)) == lengths.fold_left(
            0int,
            |acc: int, len: u64|
                if keep(len) {
                    acc + len
                } else {
                    acc
                },
        ),
    decreases lengths.len(),
{
    if lengths.len() > 0 {
        let rest = lengths.drop_last();
        lemma_kept_total_is_a_fold(rest, keep);
        lemma_kept_total_step(lengths, lengths.len() - 1, keep);
        lengths.lemma_take_len();
        assert(lengths.take(lengths.len() - 1) =~= rest);
    } else {
        lengths.lemma_filter_len(keep);
        assert(lengths.filter(keep) =~= Seq::<u64>::empty());
    }
}

/// The total of the lengths kept does not depend on the order of the lengths.
proof fn lemma_kept_total_ignores_order(a: Seq<u64>, b: Seq<u64>, keep: spec_fn(u64) -> bool)
    requires
        a.to_multiset() == b.to_multiset(),
    ensures
        total(a.filter(keep)) == total(b.filter(keep)),
{
    let step = |acc: int, len: u64|
        if keep(len) {
            acc + len
        } else {
            acc
        };
    lemma_kept_total_is_a_fold(a, keep);
    lemma_kept_total_is_a_fold(b, keep);
    lemma_fold_left_permutation(a, b, step, 0int);
}

/// In ascending lengths, the reads at least as long as the one at position `k`
/// hold at least what lies from `k` on, and the reads longer than it hold at
/// most what lies behind `k`. Stated for every prefix.
proof fn lemma_bases_around_position(sorted: Seq<u64>, k: int, j: int)
    requires
        is_ascending(sorted),
        0 <= k < sorted.len(),
        0 <= j <= sorted.len(),
    ensures
        total(sorted.take(j).filter(at_least(sorted[k]))) >= total(sorted.take(j)) - total(
            sorted.take(
                if j < k {
                    j
                } else {
                    k
                },
            ),
        ),
        total(sorted.take(j).filter(above(sorted[k]))) <= total(sorted.take(j)) - total(
            sorted.take(
                if j < k + 1 {
                    j
                } else {
                    k + 1
                },
            ),
        ),
    decreases j,
{
    if j == 0 {
        assert(sorted.take(0) =~= Seq::<u64>::empty());
        sorted.take(0).lemma_filter_len(at_least(sorted[k]));
        sorted.take(0).lemma_filter_len(above(sorted[k]));
        assert(sorted.take(0).filter(at_least(sorted[k])) =~= Seq::<u64>::empty());
        assert(sorted.take(0).filter(above(sorted[k])) =~= Seq::<u64>::empty());
    } else {
        lemma_bases_around_position(sorted, k, j - 1);
        lemma_kept_total_step(sorted, j - 1, at_least(sorted[k]));
        lemma_kept_total_step(sorted, j - 1, above(sorted[k]));
        lemma_total_step(sorted, j - 1);
    }
}

/// The Nx value is a length-weighted percentile. With `target` bases set aside:
/// the reads at least as long as the Nx value hold all the other bases or more,
/// and the reads longer than it hold fewer than that.
pub proof fn lemma_nx_is_weighted_percentile(lengths: Seq<u64>, target: int)
    requires
        0 <= target < total(lengths),
    ensures
        bases_in_reads_from(lengths, nx_value(lengths, target)) >= total(lengths) - target,
        bases_in_reads_above(lengths, nx_value(lengths, target)) < total(lengths) - target,
{
    let sorted = ascending(lengths);
    lemma_ascending_properties(lengths);
    lemma_first_exceeding_exists(sorted, target);
    let k = choose|k: int| is_first_exceeding(sorted, target, k);
    let nx = sorted[k];
    lemma_kept_total_ignores_order(sorted, lengths, at_least(nx));
    lemma_kept_total_ignores_order(sorted, lengths, above(nx));
    lemma_bases_around_position(sorted, k, sorted.len() as int);
    sorted.lemma_take_len();
    lemma_total_step(sorted, k);
    if k > 0 {
        assert(cumulative(sorted, k - 1) <= target);
    } else {
        assert(sorted.take(0) =~= Seq::<u64>::empty());
    }
}

/// The N50 splits the bases in half: the reads at least as long as the N50 hold
/// at least half of all bases, and the reads longer than it hold at most half.
pub proof fn lemma_n50_splits_bases_in_half(lengths: Seq<u64>)
    requires
        0 < total(lengths),
    ensures
        2 * bases_in_reads_from(lengths, nx_of(lengths, Ratio::half())) >= total(lengths),
        2 * bases_in_reads_above(lengths, nx_of(lengths, Ratio::half())) <= total(lengths),
{
    lemma_target_below_total(Ratio::half(), total(lengths));
    lemma_nx_is_weighted_percentile(lengths, Ratio::half().of(total(lengths)));
}

} // verus!
