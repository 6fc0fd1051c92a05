//! The Nx solver: the length at which the cumulative sum of the ascending lengths
//! first exceeds a fraction of all bases.
//!
//! The fraction is an exact ratio of two integers, so the target
//! `fraction * total` is never rounded: a cumulative sum exceeds the real target
//! exactly when it exceeds the target's integer part.

use vstd::prelude::*;
use vstd::relations::{sorted_by, total_ordering};
use vstd::seq_lib::{lemma_fold_left_permutation, lemma_sorted_unique};

verus! {

/// Sum of all lengths.
pub open spec fn total(lengths: Seq<u64>) -> int {
    lengths.fold_left(0int, |acc: int, len: u64| acc + len)
}

/// Cumulative sum at position `k`: the sum of the first `k + 1` lengths.
pub open spec fn cumulative(lengths: Seq<u64>, k: int) -> int {
    total(lengths.take(k + 1))
}

/// No length is followed by a smaller one.
pub open spec fn is_ascending(lengths: Seq<u64>) -> bool {
    forall|i: int, j: int| 0 <= i <= j < lengths.len() ==> lengths[i] <= lengths[j]
}

/// The lengths rearranged in ascending order.
pub open spec fn ascending(lengths: Seq<u64>) -> Seq<u64> {
    lengths.sort_by(|a: u64, b: u64| a <= b)
}

/// `k` is the first position of `lengths` whose cumulative sum strictly exceeds
/// `target`.
pub open spec fn is_first_exceeding(lengths: Seq<u64>, target: int, k: int) -> bool {
    &&& 0 <= k < lengths.len()
    &&& cumulative(lengths, k) > target
    &&& forall|j: int| 0 <= j < k ==> cumulative(lengths, j) <= target
}

/// The Nx value of `lengths` for an absolute `target`: the length found at the
/// first position of the ascending arrangement whose cumulative sum strictly
/// exceeds `target`. Meaningful when `target < total(lengths)`.
pub open spec fn nx_value(lengths: Seq<u64>, target: int) -> u64 {
    let sorted = ascending(lengths);
    sorted[choose|k: int| is_first_exceeding(sorted, target, k)]
}

/// A fraction `num / den` as a pair of naturals.
pub struct Ratio {
    pub num: nat,
    pub den: nat,
}

impl Ratio {
    /// The ratio lies in `[0, 1]`.
    pub open spec fn in_unit_interval(self) -> bool {
        0 < self.den && self.num <= self.den
    }

    /// The ratio lies in `[0, 1)`.
    pub open spec fn below_one(self) -> bool {
        self.num < self.den
    }

    /// One half.
    pub open spec fn half() -> Ratio {
        Ratio { num: 1, den: 2 }
    }

    /// Integer part of `ratio * total`.
    pub open spec fn of(self, total: int) -> int {
        (total * self.num) / (self.den as int)
    }
}

/// The Nx value of `lengths` for a fraction of all bases.
pub open spec fn nx_of(lengths: Seq<u64>, fraction: Ratio) -> u64 {
    nx_value(lengths, fraction.of(total(lengths)))
}

/// `value` is one of the lengths and none is shorter.
pub open spec fn is_shortest(lengths: Seq<u64>, value: u64) -> bool {
    &&& lengths.contains(value)
    &&& forall|i: int| 0 <= i < lengths.len() ==> value <= lengths[i]
}

/// `value` is one of the lengths and none is longer.
pub open spec fn is_longest(lengths: Seq<u64>, value: u64) -> bool {
    &&& lengths.contains(value)
    &&& forall|i: int| 0 <= i < lengths.len() ==> lengths[i] <= value
}

/// A fraction in `[0, 1]`, held exactly as numerator over denominator.
pub struct NxFraction {
    numerator: u64,
    denominator: u64,
}

impl View for NxFraction {
    type V = Ratio;

    closed spec fn view(&self) -> Ratio {
        Ratio { num: self.numerator as nat, den: self.denominator as nat }
    }
}

impl NxFraction {
    #[verifier::type_invariant]
    spec fn in_range(self) -> bool {
        0 < self.denominator && self.numerator <= self.denominator
    }

    /// The fraction `numerator / denominator`, or nothing when that is not a
    /// number in `[0, 1]`.
    pub fn new(numerator: u64, denominator: u64) -> (fraction: Option<NxFraction>)
        ensures
            fraction is Some <==> 0 < denominator && numerator <= denominator,
            fraction matches Some(f) ==> f@.num == numerator && f@.den == denominator,
    {
        if 0 < denominator && numerator <= denominator {
            Some(NxFraction { numerator, denominator })
        } else {
            None
        }
    }

    /// One half, the fraction of the N50.
    pub fn half() -> (fraction: NxFraction)
        ensures
            fraction@ == Ratio::half(),
    {
        NxFraction { numerator: 1, denominator: 2 }
    }

    /// The fraction `1 - self`.
    pub fn complement(&self) -> (fraction: NxFraction)
        ensures
            fraction@.num == self@.den - self@.num,
            fraction@.den == self@.den,
            self@.in_unit_interval(),
    {
        proof {
            use_type_invariant(self);
        }
        NxFraction {
            numerator: self.denominator - self.numerator,
            denominator: self.denominator,
        }
    }

    /// The numerator.
    pub fn numerator(&self) -> (n: u64)
        ensures
            n == self@.num,
            self@.in_unit_interval(),
    {
        proof {
            use_type_invariant(self);
        }
        self.numerator
    }

    /// The denominator, which is never zero.
    pub fn denominator(&self) -> (d: u64)
        ensures
            d == self@.den,
            self@.in_unit_interval(),
    {
        proof {
            use_type_invariant(self);
        }
        self.denominator
    }
}

/// The order `<=` on lengths is total.
proof fn lemma_leq_is_total()
    ensures
        total_ordering(|a: u64, b: u64| a <= b),
{
}

/// An ascending rearrangement of `lengths` is the ascending arrangement.
pub proof fn lemma_ascending_is_unique(sorted: Seq<u64>, lengths: Seq<u64>)
    requires
        is_ascending(sorted),
        sorted.to_multiset() == lengths.to_multiset(),
    ensures
        sorted == ascending(lengths),
{
    let leq = |a: u64, b: u64| a <= b;
    lemma_leq_is_total();
    lengths.lemma_sort_by_ensures(leq);
    assert(sorted_by(sorted, leq));
    lemma_sorted_unique(sorted, ascending(lengths), leq);
}

/// The ascending arrangement holds the same lengths, in ascending order, and so
/// has the same total.
pub proof fn lemma_ascending_properties(lengths: Seq<u64>)
    ensures
        is_ascending(ascending(lengths)),
        ascending(lengths).to_multiset() == lengths.to_multiset(),
        ascending(lengths).len() == lengths.len(),
        total(ascending(lengths)) == total(lengths),
{
    let leq = |a: u64, b: u64| a <= b;
    let sorted = ascending(lengths);
    lemma_leq_is_total();
    lengths.lemma_sort_by_ensures(leq);
    assert(is_ascending(sorted)) by {
        assert forall|i: int, j: int| 0 <= i <= j < sorted.len() implies sorted[i] <= sorted[j] by {
            if i < j {
                assert(leq(sorted[i], sorted[j]));
            }
        }
    }
    sorted.to_multiset_ensures();
    lengths.to_multiset_ensures();
    lemma_total_of_rearrangement(sorted, lengths);
}

/// The total does not depend on the order of the lengths.
pub proof fn lemma_total_of_rearrangement(a: Seq<u64>, b: Seq<u64>)
    requires
        a.to_multiset() == b.to_multiset(),
    ensures
        total(a) == total(b),
{
    lemma_fold_left_permutation(a, b, |acc: int, len: u64| acc + len, 0int);
}

/// A total is never negative.
pub proof fn lemma_total_nonnegative(lengths: Seq<u64>)
    ensures
        0 <= total(lengths),
    decreases lengths.len(),
{
    if lengths.len() > 0 {
        lemma_total_nonnegative(lengths.drop_last());
    }
}

/// Prefix totals grow with the prefix and never exceed the total.
pub proof fn lemma_prefix_totals_grow(lengths: Seq<u64>, i: int, j: int)
    requires
        0 <= i <= j <= lengths.len(),
    ensures
        0 <= total(lengths.take(i)) <= total(lengths.take(j)) <= total(lengths),
    decreases lengths.len() - i,
{
    lemma_total_nonnegative(lengths.take(i));
    if i < lengths.len() {
        lemma_total_step(lengths, i);
        lemma_prefix_totals_grow(lengths, i + 1, if i < j { j } else { i + 1 });
    } else {
        lengths.lemma_take_len();
    }
}

/// Extending a prefix by one position adds that position's length to its total.
pub proof fn lemma_total_step(lengths: Seq<u64>, i: int)
    requires
        0 <= i < lengths.len(),
    ensures
        total(lengths.take(i + 1)) == total(lengths.take(i)) + lengths[i],
        cumulative(lengths, i) == total(lengths.take(i)) + lengths[i],
{
    lengths.lemma_take_succ_push(i);
    assert(lengths.take(i + 1).drop_last() =~= lengths.take(i));
}

/// At most one position is the first to exceed the target.
pub proof fn lemma_first_exceeding_is_unique(lengths: Seq<u64>, target: int, j: int, k: int)
    requires
        is_first_exceeding(lengths, target, j),
        is_first_exceeding(lengths, target, k),
    ensures
        j == k,
{
}

/// Knowing the ascending arrangement and the first exceeding position gives the
/// Nx value.
pub proof fn lemma_nx_value_at(lengths: Seq<u64>, sorted: Seq<u64>, target: int, k: int)
    requires
        is_ascending(sorted),
        sorted.to_multiset() == lengths.to_multiset(),
        is_first_exceeding(sorted, target, k),
    ensures
        nx_value(lengths, target) == sorted[k],
{
    lemma_ascending_is_unique(sorted, lengths);
    let chosen = choose|k: int| is_first_exceeding(sorted, target, k);
    lemma_first_exceeding_is_unique(sorted, target, chosen, k);
}

/// The integer part of a fraction below one of a positive total is below the
/// total, and it is never negative.
pub proof fn lemma_target_below_total(fraction: Ratio, total: int)
    requires
        fraction.below_one(),
        0 < total,
    ensures
        0 <= fraction.of(total) < total,
{
    let num = fraction.num as int;
    let den = fraction.den as int;
    assert(0 <= (total * num) / den < total) by (nonlinear_arith)
        requires
            0 <= num < den,
            0 < total,
    ;
}

/// `<[u64]>::sort_unstable`: afterwards the slice holds the same lengths as
/// before, each as often as before, in ascending order.
#[verifier::external_body]
fn sort_ascending(numbers: &mut [u64])
    ensures
        is_ascending(final(numbers)@),
        final(numbers)@.to_multiset() == old(numbers)@.to_multiset(),
{
    numbers.sort_unstable();
}

/// Sum of a slice of lengths.
fn sum_lengths(numbers: &[u64]) -> (sum: u64)
    requires
        total(numbers@) <= u64::MAX,
    ensures
        sum == total(numbers@),
{
    let mut sum: u64 = 0;
    let mut i: usize = 0;
    while i < numbers.len()
        invariant
            i <= numbers@.len(),
            sum == total(numbers@.take(i as int)),
            total(numbers@) <= u64::MAX,
        decreases numbers@.len() - i,
    {
        proof {
            lemma_total_step(numbers@, i as int);
            lemma_prefix_totals_grow(numbers@, i as int + 1, numbers@.len() as int);
        }
        sum = sum + numbers[i];
        i += 1;
    }
    proof {
        numbers@.lemma_take_len();
    }
    sum
}

/// Sum of a slice of lengths, or nothing when the sum does not fit in 64 bits.
fn checked_sum_lengths(numbers: &[u64]) -> (sum: Option<u64>)
    ensures
        sum is Some <==> total(numbers@) <= u64::MAX,
        sum matches Some(s) ==> s == total(numbers@),
{
    let mut sum: u64 = 0;
    let mut i: usize = 0;
    while i < numbers.len()
        invariant
            i <= numbers@.len(),
            sum == total(numbers@.take(i as int)),
        decreases numbers@.len() - i,
    {
        proof {
            lemma_total_step(numbers@, i as int);
            lemma_prefix_totals_grow(numbers@, i as int + 1, numbers@.len() as int);
        }
        match sum.checked_add(numbers[i]) {
            Some(next) => {
                sum = next;
            },
            None => {
                return None;
            },
        }
        i += 1;
    }
    proof {
        numbers@.lemma_take_len();
    }
    Some(sum)
}

/// Length at the first position of `sorted` whose cumulative sum strictly
/// exceeds `target`.
fn first_exceeding(sorted: &[u64], target: u64) -> (nx: u64)
    requires
        target < total(sorted@) <= u64::MAX,
    ensures
        exists|k: int| is_first_exceeding(sorted@, target as int, k) && sorted@[k] == nx,
{
    proof {
        if sorted@.len() == 0 {
            assert(total(sorted@) == 0);
        }
        lemma_total_step(sorted@, 0);
        lemma_prefix_totals_grow(sorted@, 1, 1);
        assert(sorted@.take(0) =~= Seq::<u64>::empty());
        assert(sorted@.len() == sorted.len());
    }
    let mut i: usize = 0;
    let mut sum: u64 = sorted[0];
    while sum <= target
        invariant
            i < sorted@.len() <= usize::MAX,
            sum == cumulative(sorted@, i as int),
            target < total(sorted@) <= u64::MAX,
            forall|j: int| 0 <= j < i ==> cumulative(sorted@, j) <= target,
        decreases sorted@.len() - i,
    {
        proof {
            if i + 1 == sorted@.len() {
                sorted@.lemma_take_len();
            }
            lemma_total_step(sorted@, i as int + 1);
            lemma_prefix_totals_grow(sorted@, i as int + 2, sorted@.len() as int);
        }
        i += 1;
        sum = sum + sorted[i];
    }
    assert(is_first_exceeding(sorted@, target as int, i as int));
    sorted[i]
}

/// The solver proper, for lengths whose sum is known.
fn nx_of_sum(numbers: &mut [u64], sum: u64, fraction: &NxFraction) -> (nx: u64)
    requires
        sum == total(old(numbers)@),
        0 < sum,
        fraction@.below_one(),
    ensures
        final(numbers)@ == ascending(old(numbers)@),
        nx == nx_of(old(numbers)@, fraction@),
{
    let num: u64 = fraction.numerator();
    let den: u64 = fraction.denominator();
    assert(sum * num <= u64::MAX * u64::MAX) by (nonlinear_arith)
        requires
            0 <= sum <= u64::MAX,
            0 <= num <= u64::MAX,
    ;
    let target: u64 = ((sum as u128 * num as u128) / den as u128) as u64;
    sort_ascending(numbers);
    proof {
        lemma_ascending_is_unique(numbers@, old(numbers)@);
        lemma_total_of_rearrangement(numbers@, old(numbers)@);
        lemma_target_below_total(fraction@, sum as int);
    }
    let nx: u64 = first_exceeding(numbers, target);
    proof {
        let k = choose|k: int| is_first_exceeding(numbers@, target as int, k) && numbers@[k] == nx;
        lemma_nx_value_at(old(numbers)@, numbers@, target as int, k);
    }
    nx
}

/// Sorts `numbers` ascending and returns the length at the first position whose
/// cumulative sum strictly exceeds `fraction` of the total.
///
/// For the conventional "N(100x)" over descending lengths, pass the complement
/// `1 - x`.
pub fn get_nx(numbers: &mut [u64], fraction: &NxFraction) -> (nx: u64)
    requires
        0 < total(old(numbers)@) <= u64::MAX,
        fraction@.below_one(),
    ensures
        final(numbers)@ == ascending(old(numbers)@),
        nx == nx_of(old(numbers)@, fraction@),
{
    let sum: u64 = sum_lengths(numbers);
    nx_of_sum(numbers, sum, fraction)
}

/// As [`get_nx`], for any input: nothing is returned, and `numbers` is left as it
/// was, when no cumulative sum can exceed the target (no bases at all, or a
/// fraction of one) or the total does not fit in 64 bits.
pub fn checked_nx(numbers: &mut [u64], fraction: &NxFraction) -> (nx: Option<u64>)
    ensures
        nx is Some <==> 0 < total(old(numbers)@) <= u64::MAX && fraction@.below_one(),
        nx matches Some(v) ==> v == nx_of(old(numbers)@, fraction@),
        final(numbers)@ == if nx is Some {
            ascending(old(numbers)@)
        } else {
            old(numbers)@
        },
{
    if fraction.numerator() >= fraction.denominator() {
        return None;
    }
    match checked_sum_lengths(numbers) {
        Some(sum) => {
            if sum == 0 {
                None
            } else {
                Some(nx_of_sum(numbers, sum, fraction))
            }
        },
        None => None,
    }
}

} // verus!
