//! Counting metrics over the bytes of a single read.
//!
//! Every metric is the number of positions of a byte sequence whose byte satisfies
//! a predicate, so the specifications are stated with `Seq::filter` and the
//! executable functions are single passes that keep a running count.

use vstd::prelude::*;
use vstd::seq_lib::lemma_fold_left_permutation;

verus! {

/// `b` is the ASCII code of `N` or `n`, the placeholder for an unresolved base.
pub open spec fn is_n_base(b: u8) -> bool {
    b == 78 || b == 110
}

/// `b` is the ASCII code of `G`, `g`, `C` or `c`.
pub open spec fn is_gc_base(b: u8) -> bool {
    b == 71 || b == 103 || b == 67 || b == 99
}

/// Number of positions of `seq` that hold an N base.
pub open spec fn n_base_count(seq: Seq<u8>) -> nat {
    seq.filter(|b: u8| is_n_base(b)).len()
}

/// Number of positions of `seq` that hold anything but an N base.
pub open spec fn non_n_base_count(seq: Seq<u8>) -> nat {
    seq.filter(|b: u8| !is_n_base(b)).len()
}

/// Number of positions of `seq` that hold a G or C base.
pub open spec fn gc_base_count(seq: Seq<u8>) -> nat {
    seq.filter(|b: u8| is_gc_base(b)).len()
}

/// Number of positions of `qual` whose byte is at least `threshold`.
pub open spec fn quality_count(qual: Seq<u8>, threshold: u8) -> nat {
    qual.filter(|b: u8| b >= threshold).len()
}

/// Extending a prefix by one position adds one to the count exactly when the new
/// byte satisfies the predicate.
proof fn lemma_count_step(s: Seq<u8>, i: int, pred: spec_fn(u8) -> bool)
    requires
        0 <= i < s.len(),
    ensures
        s.take(i + 1).filter(pred).len() == s.take(i).filter(pred).len() + if pred(s[i]) {
            1int
        } else {
            0int
        },
        s.take(i + 1).filter(pred).len() <= i + 1,
{
    s.lemma_take_succ_push(i);
    s.take(i).lemma_filter_len_push(pred, s[i]);
    s.take(i + 1).lemma_filter_len(pred);
}

/// Every position holds either an N base or something else: the two counts add
/// up to the length.
pub proof fn lemma_n_bases_partition(seq: Seq<u8>)
    ensures
        n_base_count(seq) + non_n_base_count(seq) == seq.len(),
    decreases seq.len(),
{
    if seq.len() == 0 {
        seq.lemma_filter_len(|b: u8| is_n_base(b));
        seq.lemma_filter_len(|b: u8| !is_n_base(b));
    } else {
        let rest = seq.drop_last();
        lemma_n_bases_partition(rest);
        assert(rest.push(seq.last()) =~= seq);
        rest.lemma_filter_len_push(|b: u8| is_n_base(b), seq.last());
        rest.lemma_filter_len_push(|b: u8| !is_n_base(b), seq.last());
    }
}

/// No count exceeds the length, so the G/C share of a non-empty read lies
/// between zero and one.
pub proof fn lemma_counts_within_length(seq: Seq<u8>, threshold: u8)
    ensures
        n_base_count(seq) <= seq.len(),
        gc_base_count(seq) <= seq.len(),
        quality_count(seq, threshold) <= seq.len(),
{
    seq.lemma_filter_len(|b: u8| is_n_base(b));
    seq.lemma_filter_len(|b: u8| is_gc_base(b));
    seq.lemma_filter_len(|b: u8| b >= threshold);
}

/// A threshold above every quality byte is met by none of them.
pub proof fn lemma_quality_count_above_all(qual: Seq<u8>, threshold: u8)
    requires
        forall|i: int| 0 <= i < qual.len() ==> qual[i] < threshold,
    ensures
        quality_count(qual, threshold) == 0,
{
    let passes = |b: u8| b >= threshold;
    assert(qual.all(|b: u8| !passes(b)));
    qual.lemma_all_neg_filter_empty(passes);
}

/// A count is a fold that adds one for each byte kept.
proof fn lemma_count_is_a_fold(s: Seq<u8>, keep: spec_fn(u8) -> bool)
    ensures
        s.filter(keep).len() == s.fold_left(
            0int,
            |acc: int, b: u8|
                if keep(b) {
                    acc + 1
                } else {
                    acc
                },
        ),
    decreases s.len(),
{
    if s.len() > 0 {
        let rest = s.drop_last();
        lemma_count_is_a_fold(rest, keep);
        rest.lemma_filter_len_push(keep, s.last());
        assert(rest.push(s.last()) =~= s);
    } else {
        s.lemma_filter_len(keep);
    }
}

/// A count does not depend on the order of the bytes.
proof fn lemma_count_ignores_order(a: Seq<u8>, b: Seq<u8>, keep: spec_fn(u8) -> bool)
    requires
        a.to_multiset() == b.to_multiset(),
    ensures
        a.filter(keep).len() == b.filter(keep).len(),
{
    let step = |acc: int, b: u8|
        if keep(b) {
            acc + 1
        } else {
            acc
        };
    lemma_count_is_a_fold(a, keep);
    lemma_count_is_a_fold(b, keep);
    lemma_fold_left_permutation(a, b, step, 0int);
}

/// The metrics of a read depend on which bytes it holds and how often, not on
/// where they stand.
pub proof fn lemma_counts_ignore_order(a: Seq<u8>, b: Seq<u8>, threshold: u8)
    requires
        a.to_multiset() == b.to_multiset(),
    ensures
        n_base_count(a) == n_base_count(b),
        gc_base_count(a) == gc_base_count(b),
        quality_count(a, threshold) == quality_count(b, threshold),
{
    lemma_count_ignores_order(a, b, |b: u8| is_n_base(b));
    lemma_count_ignores_order(a, b, |b: u8| is_gc_base(b));
    lemma_count_ignores_order(a, b, |b: u8| b >= threshold);
}

/// Counts the N bases (`N` or `n`) of a read.
pub fn get_n_bases(seq: &[u8]) -> (n: u64)
    ensures
        n == n_base_count(seq@),
        n <= seq@.len(),
{
    let mut n: u64 = 0;
    let mut i: usize = 0;
    while i < seq.len()
        invariant
            i <= seq@.len(),
            n == n_base_count(seq@.take(i as int)),
            n <= i,
        decreases seq@.len() - i,
    {
        proof {
            lemma_count_step(seq@, i as int, |b: u8| is_n_base(b));
        }
        let b: u8 = seq[i];
        if b == 78u8 || b == 110u8 {
            n += 1;
        }
        i += 1;
    }
    proof {
        seq@.lemma_take_len();
    }
    n
}

/// Counts the G and C bases (either case) of a read.
pub fn count_gc_bases(seq: &[u8]) -> (n: u64)
    ensures
        n == gc_base_count(seq@),
        n <= seq@.len(),
{
    let mut n: u64 = 0;
    let mut i: usize = 0;
    while i < seq.len()
        invariant
            i <= seq@.len(),
            n == gc_base_count(seq@.take(i as int)),
            n <= i,
        decreases seq@.len() - i,
    {
        proof {
            lemma_count_step(seq@, i as int, |b: u8| is_gc_base(b));
        }
        let b: u8 = seq[i];
        if b == 103u8 || b == 71u8 || b == 99u8 || b == 67u8 {
            n += 1;
        }
        i += 1;
    }
    proof {
        seq@.lemma_take_len();
    }
    n
}

/// Counts the quality bytes that are at least `qx`, where `qx` is the raw byte of
/// the cutoff (Phred score plus 33).
pub fn get_qual_bases(q: &[u8], qx: u8) -> (n: u64)
    ensures
        n == quality_count(q@, qx),
        n <= q@.len(),
{
    let mut n: u64 = 0;
    let mut i: usize = 0;
    while i < q.len()
        invariant
            i <= q@.len(),
            n == quality_count(q@.take(i as int), qx),
            n <= i,
        decreases q@.len() - i,
    {
        proof {
            lemma_count_step(q@, i as int, |b: u8| b >= qx);
        }
        if q[i] >= qx {
            n += 1;
        }
        i += 1;
    }
    proof {
        q@.lemma_take_len();
    }
    n
}

} // verus!
