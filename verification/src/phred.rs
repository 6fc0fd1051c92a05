//! The Phred+33 text encoding of quality scores.
//!
//! A quality byte is the Phred score plus 33. Cutoffs are given as scores and
//! compared as bytes; scores that arrive zero-based are rebased before use.

use vstd::prelude::*;

verus! {

/// Offset between a Phred score and its byte in the text encoding.
pub const PHRED_OFFSET: u8 = 33;

/// Smallest accepted quality cutoff, as a Phred score.
pub const MIN_QUALITY_CUTOFF: u8 = 1;

/// Largest accepted quality cutoff, as a Phred score.
pub const MAX_QUALITY_CUTOFF: u8 = 93;

/// Quality cutoff of the summary table, as a Phred score.
pub const TABLE_QUALITY_CUTOFF: u8 = 20;

/// Largest zero-based score whose Phred+33 byte still fits in a byte.
pub const MAX_REBASABLE_SCORE: u8 = 222;

/// A Phred score that may serve as a quality cutoff.
pub open spec fn is_quality_cutoff(score: u8) -> bool {
    MIN_QUALITY_CUTOFF <= score <= MAX_QUALITY_CUTOFF
}

/// Every score can be moved to Phred+33 without leaving the byte range.
pub open spec fn is_rebasable(scores: Seq<u8>) -> bool {
    forall|i: int| 0 <= i < scores.len() ==> scores[i] <= MAX_REBASABLE_SCORE
}

/// Zero-based scores moved to Phred+33: each score plus 33.
pub open spec fn rebased(scores: Seq<u8>) -> Seq<u8> {
    Seq::new(scores.len(), |i: int| (scores[i] + PHRED_OFFSET) as u8)
}

/// The byte to compare quality bytes with for a cutoff given as a Phred score:
/// the score plus 33. Scores outside `1..=93` are not cutoffs.
pub fn quality_threshold(cutoff: u8) -> (threshold: Option<u8>)
    ensures
        threshold is Some <==> is_quality_cutoff(cutoff),
        threshold matches Some(t) ==> t == cutoff + PHRED_OFFSET,
{
    if MIN_QUALITY_CUTOFF <= cutoff && cutoff <= MAX_QUALITY_CUTOFF {
        Some(cutoff + PHRED_OFFSET)
    } else {
        None
    }
}

/// Moves zero-based scores to Phred+33, or returns nothing when a score is too
/// large for its byte to exist.
pub fn rebase_scores(scores: &[u8]) -> (quality: Option<Vec<u8>>)
    ensures
        quality is Some <==> is_rebasable(scores@),
        quality matches Some(q) ==> q@ == rebased(scores@),
{
    let mut quality: Vec<u8> = Vec::with_capacity(scores.len());
    let mut i: usize = 0;
    while i < scores.len()
        invariant
            i <= scores@.len(),
            quality@.len() == i,
            forall|j: int| 0 <= j < i ==> scores@[j] <= MAX_REBASABLE_SCORE,
            forall|j: int| 0 <= j < i ==> quality@[j] == scores@[j] + PHRED_OFFSET,
        decreases scores@.len() - i,
    {
        let score: u8 = scores[i];
        if score > MAX_REBASABLE_SCORE {
            return None;
        }
        quality.push(score + PHRED_OFFSET);
        i += 1;
    }
    assert(quality@ =~= rebased(scores@));
    Some(quality)
}

} // verus!
