//! One sequencing read, independent of where it came from.
//!
//! A record exposes its bases and its Phred+33 quality bytes, one quality byte per
//! base. Text sources lend their lines as they are; alignment sources own their
//! bytes, because their scores are stored zero-based and have to be rebased.

use crate::phred::{is_rebasable, rebase_scores, rebased};
use vstd::prelude::*;

verus! {

/// The content of a read: its bases and its quality bytes.
pub struct ReadView {
    pub sequence: Seq<u8>,
    pub quality: Seq<u8>,
}

impl ReadView {
    /// There is exactly one quality byte per base, and the bases can be counted
    /// in 64 bits.
    pub open spec fn is_valid(self) -> bool {
        &&& self.sequence.len() == self.quality.len()
        &&& self.sequence.len() <= u64::MAX
    }
}

/// A read as the statistics see it.
pub trait ReadRecord: View<V = ReadView> {
    /// The nucleotide codes of the read.
    fn sequence(&self) -> (sequence: &[u8])
        ensures
            sequence@ == self@.sequence,
            self@.is_valid(),
    ;

    /// The quality bytes of the read, Phred+33 encoded.
    fn quality(&self) -> (quality: &[u8])
        ensures
            quality@ == self@.quality,
            self@.is_valid(),
    ;
}

/// A read of a text source: the sequence and quality lines, borrowed verbatim.
pub struct TextRecord<'a> {
    sequence: &'a [u8],
    quality: &'a [u8],
}

impl<'a> View for TextRecord<'a> {
    type V = ReadView;

    closed spec fn view(&self) -> ReadView {
        ReadView { sequence: self.sequence@, quality: self.quality@ }
    }
}

impl<'a> TextRecord<'a> {
    #[verifier::type_invariant]
    spec fn paired(self) -> bool {
        self.sequence@.len() == self.quality@.len()
    }

    /// The read with the given lines, or nothing when the two differ in length.
    pub fn new(sequence: &'a [u8], quality: &'a [u8]) -> (record: Option<TextRecord<'a>>)
        ensures
            record is Some <==> sequence@.len() == quality@.len(),
            record matches Some(r) ==> r@.sequence == sequence@ && r@.quality == quality@
                && r@.is_valid(),
    {
        if sequence.len() == quality.len() {
            Some(TextRecord { sequence, quality })
        } else {
            None
        }
    }
}

impl<'a> ReadRecord for TextRecord<'a> {
    fn sequence(&self) -> (sequence: &[u8]) {
        proof {
            use_type_invariant(self);
            assert(self.sequence.len() == self.sequence@.len());
        }
        self.sequence
    }

    fn quality(&self) -> (quality: &[u8]) {
        proof {
            use_type_invariant(self);
            assert(self.sequence.len() == self.sequence@.len());
        }
        self.quality
    }
}

/// A read of an alignment source: the materialised bases, and the quality bytes
/// obtained by rebasing the stored zero-based scores to Phred+33.
pub struct AlignmentRecord {
    sequence: Vec<u8>,
    quality: Vec<u8>,
}

impl View for AlignmentRecord {
    type V = ReadView;

    closed spec fn view(&self) -> ReadView {
        ReadView { sequence: self.sequence@, quality: self.quality@ }
    }
}

impl AlignmentRecord {
    #[verifier::type_invariant]
    spec fn paired(self) -> bool {
        self.sequence@.len() == self.quality@.len()
    }

    /// The read with the given bases and zero-based scores, or nothing when the
    /// two differ in length or a score cannot be rebased.
    pub fn new(sequence: Vec<u8>, scores: &[u8]) -> (record: Option<AlignmentRecord>)
        ensures
            record is Some <==> sequence@.len() == scores@.len() && is_rebasable(scores@),
            record matches Some(r) ==> r@.sequence == sequence@ && r@.quality == rebased(
                scores@,
            ) && r@.is_valid(),
    {
        if sequence.len() != scores.len() {
            return None;
        }
        match rebase_scores(scores) {
            Some(quality) => Some(AlignmentRecord { sequence, quality }),
            None => None,
        }
    }
}

impl ReadRecord for AlignmentRecord {
    fn sequence(&self) -> (sequence: &[u8]) {
        proof {
            use_type_invariant(self);
            assert(self.sequence.len() == self.sequence@.len());
        }
        self.sequence.as_slice()
    }

    fn quality(&self) -> (quality: &[u8]) {
        proof {
            use_type_invariant(self);
            assert(self.sequence.len() == self.sequence@.len());
        }
        self.quality.as_slice()
    }
}

} // verus!
