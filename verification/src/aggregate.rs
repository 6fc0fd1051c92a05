//! Folding a stream of reads into exact running totals.
//!
//! A [`StreamAggregator`] accepts reads one at a time until it is finished. Its
//! [`AggregateStats`] are integer sums throughout, and they are a function of the
//! reads consumed and of the quality threshold alone.

use crate::metrics::{
    count_gc_bases, gc_base_count, get_n_bases, get_qual_bases, lemma_counts_within_length,
    lemma_quality_count_above_all, n_base_count, quality_count,
};
use crate::nx::{checked_nx, is_longest, is_shortest, nx_of, total, NxFraction, Ratio};
use crate::phred::{is_quality_cutoff, quality_threshold, PHRED_OFFSET, TABLE_QUALITY_CUTOFF};
use crate::record::{ReadRecord, ReadView};
use vstd::prelude::*;

verus! {

/// The totals of a run, as mathematical values.
pub struct StatsView {
    /// Number of reads.
    pub reads: nat,
    /// Number of bases over all reads.
    pub bases: nat,
    /// Number of N bases over all reads.
    pub n_bases: nat,
    /// Number of G and C bases over all reads.
    pub gc_bases: nat,
    /// Number of quality bytes at or above the threshold over all reads.
    pub quality_pass_bases: nat,
    /// Length of each read, in the order the reads came.
    pub lengths: Seq<u64>,
}

impl StatsView {
    /// The totals before any read.
    pub open spec fn empty() -> StatsView {
        StatsView {
            reads: 0,
            bases: 0,
            n_bases: 0,
            gc_bases: 0,
            quality_pass_bases: 0,
            lengths: Seq::empty(),
        }
    }

    /// The totals after one more read.
    pub open spec fn absorb(self, read: ReadView, threshold: u8) -> StatsView {
        StatsView {
            reads: self.reads + 1,
            bases: self.bases + read.sequence.len(),
            n_bases: self.n_bases + n_base_count(read.sequence),
            gc_bases: self.gc_bases + gc_base_count(read.sequence),
            quality_pass_bases: self.quality_pass_bases + quality_count(read.quality, threshold),
            lengths: self.lengths.push(read.sequence.len() as u64),
        }
    }

    /// What holds of the totals of every run: one length per read, the lengths
    /// add up to the bases, and no count exceeds the bases.
    pub open spec fn is_consistent(self) -> bool {
        &&& self.reads == self.lengths.len()
        &&& self.bases == total(self.lengths)
        &&& self.n_bases <= self.bases
        &&& self.gc_bases <= self.bases
        &&& self.quality_pass_bases <= self.bases
    }
}

/// The totals of a whole sequence of reads.
pub open spec fn summary_of(reads: Seq<ReadView>, threshold: u8) -> StatsView
    decreases reads.len(),
{
    if reads.len() == 0 {
        StatsView::empty()
    } else {
        summary_of(reads.drop_last(), threshold).absorb(reads.last(), threshold)
    }
}

/// Every read is valid: one quality byte per base, and a length that can be
/// counted.
pub open spec fn all_valid(reads: Seq<ReadView>) -> bool {
    forall|i: int| 0 <= i < reads.len() ==> (#[trigger] reads[i]).is_valid()
}

/// One more valid read keeps consistent totals consistent, and no total shrinks.
pub proof fn lemma_absorb_keeps_consistent(stats: StatsView, read: ReadView, threshold: u8)
    requires
        stats.is_consistent(),
        read.is_valid(),
    ensures
        stats.absorb(read, threshold).is_consistent(),
        stats.reads <= stats.absorb(read, threshold).reads,
        stats.bases <= stats.absorb(read, threshold).bases,
        stats.n_bases <= stats.absorb(read, threshold).n_bases,
        stats.gc_bases <= stats.absorb(read, threshold).gc_bases,
        stats.quality_pass_bases <= stats.absorb(read, threshold).quality_pass_bases,
        stats.lengths.is_prefix_of(stats.absorb(read, threshold).lengths),
{
    let len = read.sequence.len() as u64;
    assert(stats.lengths.push(len).drop_last() =~= stats.lengths);
    lemma_counts_within_length(read.sequence, threshold);
    lemma_counts_within_length(read.quality, threshold);
}

/// The totals of valid reads are consistent.
pub proof fn lemma_summary_is_consistent(reads: Seq<ReadView>, threshold: u8)
    requires
        all_valid(reads),
    ensures
        summary_of(reads, threshold).is_consistent(),
    decreases reads.len(),
{
    if reads.len() > 0 {
        lemma_summary_is_consistent(reads.drop_last(), threshold);
        lemma_absorb_keeps_consistent(
            summary_of(reads.drop_last(), threshold),
            reads.last(),
            threshold,
        );
    } else {
        assert(total(Seq::<u64>::empty()) == 0);
    }
}

/// When the threshold lies above every quality byte of every read, no base
/// passes it.
pub proof fn lemma_no_base_passes(reads: Seq<ReadView>, threshold: u8)
    requires
        forall|i: int, j: int|
            0 <= i < reads.len() && 0 <= j < reads[i].quality.len() ==> (
            #[trigger] reads[i].quality[j]) < threshold,
    ensures
        summary_of(reads, threshold).quality_pass_bases == 0,
    decreases reads.len(),
{
    if reads.len() > 0 {
        let rest = reads.drop_last();
        assert forall|i: int, j: int|
            0 <= i < rest.len() && 0 <= j < rest[i].quality.len() implies (
        #[trigger] rest[i].quality[j]) < threshold by {
            assert(rest[i] == reads[i]);
        }
        lemma_no_base_passes(rest, threshold);
        let last = reads.last().quality;
        assert forall|j: int| 0 <= j < last.len() implies last[j] < threshold by {
            assert(reads[reads.len() - 1].quality[j] < threshold);
        }
        lemma_quality_count_above_all(last, threshold);
    }
}

/// The accumulator of one run over one input.
pub struct AggregateStats {
    reads: u64,
    bases: u64,
    n_bases: u64,
    gc_bases: u64,
    quality_pass_bases: u64,
    lengths: Vec<u64>,
}

impl View for AggregateStats {
    type V = StatsView;

    closed spec fn view(&self) -> StatsView {
        StatsView {
            reads: self.reads as nat,
            bases: self.bases as nat,
            n_bases: self.n_bases as nat,
            gc_bases: self.gc_bases as nat,
            quality_pass_bases: self.quality_pass_bases as nat,
            lengths: self.lengths@,
        }
    }
}

impl AggregateStats {
    /// The totals are consistent, and the bases fit in 64 bits.
    pub open spec fn wf(&self) -> bool {
        &&& self@.is_consistent()
        &&& self@.bases <= u64::MAX
    }

    fn new() -> (stats: AggregateStats)
        ensures
            stats@ == StatsView::empty(),
            stats.wf(),
    {
        let stats = AggregateStats {
            reads: 0,
            bases: 0,
            n_bases: 0,
            gc_bases: 0,
            quality_pass_bases: 0,
            lengths: Vec::new(),
        };
        assert(stats@.lengths =~= Seq::<u64>::empty());
        assert(total(Seq::<u64>::empty()) == 0);
        stats
    }

    fn absorb<R: ReadRecord>(&mut self, record: &R, threshold: u8)
        requires
            old(self).wf(),
            old(self)@.bases + record@.sequence.len() <= u64::MAX,
        ensures
            final(self)@ == old(self)@.absorb(record@, threshold),
            final(self).wf(),
            record@.is_valid(),
    {
        let sequence = record.sequence();
        let quality = record.quality();
        let len: u64 = sequence.len() as u64;
        proof {
            lemma_absorb_keeps_consistent(self@, record@, threshold);
        }
        self.lengths.push(len);
        self.reads = self.lengths.len() as u64;
        self.bases = self.bases + len;
        self.n_bases = self.n_bases + get_n_bases(sequence);
        self.gc_bases = self.gc_bases + count_gc_bases(sequence);
        self.quality_pass_bases = self.quality_pass_bases + get_qual_bases(quality, threshold);
    }

    /// Number of reads.
    pub fn reads(&self) -> (reads: u64)
        ensures
            reads == self@.reads,
    {
        self.reads
    }

    /// Number of bases over all reads.
    pub fn bases(&self) -> (bases: u64)
        ensures
            bases == self@.bases,
    {
        self.bases
    }

    /// Number of N bases over all reads.
    pub fn n_bases(&self) -> (n_bases: u64)
        ensures
            n_bases == self@.n_bases,
    {
        self.n_bases
    }

    /// Number of G and C bases over all reads.
    pub fn gc_bases(&self) -> (gc_bases: u64)
        ensures
            gc_bases == self@.gc_bases,
    {
        self.gc_bases
    }

    /// Number of quality bytes at or above the threshold over all reads.
    pub fn quality_pass_bases(&self) -> (quality_pass_bases: u64)
        ensures
            quality_pass_bases == self@.quality_pass_bases,
    {
        self.quality_pass_bases
    }

    /// Length of each read, in the order the reads came.
    pub fn lengths(&self) -> (lengths: &[u64])
        ensures
            lengths@ == self@.lengths,
    {
        self.lengths.as_slice()
    }

    /// The shortest read length, or zero when there are no reads.
    pub fn min_len(&self) -> (shortest: u64)
        ensures
            self@.lengths.len() == 0 ==> shortest == 0,
            self@.lengths.len() > 0 ==> is_shortest(self@.lengths, shortest),
    {
        if self.lengths.len() == 0 {
            return 0;
        }
        let mut shortest: u64 = self.lengths[0];
        let mut i: usize = 1;
        while i < self.lengths.len()
            invariant
                1 <= i <= self.lengths@.len(),
                exists|k: int| 0 <= k < i && self.lengths@[k] == shortest,
                forall|k: int| 0 <= k < i ==> shortest <= self.lengths@[k],
            decreases self.lengths@.len() - i,
        {
            if self.lengths[i] < shortest {
                shortest = self.lengths[i];
            }
            i += 1;
        }
        shortest
    }

    /// The longest read length, or zero when there are no reads.
    pub fn max_len(&self) -> (longest: u64)
        ensures
            self@.lengths.len() == 0 ==> longest == 0,
            self@.lengths.len() > 0 ==> is_longest(self@.lengths, longest),
    {
        if self.lengths.len() == 0 {
            return 0;
        }
        let mut longest: u64 = self.lengths[0];
        let mut i: usize = 1;
        while i < self.lengths.len()
            invariant
                1 <= i <= self.lengths@.len(),
                exists|k: int| 0 <= k < i && self.lengths@[k] == longest,
                forall|k: int| 0 <= k < i ==> self.lengths@[k] <= longest,
            decreases self.lengths@.len() - i,
        {
            if self.lengths[i] > longest {
                longest = self.lengths[i];
            }
            i += 1;
        }
        longest
    }

    /// The Nx value of the read lengths for `fraction` of all bases, or nothing
    /// when there are no bases or the fraction is one. The lengths keep their
    /// order.
    pub fn nx(&self, fraction: &NxFraction) -> (nx: Option<u64>)
        requires
            self.wf(),
        ensures
            nx is Some <==> self@.bases > 0 && fraction@.below_one(),
            nx matches Some(v) ==> v == nx_of(self@.lengths, fraction@),
    {
        let mut sorted = self.lengths.clone();
        assert(sorted@ =~= self.lengths@);
        checked_nx(sorted.as_mut_slice(), fraction)
    }

    /// The N50 of the read lengths, or zero when there are no bases.
    pub fn n50(&self) -> (n50: u64)
        requires
            self.wf(),
        ensures
            n50 == if self@.bases > 0 {
                nx_of(self@.lengths, Ratio::half())
            } else {
                0
            },
    {
        let half = NxFraction::half();
        match self.nx(&half) {
            Some(value) => value,
            None => 0,
        }
    }
}

/// Why a read was not taken.
#[derive(Clone, Copy, Debug, PartialEq, Eq)]
pub enum AggregateError {
    /// The aggregator has been finished.
    Finalized,
    /// The bases would no longer fit in a 64-bit count.
    TooManyBases,
}

/// Where a run stands.
#[derive(Clone, Copy, Debug, PartialEq, Eq)]
pub enum AggregatorState {
    /// Reads are still taken.
    Accumulating,
    /// The input has ended; the totals no longer change.
    Finalized,
}

/// A run as a mathematical value: the reads consumed so far, the threshold they
/// are counted against, and where the run stands.
pub struct AggregatorView {
    pub consumed: Seq<ReadView>,
    pub threshold: u8,
    pub state: AggregatorState,
}

impl AggregatorView {
    /// The totals of the run.
    pub open spec fn stats(self) -> StatsView {
        summary_of(self.consumed, self.threshold)
    }

    /// The run after one more read.
    pub open spec fn push(self, read: ReadView) -> AggregatorView {
        AggregatorView { consumed: self.consumed.push(read), ..self }
    }

    /// The run after the end of the input.
    pub open spec fn finish(self) -> AggregatorView {
        AggregatorView { state: AggregatorState::Finalized, ..self }
    }
}

/// Two runs that consumed the same reads against the same threshold have the
/// same totals, whatever else differs between them.
pub proof fn lemma_same_reads_same_stats(first: AggregatorView, second: AggregatorView)
    requires
        first.consumed == second.consumed,
        first.threshold == second.threshold,
    ensures
        first.stats() == second.stats(),
{
}

/// Consumes a stream of reads once and keeps their totals.
pub struct StreamAggregator {
    stats: AggregateStats,
    threshold: u8,
    finalized: bool,
    consumed: Ghost<Seq<ReadView>>,
}

impl View for StreamAggregator {
    type V = AggregatorView;

    closed spec fn view(&self) -> AggregatorView {
        AggregatorView {
            consumed: self.consumed@,
            threshold: self.threshold,
            state: if self.finalized {
                AggregatorState::Finalized
            } else {
                AggregatorState::Accumulating
            },
        }
    }
}

impl StreamAggregator {
    /// The stored totals are those of the reads consumed.
    pub closed spec fn wf(&self) -> bool {
        &&& self.stats.wf()
        &&& self.stats@ == self@.stats()
        &&& all_valid(self.consumed@)
    }

    /// A run that has consumed nothing yet and counts quality bytes against
    /// `threshold`, the raw byte of the cutoff.
    pub fn new(threshold: u8) -> (aggregator: StreamAggregator)
        ensures
            aggregator.wf(),
            aggregator@.consumed == Seq::<ReadView>::empty(),
            aggregator@.threshold == threshold,
            aggregator@.state == AggregatorState::Accumulating,
    {
        StreamAggregator {
            stats: AggregateStats::new(),
            threshold,
            finalized: false,
            consumed: Ghost(Seq::empty()),
        }
    }

    /// A run that counts quality bytes against a cutoff given as a Phred score,
    /// or nothing when the score is outside `1..=93`.
    pub fn with_cutoff(cutoff: u8) -> (aggregator: Option<StreamAggregator>)
        ensures
            aggregator is Some <==> is_quality_cutoff(cutoff),
            aggregator matches Some(a) ==> {
                &&& a.wf()
                &&& a@.consumed == Seq::<ReadView>::empty()
                &&& a@.threshold == cutoff + PHRED_OFFSET
                &&& a@.state == AggregatorState::Accumulating
            },
    {
        match quality_threshold(cutoff) {
            Some(threshold) => Some(StreamAggregator::new(threshold)),
            None => None,
        }
    }

    /// A run that counts quality bytes against the cutoff of the summary table.
    pub fn for_table() -> (aggregator: StreamAggregator)
        ensures
            aggregator.wf(),
            aggregator@.consumed == Seq::<ReadView>::empty(),
            aggregator@.threshold == TABLE_QUALITY_CUTOFF + PHRED_OFFSET,
            aggregator@.state == AggregatorState::Accumulating,
    {
        StreamAggregator::new(TABLE_QUALITY_CUTOFF + PHRED_OFFSET)
    }

    /// Takes one read into the totals. A finished run takes no reads, and neither
    /// does one whose base count would overflow; both are left as they were.
    pub fn push<R: ReadRecord>(&mut self, record: &R) -> (result: Result<(), AggregateError>)
        requires
            old(self).wf(),
        ensures
            final(self).wf(),
            match result {
                Ok(_) => {
                    &&& old(self)@.state == AggregatorState::Accumulating
                    &&& old(self)@.stats().bases + record@.sequence.len() <= u64::MAX
                    &&& final(self)@ == old(self)@.push(record@)
                },
                Err(AggregateError::Finalized) => {
                    &&& old(self)@.state == AggregatorState::Finalized
                    &&& final(self)@ == old(self)@
                },
                Err(AggregateError::TooManyBases) => {
                    &&& old(self)@.state == AggregatorState::Accumulating
                    &&& old(self)@.stats().bases + record@.sequence.len() > u64::MAX
                    &&& final(self)@ == old(self)@
                },
            },
    {
        if self.finalized {
            return Err(AggregateError::Finalized);
        }
        let len: u64 = record.sequence().len() as u64;
        if len > u64::MAX - self.stats.bases {
            return Err(AggregateError::TooManyBases);
        }
        self.stats.absorb(record, self.threshold);
        proof {
            let ghost before = self.consumed@;
            self.consumed@ = before.push(record@);
            assert(self.consumed@.drop_last() =~= before);
        }
        Ok(())
    }

    /// Ends the run: from now on no read is taken. Ending twice changes nothing.
    pub fn finish(&mut self)
        requires
            old(self).wf(),
        ensures
            final(self).wf(),
            final(self)@ == old(self)@.finish(),
    {
        self.finalized = true;
    }

    /// Where the run stands.
    pub fn state(&self) -> (state: AggregatorState)
        ensures
            state == self@.state,
    {
        if self.finalized {
            AggregatorState::Finalized
        } else {
            AggregatorState::Accumulating
        }
    }

    /// The raw byte that quality bytes are counted against.
    pub fn threshold(&self) -> (threshold: u8)
        ensures
            threshold == self@.threshold,
    {
        self.threshold
    }

    /// The totals of the reads consumed so far.
    pub fn stats(&self) -> (stats: &AggregateStats)
        requires
            self.wf(),
        ensures
            stats@ == self@.stats(),
            stats.wf(),
    {
        &self.stats
    }
}

} // verus!
