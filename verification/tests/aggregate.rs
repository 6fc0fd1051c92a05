use faster2::{
    AggregateError, AggregateStats, AggregatorState, AlignmentRecord, NxFraction, StreamAggregator,
    TextRecord,
};

/// A read of `len` bases that cycles through A, C, G, T with quality `I` throughout.
fn plain_read(len: usize) -> (Vec<u8>, Vec<u8>) {
    let sequence = (0..len).map(|i| b"ACGT"[i % 4]).collect();
    (sequence, vec![b'I'; len])
}

fn aggregate_lengths(lengths: &[usize], cutoff: u8) -> StreamAggregator {
    let mut aggregator = StreamAggregator::with_cutoff(cutoff).unwrap();
    for &len in lengths {
        let (sequence, quality) = plain_read(len);
        let record = TextRecord::new(&sequence, &quality).unwrap();
        assert_eq!(aggregator.push(&record), Ok(()));
    }
    aggregator.finish();
    aggregator
}

fn table_row(stats: &AggregateStats) -> String {
    format!(
        "{}\t{}\t{}\t{}\t{}\t{}",
        stats.reads(),
        stats.bases(),
        stats.n_bases(),
        stats.min_len(),
        stats.max_len(),
        stats.n50()
    )
}

#[test]
fn new_aggregator_has_seen_nothing() {
    let aggregator = StreamAggregator::new(53);
    assert_eq!(aggregator.state(), AggregatorState::Accumulating);
    assert_eq!(aggregator.threshold(), 53);
    let stats = aggregator.stats();
    assert_eq!(stats.reads(), 0);
    assert_eq!(stats.bases(), 0);
    assert_eq!(stats.n_bases(), 0);
    assert_eq!(stats.gc_bases(), 0);
    assert_eq!(stats.quality_pass_bases(), 0);
    assert!(stats.lengths().is_empty());
}

#[test]
fn cutoff_is_offset_by_33() {
    assert_eq!(StreamAggregator::with_cutoff(20).unwrap().threshold(), 53);
    assert_eq!(StreamAggregator::with_cutoff(1).unwrap().threshold(), 34);
    assert_eq!(StreamAggregator::with_cutoff(93).unwrap().threshold(), 126);
}

#[test]
fn table_counts_against_q20() {
    let aggregator = StreamAggregator::for_table();
    assert_eq!(aggregator.threshold(), 53);
    assert_eq!(aggregator.state(), AggregatorState::Accumulating);
    assert_eq!(aggregator.stats().reads(), 0);
}

#[test]
fn cutoff_outside_the_range_is_refused() {
    assert!(StreamAggregator::with_cutoff(0).is_none());
    assert!(StreamAggregator::with_cutoff(94).is_none());
}

#[test]
fn one_read_updates_every_total() {
    let mut aggregator = StreamAggregator::with_cutoff(20).unwrap();
    // qualities: '!' 0, '5' 20, 'I' 40
    let record = TextRecord::new(b"ACGTNngc", b"!!55IIII").unwrap();
    assert_eq!(aggregator.push(&record), Ok(()));
    let stats = aggregator.stats();
    assert_eq!(stats.reads(), 1);
    assert_eq!(stats.bases(), 8);
    assert_eq!(stats.n_bases(), 2);
    assert_eq!(stats.gc_bases(), 4);
    assert_eq!(stats.quality_pass_bases(), 6);
    assert_eq!(stats.lengths(), &[8]);
}

#[test]
fn totals_add_up_over_reads() {
    let mut aggregator = StreamAggregator::with_cutoff(20).unwrap();
    let reads: [(&[u8], &[u8]); 3] =
        [(b"ACGT", b"IIII"), (b"NNNNNN", b"!!!!!!"), (b"GGCCGGCCAT", b"55555!!!!!")];
    for (sequence, quality) in reads {
        let record = TextRecord::new(sequence, quality).unwrap();
        assert_eq!(aggregator.push(&record), Ok(()));
    }
    let stats = aggregator.stats();
    assert_eq!(stats.reads(), 3);
    assert_eq!(stats.bases(), 20);
    assert_eq!(stats.n_bases(), 6);
    assert_eq!(stats.gc_bases(), 10);
    assert_eq!(stats.quality_pass_bases(), 9);
    assert_eq!(stats.lengths(), &[4, 6, 10]);
    assert_eq!(stats.lengths().iter().sum::<u64>(), stats.bases());
    assert_eq!(stats.lengths().len() as u64, stats.reads());
}

#[test]
fn totals_never_shrink() {
    let mut aggregator = StreamAggregator::with_cutoff(20).unwrap();
    let mut before = (0, 0, 0, 0, 0, 0);
    for len in [0usize, 7, 1, 300, 0, 12] {
        let (sequence, quality) = plain_read(len);
        let record = TextRecord::new(&sequence, &quality).unwrap();
        assert_eq!(aggregator.push(&record), Ok(()));
        let stats = aggregator.stats();
        let after = (
            stats.reads(),
            stats.bases(),
            stats.n_bases(),
            stats.gc_bases(),
            stats.quality_pass_bases(),
            stats.lengths().len(),
        );
        assert!(before.0 < after.0);
        assert!(before.1 <= after.1);
        assert!(before.2 <= after.2);
        assert!(before.3 <= after.3);
        assert!(before.4 <= after.4);
        assert_eq!(before.5 + 1, after.5);
        before = after;
    }
}

#[test]
fn lengths_keep_the_order_of_the_reads() {
    let aggregator = aggregate_lengths(&[30, 10, 20], 20);
    let stats = aggregator.stats();
    assert_eq!(stats.lengths(), &[30, 10, 20]);
    assert_eq!(stats.n50(), 30);
    // asking for the N50 leaves the lengths in read order
    assert_eq!(stats.lengths(), &[30, 10, 20]);
}

#[test]
fn finished_aggregator_takes_no_reads() {
    let mut aggregator = aggregate_lengths(&[5, 6], 20);
    assert_eq!(aggregator.state(), AggregatorState::Finalized);
    let record = TextRecord::new(b"ACGT", b"IIII").unwrap();
    assert_eq!(aggregator.push(&record), Err(AggregateError::Finalized));
    let stats = aggregator.stats();
    assert_eq!(stats.reads(), 2);
    assert_eq!(stats.bases(), 11);
    assert_eq!(stats.lengths(), &[5, 6]);
}

#[test]
fn finishing_twice_changes_nothing() {
    let mut aggregator = aggregate_lengths(&[5, 6], 20);
    aggregator.finish();
    assert_eq!(aggregator.state(), AggregatorState::Finalized);
    assert_eq!(aggregator.stats().reads(), 2);
}

#[test]
fn empty_input_is_a_reportable_state() {
    let aggregator = aggregate_lengths(&[], 20);
    let stats = aggregator.stats();
    assert_eq!(table_row(stats), "0\t0\t0\t0\t0\t0");
    assert_eq!(stats.nx(&NxFraction::half()), None);
}

#[test]
fn reads_without_bases_are_counted() {
    let aggregator = aggregate_lengths(&[0, 0], 20);
    let stats = aggregator.stats();
    assert_eq!(stats.reads(), 2);
    assert_eq!(stats.bases(), 0);
    assert_eq!(stats.lengths(), &[0, 0]);
    assert_eq!(stats.n50(), 0);
    assert_eq!(stats.nx(&NxFraction::half()), None);
}

#[test]
fn shortest_and_longest_read() {
    let aggregator = aggregate_lengths(&[358, 1200, 359, 4000, 358], 20);
    let stats = aggregator.stats();
    assert_eq!(stats.min_len(), 358);
    assert_eq!(stats.max_len(), 4000);
}

#[test]
fn shortest_and_longest_of_one_read() {
    let aggregator = aggregate_lengths(&[249], 20);
    let stats = aggregator.stats();
    assert_eq!(stats.min_len(), 249);
    assert_eq!(stats.max_len(), 249);
    assert_eq!(stats.n50(), 249);
}

#[test]
fn nx_of_the_totals() {
    let aggregator = aggregate_lengths(&[40, 10, 30, 20], 20);
    let stats = aggregator.stats();
    assert_eq!(stats.n50(), 30);
    assert_eq!(stats.nx(&NxFraction::half()), Some(30));
    assert_eq!(stats.nx(&NxFraction::new(0, 1).unwrap()), Some(10));
    assert_eq!(stats.nx(&NxFraction::new(9, 10).unwrap()), Some(40));
    assert_eq!(stats.nx(&NxFraction::new(1, 1).unwrap()), None);
    // N90 over descending lengths is the solver's value for one tenth
    let n90 = NxFraction::new(9, 10).unwrap().complement();
    assert_eq!(stats.nx(&n90), Some(20));
}

#[test]
fn ten_reads_make_one_table_row() {
    let lengths = [165, 249, 500, 1000, 1500, 2000, 2500, 3000, 3500, 4517];
    let aggregator = aggregate_lengths(&lengths, 20);
    let stats = aggregator.stats();
    assert_eq!(stats.reads(), 10);
    assert_eq!(stats.bases(), 18931);
    assert_eq!(stats.n_bases(), 0);
    assert_eq!(stats.min_len(), 165);
    assert_eq!(stats.max_len(), 4517);
    // ascending sums: 165 414 914 1914 3414 5414 7914 10914; half of 18931 is 9465
    assert_eq!(stats.n50(), 3000);
    assert_eq!(stats.quality_pass_bases(), 18931);
    assert!(table_row(stats).starts_with("10\t18931\t0\t165"));
    assert!(stats.lengths().contains(&249));
}

#[test]
fn rows_of_two_inputs_add_up() {
    let first = aggregate_lengths(&[358, 400, 512, 640, 700, 810, 900, 1000, 1100, 1280], 20);
    let second = aggregate_lengths(&[360, 500, 600, 650, 720, 800, 850, 1016, 1200, 1300], 20);
    let (a, b) = (first.stats(), second.stats());
    assert_eq!((a.reads(), a.bases(), a.n_bases()), (10, 7700, 0));
    assert_eq!((b.reads(), b.bases(), b.n_bases()), (10, 7996, 0));
    assert_eq!(a.reads() + b.reads(), 20);
    assert_eq!(a.bases() + b.bases(), 15696);
    assert_eq!(a.n_bases() + b.n_bases(), 0);
    assert_eq!(a.min_len(), 358);
}

#[test]
fn two_runs_over_the_same_reads_agree() {
    let lengths = [12, 0, 7, 7, 300, 1];
    let first = aggregate_lengths(&lengths, 30);
    let second = aggregate_lengths(&lengths, 30);
    let (a, b) = (first.stats(), second.stats());
    assert_eq!(a.reads(), b.reads());
    assert_eq!(a.bases(), b.bases());
    assert_eq!(a.n_bases(), b.n_bases());
    assert_eq!(a.gc_bases(), b.gc_bases());
    assert_eq!(a.quality_pass_bases(), b.quality_pass_bases());
    assert_eq!(a.lengths(), b.lengths());
    assert_eq!(a.n50(), b.n50());
}

#[test]
fn no_base_passes_a_cutoff_beyond_the_best_quality() {
    let mut aggregator = StreamAggregator::with_cutoff(93).unwrap();
    let reads: [(&[u8], &[u8]); 2] = [(b"ACGT", b"IIII"), (b"ACGTAC", b"!5I}5!")];
    for (sequence, quality) in reads {
        let record = TextRecord::new(sequence, quality).unwrap();
        assert_eq!(aggregator.push(&record), Ok(()));
    }
    assert_eq!(aggregator.stats().bases(), 10);
    assert_eq!(aggregator.stats().quality_pass_bases(), 0);
}

#[test]
fn quality_is_counted_against_the_threshold_given() {
    let reads: [(&[u8], &[u8]); 2] = [(b"ACGT", b"5555"), (b"ACGT", b"4!I6")];
    let mut expected = vec![];
    for threshold in [0u8, 52, 53, 54, 73, 74, 255] {
        let mut aggregator = StreamAggregator::new(threshold);
        for (sequence, quality) in reads {
            let record = TextRecord::new(sequence, quality).unwrap();
            assert_eq!(aggregator.push(&record), Ok(()));
        }
        expected.push(aggregator.stats().quality_pass_bases());
    }
    assert_eq!(expected, vec![8, 7, 6, 2, 1, 0, 0]);
}

#[test]
fn text_and_alignment_reads_count_alike() {
    let mut from_text = StreamAggregator::with_cutoff(20).unwrap();
    let mut from_alignment = StreamAggregator::with_cutoff(20).unwrap();
    let text = TextRecord::new(b"GATTNCA", b"!5I5!II").unwrap();
    let alignment = AlignmentRecord::new(b"GATTNCA".to_vec(), &[0, 20, 40, 20, 0, 40, 40]).unwrap();
    assert_eq!(from_text.push(&text), Ok(()));
    assert_eq!(from_alignment.push(&alignment), Ok(()));
    let (a, b) = (from_text.stats(), from_alignment.stats());
    assert_eq!(a.bases(), b.bases());
    assert_eq!(a.n_bases(), b.n_bases());
    assert_eq!(a.gc_bases(), b.gc_bases());
    assert_eq!(a.quality_pass_bases(), b.quality_pass_bases());
    assert_eq!(b.quality_pass_bases(), 5);
}
