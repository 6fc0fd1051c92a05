//! Figures for reporting progress while a run is under way.

use vstd::prelude::*;

verus! {

/// Reads per second after `reads` reads in `elapsed_millis` milliseconds: the
/// whole number of reads per millisecond, times a thousand, and zero while no
/// millisecond has passed.
pub open spec fn throughput(reads: u64, elapsed_millis: u128) -> int {
    if elapsed_millis == 0 {
        0
    } else {
        (reads as int / elapsed_millis as int) * 1000
    }
}

/// Reads per second after `reads` reads in `elapsed_millis` milliseconds.
pub fn reads_per_second(reads: u64, elapsed_millis: u128) -> (speed: u128)
    ensures
        speed == throughput(reads, elapsed_millis),
{
    if elapsed_millis == 0 {
        0
    } else {
        let per_milli: u128 = reads as u128 / elapsed_millis;
        assert(per_milli <= reads) by (nonlinear_arith)
            requires
                per_milli == reads as int / elapsed_millis as int,
                0 < elapsed_millis,
        ;
        per_milli * 1000
    }
}

} // verus!
