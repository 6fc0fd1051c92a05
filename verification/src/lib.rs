//! Streaming quality-control statistics for sequencing reads.
//!
//! The crate is split by concern:
//!
//! * [`metrics`] counts bases of one read (N bases, G/C bases, bases at or above a
//!   quality threshold);
//! * [`phred`] holds the rules of the Phred+33 encoding of quality scores;
//! * [`record`] is the record abstraction shared by text and alignment sources;
//! * [`aggregate`] folds a stream of records into exact running totals;
//! * [`nx`] solves the length-weighted percentile (N50 and its generalisations),
//!   and [`nx_laws`] states what holds of its result;
//! * [`progress`] computes the figures shown while a run is under way;
//! * [`config`] holds the choices of one invocation.
//!
//! Everything here works on integers and byte sequences. Ratios, logarithms and
//! text rendering are left to the caller.

pub mod aggregate;
pub mod config;
pub mod metrics;
pub mod nx;
pub mod nx_laws;
pub mod phred;
pub mod progress;
pub mod record;

pub use crate::aggregate::{AggregateError, AggregateStats, AggregatorState, StreamAggregator};
pub use crate::config::{select_mode, select_style, Mode, ModeFlags, OutputStyle};
pub use crate::metrics::{count_gc_bases, get_n_bases, get_qual_bases};
pub use crate::nx::{checked_nx, get_nx, NxFraction};
pub use crate::phred::{quality_threshold, rebase_scores};
pub use crate::progress::reads_per_second;
pub use crate::record::{AlignmentRecord, ReadRecord, TextRecord};
