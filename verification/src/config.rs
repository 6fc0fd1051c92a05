//! The configuration of one invocation: what is computed, and how a summary is
//! written out.

use vstd::prelude::*;

verus! {

/// What one invocation computes.
#[derive(Clone, Copy, Debug, PartialEq, Eq)]
pub enum Mode {
    /// The length of each read.
    Lengths,
    /// The mean quality of each read.
    MeanQuality,
    /// The G/C share of each read.
    GcContent,
    /// The Nx value of each input.
    Nx,
    /// The share of bases at or above a quality cutoff.
    QualityYield,
    /// The summary of each input.
    Table,
}

/// The mode selectors as given: one flag per mode.
#[derive(Clone, Copy, Debug, PartialEq, Eq)]
pub struct ModeFlags {
    pub len: bool,
    pub qual: bool,
    pub gc: bool,
    pub nx: bool,
    pub qyield: bool,
    pub table: bool,
}

impl ModeFlags {
    /// The mode that the selectors stand for: that of the first selector given, in
    /// the order of the fields. Nothing is selected when no selector is given.
    pub open spec fn selected(self) -> Option<Mode> {
        if self.len {
            Some(Mode::Lengths)
        } else if self.qual {
            Some(Mode::MeanQuality)
        } else if self.gc {
            Some(Mode::GcContent)
        } else if self.nx {
            Some(Mode::Nx)
        } else if self.qyield {
            Some(Mode::QualityYield)
        } else if self.table {
            Some(Mode::Table)
        } else {
            None
        }
    }
}

impl Mode {
    /// The mode goes through every input given. The other modes stop after the
    /// first.
    pub open spec fn reads_every_input(self) -> bool {
        self is Nx || self is Table
    }

    /// Whether the mode goes through every input given.
    pub fn takes_every_input(&self) -> (every: bool)
        ensures
            every == self.reads_every_input(),
    {
        match self {
            Mode::Nx => true,
            Mode::Table => true,
            _ => false,
        }
    }
}

/// The mode that the selectors given stand for.
pub fn select_mode(flags: &ModeFlags) -> (mode: Option<Mode>)
    ensures
        mode == flags.selected(),
{
    if flags.len {
        Some(Mode::Lengths)
    } else if flags.qual {
        Some(Mode::MeanQuality)
    } else if flags.gc {
        Some(Mode::GcContent)
    } else if flags.nx {
        Some(Mode::Nx)
    } else if flags.qyield {
        Some(Mode::QualityYield)
    } else if flags.table {
        Some(Mode::Table)
    } else {
        None
    }
}

/// How a summary is written out. One style is in force per invocation.
#[derive(Clone, Copy, Debug, PartialEq, Eq)]
pub enum OutputStyle {
    /// Tab-separated values.
    Tsv,
    /// A table with aligned columns.
    Pretty,
    /// One JSON object per input.
    Json,
}

/// The style in force: the table when asked for, else JSON when asked for, else
/// tab-separated values.
pub fn select_style(pretty: bool, json: bool) -> (style: OutputStyle)
    ensures
        pretty ==> style == OutputStyle::Pretty,
        !pretty && json ==> style == OutputStyle::Json,
        !pretty && !json ==> style == OutputStyle::Tsv,
{
    if pretty {
        OutputStyle::Pretty
    } else if json {
        OutputStyle::Json
    } else {
        OutputStyle::Tsv
    }
}

/// With a single selector given, its mode is the one selected.
pub proof fn lemma_single_selector(flags: ModeFlags)
    ensures
        flags.len && !flags.qual && !flags.gc && !flags.nx && !flags.qyield && !flags.table
            ==> flags.selected() == Some(Mode::Lengths),
        !flags.len && flags.qual && !flags.gc && !flags.nx && !flags.qyield && !flags.table
            ==> flags.selected() == Some(Mode::MeanQuality),
        !flags.len && !flags.qual && flags.gc && !flags.nx && !flags.qyield && !flags.table
            ==> flags.selected() == Some(Mode::GcContent),
        !flags.len && !flags.qual && !flags.gc && flags.nx && !flags.qyield && !flags.table
            ==> flags.selected() == Some(Mode::Nx),
        !flags.len && !flags.qual && !flags.gc && !flags.nx && flags.qyield && !flags.table
            ==> flags.selected() == Some(Mode::QualityYield),
        !flags.len && !flags.qual && !flags.gc && !flags.nx && !flags.qyield && flags.table
            ==> flags.selected() == Some(Mode::Table),
{
}

} // verus!
