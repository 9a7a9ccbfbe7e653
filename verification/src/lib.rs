//! Verified building blocks for scanning datasets of fixed-width chess
//! position records: statistics accumulation, deterministic partitioning,
//! tablebase-assisted relabelling.

pub mod bits;
pub mod count;
pub mod data_to_txt;
pub mod input_features;
pub mod partition;
pub mod position;
pub mod record;
pub mod rescore;
pub mod scan;
pub mod stats;
pub mod tablebases;

use vstd::prelude::*;

verus! {

/// A command of the tool set, with its options.
pub enum Options {
    /// Export a dataset as text.
    DataToTxt(data_to_txt::Options),
    /// Count the positions of a dataset.
    Count(count::Options),
    /// Report statistics about a dataset.
    Stats(stats::Options),
    /// Rescore the positions of a dataset with tablebases.
    Rescore(rescore::Options),
}

} // verus!
