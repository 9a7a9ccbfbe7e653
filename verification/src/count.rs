//! Counting the positions of a dataset.

use vstd::prelude::*;
use crate::partition::{record_count, spec_record_count, ConfigError};

verus! {

/// What to count.
pub struct Options {
    /// Where the dataset lies.
    pub dataset: String,
}

/// Counts the positions of a dataset of `byte_len` bytes, each record
/// `record_width` bytes wide. A dataset that ends inside a record is
/// refused.
pub fn run(byte_len: u64, record_width: u64) -> (r: Result<u64, ConfigError>)
    ensures
        r == spec_record_count(byte_len, record_width),
        r is Ok <==> record_width > 0 && byte_len % record_width == 0,
        r matches Ok(n) ==> n * record_width == byte_len,
{
    record_count(byte_len, record_width)
}

} // verus!
