//! Collapses maximal runs of adjacent, trim-equal lines of a text stream
//! into single records, each carrying the run's first-occurrence text and,
//! on request, a count prefix — the classic line-deduplicating filter.

pub mod collapse;
pub mod laws;
pub mod render;
pub mod trimmed;

use vstd::prelude::*;

verus! {

/// Run configuration: where lines come from, where records go, and
/// whether each record carries a repetition-count prefix.
pub struct Config {
    pub in_file: String,
    pub out_file: Option<String>,
    pub count: bool,
}

impl Config {
    pub fn new(in_file: String, out_file: Option<String>, count: bool) -> (c: Config)
        ensures
            c.in_file == in_file,
            c.out_file == out_file,
            c.count == count,
    {
        Config { in_file, out_file, count }
    }
}

} // verus!
