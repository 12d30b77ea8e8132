//! Where the retained table is written once processing is done.

use vstd::prelude::*;

use crate::cli::OutputType;

verus! {

/// The output destination: a target kind and, for file output, a path.
pub struct OutputData {
    /// Standard output or a CSV file.
    pub output_type: OutputType,
    /// The path of the output file; ignored for standard output.
    pub output_path: String,
}

impl OutputData {
    /// Packs a destination from its two parts.
    pub fn new(output_type: OutputType, output_path: String) -> (r: Self)
        ensures
            r.output_type == output_type,
            r.output_path == output_path,
    {
        Self { output_type, output_path }
    }
}

} // verus!
