//! The values that arrive from the command line, as plain data.
//!
//! Argument parsing itself happens outside the library; the library only
//! sees the parsed values and merges them over the configuration file.

use vstd::prelude::*;

verus! {

/// The command-line values, each optional: an unset value leaves the
/// configuration file's value untouched.
pub struct Cli {
    /// The source CSV file to parse; overrides the configured source.
    pub source: Option<String>,
    /// The configuration file to use instead of the default one.
    pub config_file: Option<String>,
    /// Where the result goes: standard output or a CSV file.
    pub output_type: Option<OutputType>,
    /// The output file path to use; overrides the configured path.
    pub output_path: Option<String>,
    /// How much the logger prints.
    pub verbosity_level: Option<VerbosityLevel>,
}

/// The verbosity level of the logger, least verbose first.
#[derive(Debug, Clone, Copy, PartialEq, Eq, Structural)]
pub enum VerbosityLevel {
    Error,
    Warn,
    Info,
    Debug,
    Trace,
}

/// Where the retained table is written.
#[derive(Debug, Clone, Copy, PartialEq, Eq, Structural)]
pub enum OutputType {
    /// Write the table to the standard output.
    Stdout,
    /// Write the table to a CSV file.
    Csv,
}

impl OutputType {
    /// The name under which the variant appears in configuration files
    /// and on the command line.
    pub fn name(&self) -> (r: String)
        ensures
            r@ == self.spec_name(),
    {
        match self {
            OutputType::Stdout => String::from_str("stdout"),
            OutputType::Csv => String::from_str("csv"),
        }
    }

    /// What `name` returns for each variant.
    pub open spec fn spec_name(&self) -> Seq<char> {
        match self {
            OutputType::Stdout => "stdout"@,
            OutputType::Csv => "csv"@,
        }
    }

    /// The other variant: toggles between the two output targets.
    pub fn not(self) -> (r: OutputType)
        ensures
            self is Stdout ==> r is Csv,
            self is Csv ==> r is Stdout,
    {
        match self {
            OutputType::Stdout => OutputType::Csv,
            OutputType::Csv => OutputType::Stdout,
        }
    }
}

impl Default for OutputType {
    /// The default output target is the standard output.
    fn default() -> (r: Self)
        ensures
            r is Stdout,
    {
        OutputType::Stdout
    }
}

} // verus!
