//! The errors that the library's own logic reports.

use vstd::prelude::*;

verus! {

/// The failures that can come out of the verified pipeline itself.
///
/// I/O failures, configuration-file parse failures and CSV-structure
/// failures arise outside the library and are reported by the caller;
/// the variants here are the ones the library's own rules produce.
#[derive(Debug, PartialEq, Eq)]
pub enum Error {
    /// A configured value was asked for but the cache holds no
    /// non-default entry under that key.
    ConfigSource,
    /// A path pattern has no parent directory to search in.
    NoParentPath(String),
    /// No file in the search directory matched the pattern.
    NoMatchingFiles,
    /// The two best candidate files agree in modification time, name
    /// and size, so no single best match exists.
    AmbiguousFileMatch,
    /// A configured deduplication key names no retained column.
    MissingUniqueField(String),
}

impl Error {
    /// A short message for the user, one per variant.
    pub fn message(&self) -> (r: String)
        ensures
            r@ == self.spec_message(),
    {
        match self {
            Error::ConfigSource => String::from_str("Failed to parse config 'source'"),
            Error::NoParentPath(p) => {
                let mut m = String::from_str("Failed to find a parent path for the provided path: ");
                m.append(p.as_str());
                m
            },
            Error::NoMatchingFiles => String::from_str("No matching files found"),
            Error::AmbiguousFileMatch => String::from_str(
                "Ambiguous file match - Two files have the exact same name, modified timestamp and size",
            ),
            Error::MissingUniqueField(f) => {
                let mut m = String::from_str(
                    "Csv file headers are missing fields or are unevenly distributed. Failed on: ",
                );
                m.append(f.as_str());
                m
            },
        }
    }

    /// What `message` returns, variant by variant.
    pub open spec fn spec_message(&self) -> Seq<char> {
        match self {
            Error::ConfigSource => "Failed to parse config 'source'"@,
            Error::NoParentPath(p) => "Failed to find a parent path for the provided path: "@ + p@,
            Error::NoMatchingFiles => "No matching files found"@,
            Error::AmbiguousFileMatch =>
                "Ambiguous file match - Two files have the exact same name, modified timestamp and size"@,
            Error::MissingUniqueField(f) =>
                "Csv file headers are missing fields or are unevenly distributed. Failed on: "@ + f@,
        }
    }
}

} // verus!
