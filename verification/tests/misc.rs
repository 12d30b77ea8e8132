use parse_csv_rs::cli::{OutputType, VerbosityLevel};
use parse_csv_rs::error::Error;
use parse_csv_rs::folder_types::{AbsolouteFilePath, FolderPath, OutPathShape, SimpleFilename};
use parse_csv_rs::levenshtein::levenshtein_distance_matrix;
use parse_csv_rs::output::OutputData;
use parse_csv_rs::prelude::{first_author, W, CLI_ENV_PREFIX, DEFAULT_CONFIG_DIR, DEFAULT_CONFIG_FILE};
use parse_csv_rs::retained::RetainedData;

#[test]
fn test_levenshtein_distances() {
    assert_eq!(levenshtein_distance_matrix("abc", "abx"), 1);
    assert_eq!(levenshtein_distance_matrix("abc", "axx"), 2);
    assert_eq!(levenshtein_distance_matrix("", "abc"), 3);
    assert_eq!(levenshtein_distance_matrix("abc", ""), 3);
    assert_eq!(levenshtein_distance_matrix("", ""), 0);
    assert_eq!(levenshtein_distance_matrix("kitten", "sitting"), 3);
    assert_eq!(levenshtein_distance_matrix("same", "same"), 0);
}

#[test]
fn test_output_type() {
    assert_eq!(OutputType::Stdout.name(), "stdout");
    assert_eq!(OutputType::Csv.name(), "csv");
    assert_eq!(OutputType::default(), OutputType::Stdout);
    assert_eq!(OutputType::Stdout.not(), OutputType::Csv);
    assert_eq!(OutputType::Csv.not(), OutputType::Stdout);
}

#[test]
fn test_verbosity_levels_distinct() {
    assert_ne!(VerbosityLevel::Error, VerbosityLevel::Trace);
    assert_eq!(VerbosityLevel::Info, VerbosityLevel::Info);
}

#[test]
fn test_error_messages() {
    assert_eq!(Error::NoMatchingFiles.message(), "No matching files found");
    assert_eq!(
        Error::NoParentPath("x".to_string()).message(),
        "Failed to find a parent path for the provided path: x"
    );
    assert_eq!(Error::ConfigSource.message(), "Failed to parse config 'source'");
    assert!(Error::AmbiguousFileMatch.message().starts_with("Ambiguous file match"));
    assert!(Error::MissingUniqueField("f".to_string()).message().ends_with("Failed on: f"));
}

#[test]
fn test_folder_type_classifications() {
    assert_eq!(SimpleFilename::from_path("output.csv"), SimpleFilename::SimpleFileNameWithExt);
    assert_eq!(SimpleFilename::from_path("output"), SimpleFilename::SimpleFileName);

    assert_eq!(
        AbsolouteFilePath::from_path("C:\\some\\path\\"),
        AbsolouteFilePath::AbsoloutePathNoFile
    );
    assert_eq!(
        AbsolouteFilePath::from_path("C:\\some\\path\\file.csv"),
        AbsolouteFilePath::AbsoloutePathWithFile
    );

    assert_eq!(FolderPath::from_path("\\some\\path\\"), FolderPath::FolderNoFile);

    assert_eq!(
        OutPathShape::from_path("output.csv"),
        OutPathShape::SimpleFile(SimpleFilename::SimpleFileNameWithExt)
    );
    assert_eq!(
        OutPathShape::from_path("output"),
        OutPathShape::SimpleFile(SimpleFilename::SimpleFileName)
    );
}

#[test]
fn test_first_author() {
    assert_eq!(first_author("Blake B. <blake@example.com>:Second Author"), "Blake");
    assert_eq!(first_author("solo"), "solo");
    assert_eq!(first_author(""), "");
}

#[test]
fn test_output_data_and_retained_new() {
    let out = OutputData::new(OutputType::Csv, "o.csv".to_string());
    assert_eq!(out.output_type, OutputType::Csv);
    assert_eq!(out.output_path, "o.csv");

    let data = RetainedData::new(7);
    assert!(data.all_headers.is_empty());
    assert!(data.retained_headers.is_empty());
    assert!(data.data.is_empty());
}

#[test]
fn test_constants_and_wrapper() {
    assert_eq!(CLI_ENV_PREFIX, "CSV_CLI");
    assert_eq!(DEFAULT_CONFIG_DIR, "config");
    assert_eq!(DEFAULT_CONFIG_FILE, "config.json");
    let wrapped = W(3u32);
    assert_eq!(wrapped.0, 3);
}
