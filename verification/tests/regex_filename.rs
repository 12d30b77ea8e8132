use parse_csv_rs::paths::{csv_filename_stem, file_name_of};
use parse_csv_rs::resolver::extract_user_regex;

#[test]
fn test_regex_filename_on_path() {
    let control_name = "filename";

    let t_named_path = "\\data\\filename.csv";
    let t_filename = file_name_of(t_named_path);

    let caps_name = csv_filename_stem(&t_filename).unwrap();
    let n = caps_name.clone();

    assert_eq!(control_name, caps_name);
    assert_eq!(caps_name, n);
    assert_eq!(control_name, &n);
}

#[test]
fn test_regex_only_filename() {
    let control_name = "filename";

    let t_named_path = "filename.csv";
    let t_filename = file_name_of(t_named_path);

    let caps_name = csv_filename_stem(&t_filename).unwrap();

    assert_eq!(control_name, caps_name);
    assert_eq!(control_name, &caps_name);
}

#[test]
fn test_extract_user_regex() {
    let base_path = r"C:\data\file_{.*}.csv";

    let parts = extract_user_regex(base_path).expect("Failed to extract user regex");
    assert_eq!(parts.before_regex, r"C:\data\file_");
    assert_eq!(parts.suffix_ext, ".csv");
    let re = regex::Regex::new(&parts.user_regex).expect("Invalid regex");
    assert!(re.is_match("look Ma regex in production"));
}

#[test]
fn test_extract_user_regex_no_regex() {
    let base_path = r"C:\data\file.csv";

    let parts = extract_user_regex(base_path);
    assert!(parts.is_none());
}

#[test]
fn test_extract_user_regex_invalid_inner() {
    // An interior that does not compile makes the whole pattern literal.
    let base_path = r"C:\data\file_{foo(bar}.csv";

    let parts = extract_user_regex(base_path);
    assert!(parts.is_none());
}

#[test]
fn test_extract_user_regex_lazy_interior() {
    // The interior ends at the first closing brace that leaves it non-empty.
    let parts = extract_user_regex("a{bc}d}e").unwrap();
    assert_eq!(parts.before_regex, "a");
    assert_eq!(parts.user_regex, "bc");
    assert_eq!(parts.suffix_ext, "d}e");
}

#[test]
fn test_csv_filename_stem_keeps_last_match() {
    // The greedy capture runs to the last `.csv`.
    assert_eq!(csv_filename_stem("a.csv.csv").unwrap(), "a.csv");
    assert!(csv_filename_stem("a.txt").is_none());
}
