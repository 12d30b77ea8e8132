use parse_csv_rs::error::Error;
use parse_csv_rs::paths::{
    ensure_csv_extension, fallback_out_path, file_name_of, is_absolute_path, is_relative,
    parent_dir_of, resolve_if_relative,
};
use parse_csv_rs::resolver::{
    find_match_files_from_regex_path, join_path, parse_user_variable_path, search_directory,
    sort_by_modification_time, FileMeta,
};

fn meta(name: &str, mtime: u128, size: u64) -> FileMeta {
    FileMeta { name: name.to_string(), mtime, size }
}

#[test]
fn test_find_match_files_from_regex_path() {
    // Entries that match and don't match the regex.
    let entries = vec![
        meta("file_123.csv", 10, 1),
        meta("file_456.csv", 20, 2),
        meta("not_a_match.txt", 30, 3),
    ];

    let matches = find_match_files_from_regex_path(&entries, "file_", r"\d+", ".csv");

    let matched_filenames: Vec<String> = matches.iter().map(|e| e.name.clone()).collect();

    assert_eq!(matched_filenames.len(), 2);
    assert!(matched_filenames.contains(&"file_123.csv".to_string()));
    assert!(matched_filenames.contains(&"file_456.csv".to_string()));
    assert!(!matched_filenames.contains(&"not_a_match.txt".to_string()));
}

#[test]
fn test_find_match_rejects_non_matching_middle() {
    // A regex of digits only: a letter middle must be dropped, so a
    // match test that ignored the pattern would be caught here.
    let entries = vec![meta("file_123.csv", 1, 1), meta("file_abc.csv", 2, 2)];
    let matches = find_match_files_from_regex_path(&entries, "file_", "[0-9]+", ".csv");
    assert_eq!(matches.len(), 1);
    assert_eq!(matches[0].name, "file_123.csv");
}

#[test]
fn test_resolution_picks_most_recent() {
    // name_1.csv is older, name_2.csv is newer: the newer one wins.
    let entries = vec![meta("name_1.csv", 100, 5), meta("name_2.csv", 200, 5)];
    let resolved = parse_user_variable_path("/data/name_{[0-9]+}.csv", "/work", &entries).unwrap();
    assert_eq!(resolved, "/data/name_2.csv");
}

#[test]
fn test_resolution_ambiguous_match() {
    // Two files identical in modification time, name and size: a hard
    // error, never a default pick.
    let entries = vec![meta("name_1.csv", 100, 5), meta("name_1.csv", 100, 5)];
    let r = parse_user_variable_path("/data/name_{[0-9]+}.csv", "/work", &entries);
    assert_eq!(r, Err(Error::AmbiguousFileMatch));
}

#[test]
fn test_resolution_no_candidates() {
    // Zero candidate files: a not-found error, never a panic.
    let entries: Vec<FileMeta> = Vec::new();
    let r = parse_user_variable_path("/data/name_{[0-9]+}.csv", "/work", &entries);
    assert_eq!(r, Err(Error::NoMatchingFiles));

    let non_matching = vec![meta("other.txt", 1, 1)];
    let r2 = parse_user_variable_path("/data/name_{[0-9]+}.csv", "/work", &non_matching);
    assert_eq!(r2, Err(Error::NoMatchingFiles));
}

#[test]
fn test_resolution_tie_in_time_broken_by_order() {
    // Same modification time but different names: no error, the first
    // by directory order wins the stable sort.
    let entries = vec![meta("name_5.csv", 100, 5), meta("name_6.csv", 100, 6)];
    let resolved = parse_user_variable_path("/data/name_{[0-9]+}.csv", "/work", &entries).unwrap();
    assert_eq!(resolved, "/data/name_5.csv");
}

#[test]
fn test_resolution_three_way_tie_returns_top() {
    // Only the top two are compared: a third identical candidate does
    // not turn the pick into an error once the top two differ.
    let entries = vec![
        meta("name_1.csv", 100, 5),
        meta("name_2.csv", 200, 5),
        meta("name_1.csv", 100, 5),
    ];
    let resolved = parse_user_variable_path("/data/name_{[0-9]+}.csv", "/work", &entries).unwrap();
    assert_eq!(resolved, "/data/name_2.csv");
}

#[test]
fn test_resolution_literal_path() {
    // Without a placeholder the path is literal: anchored if relative,
    // untouched if absolute, and the listing is never consulted.
    let entries: Vec<FileMeta> = Vec::new();
    let r = parse_user_variable_path("/data/file.csv", "/work", &entries).unwrap();
    assert_eq!(r, "/data/file.csv");

    let r2 = parse_user_variable_path("data\\file.csv", "C:\\work", &entries).unwrap();
    assert_eq!(r2, "C:\\work\\data\\file.csv");
}

#[test]
fn test_resolution_no_parent() {
    // A pattern equal to the working directory anchors to itself and
    // has no parent to search.
    let pattern = "name_{[0-9]+}.csv";
    let r = parse_user_variable_path(pattern, pattern, &Vec::new());
    assert_eq!(r, Err(Error::NoParentPath(pattern.to_string())));
}

#[test]
fn test_search_directory() {
    assert_eq!(
        search_directory("/data/name_{[0-9]+}.csv", "/work").unwrap(),
        Some("/data".to_string())
    );
    assert_eq!(search_directory("/data/file.csv", "/work").unwrap(), None);
}

#[test]
fn test_sort_by_modification_time_is_stable_desc() {
    let sorted = sort_by_modification_time(vec![
        meta("b.csv", 10, 1),
        meta("a.csv", 30, 2),
        meta("c.csv", 10, 3),
    ]);
    let names: Vec<String> = sorted.iter().map(|e| e.name.clone()).collect();
    assert_eq!(names, vec!["a.csv".to_string(), "b.csv".to_string(), "c.csv".to_string()]);
}

#[test]
fn test_path_helpers() {
    assert!(is_absolute_path("/tmp/x"));
    assert!(is_absolute_path("C:\\data\\x.csv"));
    assert!(is_absolute_path("\\\\server\\share"));
    assert!(!is_absolute_path("\\data\\x.csv"));
    assert!(!is_absolute_path("data/x.csv"));

    assert_eq!(resolve_if_relative(".", "C:\\work"), "C:\\work");
    assert_eq!(resolve_if_relative("C:\\work", "C:\\work"), "C:\\work");
    assert_eq!(resolve_if_relative("\\data\\f.csv", "C:\\work"), "C:\\work\\data\\f.csv");
    assert_eq!(resolve_if_relative("data\\f.csv", "C:\\work"), "C:\\work\\data\\f.csv");

    assert_eq!(is_relative("/abs/f.csv", "/work"), "/abs/f.csv");
    assert_eq!(is_relative("f.csv", "/work"), "/work\\f.csv");

    assert_eq!(file_name_of("\\data\\filename.csv"), "filename.csv");
    assert_eq!(file_name_of("filename.csv"), "filename.csv");
    assert_eq!(parent_dir_of("/data/file.csv"), Some("/data".to_string()));
    assert_eq!(parent_dir_of("/file.csv"), Some("/".to_string()));
    assert_eq!(parent_dir_of("file.csv"), None);

    assert_eq!(join_path("/data", "x.csv"), "/data/x.csv");
    assert_eq!(join_path("C:\\data", "x.csv"), "C:\\data\\x.csv");
    assert_eq!(join_path("/data/", "x.csv"), "/data/x.csv");
}

#[test]
fn test_empty_braces_are_no_placeholder() {
    // `{}` holds no interior character, so the pattern is a literal path.
    let entries: Vec<FileMeta> = Vec::new();
    let r = parse_user_variable_path("/data/file_{}.csv", "/work", &entries).unwrap();
    assert_eq!(r, "/data/file_{}.csv");
}

#[test]
fn test_empty_middle_match_is_legal() {
    // A candidate whose middle is the empty string still matches a
    // regular expression that accepts it.
    let entries = vec![meta("file_.csv", 10, 1)];
    let r = parse_user_variable_path("/data/file_{.*}.csv", "/work", &entries).unwrap();
    assert_eq!(r, "/data/file_.csv");
}

#[test]
fn test_fallback_out_path() {
    assert_eq!(fallback_out_path("\\data\\file.csv"), "\\data\\fileout.csv");
    assert_eq!(fallback_out_path("plain"), "plainout");
}

#[test]
fn test_ensure_csv_extension() {
    assert_eq!(ensure_csv_extension("out.txt"), "out.csv");
    assert_eq!(ensure_csv_extension("out"), "out.csv");
    assert_eq!(ensure_csv_extension("dir/out.csv"), "dir/out.csv");
    assert_eq!(ensure_csv_extension("a.tar.gz"), "a.tar.csv");
    assert_eq!(ensure_csv_extension("dir/.csv"), "dir/.csv");
}
