use parse_csv_rs::cli::OutputType;
use parse_csv_rs::config::Config;
use parse_csv_rs::error::Error;
use parse_csv_rs::handler::CsvHandler;
use parse_csv_rs::processor::CsvProcessor;
use parse_csv_rs::retained::RetainedData;

fn strings(items: &[&str]) -> Vec<String> {
    items.iter().map(|s| s.to_string()).collect()
}

fn config_with(
    fields: &[&str],
    unique_fields: &[&str],
    allow_lists: &[(&str, &[&str])],
) -> Config {
    Config {
        source: "in.csv".to_string(),
        output_type: OutputType::Stdout,
        output_path: "out.csv".to_string(),
        has_headers: true,
        fields: strings(fields),
        unique_fields: strings(unique_fields),
        include_cols_with: allow_lists
            .iter()
            .map(|(k, vs)| (k.to_string(), strings(vs)))
            .collect(),
    }
}

#[test]
fn test_scenario_filter_and_retain() {
    // fields = ["id", "status"], include_cols_with = {"status": ["active"]}:
    // of the rows (1, active) and (2, closed), only the first survives.
    let config = config_with(&["id", "status"], &[], &[("status", &["active"])]);
    let headers = strings(&["id", "status"]);
    let mut data = RetainedData::new(config.fields.len());
    let handler = CsvHandler::new(&config, &mut data, &headers);

    let rows = vec![strings(&["1", "active"]), strings(&["2", "closed"])];
    CsvProcessor::process(&mut data, &handler, &rows);

    assert_eq!(data.retained_headers, strings(&["id", "status"]));
    assert_eq!(data.data, vec![strings(&["1", "active"])]);
}

#[test]
fn test_retained_headers_follow_header_order() {
    // Output column order follows the file's header order, not the
    // configuration's listing order.
    let config = config_with(&["c", "a"], &[], &[]);
    let headers = strings(&["a", "b", "c"]);
    let mut data = RetainedData::new(2);
    let _handler = CsvHandler::new(&config, &mut data, &headers);
    assert_eq!(data.retained_headers, strings(&["a", "c"]));
    assert_eq!(data.all_headers, strings(&["a", "b", "c"]));
}

#[test]
fn test_row_passes_empty_filters() {
    let config = config_with(&["a"], &[], &[]);
    let headers = strings(&["a"]);
    let mut data = RetainedData::new(1);
    let handler = CsvHandler::new(&config, &mut data, &headers);
    assert!(handler.row_passes_filters(&strings(&["anything"])));
    assert!(handler.row_passes_filters(&strings(&[])));
}

#[test]
fn test_row_passes_exact_match_only() {
    // Case-sensitive, untrimmed, exact membership.
    let config = config_with(&["a"], &[], &[("a", &["yes", "maybe"])]);
    let headers = strings(&["a"]);
    let mut data = RetainedData::new(1);
    let handler = CsvHandler::new(&config, &mut data, &headers);
    assert!(handler.row_passes_filters(&strings(&["yes"])));
    assert!(handler.row_passes_filters(&strings(&["maybe"])));
    assert!(!handler.row_passes_filters(&strings(&["Yes"])));
    assert!(!handler.row_passes_filters(&strings(&["yes "])));
    assert!(!handler.row_passes_filters(&strings(&["no"])));
}

#[test]
fn test_row_passes_missing_cell_reads_empty() {
    // A missing cell reads as the empty string and is matched exactly.
    let config = config_with(&["a", "b"], &[], &[("b", &[""])]);
    let headers = strings(&["a", "b"]);
    let mut data = RetainedData::new(2);
    let handler = CsvHandler::new(&config, &mut data, &headers);
    assert!(handler.row_passes_filters(&strings(&["only-a"])));

    let config2 = config_with(&["a", "b"], &[], &[("b", &["x"])]);
    let mut data2 = RetainedData::new(2);
    let handler2 = CsvHandler::new(&config2, &mut data2, &headers);
    assert!(!handler2.row_passes_filters(&strings(&["only-a"])));
}

#[test]
fn test_keep_columns_total_on_short_rows() {
    // Out-of-range positions become empty strings; nothing panics.
    let config = config_with(&["a", "c"], &[], &[]);
    let headers = strings(&["a", "b", "c"]);
    let mut data = RetainedData::new(2);
    let handler = CsvHandler::new(&config, &mut data, &headers);
    assert_eq!(handler.keep_columns(&strings(&["1", "2", "3"])), strings(&["1", "3"]));
    assert_eq!(handler.keep_columns(&strings(&["1"])), strings(&["1", ""]));
    assert_eq!(handler.keep_columns(&strings(&[])), strings(&["", ""]));
}

#[test]
fn test_keep_columns_idempotent_on_retained() {
    // Retention applied again, through an engine rebuilt over the
    // retained headers, changes nothing.
    let config = config_with(&["a", "c"], &[], &[]);
    let headers = strings(&["a", "b", "c"]);
    let mut data = RetainedData::new(2);
    let handler = CsvHandler::new(&config, &mut data, &headers);
    let once = handler.keep_columns(&strings(&["1", "2", "3"]));

    let mut data2 = RetainedData::new(2);
    let handler2 = CsvHandler::new(&config, &mut data2, &data.retained_headers);
    let twice = handler2.keep_columns(&once);
    assert_eq!(once, twice);
}

#[test]
fn test_dedup_single_field() {
    // Over unique_fields = ["A"]: at most one row per distinct value of
    // column A, in first-seen order.
    let config = config_with(&["A", "B"], &["A"], &[]);
    let headers = strings(&["A", "B"]);
    let mut data = RetainedData::new(2);
    let _handler = CsvHandler::new(&config, &mut data, &headers);
    data.data = vec![
        strings(&["x", "1"]),
        strings(&["y", "2"]),
        strings(&["x", "3"]),
        strings(&["z", "4"]),
        strings(&["y", "5"]),
    ];
    let mut processor = CsvProcessor::new(&config);
    processor.deduplicate(&mut data).unwrap();
    assert_eq!(
        data.data,
        vec![strings(&["x", "1"]), strings(&["y", "2"]), strings(&["z", "4"])]
    );
}

#[test]
fn test_dedup_shared_seen_set_across_fields() {
    // The seen-set is shared across successive unique fields: a value
    // first seen under column A also suppresses rows under column B.
    let config = config_with(&["A", "B"], &["A", "B"], &[]);
    let headers = strings(&["A", "B"]);
    let mut data = RetainedData::new(2);
    let _handler = CsvHandler::new(&config, &mut data, &headers);
    data.data = vec![strings(&["v", "w"]), strings(&["u", "v"])];
    let mut processor = CsvProcessor::new(&config);
    processor.deduplicate(&mut data).unwrap();
    // Pass over A keeps both ("v", "u" fresh) and seeds the set; the
    // pass over B then drops the second row: its "v" was already seen.
    assert_eq!(data.data, vec![strings(&["v", "w"])]);
}

#[test]
fn test_dedup_missing_field_is_fatal() {
    let config = config_with(&["A"], &["missing"], &[]);
    let headers = strings(&["A"]);
    let mut data = RetainedData::new(1);
    let _handler = CsvHandler::new(&config, &mut data, &headers);
    data.data = vec![strings(&["x"])];
    let mut processor = CsvProcessor::new(&config);
    let r = processor.deduplicate(&mut data);
    assert_eq!(r, Err(Error::MissingUniqueField("missing".to_string())));
}

#[test]
fn test_dedup_no_fields_is_noop() {
    let config = config_with(&["A"], &[], &[]);
    let headers = strings(&["A"]);
    let mut data = RetainedData::new(1);
    let _handler = CsvHandler::new(&config, &mut data, &headers);
    data.data = vec![strings(&["x"]), strings(&["x"])];
    let mut processor = CsvProcessor::new(&config);
    processor.deduplicate(&mut data).unwrap();
    assert_eq!(data.data, vec![strings(&["x"]), strings(&["x"])]);
}

#[test]
fn test_duplicate_headers_both_retained() {
    let config = config_with(&["a"], &[], &[]);
    let headers = strings(&["a", "a"]);
    let mut data = RetainedData::new(1);
    let handler = CsvHandler::new(&config, &mut data, &headers);
    assert_eq!(data.retained_headers, strings(&["a", "a"]));
    assert_eq!(handler.keep_columns(&strings(&["1", "2"])), strings(&["1", "2"]));
}
