use parse_csv_rs::retained::RetainedData;

fn strings(items: &[&str]) -> Vec<String> {
    items.iter().map(|s| s.to_string()).collect()
}

fn write_table(table: &RetainedData) -> Vec<u8> {
    let mut wtr = csv::Writer::from_writer(Vec::new());
    wtr.write_record(&table.retained_headers).unwrap();
    for row in &table.data {
        wtr.write_record(row).unwrap();
    }
    wtr.flush().unwrap();
    wtr.into_inner().unwrap()
}

fn read_table(bytes: &[u8]) -> (Vec<String>, Vec<Vec<String>>) {
    let mut rdr = csv::Reader::from_reader(bytes);
    let headers: Vec<String> = rdr.headers().unwrap().iter().map(|s| s.to_string()).collect();
    let rows: Vec<Vec<String>> = rdr
        .records()
        .map(|r| r.unwrap().iter().map(|s| s.to_string()).collect())
        .collect();
    (headers, rows)
}

#[test]
fn test_csv_round_trip() {
    // Writing a table to CSV and reading it back yields the same
    // headers and rows, quoting aside.
    let mut table = RetainedData::new(2);
    table.retained_headers = strings(&["Header1", "Header2"]);
    table.data = vec![
        strings(&["Value1", "Value2"]),
        strings(&["with,comma", "with \"quote\""]),
        strings(&["multi\nline", "plain"]),
    ];

    let bytes = write_table(&table);
    let (headers, rows) = read_table(&bytes);

    assert_eq!(headers, table.retained_headers);
    assert_eq!(rows, table.data);
}

#[test]
fn test_csv_round_trip_empty_table() {
    // The header row is always written, even for an empty table.
    let mut table = RetainedData::new(1);
    table.retained_headers = strings(&["only"]);

    let bytes = write_table(&table);
    let (headers, rows) = read_table(&bytes);

    assert_eq!(headers, table.retained_headers);
    assert!(rows.is_empty());
}
