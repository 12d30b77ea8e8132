use parse_csv_rs::cli::{Cli, OutputType};
use parse_csv_rs::config::{
    clear_placeholder_keys, cli_valid, extract_cached_config_value, Config,
};
use parse_csv_rs::error::Error;

fn strings(items: &[&str]) -> Vec<String> {
    items.iter().map(|s| s.to_string()).collect()
}

fn empty_cli() -> Cli {
    Cli { source: None, config_file: None, output_type: None, output_path: None, verbosity_level: None }
}

fn base_config() -> Config {
    Config {
        source: "from_file.csv".to_string(),
        output_type: OutputType::Stdout,
        output_path: "from_file_out.txt".to_string(),
        has_headers: true,
        fields: strings(&["__filler", "real"]),
        unique_fields: strings(&["real"]),
        include_cols_with: vec![
            ("__filler_key".to_string(), strings(&["v"])),
            ("real_key".to_string(), strings(&["w"])),
        ],
    }
}

#[test]
fn test_cli_overrides_win_field_by_field() {
    let cli = Cli {
        source: Some("cli.csv".to_string()),
        config_file: None,
        output_type: Some(OutputType::Csv),
        output_path: None,
        verbosity_level: None,
    };
    let merged = cli_valid(base_config(), &cli);
    assert_eq!(merged.source, "cli.csv");
    assert_eq!(merged.output_type, OutputType::Csv);
    assert_eq!(merged.output_path, "from_file_out.txt");
    assert!(merged.has_headers);
}

#[test]
fn test_clear_placeholder_keys() {
    let cleared = clear_placeholder_keys(base_config());
    assert_eq!(cleared.fields, strings(&["real"]));
    assert_eq!(cleared.include_cols_with.len(), 1);
    assert_eq!(cleared.include_cols_with[0].0, "real_key");
    // Unique fields keep placeholder entries: only fields and filter
    // keys are cleared.
    assert_eq!(cleared.unique_fields, strings(&["real"]));
}

#[test]
fn test_config_new_merges_clears_and_fixes_extension() {
    let cli = Cli {
        source: None,
        config_file: None,
        output_type: None,
        output_path: Some("override_out.txt".to_string()),
        verbosity_level: None,
    };
    let config = Config::new(base_config(), &cli);
    assert_eq!(config.source, "from_file.csv");
    assert_eq!(config.output_path, "override_out.csv");
    assert_eq!(config.fields, strings(&["real"]));
    assert_eq!(config.include_cols_with.len(), 1);
}

#[test]
fn test_config_default_is_placeholder_filled() {
    let d = Config::default();
    assert_eq!(d.source, "some\\winodws\\path\\to\\file.csv");
    assert_eq!(d.output_path, "some\\windows\\path\\to\\output.csv");
    assert_eq!(d.output_type, OutputType::Stdout);
    assert!(d.has_headers);
    assert_eq!(d.fields.len(), 4);
    assert!(d.unique_fields.is_empty());
    assert_eq!(d.include_cols_with.len(), 2);

    // Clearing the default leaves no fields and no filters: they are
    // all placeholder filler.
    let cleared = clear_placeholder_keys(Config::new(d, &empty_cli()));
    assert!(cleared.fields.is_empty());
    assert!(cleared.include_cols_with.is_empty());
}

#[test]
fn test_extract_cached_config_value() {
    let cache = vec![
        ("output_path".to_string(), "".to_string()),
        ("source".to_string(), "data.csv".to_string()),
        ("source".to_string(), "other.csv".to_string()),
    ];
    // The first non-default hit wins; an empty value counts as default.
    assert_eq!(extract_cached_config_value(&cache, "source").unwrap(), "data.csv");
    assert_eq!(extract_cached_config_value(&cache, "output_path"), Err(Error::ConfigSource));
    assert_eq!(extract_cached_config_value(&cache, "absent"), Err(Error::ConfigSource));
}

#[test]
fn test_config_duplicate_equals_original() {
    let config = base_config();
    let copy = config.duplicate();
    assert_eq!(copy.source, config.source);
    assert_eq!(copy.output_path, config.output_path);
    assert_eq!(copy.fields, config.fields);
    assert_eq!(copy.unique_fields, config.unique_fields);
    assert_eq!(copy.include_cols_with, config.include_cols_with);
}
