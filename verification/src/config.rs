//! The configuration model: the settings the pipeline runs under, the
//! merge of command-line values over the configuration file, and the
//! clean-up of placeholder entries.
//!
//! Loading the configuration file itself is the caller's business; the
//! library receives the parsed values and applies the rules.

use vstd::prelude::*;

use crate::cli::{Cli, OutputType};
use crate::error::Error;
use crate::paths::{ensure_csv_extension, spec_ensure_csv_extension};
use crate::strutil::{lemma_filter_push, str_eq, str_starts_with, views};

verus! {

/// The settings for one run of the pipeline.
pub struct Config {
    /// The source path, possibly holding one `{regex}` placeholder.
    pub source: String,
    /// Where the result goes.
    pub output_type: OutputType,
    /// The destination path for file output.
    pub output_path: String,
    /// Whether the first row of the source is a header row.
    pub has_headers: bool,
    /// The column names to retain, in configuration order.
    pub fields: Vec<String>,
    /// The column names rows are deduplicated by, in order.
    pub unique_fields: Vec<String>,
    /// For each filtered column, the values a row may hold there.
    pub include_cols_with: Vec<(String, Vec<String>)>,
}

/// The views of a list of per-column allow-lists.
pub open spec fn pair_views(s: Seq<(String, Vec<String>)>) -> Seq<(Seq<char>, Seq<Seq<char>>)> {
    s.map_values(|p: (String, Vec<String>)| (p.0@, views(p.1@)))
}

/// Whether a configured name is placeholder filler, to be stripped
/// before use.
pub open spec fn is_placeholder(s: Seq<char>) -> bool {
    "__"@.is_prefix_of(s)
}

/// What stripping the placeholder entries leaves of the retained-field
/// list.
pub open spec fn spec_cleared_fields(fields: Seq<String>) -> Seq<String> {
    fields.filter(|f: String| !is_placeholder(f@))
}

/// What stripping the placeholder keys leaves of the allow-lists.
pub open spec fn spec_cleared_filters(
    pairs: Seq<(String, Vec<String>)>,
) -> Seq<(String, Vec<String>)> {
    pairs.filter(|p: (String, Vec<String>)| !is_placeholder(p.0@))
}

/// Removes the fields and the filter keys that start with the
/// placeholder prefix `__`: those are default filler, not real columns.
pub fn clear_placeholder_keys(config: Config) -> (r: Config)
    ensures
        r.source == config.source,
        r.output_type == config.output_type,
        r.output_path == config.output_path,
        r.has_headers == config.has_headers,
        r.unique_fields == config.unique_fields,
        r.fields@ == spec_cleared_fields(config.fields@),
        r.include_cols_with@ == spec_cleared_filters(config.include_cols_with@),
{
    let Config { source, output_type, output_path, has_headers, fields, unique_fields, include_cols_with } =
        config;
    let ghost orig_fields = fields@;
    let mut rest = fields;
    let mut kept_fields: Vec<String> = Vec::new();
    let ghost mut done: int = 0;
    proof {
        assert(orig_fields.skip(0) =~= orig_fields);
        assert(orig_fields.take(0) =~= Seq::<String>::empty());
        reveal(Seq::filter);
    }
    while rest.len() > 0
        invariant
            0 <= done <= orig_fields.len(),
            rest@ == orig_fields.skip(done),
            kept_fields@ == spec_cleared_fields(orig_fields.take(done)),
        decreases rest@.len(),
    {
        let f = rest.remove(0);
        proof {
            assert(orig_fields.skip(done)[0] == orig_fields[done]);
            assert(rest@ =~= orig_fields.skip(done + 1));
            assert(orig_fields.take(done + 1) =~= orig_fields.take(done).push(f));
            lemma_filter_push(orig_fields.take(done), |x: String| !is_placeholder(x@), f);
        }
        if !str_starts_with(f.as_str(), "__") {
            kept_fields.push(f);
        }
        proof {
            done = done + 1;
        }
    }
    proof {
        assert(orig_fields.take(orig_fields.len() as int) =~= orig_fields);
    }

    let ghost orig_pairs = include_cols_with@;
    let mut rest_pairs = include_cols_with;
    let mut kept_pairs: Vec<(String, Vec<String>)> = Vec::new();
    let ghost mut done_pairs: int = 0;
    proof {
        assert(orig_pairs.skip(0) =~= orig_pairs);
        assert(orig_pairs.take(0) =~= Seq::<(String, Vec<String>)>::empty());
        reveal(Seq::filter);
    }
    while rest_pairs.len() > 0
        invariant
            0 <= done_pairs <= orig_pairs.len(),
            rest_pairs@ == orig_pairs.skip(done_pairs),
            kept_pairs@ == spec_cleared_filters(orig_pairs.take(done_pairs)),
        decreases rest_pairs@.len(),
    {
        let p = rest_pairs.remove(0);
        proof {
            assert(orig_pairs.skip(done_pairs)[0] == orig_pairs[done_pairs]);
            assert(rest_pairs@ =~= orig_pairs.skip(done_pairs + 1));
            assert(orig_pairs.take(done_pairs + 1) =~= orig_pairs.take(done_pairs).push(p));
            lemma_filter_push(
                orig_pairs.take(done_pairs),
                |x: (String, Vec<String>)| !is_placeholder(x.0@),
                p,
            );
        }
        if !str_starts_with(p.0.as_str(), "__") {
            kept_pairs.push(p);
        }
        proof {
            done_pairs = done_pairs + 1;
        }
    }
    proof {
        assert(orig_pairs.take(orig_pairs.len() as int) =~= orig_pairs);
    }

    Config {
        source,
        output_type,
        output_path,
        has_headers,
        fields: kept_fields,
        unique_fields,
        include_cols_with: kept_pairs,
    }
}

/// Overrides the configured values with whatever the command line set:
/// source, output type and output path, each on its own.
pub fn cli_valid(config: Config, cli: &Cli) -> (r: Config)
    ensures
        r.source == (if cli.source is Some { cli.source->0 } else { config.source }),
        r.output_type == (if cli.output_type is Some { cli.output_type->0 } else { config.output_type }),
        r.output_path == (if cli.output_path is Some { cli.output_path->0 } else { config.output_path }),
        r.has_headers == config.has_headers,
        r.fields == config.fields,
        r.unique_fields == config.unique_fields,
        r.include_cols_with == config.include_cols_with,
{
    let source = match &cli.source {
        Some(s) => s.clone(),
        None => config.source,
    };
    let output_type = match &cli.output_type {
        Some(t) => *t,
        None => config.output_type,
    };
    let output_path = match &cli.output_path {
        Some(p) => p.clone(),
        None => config.output_path,
    };
    Config {
        source,
        output_type,
        output_path,
        has_headers: config.has_headers,
        fields: config.fields,
        unique_fields: config.unique_fields,
        include_cols_with: config.include_cols_with,
    }
}

impl Config {
    /// Builds the effective configuration: the command-line values win
    /// over the file's values field by field, placeholder filler is
    /// stripped, and the output path is forced to a `csv` extension.
    pub fn new(file_config: Config, cli: &Cli) -> (r: Config)
        ensures
            r.source == (if cli.source is Some { cli.source->0 } else { file_config.source }),
            r.output_type == (if cli.output_type is Some {
                cli.output_type->0
            } else {
                file_config.output_type
            }),
            r.output_path@ == spec_ensure_csv_extension(
                if cli.output_path is Some { cli.output_path->0@ } else { file_config.output_path@ },
            ),
            r.has_headers == file_config.has_headers,
            r.unique_fields == file_config.unique_fields,
            r.fields@ == spec_cleared_fields(file_config.fields@),
            r.include_cols_with@ == spec_cleared_filters(file_config.include_cols_with@),
    {
        let merged = cli_valid(file_config, cli);
        let cleared = clear_placeholder_keys(merged);
        let output_path = ensure_csv_extension(cleared.output_path.as_str());
        Config {
            source: cleared.source,
            output_type: cleared.output_type,
            output_path,
            has_headers: cleared.has_headers,
            fields: cleared.fields,
            unique_fields: cleared.unique_fields,
            include_cols_with: cleared.include_cols_with,
        }
    }
}

/// The placeholder field names the default configuration is filled with.
pub open spec fn default_fields() -> Seq<Seq<char>> {
    seq![
        "__fields_to_retain_always"@,
        "__fields_to_retain_always2"@,
        "__fields_to_retain_always3"@,
        "__fields_to_retain_always4"@,
    ]
}

/// The placeholder allow-list values of the default configuration.
pub open spec fn default_filter_values() -> Seq<Seq<char>> {
    seq![
        "__value_of_field_to_filter_for"@,
        "__value_of_field_to_filter_for2"@,
        "__value_of_field_to_filter_for3"@,
    ]
}

/// The placeholder allow-lists of the default configuration.
pub open spec fn default_filters() -> Seq<(Seq<char>, Seq<Seq<char>>)> {
    seq![
        ("__fields_that_need_filtering_for_values"@, default_filter_values()),
        ("__fields_that_need_filtering_for_values_two"@, default_filter_values()),
    ]
}

impl Default for Config {
    /// The placeholder-filled configuration that is generated for the
    /// user when no configuration file exists yet.
    fn default() -> (r: Self)
        ensures
            r.source@ == "some\\winodws\\path\\to\\file.csv"@,
            r.output_type is Stdout,
            r.output_path@ == "some\\windows\\path\\to\\output.csv"@,
            r.has_headers == true,
            views(r.fields@) == default_fields(),
            r.unique_fields@.len() == 0,
            pair_views(r.include_cols_with@) == default_filters(),
    {
        let mut fields: Vec<String> = Vec::new();
        fields.push(String::from_str("__fields_to_retain_always"));
        fields.push(String::from_str("__fields_to_retain_always2"));
        fields.push(String::from_str("__fields_to_retain_always3"));
        fields.push(String::from_str("__fields_to_retain_always4"));
        proof {
            assert(views(fields@) =~= default_fields());
        }

        let mut values_one: Vec<String> = Vec::new();
        values_one.push(String::from_str("__value_of_field_to_filter_for"));
        values_one.push(String::from_str("__value_of_field_to_filter_for2"));
        values_one.push(String::from_str("__value_of_field_to_filter_for3"));
        proof {
            assert(views(values_one@) =~= default_filter_values());
        }
        let mut values_two: Vec<String> = Vec::new();
        values_two.push(String::from_str("__value_of_field_to_filter_for"));
        values_two.push(String::from_str("__value_of_field_to_filter_for2"));
        values_two.push(String::from_str("__value_of_field_to_filter_for3"));
        proof {
            assert(views(values_two@) =~= default_filter_values());
        }

        let mut include_cols_with: Vec<(String, Vec<String>)> = Vec::new();
        include_cols_with.push((String::from_str("__fields_that_need_filtering_for_values"), values_one));
        include_cols_with.push((
            String::from_str("__fields_that_need_filtering_for_values_two"),
            values_two,
        ));
        proof {
            assert(pair_views(include_cols_with@) =~= default_filters());
        }

        Config {
            source: String::from_str("some\\winodws\\path\\to\\file.csv"),
            output_type: OutputType::Stdout,
            output_path: String::from_str("some\\windows\\path\\to\\output.csv"),
            has_headers: true,
            fields,
            unique_fields: Vec::new(),
            include_cols_with,
        }
    }
}

/// Whether the cache entry at `i` answers a lookup for `key`: the key
/// matches and the value is not the default (rendered empty).
pub open spec fn cache_hit(cache: Seq<(String, String)>, i: int, key: Seq<char>) -> bool {
    cache[i].0@ == key && cache[i].1@ != Seq::<char>::empty()
}

/// Looks a key up in the cached configuration table, skipping entries
/// whose value is still the default: the first hit's value comes back,
/// and `ConfigSource` when no entry answers.
pub fn extract_cached_config_value(cache: &Vec<(String, String)>, find_key_for: &str) -> (r: Result<
    String,
    Error,
>)
    ensures
        match r {
            Ok(v) => exists|i: int|
                0 <= i < cache@.len() && cache_hit(cache@, i, find_key_for@) && v@ == cache@[i].1@
                    && forall|k: int| 0 <= k < i ==> !cache_hit(cache@, k, find_key_for@),
            Err(e) => e == Error::ConfigSource && forall|i: int|
                0 <= i < cache@.len() ==> !cache_hit(cache@, i, find_key_for@),
        },
{
    let mut i: usize = 0;
    while i < cache.len()
        invariant
            i <= cache@.len(),
            forall|k: int| 0 <= k < i ==> !cache_hit(cache@, k, find_key_for@),
        decreases cache@.len() - i,
    {
        let entry = &cache[i];
        if str_eq(entry.0.as_str(), find_key_for) && entry.1.as_str().unicode_len() > 0 {
            assert(cache_hit(cache@, i as int, find_key_for@));
            return Ok(entry.1.clone());
        }
        proof {
            if cache@[i as int].1@.len() == 0 {
                assert(cache@[i as int].1@ =~= Seq::<char>::empty());
            }
            assert(!cache_hit(cache@, i as int, find_key_for@));
        }
        i += 1;
    }
    Err(Error::ConfigSource)
}

} // verus!
