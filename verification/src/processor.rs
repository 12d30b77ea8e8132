//! Row processing and deduplication.
//!
//! Processing runs every data row through the filter engine and keeps
//! the retained columns of the rows that pass. Deduplication then
//! prunes the table by the configured key columns, one pass per column
//! in configuration order, all passes sharing one seen-set: a value
//! seen while deduplicating an earlier key also suppresses rows under a
//! later key. The sharing is deliberate — the passes compound rather
//! than deduplicate each key on its own.

use vstd::prelude::*;

use crate::cli::OutputType;
use crate::config::{pair_views, Config};
use crate::error::Error;
use crate::handler::{cell, fidxs_view, idxs_view, spec_keep, spec_row_passes, CsvHandler};
use crate::retained::{rows_views, RetainedData};
use crate::strutil::{clone_string_vec, str_eq, views};

verus! {

/// One deduplication pass over the rows, left to right: a row stays
/// exactly when its key cell (the cell in column `col`) has not been
/// seen before; every key cell that goes by enters the seen-set.
pub open spec fn dedup_one(
    rows: Seq<Seq<Seq<char>>>,
    col: int,
    seen: Set<Seq<char>>,
) -> (Seq<Seq<Seq<char>>>, Set<Seq<char>>)
    decreases rows.len(),
{
    if rows.len() == 0 {
        (rows, seen)
    } else {
        let v = cell(rows[0], col);
        if seen.contains(v) {
            dedup_one(rows.drop_first(), col, seen)
        } else {
            let rest = dedup_one(rows.drop_first(), col, seen.insert(v));
            (seq![rows[0]] + rest.0, rest.1)
        }
    }
}

/// The first position of `x` in `s`, if any.
pub open spec fn spec_position(s: Seq<Seq<char>>, x: Seq<char>) -> Option<int>
    decreases s.len(),
{
    if s.len() == 0 {
        None
    } else if s[0] == x {
        Some(0int)
    } else {
        match spec_position(s.drop_first(), x) {
            Some(i) => Some(i + 1),
            None => None,
        }
    }
}

/// Deduplication over all key columns in order, with the one shared
/// seen-set. The third component names the first key column missing
/// from the headers, at which point processing stops.
pub open spec fn spec_dedup_fields(
    rows: Seq<Seq<Seq<char>>>,
    headers: Seq<Seq<char>>,
    fields: Seq<Seq<char>>,
    seen: Set<Seq<char>>,
) -> (Seq<Seq<Seq<char>>>, Set<Seq<char>>, Option<Seq<char>>)
    decreases fields.len(),
{
    if fields.len() == 0 {
        (rows, seen, None)
    } else {
        match spec_position(headers, fields[0]) {
            None => (rows, seen, Some(fields[0])),
            Some(c) => {
                let pass = dedup_one(rows, c, seen);
                spec_dedup_fields(pass.0, headers, fields.drop_first(), pass.1)
            },
        }
    }
}

/// What processing leaves of the incoming rows: the retained columns of
/// every row that passes the filters, in row order.
pub open spec fn spec_process(
    rows: Seq<Seq<Seq<char>>>,
    idxs: Seq<int>,
    filters: Seq<(int, Seq<Seq<char>>)>,
) -> Seq<Seq<Seq<char>>>
    decreases rows.len(),
{
    if rows.len() == 0 {
        Seq::empty()
    } else {
        let rest = spec_process(rows.drop_first(), idxs, filters);
        if spec_row_passes(rows[0], filters) {
            seq![spec_keep(rows[0], idxs)] + rest
        } else {
            rest
        }
    }
}

/// The processor: the configuration the run was started with.
pub struct CsvProcessor {
    /// The settings of the run, owned outright.
    pub config: Config,
}

impl Config {
    /// A copy of the configuration, equal to the original wherever the
    /// contracts look.
    pub fn duplicate(&self) -> (r: Config)
        ensures
            r.source == self.source,
            r.output_type == self.output_type,
            r.output_path == self.output_path,
            r.has_headers == self.has_headers,
            r.fields@ == self.fields@,
            r.unique_fields@ == self.unique_fields@,
            pair_views(r.include_cols_with@) == pair_views(self.include_cols_with@),
    {
        let mut pairs: Vec<(String, Vec<String>)> = Vec::new();
        let mut i: usize = 0;
        while i < self.include_cols_with.len()
            invariant
                i <= self.include_cols_with@.len(),
                pair_views(pairs@) == pair_views(self.include_cols_with@.take(i as int)),
            decreases self.include_cols_with@.len() - i,
        {
            let entry = &self.include_cols_with[i];
            let key = entry.0.clone();
            let vals = clone_string_vec(&entry.1);
            let ghost before = pairs@;
            pairs.push((key, vals));
            proof {
                assert(pair_views(before).len() == before.len());
                assert(pair_views(self.include_cols_with@.take(i as int)).len() == i);
                assert(before.len() == i);
                assert forall|j: int| 0 <= j < i + 1 implies pair_views(pairs@)[j] == pair_views(
                    self.include_cols_with@.take(i + 1),
                )[j] by {
                    if j < i {
                        assert(pairs@[j] == before[j]);
                        assert(pair_views(before)[j] == (before[j].0@, views(before[j].1@)));
                        assert(self.include_cols_with@.take(i as int)[j]
                            == self.include_cols_with@.take(i + 1)[j]);
                        assert(pair_views(self.include_cols_with@.take(i as int))[j]
                            == pair_views(self.include_cols_with@.take(i + 1))[j]);
                    } else {
                        assert(pairs@[j] == (key, vals));
                        assert(self.include_cols_with@.take(i + 1)[j] == self.include_cols_with@[j]);
                    }
                }
                assert(pair_views(pairs@) =~= pair_views(self.include_cols_with@.take(i + 1)));
            }
            i += 1;
        }
        proof {
            assert(self.include_cols_with@.take(self.include_cols_with@.len() as int)
                =~= self.include_cols_with@);
        }
        Config {
            source: self.source.clone(),
            output_type: match self.output_type {
                OutputType::Stdout => OutputType::Stdout,
                OutputType::Csv => OutputType::Csv,
            },
            output_path: self.output_path.clone(),
            has_headers: self.has_headers,
            fields: clone_string_vec(&self.fields),
            unique_fields: clone_string_vec(&self.unique_fields),
            include_cols_with: pairs,
        }
    }
}

/// The first position in `headers` whose text equals `name`.
fn find_position(headers: &Vec<String>, name: &str) -> (r: Option<usize>)
    ensures
        match r {
            Some(i) => i < headers@.len() && spec_position(views(headers@), name@) == Some(i as int),
            None => spec_position(views(headers@), name@) is None,
        },
{
    let mut i: usize = 0;
    while i < headers.len()
        invariant
            i <= headers@.len(),
            forall|k: int| 0 <= k < i ==> views(headers@)[k] != name@,
        decreases headers@.len() - i,
    {
        if str_eq(headers[i].as_str(), name) {
            proof {
                assert(views(headers@)[i as int] == name@);
                lemma_position_found(views(headers@), name@, i as int);
            }
            return Some(i);
        }
        assert(views(headers@)[i as int] != name@);
        i += 1;
    }
    proof {
        lemma_position_missing(views(headers@), name@);
    }
    None
}

/// A sequence whose prefix misses `x` has its first hit where it stands.
proof fn lemma_position_found(s: Seq<Seq<char>>, x: Seq<char>, i: int)
    requires
        0 <= i < s.len(),
        s[i] == x,
        forall|k: int| 0 <= k < i ==> s[k] != x,
    ensures
        spec_position(s, x) == Some(i),
    decreases s.len(),
{
    if i > 0 {
        lemma_position_found(s.drop_first(), x, i - 1);
    }
}

/// A sequence without `x` has no position for it.
proof fn lemma_position_missing(s: Seq<Seq<char>>, x: Seq<char>)
    requires
        forall|k: int| 0 <= k < s.len() ==> s[k] != x,
    ensures
        spec_position(s, x) is None,
    decreases s.len(),
{
    if s.len() > 0 {
        lemma_position_missing(s.drop_first(), x);
    }
}

impl CsvProcessor {
    /// A processor over a copy of the given configuration.
    pub fn new(config: &Config) -> (r: Self)
        ensures
            r.config.source == config.source,
            r.config.output_type == config.output_type,
            r.config.output_path == config.output_path,
            r.config.has_headers == config.has_headers,
            r.config.fields@ == config.fields@,
            r.config.unique_fields@ == config.unique_fields@,
            pair_views(r.config.include_cols_with@) == pair_views(config.include_cols_with@),
    {
        Self { config: config.duplicate() }
    }

    /// Runs every row through the filters and appends the retained
    /// columns of each passing row to the table.
    pub fn process(
        retained_data: &mut RetainedData,
        handler: &CsvHandler,
        rows: &Vec<Vec<String>>,
    )
        ensures
            rows_views(final(retained_data).data@) == rows_views(old(retained_data).data@)
                + spec_process(
                rows_views(rows@),
                idxs_view(handler.field_idxs@),
                fidxs_view(handler.filter_idxs@),
            ),
            final(retained_data).all_headers == old(retained_data).all_headers,
            final(retained_data).retained_headers == old(retained_data).retained_headers,
    {
        let ghost all = rows_views(rows@);
        let ghost idxs = idxs_view(handler.field_idxs@);
        let ghost filters = fidxs_view(handler.filter_idxs@);
        let ghost data0 = rows_views(retained_data.data@);
        proof {
            assert(all.skip(0) =~= all);
        }
        let mut i: usize = 0;
        while i < rows.len()
            invariant
                i <= rows@.len(),
                all == rows_views(rows@),
                idxs == idxs_view(handler.field_idxs@),
                filters == fidxs_view(handler.filter_idxs@),
                data0 + spec_process(all, idxs, filters) == rows_views(retained_data.data@)
                    + spec_process(all.skip(i as int), idxs, filters),
                retained_data.all_headers == old(retained_data).all_headers,
                retained_data.retained_headers == old(retained_data).retained_headers,
            decreases rows@.len() - i,
        {
            let record = &rows[i];
            proof {
                assert(all.skip(i as int)[0] == all[i as int]);
                assert(all[i as int] == views(record@));
                assert(all.skip(i as int).drop_first() =~= all.skip(i + 1));
            }
            if handler.row_passes_filters(record) {
                let kept = handler.keep_columns(record);
                let ghost before = retained_data.data@;
                retained_data.data.push(kept);
                proof {
                    assert(rows_views(retained_data.data@)[before.len() as int] == views(kept@));
                    assert(rows_views(retained_data.data@) =~= rows_views(before).push(views(kept@)));
                    assert(rows_views(before).push(views(kept@))
                        + spec_process(all.skip(i + 1), idxs, filters)
                        =~= rows_views(before) + (seq![spec_keep(all[i as int], idxs)]
                            + spec_process(all.skip(i + 1), idxs, filters)));
                }
            }
            i += 1;
        }
        proof {
            assert(all.skip(rows@.len() as int).len() == 0);
            assert(spec_process(all.skip(rows@.len() as int), idxs, filters) =~= Seq::<Seq<Seq<char>>>::empty());
            assert(data0 + spec_process(all, idxs, filters) =~= rows_views(retained_data.data@));
        }
    }

    /// Prunes the table by the configured key columns, in order, all
    /// passes sharing one seen-set; survivors keep their relative
    /// order. The first key column that names no retained header stops
    /// the run with `MissingUniqueField`, the passes before it already
    /// applied.
    pub fn deduplicate(&mut self, retained_data: &mut RetainedData) -> (r: Result<(), Error>)
        ensures
            *final(self) == *old(self),
            final(retained_data).all_headers == old(retained_data).all_headers,
            final(retained_data).retained_headers == old(retained_data).retained_headers,
            ({
                let res = spec_dedup_fields(
                    rows_views(old(retained_data).data@),
                    views(old(retained_data).retained_headers@),
                    views(old(self).config.unique_fields@),
                    Set::empty(),
                );
                match r {
                    Ok(()) => res.2 is None && rows_views(final(retained_data).data@) == res.0,
                    Err(e) => res.2 is Some && (e matches Error::MissingUniqueField(f) && f@
                        == res.2->0),
                }
            }),
    {
        let ghost hv = views(retained_data.retained_headers@);
        let ghost fvs = views(self.config.unique_fields@);
        let ghost rows0 = rows_views(retained_data.data@);

        let mut seen: Vec<String> = Vec::new();
        let ghost mut seen_set: Set<Seq<char>> = Set::empty();

        proof {
            assert(fvs.skip(0) =~= fvs);
        }

        let n_fields = self.config.unique_fields.len();
        let mut fi: usize = 0;
        while fi < n_fields
            invariant
                fi <= n_fields,
                n_fields == self.config.unique_fields@.len(),
                *self == *old(self),
                hv == views(retained_data.retained_headers@),
                fvs == views(self.config.unique_fields@),
                rows0 == rows_views(old(retained_data).data@),
                retained_data.all_headers == old(retained_data).all_headers,
                retained_data.retained_headers == old(retained_data).retained_headers,
                forall|x: Seq<char>| seen_set.contains(x) <==> crate::strutil::seq_contains(
                    views(seen@),
                    x,
                ),
                spec_dedup_fields(rows0, hv, fvs, Set::empty()) == spec_dedup_fields(
                    rows_views(retained_data.data@),
                    hv,
                    fvs.skip(fi as int),
                    seen_set,
                ),
            decreases n_fields - fi,
        {
            let field = &self.config.unique_fields[fi];
            proof {
                assert(fvs.skip(fi as int)[0] == fvs[fi as int]);
                assert(fvs[fi as int] == field@);
                assert(fvs.skip(fi as int).drop_first() =~= fvs.skip(fi + 1));
            }
            let col = match find_position(&retained_data.retained_headers, field.as_str()) {
                Some(c) => c,
                None => {
                    proof {
                        let cur = rows_views(retained_data.data@);
                        assert(spec_position(hv, field@) is None);
                        assert(spec_dedup_fields(cur, hv, fvs.skip(fi as int), seen_set)
                            == (cur, seen_set, Some(fvs[fi as int])));
                    }
                    return Err(Error::MissingUniqueField(field.clone()));
                },
            };
            proof {
                assert(spec_position(hv, field@) == Some(col as int));
            }

            let ghost pass_rows = rows_views(retained_data.data@);
            let ghost pass_seen_entry = seen_set;
            let ghost pass = dedup_one(pass_rows, col as int, pass_seen_entry);

            let mut new_data: Vec<Vec<String>> = Vec::new();
            proof {
                assert(pass_rows.skip(0) =~= pass_rows);
            }
            let n_rows = retained_data.data.len();
            let mut ri: usize = 0;
            while ri < n_rows
                invariant
                    ri <= n_rows,
                    n_rows == retained_data.data@.len(),
                    col < retained_data.retained_headers@.len(),
                    pass_rows == rows_views(retained_data.data@),
                    retained_data.retained_headers == old(retained_data).retained_headers,
                    retained_data.all_headers == old(retained_data).all_headers,
                    forall|x: Seq<char>| seen_set.contains(x) <==> crate::strutil::seq_contains(
                        views(seen@),
                        x,
                    ),
                    pass == ({
                        let rest = dedup_one(pass_rows.skip(ri as int), col as int, seen_set);
                        (rows_views(new_data@) + rest.0, rest.1)
                    }),
                decreases n_rows - ri,
            {
                let row = &retained_data.data[ri];
                proof {
                    assert(pass_rows.skip(ri as int)[0] == pass_rows[ri as int]);
                    assert(pass_rows[ri as int] == views(row@));
                    assert(pass_rows.skip(ri as int).drop_first() =~= pass_rows.skip(ri + 1));
                }
                let ghost key = cell(views(row@), col as int);
                let is_new = if col < row.len() {
                    proof {
                        assert(key == views(row@)[col as int]);
                    }
                    !crate::strutil::string_vec_contains(&seen, row[col].as_str())
                } else {
                    proof {
                        reveal_strlit("");
                        assert(""@ =~= Seq::<char>::empty());
                        assert(key == Seq::<char>::empty());
                    }
                    !crate::strutil::string_vec_contains(&seen, "")
                };
                if is_new {
                    assert(!seen_set.contains(key));
                    let ghost before = new_data@;
                    new_data.push(clone_string_vec(row));
                    let val = if col < row.len() {
                        row[col].clone()
                    } else {
                        String::new()
                    };
                    proof {
                        assert(val@ == key) by {
                            if (col as int) < views(row@).len() {
                                assert(views(row@)[col as int] == row@[col as int]@);
                            } else {
                                assert(val@ =~= Seq::<char>::empty());
                            }
                        }
                    }
                    let ghost seen_before = seen@;
                    seen.push(val);
                    proof {
                        seen_set = seen_set.insert(key);
                        assert forall|x: Seq<char>| seen_set.contains(x) implies crate::strutil::seq_contains(
                            views(seen@),
                            x,
                        ) by {
                            if x == key {
                                assert(views(seen@)[seen_before.len() as int] == key);
                            } else {
                                let j = choose|j: int| 0 <= j < views(seen_before).len()
                                    && views(seen_before)[j] == x;
                                assert(views(seen@)[j] == x);
                            }
                        }
                        assert forall|x: Seq<char>| crate::strutil::seq_contains(views(seen@), x)
                            implies seen_set.contains(x) by {
                            let j = choose|j: int| 0 <= j < views(seen@).len() && views(seen@)[j] == x;
                            if j < seen_before.len() {
                                assert(views(seen_before)[j] == x);
                            } else {
                                assert(views(seen@)[j] == key);
                            }
                        }
                        assert(rows_views(new_data@)[before.len() as int] == views(row@));
                        assert(rows_views(new_data@) =~= rows_views(before).push(views(row@)));
                        let rest = dedup_one(pass_rows.skip(ri + 1), col as int, seen_set);
                        assert(rows_views(before).push(views(row@)) + rest.0
                            =~= rows_views(before) + (seq![pass_rows[ri as int]] + rest.0));
                    }
                } else {
                    assert(seen_set.contains(key));
                }
                ri += 1;
            }
            proof {
                assert(pass_rows.skip(n_rows as int).len() == 0);
                let rest = dedup_one(pass_rows.skip(n_rows as int), col as int, seen_set);
                assert(rest.0.len() == 0);
                assert(rows_views(new_data@) + rest.0 =~= rows_views(new_data@));
                assert(pass.0 == rows_views(new_data@));
                assert(pass.1 == seen_set);
            }
            retained_data.data = new_data;
            proof {
                assert(spec_dedup_fields(pass_rows, hv, fvs.skip(fi as int), pass_seen_entry)
                    == spec_dedup_fields(pass.0, hv, fvs.skip(fi + 1), pass.1));
                assert(pass.0 == rows_views(retained_data.data@));
            }
            fi += 1;
        }
        proof {
            assert(fvs.skip(n_fields as int).len() == 0);
            let cur = rows_views(retained_data.data@);
            assert(spec_dedup_fields(cur, hv, fvs.skip(n_fields as int), seen_set)
                == (cur, seen_set, Option::<Seq<char>>::None));
        }
        Ok(())
    }
}

/// Whether every row of `a` appears in `b`, in the same order.
pub open spec fn is_subsequence(a: Seq<Seq<Seq<char>>>, b: Seq<Seq<Seq<char>>>) -> bool
    decreases b.len(),
{
    if a.len() == 0 {
        true
    } else if b.len() == 0 {
        false
    } else {
        (a[0] == b[0] && is_subsequence(a.drop_first(), b.drop_first())) || is_subsequence(
            a,
            b.drop_first(),
        )
    }
}

/// Whether row `k` holds the first occurrence of its key cell in
/// column `col`.
pub open spec fn is_first_occurrence(rows: Seq<Seq<Seq<char>>>, col: int, k: int) -> bool {
    forall|l: int| 0 <= l < k ==> cell(rows[l], col) != cell(rows[k], col)
}

/// A deduplication pass never keeps a key already seen, and never keeps
/// the same key twice.
proof fn lemma_dedup_one_distinct(rows: Seq<Seq<Seq<char>>>, col: int, seen: Set<Seq<char>>)
    ensures
        ({
            let out = dedup_one(rows, col, seen).0;
            &&& forall|i: int| 0 <= i < out.len() ==> !seen.contains(cell(#[trigger] out[i], col))
            &&& forall|i: int, j: int| 0 <= i < j < out.len() ==> cell(out[i], col) != cell(
                out[j],
                col,
            )
        }),
    decreases rows.len(),
{
    if rows.len() > 0 {
        let v = cell(rows[0], col);
        if seen.contains(v) {
            lemma_dedup_one_distinct(rows.drop_first(), col, seen);
            assert(dedup_one(rows, col, seen).0 == dedup_one(rows.drop_first(), col, seen).0);
        } else {
            lemma_dedup_one_distinct(rows.drop_first(), col, seen.insert(v));
            let tail = dedup_one(rows.drop_first(), col, seen.insert(v)).0;
            let out = dedup_one(rows, col, seen).0;
            assert(out[0] == rows[0]);
            assert forall|i: int| 0 <= i < out.len() implies !seen.contains(
                cell(#[trigger] out[i], col),
            ) by {
                if i > 0 {
                    assert(out[i] == tail[i - 1]);
                }
            }
            assert forall|i: int, j: int| 0 <= i < j < out.len() implies cell(out[i], col) != cell(
                out[j],
                col,
            ) by {
                if i == 0 {
                    assert(out[j] == tail[j - 1]);
                    assert(!seen.insert(v).contains(cell(tail[j - 1], col)));
                } else {
                    assert(out[i] == tail[i - 1]);
                    assert(out[j] == tail[j - 1]);
                    assert(cell(tail[i - 1], col) != cell(tail[j - 1], col));
                }
            }
            assert(dedup_one(rows, col, seen).0 == out);
        }
    } else {
        assert(dedup_one(rows, col, seen).0.len() == 0);
    }
}

/// A deduplication pass only drops rows: what stays is a subsequence.
proof fn lemma_dedup_one_subseq(rows: Seq<Seq<Seq<char>>>, col: int, seen: Set<Seq<char>>)
    ensures
        is_subsequence(dedup_one(rows, col, seen).0, rows),
    decreases rows.len(),
{
    if rows.len() > 0 {
        let v = cell(rows[0], col);
        if seen.contains(v) {
            lemma_dedup_one_subseq(rows.drop_first(), col, seen);
        } else {
            lemma_dedup_one_subseq(rows.drop_first(), col, seen.insert(v));
            let tail = dedup_one(rows.drop_first(), col, seen.insert(v)).0;
            let out = dedup_one(rows, col, seen).0;
            assert(out[0] == rows[0]);
            assert(out.drop_first() =~= tail);
        }
    }
}

/// A deduplication pass keeps every row whose key is fresh and stands
/// at its first occurrence.
proof fn lemma_dedup_one_first_occ(rows: Seq<Seq<Seq<char>>>, col: int, seen: Set<Seq<char>>)
    ensures
        forall|k: int|
            0 <= k < rows.len() && !seen.contains(cell(#[trigger] rows[k], col))
                && is_first_occurrence(rows, col, k) ==> dedup_one(rows, col, seen).0.contains(
                rows[k],
            ),
    decreases rows.len(),
{
    if rows.len() > 0 {
        let v = cell(rows[0], col);
        let rest = rows.drop_first();
        let out = dedup_one(rows, col, seen).0;
        if seen.contains(v) {
            lemma_dedup_one_first_occ(rest, col, seen);
            assert forall|k: int|
                0 <= k < rows.len() && !seen.contains(cell(#[trigger] rows[k], col))
                    && is_first_occurrence(rows, col, k) implies out.contains(rows[k]) by {
                assert(k > 0);
                assert(rest[k - 1] == rows[k]);
                assert(is_first_occurrence(rest, col, k - 1)) by {
                    assert forall|l: int| 0 <= l < k - 1 implies cell(#[trigger] rest[l], col) != cell(
                        rest[k - 1],
                        col,
                    ) by {
                        assert(rest[l] == rows[l + 1]);
                    }
                }
                assert(dedup_one(rest, col, seen).0.contains(rest[k - 1]));
            }
        } else {
            lemma_dedup_one_first_occ(rest, col, seen.insert(v));
            let tail = dedup_one(rest, col, seen.insert(v)).0;
            assert forall|k: int|
                0 <= k < rows.len() && !seen.contains(cell(#[trigger] rows[k], col))
                    && is_first_occurrence(rows, col, k) implies out.contains(rows[k]) by {
                if k == 0 {
                    assert(out[0] == rows[0]);
                } else {
                    assert(rest[k - 1] == rows[k]);
                    assert(cell(rows[k], col) != v) by {
                        assert(cell(rows[0], col) != cell(rows[k], col));
                    }
                    assert(!seen.insert(v).contains(cell(rest[k - 1], col)));
                    assert(is_first_occurrence(rest, col, k - 1)) by {
                        assert forall|l: int| 0 <= l < k - 1 implies cell(#[trigger] rest[l], col) != cell(
                            rest[k - 1],
                            col,
                        ) by {
                            assert(rest[l] == rows[l + 1]);
                        }
                    }
                    assert(tail.contains(rest[k - 1]));
                    let j = choose|j: int| 0 <= j < tail.len() && tail[j] == rest[k - 1];
                    assert(out[j + 1] == tail[j]);
                }
            }
        }
    }
}

/// Deduplication over a single key column leaves at most one row per
/// distinct value of that column, keeps only rows of the input in their
/// original order, and keeps every row whose key value stands at its
/// first occurrence.
pub proof fn lemma_dedup_single_field(
    rows: Seq<Seq<Seq<char>>>,
    headers: Seq<Seq<char>>,
    name: Seq<char>,
)
    requires
        spec_position(headers, name) is Some,
    ensures
        ({
            let col = spec_position(headers, name)->0;
            let res = spec_dedup_fields(rows, headers, seq![name], Set::empty());
            &&& res.2 is None
            &&& res.0 == dedup_one(rows, col, Set::empty()).0
            &&& forall|i: int, j: int| 0 <= i < j < res.0.len() ==> cell(res.0[i], col) != cell(
                res.0[j],
                col,
            )
            &&& is_subsequence(res.0, rows)
            &&& forall|k: int| 0 <= k < rows.len() && #[trigger] is_first_occurrence(rows, col, k)
                ==> res.0.contains(rows[k])
        }),
{
    let col = spec_position(headers, name)->0;
    let fields = seq![name];
    assert(fields[0] == name);
    let pass = dedup_one(rows, col, Set::empty());
    assert(fields.drop_first() =~= Seq::<Seq<char>>::empty());
    assert(spec_dedup_fields(pass.0, headers, fields.drop_first(), pass.1) == (
        pass.0,
        pass.1,
        Option::<Seq<char>>::None,
    ));
    lemma_dedup_one_distinct(rows, col, Set::empty());
    lemma_dedup_one_subseq(rows, col, Set::empty());
    lemma_dedup_one_first_occ(rows, col, Set::empty());
}

} // verus!
