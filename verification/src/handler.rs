//! The filter/retention engine.
//!
//! Built once per run from the header row and the configuration, the
//! handler knows which header positions to keep and which positions
//! carry an allow-list; it then decides each row and cuts it down to
//! the retained columns.

use vstd::prelude::*;

use crate::config::{pair_views, Config};
use crate::retained::RetainedData;
use crate::strutil::{clone_string_vec, lemma_filter_push, seq_contains, str_eq, string_vec_contains, views};

verus! {

/// The cell of `row` at position `i`: a missing cell reads as the
/// empty string.
pub open spec fn cell(row: Seq<Seq<char>>, i: int) -> Seq<char> {
    if 0 <= i < row.len() {
        row[i]
    } else {
        Seq::empty()
    }
}

/// The header positions to retain: every position whose header name is
/// among the configured fields, in header order.
pub open spec fn spec_field_idxs(headers: Seq<Seq<char>>, fields: Seq<Seq<char>>) -> Seq<int>
    decreases headers.len(),
{
    if headers.len() == 0 {
        Seq::empty()
    } else {
        let prefix = spec_field_idxs(headers.drop_last(), fields);
        if seq_contains(fields, headers.last()) {
            prefix.push(headers.len() - 1)
        } else {
            prefix
        }
    }
}

/// The headers that survive retention: the subset whose names are among
/// the configured fields, in header order.
pub open spec fn spec_retained(headers: Seq<Seq<char>>, fields: Seq<Seq<char>>) -> Seq<Seq<char>> {
    headers.filter(|h: Seq<char>| seq_contains(fields, h))
}

/// The allow-list configured for `key`, if any: the first entry wins.
pub open spec fn spec_lookup(
    pairs: Seq<(Seq<char>, Seq<Seq<char>>)>,
    key: Seq<char>,
) -> Option<Seq<Seq<char>>>
    decreases pairs.len(),
{
    if pairs.len() == 0 {
        None
    } else if pairs[0].0 == key {
        Some(pairs[0].1)
    } else {
        spec_lookup(pairs.drop_first(), key)
    }
}

/// The filter positions: every header position whose name keys an
/// allow-list, paired with that list, in header order.
pub open spec fn spec_filter_idxs(
    headers: Seq<Seq<char>>,
    pairs: Seq<(Seq<char>, Seq<Seq<char>>)>,
) -> Seq<(int, Seq<Seq<char>>)>
    decreases headers.len(),
{
    if headers.len() == 0 {
        Seq::empty()
    } else {
        let prefix = spec_filter_idxs(headers.drop_last(), pairs);
        match spec_lookup(pairs, headers.last()) {
            Some(vals) => prefix.push((headers.len() - 1, vals)),
            None => prefix,
        }
    }
}

/// Whether a row passes every configured filter: at each filter
/// position the cell must be literally present in that position's
/// allow-list. No filters means every row passes.
pub open spec fn spec_row_passes(row: Seq<Seq<char>>, filters: Seq<(int, Seq<Seq<char>>)>) -> bool {
    forall|k: int| 0 <= k < filters.len() ==> seq_contains(filters[k].1, cell(row, filters[k].0))
}

/// The retained subset of a row: the cells at the retained positions,
/// in that order, with missing cells read as empty.
pub open spec fn spec_keep(row: Seq<Seq<char>>, idxs: Seq<int>) -> Seq<Seq<char>> {
    Seq::new(idxs.len(), |k: int| cell(row, idxs[k]))
}

/// The positions of the retained columns as mathematical integers.
pub open spec fn idxs_view(v: Seq<usize>) -> Seq<int> {
    v.map_values(|i: usize| i as int)
}

/// The views of the filter positions and their allow-lists.
pub open spec fn fidxs_view(v: Seq<(usize, Vec<String>)>) -> Seq<(int, Seq<Seq<char>>)> {
    v.map_values(|p: (usize, Vec<String>)| (p.0 as int, views(p.1@)))
}

/// The engine: which positions to keep and which carry an allow-list.
pub struct CsvHandler {
    /// The header positions to retain, in header order.
    pub field_idxs: Vec<usize>,
    /// Each filtered header position with its allow-list, in header order.
    pub filter_idxs: Vec<(usize, Vec<String>)>,
}

/// The allow-list configured for `key`, as a fresh vector.
fn lookup_values(pairs: &Vec<(String, Vec<String>)>, key: &str) -> (r: Option<Vec<String>>)
    ensures
        match r {
            Some(vals) => spec_lookup(pair_views(pairs@), key@) == Some(views(vals@)),
            None => spec_lookup(pair_views(pairs@), key@) is None,
        },
{
    let ghost pv = pair_views(pairs@);
    proof {
        assert(pv.skip(0) =~= pv);
    }
    let mut i: usize = 0;
    while i < pairs.len()
        invariant
            i <= pairs@.len(),
            pv == pair_views(pairs@),
            spec_lookup(pv, key@) == spec_lookup(pv.skip(i as int), key@),
        decreases pairs@.len() - i,
    {
        let entry = &pairs[i];
        proof {
            assert(pv.skip(i as int)[0] == pv[i as int]);
        }
        if str_eq(entry.0.as_str(), key) {
            let vals = clone_string_vec(&entry.1);
            return Some(vals);
        }
        proof {
            assert(pv.skip(i as int).drop_first() =~= pv.skip(i + 1));
        }
        i += 1;
    }
    proof {
        assert(pv.skip(pairs@.len() as int).len() == 0);
    }
    None
}

impl CsvHandler {
    /// Builds the engine from the header row: records the full header
    /// list and the retained subset in the table, and computes the
    /// retained positions and the filter positions, all in header order.
    pub fn new(config: &Config, retained_data: &mut RetainedData, headers: &Vec<String>) -> (r: Self)
        ensures
            final(retained_data).all_headers@ == headers@,
            views(final(retained_data).retained_headers@) == spec_retained(
                views(headers@),
                views(config.fields@),
            ),
            final(retained_data).data == old(retained_data).data,
            idxs_view(r.field_idxs@) == spec_field_idxs(views(headers@), views(config.fields@)),
            fidxs_view(r.filter_idxs@) == spec_filter_idxs(
                views(headers@),
                pair_views(config.include_cols_with@),
            ),
    {
        retained_data.all_headers = clone_string_vec(headers);

        let ghost hv = views(headers@);
        let ghost fv = views(config.fields@);
        let ghost pv = pair_views(config.include_cols_with@);

        let mut field_idxs: Vec<usize> = Vec::new();
        let mut filter_idxs: Vec<(usize, Vec<String>)> = Vec::new();
        let mut retained: Vec<String> = Vec::new();

        proof {
            assert(hv.take(0) =~= Seq::<Seq<char>>::empty());
            reveal(Seq::filter);
        }

        let n = headers.len();
        let mut idx: usize = 0;
        while idx < n
            invariant
                idx <= n,
                n == headers@.len(),
                hv == views(headers@),
                fv == views(config.fields@),
                pv == pair_views(config.include_cols_with@),
                idxs_view(field_idxs@) == spec_field_idxs(hv.take(idx as int), fv),
                views(retained@) == spec_retained(hv.take(idx as int), fv),
                fidxs_view(filter_idxs@) == spec_filter_idxs(hv.take(idx as int), pv),
            decreases n - idx,
        {
            let col_name = &headers[idx];
            proof {
                assert(hv[idx as int] == col_name@);
                assert(hv.take(idx + 1).drop_last() =~= hv.take(idx as int));
                assert(hv.take(idx + 1).last() == hv[idx as int]);
                assert(hv.take(idx + 1) =~= hv.take(idx as int).push(hv[idx as int]));
                lemma_filter_push(hv.take(idx as int), |h: Seq<char>| seq_contains(fv, h), hv[idx as int]);
            }
            if string_vec_contains(&config.fields, col_name.as_str()) {
                field_idxs.push(idx);
                retained.push(col_name.clone());
                proof {
                    assert(idxs_view(field_idxs@) =~= spec_field_idxs(hv.take(idx + 1), fv));
                    assert(views(retained@) =~= spec_retained(hv.take(idx + 1), fv));
                }
            } else {
                proof {
                    assert(idxs_view(field_idxs@) =~= spec_field_idxs(hv.take(idx + 1), fv));
                    assert(views(retained@) =~= spec_retained(hv.take(idx + 1), fv));
                }
            }
            match lookup_values(&config.include_cols_with, col_name.as_str()) {
                Some(vals) => {
                    filter_idxs.push((idx, vals));
                    proof {
                        assert(fidxs_view(filter_idxs@) =~= spec_filter_idxs(hv.take(idx + 1), pv));
                    }
                },
                None => {
                    proof {
                        assert(fidxs_view(filter_idxs@) =~= spec_filter_idxs(hv.take(idx + 1), pv));
                    }
                },
            }
            idx += 1;
        }
        proof {
            assert(hv.take(n as int) =~= hv);
        }

        retained_data.retained_headers = retained;

        Self { field_idxs, filter_idxs }
    }

    /// Decides a row: true exactly when, at every filter position, the
    /// cell (missing cells read as empty) is in that position's
    /// allow-list.
    pub fn row_passes_filters(&self, record: &Vec<String>) -> (r: bool)
        ensures
            r == spec_row_passes(views(record@), fidxs_view(self.filter_idxs@)),
    {
        let ghost rv = views(record@);
        let ghost filters = fidxs_view(self.filter_idxs@);
        let mut k: usize = 0;
        while k < self.filter_idxs.len()
            invariant
                k <= self.filter_idxs@.len(),
                rv == views(record@),
                filters == fidxs_view(self.filter_idxs@),
                forall|j: int| 0 <= j < k ==> seq_contains(filters[j].1, cell(rv, filters[j].0)),
            decreases self.filter_idxs@.len() - k,
        {
            let entry = &self.filter_idxs[k];
            let col_idx = entry.0;
            let passes = if col_idx < record.len() {
                proof {
                    assert(cell(rv, filters[k as int].0) == rv[col_idx as int]);
                }
                string_vec_contains(&entry.1, record[col_idx].as_str())
            } else {
                proof {
                    reveal_strlit("");
                    assert(""@ =~= Seq::<char>::empty());
                    assert(cell(rv, filters[k as int].0) == Seq::<char>::empty());
                }
                string_vec_contains(&entry.1, "")
            };
            if !passes {
                assert(!seq_contains(filters[k as int].1, cell(rv, filters[k as int].0)));
                return false;
            }
            k += 1;
        }
        true
    }

    /// Cuts a row down to the retained columns, in retained order;
    /// positions past the row's end read as empty. Never fails,
    /// whatever the row's width.
    pub fn keep_columns(&self, record: &Vec<String>) -> (r: Vec<String>)
        ensures
            views(r@) == spec_keep(views(record@), idxs_view(self.field_idxs@)),
    {
        let ghost rv = views(record@);
        let ghost idxs = idxs_view(self.field_idxs@);
        let mut row_subset: Vec<String> = Vec::new();
        let mut k: usize = 0;
        while k < self.field_idxs.len()
            invariant
                k <= self.field_idxs@.len(),
                rv == views(record@),
                idxs == idxs_view(self.field_idxs@),
                views(row_subset@).len() == k,
                forall|j: int| 0 <= j < k ==> views(row_subset@)[j] == cell(rv, idxs[j]),
            decreases self.field_idxs@.len() - k,
        {
            let idx = self.field_idxs[k];
            let val = if idx < record.len() {
                record[idx].clone()
            } else {
                let empty = String::new();
                proof {
                    assert(empty@ =~= Seq::<char>::empty());
                }
                empty
            };
            proof {
                if (idx as int) < rv.len() {
                    assert(val@ == views(record@)[idx as int]);
                    assert(cell(rv, idxs[k as int]) == rv[idx as int]);
                } else {
                    assert(cell(rv, idxs[k as int]) == Seq::<char>::empty());
                }
            }
            let ghost before = row_subset@;
            row_subset.push(val);
            proof {
                assert(row_subset@.last() == val);
                assert(views(row_subset@)[k as int] == val@);
                assert forall|j: int| 0 <= j < k implies views(row_subset@)[j] == cell(rv, idxs[j]) by {
                    assert(row_subset@[j] == before[j]);
                    assert(views(row_subset@)[j] == row_subset@[j]@);
                    assert(views(before)[j] == before[j]@);
                }
            }
            k += 1;
        }
        proof {
            assert(views(row_subset@) =~= spec_keep(rv, idxs));
        }
        row_subset
    }
}

/// With no filters configured, every row passes.
pub proof fn lemma_empty_filters_pass(row: Seq<Seq<char>>)
    ensures
        spec_row_passes(row, Seq::empty()),
{
}

/// The order the filters are checked in is irrelevant: two filter lists
/// holding the same entries decide every row alike.
pub proof fn lemma_row_passes_order_irrelevant(
    row: Seq<Seq<char>>,
    f1: Seq<(int, Seq<Seq<char>>)>,
    f2: Seq<(int, Seq<Seq<char>>)>,
)
    requires
        forall|p: (int, Seq<Seq<char>>)| f1.contains(p) <==> f2.contains(p),
    ensures
        spec_row_passes(row, f1) == spec_row_passes(row, f2),
{
    if spec_row_passes(row, f1) {
        assert forall|k: int| 0 <= k < f2.len() implies seq_contains(
            #[trigger] f2[k].1,
            cell(row, f2[k].0),
        ) by {
            assert(f2.contains(f2[k]));
            let l = choose|l: int| 0 <= l < f1.len() && f1[l] == f2[k];
        }
    }
    if spec_row_passes(row, f2) {
        assert forall|k: int| 0 <= k < f1.len() implies seq_contains(
            #[trigger] f1[k].1,
            cell(row, f1[k].0),
        ) by {
            assert(f1.contains(f1[k]));
            let l = choose|l: int| 0 <= l < f2.len() && f2[l] == f1[k];
        }
    }
}

/// The retained positions of the retained headers themselves are the
/// identity: every retained header is among the fields, so a second
/// retention pass keeps everything.
proof fn lemma_field_idxs_of_retained(headers: Seq<Seq<char>>, fields: Seq<Seq<char>>)
    ensures
        spec_field_idxs(spec_retained(headers, fields), fields) == Seq::new(
            spec_retained(headers, fields).len(),
            |i: int| i,
        ),
    decreases headers.len(),
{
    reveal(Seq::filter);
    if headers.len() == 0 {
        assert(spec_retained(headers, fields) =~= Seq::<Seq<char>>::empty());
        assert(spec_field_idxs(spec_retained(headers, fields), fields) =~= Seq::new(
            spec_retained(headers, fields).len(),
            |i: int| i,
        ));
    } else {
        lemma_field_idxs_of_retained(headers.drop_last(), fields);
        let prev = spec_retained(headers.drop_last(), fields);
        let cur = spec_retained(headers, fields);
        if seq_contains(fields, headers.last()) {
            assert(cur == prev.push(headers.last()));
            assert(cur.drop_last() =~= prev);
            assert(spec_field_idxs(cur, fields) =~= Seq::new(cur.len(), |i: int| i));
        } else {
            assert(cur == prev);
            assert(spec_field_idxs(cur, fields) =~= Seq::new(cur.len(), |i: int| i));
        }
    }
}

/// There are exactly as many retained positions as retained headers.
proof fn lemma_field_idxs_len(headers: Seq<Seq<char>>, fields: Seq<Seq<char>>)
    ensures
        spec_field_idxs(headers, fields).len() == spec_retained(headers, fields).len(),
    decreases headers.len(),
{
    reveal(Seq::filter);
    if headers.len() > 0 {
        lemma_field_idxs_len(headers.drop_last(), fields);
    }
}

/// Column retention is idempotent: cutting an already-retained row down
/// again, with the engine rebuilt over the retained headers, changes
/// nothing.
pub proof fn lemma_retain_columns_idempotent(
    headers: Seq<Seq<char>>,
    fields: Seq<Seq<char>>,
    row: Seq<Seq<char>>,
)
    ensures
        ({
            let idxs = spec_field_idxs(headers, fields);
            let retained = spec_retained(headers, fields);
            let idxs2 = spec_field_idxs(retained, fields);
            spec_keep(spec_keep(row, idxs), idxs2) == spec_keep(row, idxs)
        }),
{
    let idxs = spec_field_idxs(headers, fields);
    let retained = spec_retained(headers, fields);
    let idxs2 = spec_field_idxs(retained, fields);
    lemma_field_idxs_of_retained(headers, fields);
    lemma_field_idxs_len(headers, fields);
    let once = spec_keep(row, idxs);
    assert(spec_keep(once, idxs2) =~= once);
}

} // verus!
