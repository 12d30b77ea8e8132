//! The in-memory table that filtering and column retention produce.

use vstd::prelude::*;

use crate::strutil::views;

verus! {

/// The character views of a sequence of rows.
pub open spec fn rows_views(s: Seq<Vec<String>>) -> Seq<Seq<Seq<char>>> {
    s.map_values(|r: Vec<String>| views(r@))
}

/// The retained table: the full header row, the retained subset of it,
/// and the retained data rows, each aligned to the retained headers.
pub struct RetainedData {
    /// Every header of the source file, in file order.
    pub all_headers: Vec<String>,
    /// The headers that survive column retention, in file order.
    pub retained_headers: Vec<String>,
    /// The retained rows, in file order.
    pub data: Vec<Vec<String>>,
}

impl RetainedData {
    /// An empty table; `fields_len` only sizes the allocation for the
    /// retained headers.
    pub fn new(fields_len: usize) -> (r: Self)
        ensures
            r.all_headers@.len() == 0,
            r.retained_headers@.len() == 0,
            r.data@.len() == 0,
    {
        let all_headers = Vec::new();
        let retained_headers = Vec::with_capacity(fields_len);
        let data = Vec::new();
        Self { all_headers, retained_headers, data }
    }
}

} // verus!
