//! Shared constants and small helpers.

use vstd::prelude::*;

use crate::strutil::substring;

verus! {

/// A plain newtype wrapper.
pub struct W<T>(pub T);

/// The prefix under which command-line values are mirrored for
/// downstream lookup.
pub const CLI_ENV_PREFIX: &'static str = "CSV_CLI";

/// The directory the default configuration file sits in.
pub const DEFAULT_CONFIG_DIR: &'static str = "config";

/// The name of the default configuration file.
pub const DEFAULT_CONFIG_FILE: &'static str = "config.json";

/// What `first_author` returns: the longest prefix of the author list
/// that holds neither a `:` (which separates authors) nor a space
/// (which separates an author's names).
pub open spec fn spec_first_author(authors: Seq<char>) -> Seq<char> {
    if exists|k: int| 0 <= k < authors.len() && (authors[k] == ':' || authors[k] == ' ') {
        let i = choose|i: int| 0 <= i < authors.len() && (authors[i] == ':' || authors[i] == ' ')
            && forall|k: int| 0 <= k < i ==> authors[k] != ':' && authors[k] != ' ';
        authors.take(i)
    } else {
        authors
    }
}

/// The first name of the first author in a `:`-separated author list.
pub fn first_author(authors: &str) -> (r: String)
    ensures
        r@ == spec_first_author(authors@),
{
    let n = authors.unicode_len();
    let mut i: usize = 0;
    while i < n
        invariant
            i <= n,
            n == authors@.len(),
            forall|k: int| 0 <= k < i ==> authors@[k] != ':' && authors@[k] != ' ',
        decreases n - i,
    {
        let c = authors.get_char(i);
        if c == ':' || c == ' ' {
            let r = substring(authors, 0, i);
            proof {
                let j = choose|j: int| 0 <= j < authors@.len()
                    && (authors@[j] == ':' || authors@[j] == ' ')
                    && forall|k: int| 0 <= k < j ==> authors@[k] != ':' && authors@[k] != ' ';
                assert(j == i) by {
                    if j < i { assert(authors@[j] != ':' && authors@[j] != ' '); }
                    if j > i { assert(authors@[i as int] != ':' && authors@[i as int] != ' '); }
                }
            }
            return r;
        }
        i += 1;
    }
    authors.to_owned()
}

} // verus!
