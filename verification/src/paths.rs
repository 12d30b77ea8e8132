//! Path strings, modelled as plain character sequences.
//!
//! The library never touches the filesystem, so a path is just a string.
//! Both `/` and `\` count as separators; a path is absolute when it
//! starts with a `/`, with a doubled `\\`, or with a drive letter such
//! as `C:\`.

use vstd::prelude::*;

use crate::strutil::{concat_str, find_char, rfind_char, str_eq, substring};

verus! {

/// Whether `c` separates path components.
pub open spec fn is_sep(c: char) -> bool {
    c == '/' || c == '\\'
}

/// Whether `c` can name a drive.
pub open spec fn is_drive_letter(c: char) -> bool {
    ('a' <= c && c <= 'z') || ('A' <= c && c <= 'Z')
}

/// Whether the path string is absolute under the library's path model.
pub open spec fn spec_is_absolute(s: Seq<char>) -> bool {
    ||| (s.len() >= 1 && s[0] == '/')
    ||| (s.len() >= 2 && s[0] == '\\' && s[1] == '\\')
    ||| (s.len() >= 3 && is_drive_letter(s[0]) && s[1] == ':' && is_sep(s[2]))
}

/// Decides whether a path string is absolute.
pub fn is_absolute_path(s: &str) -> (r: bool)
    ensures
        r == spec_is_absolute(s@),
{
    let n = s.unicode_len();
    if n >= 1 && s.get_char(0) == '/' {
        return true;
    }
    if n >= 2 && s.get_char(0) == '\\' && s.get_char(1) == '\\' {
        return true;
    }
    if n >= 3 && s.get_char(1) == ':' {
        let c0 = s.get_char(0);
        let c2 = s.get_char(2);
        if (('a' <= c0 && c0 <= 'z') || ('A' <= c0 && c0 <= 'Z')) && (c2 == '/' || c2 == '\\') {
            return true;
        }
    }
    false
}

/// What `resolve_if_relative` returns: the working directory itself for
/// `.` or for the working directory, and otherwise the path appended to
/// the working directory, with a `\` between them unless the path
/// already begins with one.
pub open spec fn spec_resolve_if_relative(path: Seq<char>, cwd: Seq<char>) -> Seq<char> {
    if path == "."@ || path == cwd {
        cwd
    } else if path.len() >= 1 && path[0] == '\\' {
        cwd + path
    } else {
        cwd + seq!['\\'] + path
    }
}

/// Anchors a (presumed relative) path at the given working directory.
pub fn resolve_if_relative(path: &str, cwd: &str) -> (r: String)
    ensures
        r@ == spec_resolve_if_relative(path@, cwd@),
{
    if str_eq(path, ".") || str_eq(path, cwd) {
        return cwd.to_owned();
    }
    let n = path.unicode_len();
    if n >= 1 && path.get_char(0) == '\\' {
        concat_str(cwd, path)
    } else {
        let r = concat_str(cwd, "\\");
        proof {
            reveal_strlit("\\");
            assert(r@ =~= cwd@ + seq!['\\']);
        }
        let r2 = concat_str(r.as_str(), path);
        assert(r2@ =~= cwd@ + seq!['\\'] + path@);
        r2
    }
}

/// What `is_relative` returns: the path itself when absolute, and the
/// path anchored at the working directory otherwise.
pub open spec fn spec_anchored(path: Seq<char>, cwd: Seq<char>) -> Seq<char> {
    if spec_is_absolute(path) {
        path
    } else {
        spec_resolve_if_relative(path, cwd)
    }
}

/// Leaves an absolute path as it is and anchors a relative one at the
/// working directory.
pub fn is_relative(prov_path_str: &str, cwd: &str) -> (r: String)
    ensures
        r@ == spec_anchored(prov_path_str@, cwd@),
{
    if is_absolute_path(prov_path_str) {
        prov_path_str.to_owned()
    } else {
        resolve_if_relative(prov_path_str, cwd)
    }
}

/// The index just past the last separator: 0 when there is none.
pub open spec fn spec_file_name_start(s: Seq<char>) -> int
    decreases s.len(),
{
    if s.len() == 0 {
        0
    } else if is_sep(s[s.len() - 1]) {
        s.len() as int
    } else {
        spec_file_name_start(s.drop_last())
    }
}

/// The file-name part of the path: everything after the last separator.
pub open spec fn spec_file_name(s: Seq<char>) -> Seq<char> {
    s.skip(spec_file_name_start(s))
}

/// The last separator index, if the path holds one.
fn rfind_sep(s: &str) -> (r: Option<usize>)
    ensures
        match r {
            Some(i) => i < s@.len() && is_sep(s@[i as int])
                && forall|k: int| i < k < s@.len() ==> !is_sep(s@[k]),
            None => forall|k: int| 0 <= k < s@.len() ==> !is_sep(s@[k]),
        },
{
    let n = s.unicode_len();
    let mut i: usize = n;
    while i > 0
        invariant
            i <= n,
            n == s@.len(),
            forall|k: int| i <= k < s@.len() ==> !is_sep(s@[k]),
        decreases i,
    {
        i -= 1;
        let c = s.get_char(i);
        if c == '/' || c == '\\' {
            return Some(i);
        }
    }
    None
}

/// The file-name start never leaves the string.
proof fn lemma_file_name_start_bounds(s: Seq<char>)
    ensures
        0 <= spec_file_name_start(s) <= s.len(),
    decreases s.len(),
{
    if s.len() > 0 && !is_sep(s[s.len() - 1]) {
        lemma_file_name_start_bounds(s.drop_last());
    }
}

/// Relates `spec_file_name_start` to the absence of separators in the tail.
proof fn lemma_file_name_start(s: Seq<char>, i: int)
    requires
        0 <= i <= s.len(),
        forall|k: int| i <= k < s.len() ==> !is_sep(s[k]),
        i == 0 || is_sep(s[i - 1]),
    ensures
        spec_file_name_start(s) == i,
    decreases s.len(),
{
    if s.len() > 0 && i < s.len() {
        lemma_file_name_start(s.drop_last(), i);
    }
}

/// The file-name part of the path.
pub fn file_name_of(s: &str) -> (r: String)
    ensures
        r@ == spec_file_name(s@),
{
    let n = s.unicode_len();
    match rfind_sep(s) {
        Some(i) => {
            proof { lemma_file_name_start(s@, i + 1); }
            substring(s, i + 1, n)
        },
        None => {
            proof { lemma_file_name_start(s@, 0); }
            s.to_owned()
        },
    }
}

/// The directory part of the path: everything before the last
/// separator, or the root itself when the only separator leads it.
/// `None` when the path has no separator at all.
pub open spec fn spec_parent_dir(s: Seq<char>) -> Option<Seq<char>> {
    let start = spec_file_name_start(s);
    if start == 0 {
        None
    } else if start == 1 {
        Some(s.take(1))
    } else {
        Some(s.take(start - 1))
    }
}

/// The directory a path's file name sits in.
pub fn parent_dir_of(s: &str) -> (r: Option<String>)
    ensures
        match r {
            Some(d) => spec_parent_dir(s@) == Some(d@),
            None => spec_parent_dir(s@) is None,
        },
{
    match rfind_sep(s) {
        Some(i) => {
            proof { lemma_file_name_start(s@, i + 1); }
            if i == 0 {
                Some(substring(s, 0, 1))
            } else {
                Some(substring(s, 0, i))
            }
        },
        None => {
            proof { lemma_file_name_start(s@, 0); }
            None
        },
    }
}

/// Whether the file-name part carries an extension: a dot past its
/// first character.
pub open spec fn spec_has_extension(s: Seq<char>) -> bool {
    let name = spec_file_name(s);
    exists|k: int| 0 < k < name.len() && name[k] == '.'
}

/// Decides whether the path's file name carries an extension.
pub fn has_extension(s: &str) -> (r: bool)
    ensures
        r == spec_has_extension(s@),
{
    let name = file_name_of(s);
    let name_str = name.as_str();
    let n = name_str.unicode_len();
    let mut k: usize = 1;
    if n == 0 {
        return false;
    }
    while k < n
        invariant
            1 <= k <= n,
            n == spec_file_name(s@).len(),
            name_str@ == spec_file_name(s@),
            forall|j: int| 0 < j < k ==> name_str@[j] != '.',
        decreases n - k,
    {
        if name_str.get_char(k) == '.' {
            return true;
        }
        k += 1;
    }
    false
}

/// Whether the last char of the path is a separator.
pub open spec fn spec_ends_with_sep(s: Seq<char>) -> bool {
    s.len() >= 1 && is_sep(s[s.len() - 1])
}

/// Decides whether the path ends in a separator.
pub fn ends_with_sep(s: &str) -> (r: bool)
    ensures
        r == spec_ends_with_sep(s@),
{
    let n = s.unicode_len();
    if n == 0 {
        return false;
    }
    let c = s.get_char(n - 1);
    c == '/' || c == '\\'
}

/// Whether the first char of the path is a separator.
pub open spec fn spec_starts_with_sep(s: Seq<char>) -> bool {
    s.len() >= 1 && is_sep(s[0])
}

/// Decides whether the path starts with a separator.
pub fn starts_with_sep(s: &str) -> (r: bool)
    ensures
        r == spec_starts_with_sep(s@),
{
    let n = s.unicode_len();
    if n == 0 {
        return false;
    }
    let c = s.get_char(0);
    c == '/' || c == '\\'
}

/// Inserts `out` before the last dot of the path, or appends it when
/// the path has no dot: the fallback name used for an output path whose
/// pattern could not be resolved.
pub open spec fn spec_fallback_out_path(s: Seq<char>) -> Seq<char> {
    if exists|k: int| 0 <= k < s.len() && s[k] == '.' {
        let i = choose|i: int| 0 <= i < s.len() && s[i] == '.'
            && forall|k: int| i < k < s.len() ==> s[k] != '.';
        s.take(i) + "out"@ + s.skip(i)
    } else {
        s + "out"@
    }
}

/// The fallback output path: `out` slipped in before the extension.
pub fn fallback_out_path(s: &str) -> (r: String)
    ensures
        r@ == spec_fallback_out_path(s@),
{
    let n = s.unicode_len();
    let dot = rfind_char(s, '.');
    match dot {
        Some(d) => {
            let before = substring(s, 0, d);
            let after = substring(s, d, n);
            let r1 = concat_str(before.as_str(), "out");
            let r = concat_str(r1.as_str(), after.as_str());
            proof {
                let i = choose|i: int| 0 <= i < s@.len() && s@[i] == '.'
                    && forall|k: int| i < k < s@.len() ==> s@[k] != '.';
                assert(i == d) by {
                    if i < d { assert(s@[d as int] == '.'); }
                    if i > d { assert(s@[i] == '.'); }
                }
                assert(r@ =~= s@.take(d as int) + "out"@ + s@.skip(d as int));
            }
            r
        },
        None => {
            let r = concat_str(s, "out");
            r
        },
    }
}

/// Whether `.csv` stands at position `i` with no newline before it:
/// position `i` then ends a stem the way the anchored pattern
/// `^(.*)\.csv` would end its greedy capture.
pub open spec fn is_csv_stem_end(s: Seq<char>, i: int) -> bool {
    &&& 0 <= i
    &&& i + 4 <= s.len()
    &&& s.subrange(i, i + 4) == ".csv"@
    &&& forall|k: int| 0 <= k < i ==> s[k] != '\n'
}

/// Whether `.csv` stands at position `i` of `s`.
fn csv_at(s: &str, i: usize, n: usize) -> (r: bool)
    requires
        n == s@.len(),
        i + 4 <= n,
    ensures
        r == (s@.subrange(i as int, i + 4) == ".csv"@),
{
    proof {
        reveal_strlit(".csv");
    }
    let hit = s.get_char(i) == '.' && s.get_char(i + 1) == 'c' && s.get_char(i + 2) == 's'
        && s.get_char(i + 3) == 'v';
    proof {
        if hit {
            assert(s@.subrange(i as int, i + 4) =~= ".csv"@);
        } else {
            assert(s@.subrange(i as int, i + 4)[0] == s@[i as int]);
            assert(s@.subrange(i as int, i + 4)[1] == s@[i + 1]);
            assert(s@.subrange(i as int, i + 4)[2] == s@[i + 2]);
            assert(s@.subrange(i as int, i + 4)[3] == s@[i + 3]);
        }
    }
    hit
}

/// The name in front of the last `.csv` of the file name — what the
/// anchored pattern `^(.*)\.csv` captures as the name: everything up to
/// the last `.csv` that no newline precedes. `None` when the name holds
/// no such `.csv`.
pub fn csv_filename_stem(s: &str) -> (r: Option<String>)
    ensures
        match r {
            Some(stem) => exists|i: int|
                #[trigger] is_csv_stem_end(s@, i) && stem@ == s@.take(i) && forall|k: int|
                    k > i ==> !is_csv_stem_end(s@, k),
            None => forall|i: int| !is_csv_stem_end(s@, i),
        },
{
    let n = s.unicode_len();
    if n < 4 {
        proof {
            assert forall|i: int| !is_csv_stem_end(s@, i) by {}
        }
        return None;
    }
    let nl = find_char(s, '\n');
    let limit = match nl {
        Some(p) => if p < n - 4 {
            p
        } else {
            n - 4
        },
        None => n - 4,
    };
    proof {
        assert forall|k: int| limit < k implies !is_csv_stem_end(s@, k) by {
            if is_csv_stem_end(s@, k) {
                assert(k + 4 <= n);
                if nl is Some {
                    let p = nl->0 as int;
                    if k > p {
                        assert(s@[p] == '\n');
                    }
                }
            }
        }
    }
    let mut i: usize = limit + 1;
    while i > 0
        invariant
            i <= limit + 1,
            limit <= n - 4,
            n == s@.len(),
            forall|k: int| i <= k <= limit ==> #[trigger] s@.subrange(k, k + 4) != ".csv"@,
            forall|k: int| limit < k ==> !is_csv_stem_end(s@, k),
            forall|k: int| 0 <= k < limit ==> s@[k] != '\n',
        decreases i,
    {
        i -= 1;
        if csv_at(s, i, n) {
            let stem = substring(s, 0, i);
            proof {
                assert(is_csv_stem_end(s@, i as int));
                assert forall|k: int| k > i implies !is_csv_stem_end(s@, k) by {
                    if k <= limit {
                        assert(s@.subrange(k, k + 4) != ".csv"@);
                    }
                }
            }
            return Some(stem);
        }
        proof {
            if is_csv_stem_end(s@, i as int) {
                assert(s@.subrange(i as int, i + 4) == ".csv"@);
            }
        }
    }
    proof {
        assert forall|i2: int| !is_csv_stem_end(s@, i2) by {
            if 0 <= i2 <= limit {
                assert(s@.subrange(i2, i2 + 4) != ".csv"@);
            }
        }
    }
    None
}

/// What `ensure_csv_extension` returns. A path whose file name is
/// literally `.csv`, or empty, stays as it is; one whose file name
/// carries an extension has it replaced by `csv`; any other path gets
/// `.csv` appended.
pub open spec fn spec_ensure_csv_extension(s: Seq<char>) -> Seq<char> {
    let name = spec_file_name(s);
    if name == ".csv"@ || name.len() == 0 {
        s
    } else if spec_has_extension(s) {
        let i = choose|i: int| 0 <= i < s.len() && s[i] == '.'
            && forall|k: int| i < k < s.len() ==> s[k] != '.';
        s.take(i + 1) + "csv"@
    } else {
        s + ".csv"@
    }
}

/// Makes sure the path's file name ends in a `csv` extension.
pub fn ensure_csv_extension(s: &str) -> (r: String)
    ensures
        r@ == spec_ensure_csv_extension(s@),
{
    let n = s.unicode_len();
    let name = file_name_of(s);
    if str_eq(name.as_str(), ".csv") || name.as_str().unicode_len() == 0 {
        return s.to_owned();
    }
    if has_extension(s) {
        proof {
            lemma_file_name_start_bounds(s@);
            let start = spec_file_name_start(s@);
            let fname = spec_file_name(s@);
            let k = choose|k: int| 0 < k < fname.len() && fname[k] == '.';
            assert(fname[k] == s@[start + k]);
            assert(exists|i: int| 0 <= i < s@.len() && s@[i] == '.') by {
                assert(s@[start + k] == '.');
            }
        }
        let d = match rfind_char(s, '.') {
            Some(d) => d,
            None => {
                proof {
                    let i = choose|i: int| 0 <= i < s@.len() && s@[i] == '.';
                    assert(false);
                }
                0
            },
        };
        let before = substring(s, 0, d + 1);
        let r = concat_str(before.as_str(), "csv");
        proof {
            let i = choose|i: int| 0 <= i < s@.len() && s@[i] == '.'
                && forall|k: int| i < k < s@.len() ==> s@[k] != '.';
            assert(i == d) by {
                if i < d { assert(s@[d as int] == '.'); }
                if i > d { assert(s@[i] == '.'); }
            }
            assert(r@ =~= s@.take(d + 1) + "csv"@);
        }
        r
    } else {
        concat_str(s, ".csv")
    }
}

} // verus!
