//! The path-pattern resolver.
//!
//! A configured source path may embed one `{regex}` placeholder in its
//! file name. The resolver splits such a pattern into the text before
//! the braces, the user's regular expression inside them, and the text
//! after them; the caller lists the search directory and hands the
//! entries in, and the resolver picks the best-matching file: most
//! recently modified first, with a hard error when even modification
//! time, name and size cannot tell the top two candidates apart.
//!
//! The placeholder is found the way the pattern `\{(.+?)\}` finds it:
//! at the first `{` that is followed, at least one character later and
//! with no intervening newline, by a `}` — and lazily, so the interior
//! ends at the first `}` that leaves it non-empty.

use vstd::prelude::*;

use crate::error::Error;
use crate::paths::{
    is_sep, spec_anchored, spec_file_name, spec_parent_dir, is_relative, parent_dir_of,
    file_name_of,
};
use crate::strutil::{
    concat_str, lemma_filter_push, str_ends_with, str_eq, str_starts_with, substring,
};

verus! {

/// One directory entry, reduced to what resolution compares: its file
/// name, its modification time (nanoseconds since the epoch), and its
/// size in bytes.
pub struct FileMeta {
    /// The entry's file name, without its directory.
    pub name: String,
    /// When the file was last modified, as nanoseconds since the epoch.
    pub mtime: u128,
    /// The file's size in bytes.
    pub size: u64,
}

/// Whether the pattern `pattern` compiles as a regular expression: what
/// `regex::Regex::new` decides, a function of the pattern alone.
pub uninterp spec fn regex_is_valid(pattern: Seq<char>) -> bool;

/// Whether `text` holds a match of `pattern` anywhere: what
/// `regex::Regex::is_match` returns, a function of the two alone.
pub uninterp spec fn regex_matches(pattern: Seq<char>, text: Seq<char>) -> bool;

/// Relies on `regex::Regex::new`, which compiles the pattern or rejects
/// it by the pattern alone, and `regex::Regex::is_match`, which reports
/// whether the text holds a match anywhere, by pattern and text alone.
#[verifier::external_body]
fn regex_match(pattern: &str, text: &str) -> (r: Option<bool>)
    ensures
        r is Some <==> regex_is_valid(pattern@),
        r is Some ==> r->0 == regex_matches(pattern@, text@),
{
    match regex::Regex::new(pattern) {
        Ok(re) => Some(re.is_match(text)),
        Err(_) => None,
    }
}

/// Whether positions `i` and `j` delimit the lazy placeholder: `{` at
/// `i`, `}` at `j`, at least one character between them, no newline
/// between them, and no earlier closing `}` that would leave the
/// interior non-empty.
pub open spec fn is_lazy_brace_match(s: Seq<char>, i: int, j: int) -> bool {
    &&& 0 <= i
    &&& i + 2 <= j < s.len()
    &&& s[i] == '{'
    &&& s[j] == '}'
    &&& forall|k: int| i < k < j ==> s[k] != '\n'
    &&& forall|k: int| i + 2 <= k < j ==> s[k] != '}'
}

/// Whether no placeholder can start at `i2`.
pub open spec fn dead_start(s: Seq<char>, i2: int) -> bool {
    forall|j2: int| !is_lazy_brace_match(s, i2, j2)
}

/// Whether `(i, j)` is the placeholder the pattern `\{(.+?)\}` would
/// report: a lazy brace match at the leftmost possible start.
pub open spec fn is_placeholder_match(s: Seq<char>, i: int, j: int) -> bool {
    &&& is_lazy_brace_match(s, i, j)
    &&& forall|i2: int| 0 <= i2 < i ==> dead_start(s, i2)
}

/// The parts of a pattern around its placeholder.
pub struct PatternParts {
    /// The whole pattern as given.
    pub base_path: String,
    /// The text before the opening brace.
    pub before_regex: String,
    /// The user's regular expression from inside the braces.
    pub user_regex: String,
    /// The text after the closing brace, typically the extension.
    pub suffix_ext: String,
}

/// Scans for the closing brace of a placeholder opened at `i`.
fn scan_close(s: &str, i: usize, n: usize) -> (r: Option<usize>)
    requires
        i < n,
        n == s@.len(),
        s@[i as int] == '{',
    ensures
        match r {
            Some(j) => is_lazy_brace_match(s@, i as int, j as int),
            None => dead_start(s@, i as int),
        },
{
    let mut j: usize = i + 1;
    while j < n
        invariant
            i < j <= n,
            n == s@.len(),
            s@[i as int] == '{',
            forall|k: int| i < k < j ==> s@[k] != '\n',
            forall|k: int| i + 2 <= k < j ==> s@[k] != '}',
        decreases n - j,
    {
        let c = s.get_char(j);
        if c == '\n' {
            proof {
                assert forall|j2: int| !is_lazy_brace_match(s@, i as int, j2) by {
                    if is_lazy_brace_match(s@, i as int, j2) {
                        if j2 > j {
                            assert(s@[j as int] == '\n');
                        } else {
                            assert(s@[j2] == '}');
                        }
                    }
                }
            }
            return None;
        }
        if c == '}' && j >= i + 2 {
            return Some(j);
        }
        j += 1;
    }
    proof {
        assert forall|j2: int| !is_lazy_brace_match(s@, i as int, j2) by {
            if is_lazy_brace_match(s@, i as int, j2) {
                assert(s@[j2] == '}');
            }
        }
    }
    None
}

/// Finds the placeholder, if the pattern holds one.
fn find_placeholder(s: &str) -> (r: Option<(usize, usize)>)
    ensures
        match r {
            Some(p) => is_placeholder_match(s@, p.0 as int, p.1 as int),
            None => forall|i2: int| dead_start(s@, i2),
        },
{
    let n = s.unicode_len();
    let mut i: usize = 0;
    while i < n
        invariant
            i <= n,
            n == s@.len(),
            forall|i2: int| 0 <= i2 < i ==> dead_start(s@, i2),
        decreases n - i,
    {
        if s.get_char(i) == '{' {
            match scan_close(s, i, n) {
                Some(j) => {
                    return Some((i, j));
                },
                None => {},
            }
        } else {
            proof {
                assert forall|j2: int| !is_lazy_brace_match(s@, i as int, j2) by {}
            }
        }
        i += 1;
    }
    proof {
        assert forall|i2: int| dead_start(s@, i2) by {
            if 0 <= i2 < s@.len() {
                assert(dead_start(s@, i2));
            } else {
                assert forall|j2: int| !is_lazy_brace_match(s@, i2, j2) by {}
            }
        }
    }
    None
}

/// Splits the pattern at its placeholder, when it has one whose
/// interior compiles as a regular expression. A pattern without a
/// placeholder, or with one that does not compile, yields `None` and is
/// treated as a literal path by the caller.
pub fn extract_user_regex(base_path: &str) -> (r: Option<PatternParts>)
    ensures
        match r {
            Some(parts) => exists|i: int, j: int|
                {
                    &&& #[trigger] is_placeholder_match(base_path@, i, j)
                    &&& parts.base_path@ == base_path@
                    &&& parts.before_regex@ == base_path@.take(i)
                    &&& parts.user_regex@ == base_path@.subrange(i + 1, j)
                    &&& parts.suffix_ext@ == base_path@.skip(j + 1)
                    &&& regex_is_valid(parts.user_regex@)
                },
            None => !(exists|i: int, j: int|
                #[trigger] is_placeholder_match(base_path@, i, j) && regex_is_valid(
                    base_path@.subrange(i + 1, j),
                )),
        },
{
    let n = base_path.unicode_len();
    match find_placeholder(base_path) {
        Some((i, j)) => {
            let inner = substring(base_path, i + 1, j);
            match regex_match(inner.as_str(), "") {
                Some(_) => {
                    let parts = PatternParts {
                        base_path: base_path.to_owned(),
                        before_regex: substring(base_path, 0, i),
                        user_regex: inner,
                        suffix_ext: substring(base_path, j + 1, n),
                    };
                    proof {
                        assert(is_placeholder_match(base_path@, i as int, j as int));
                    }
                    Some(parts)
                },
                None => {
                    proof {
                        assert forall|i2: int, j2: int|
                            #[trigger] is_placeholder_match(base_path@, i2, j2)
                                implies !regex_is_valid(base_path@.subrange(i2 + 1, j2)) by {
                            lemma_placeholder_unique(base_path@, i as int, j as int, i2, j2);
                        }
                    }
                    None
                },
            }
        },
        None => {
            proof {
                assert forall|i2: int, j2: int|
                    #[trigger] is_placeholder_match(base_path@, i2, j2) implies false by {
                    assert(dead_start(base_path@, i2));
                    assert(!is_lazy_brace_match(base_path@, i2, j2));
                }
            }
            None
        },
    }
}

/// The placeholder is unique: two leftmost lazy matches coincide.
proof fn lemma_placeholder_unique(s: Seq<char>, i1: int, j1: int, i2: int, j2: int)
    requires
        is_placeholder_match(s, i1, j1),
        is_placeholder_match(s, i2, j2),
    ensures
        i1 == i2,
        j1 == j2,
{
    if i1 < i2 {
        assert(dead_start(s, i1));
        assert(!is_lazy_brace_match(s, i1, j1));
    }
    if i2 < i1 {
        assert(dead_start(s, i2));
        assert(!is_lazy_brace_match(s, i2, j2));
    }
    if j1 < j2 {
        assert(s[j1] == '}');
    }
    if j2 < j1 {
        assert(s[j2] == '}');
    }
}

/// Whether a directory entry's name fits the pattern: it starts with
/// the text before the braces, ends with the text after them, and what
/// stands between matches the user's regular expression.
pub open spec fn is_candidate(
    prefix: Seq<char>,
    inner: Seq<char>,
    suffix: Seq<char>,
    name: Seq<char>,
) -> bool {
    &&& name.len() >= prefix.len() + suffix.len()
    &&& prefix.is_prefix_of(name)
    &&& suffix.is_suffix_of(name)
    &&& regex_matches(inner, name.subrange(prefix.len() as int, name.len() - suffix.len()))
}

/// A copy of one entry, equal to the original.
fn clone_meta(f: &FileMeta) -> (r: FileMeta)
    ensures
        r == *f,
{
    FileMeta { name: f.name.clone(), mtime: f.mtime, size: f.size }
}

/// Keeps the entries whose names fit the pattern, in directory order.
/// With an interior that does not compile nothing can match, and
/// nothing is kept.
pub fn find_match_files_from_regex_path(
    entries: &Vec<FileMeta>,
    before_reg_filename: &str,
    user_regex: &str,
    suffix_ext: &str,
) -> (r: Vec<FileMeta>)
    ensures
        regex_is_valid(user_regex@) ==> r@ == entries@.filter(
            |f: FileMeta|
                is_candidate(before_reg_filename@, user_regex@, suffix_ext@, f.name@),
        ),
        !regex_is_valid(user_regex@) ==> r@.len() == 0,
{
    let ghost pred = |f: FileMeta|
        is_candidate(before_reg_filename@, user_regex@, suffix_ext@, f.name@);
    let mut matches: Vec<FileMeta> = Vec::new();
    proof {
        assert(entries@.take(0) =~= Seq::<FileMeta>::empty());
        reveal(Seq::filter);
    }
    let mut i: usize = 0;
    while i < entries.len()
        invariant
            i <= entries@.len(),
            pred == (|f: FileMeta|
                is_candidate(before_reg_filename@, user_regex@, suffix_ext@, f.name@)),
            regex_is_valid(user_regex@) ==> matches@ == entries@.take(i as int).filter(pred),
            !regex_is_valid(user_regex@) ==> matches@.len() == 0,
        decreases entries@.len() - i,
    {
        let entry = &entries[i];
        proof {
            assert(entries@.take(i + 1).drop_last() =~= entries@.take(i as int));
            assert(entries@.take(i + 1).last() == entries@[i as int]);
            assert(entries@.take(i + 1) =~= entries@.take(i as int).push(entries@[i as int]));
            lemma_filter_push(entries@.take(i as int), pred, entries@[i as int]);
        }
        let name = entry.name.as_str();
        let name_len = name.unicode_len();
        let pre_len = before_reg_filename.unicode_len();
        let suf_len = suffix_ext.unicode_len();
        if name_len >= pre_len && name_len - pre_len >= suf_len && str_starts_with(
            name,
            before_reg_filename,
        ) && str_ends_with(name, suffix_ext) {
            let middle = substring(name, pre_len, name_len - suf_len);
            match regex_match(user_regex, middle.as_str()) {
                Some(true) => {
                    assert(pred(entries@[i as int]));
                    matches.push(clone_meta(entry));
                },
                Some(false) => {
                    assert(!pred(entries@[i as int]));
                },
                None => {
                    assert(!regex_is_valid(user_regex@));
                },
            }
        } else {
            proof {
                if regex_is_valid(user_regex@) {
                    assert(!pred(entries@[i as int]));
                }
            }
        }
        i += 1;
    }
    proof {
        assert(entries@.take(entries@.len() as int) =~= entries@);
    }
    matches
}

/// Where `x` goes in a list sorted by descending modification time: in
/// front of the first entry strictly older, behind everything else —
/// so equals keep their arrival order.
pub open spec fn insert_desc(x: FileMeta, s: Seq<FileMeta>) -> Seq<FileMeta>
    decreases s.len(),
{
    if s.len() == 0 {
        seq![x]
    } else if x.mtime > s[0].mtime {
        seq![x] + s
    } else {
        seq![s[0]] + insert_desc(x, s.drop_first())
    }
}

/// The stable descending sort by modification time: each entry, in
/// order, inserted behind the already-sorted entries of equal time.
pub open spec fn spec_sort_desc(s: Seq<FileMeta>) -> Seq<FileMeta>
    decreases s.len(),
{
    if s.len() == 0 {
        s
    } else {
        insert_desc(s.last(), spec_sort_desc(s.drop_last()))
    }
}

/// Inserting at the first strictly-older position is `insert_desc`.
proof fn lemma_insert_at(x: FileMeta, s: Seq<FileMeta>, k: int)
    requires
        0 <= k <= s.len(),
        forall|l: int| 0 <= l < k ==> !(x.mtime > s[l].mtime),
        k < s.len() ==> x.mtime > s[k].mtime,
    ensures
        insert_desc(x, s) == s.take(k) + seq![x] + s.skip(k),
    decreases s.len(),
{
    if k == 0 {
        assert(s.take(0) =~= Seq::<FileMeta>::empty());
        assert(s.skip(0) =~= s);
        if s.len() == 0 {
            assert(insert_desc(x, s) =~= s.take(0) + seq![x] + s.skip(0));
        } else {
            assert(insert_desc(x, s) == seq![x] + s);
            assert(seq![x] + s =~= s.take(0) + seq![x] + s.skip(0));
        }
    } else {
        assert(!(x.mtime > s[0].mtime));
        lemma_insert_at(x, s.drop_first(), k - 1);
        assert(s.drop_first().take(k - 1) =~= s.skip(1).take(k - 1));
        assert(insert_desc(x, s) == seq![s[0]] + (s.drop_first().take(k - 1) + seq![x]
            + s.drop_first().skip(k - 1)));
        assert(seq![s[0]] + (s.drop_first().take(k - 1) + seq![x] + s.drop_first().skip(k - 1))
            =~= s.take(k) + seq![x] + s.skip(k));
    }
}

/// Whether the entries run from most to least recently modified.
pub open spec fn sorted_desc(s: Seq<FileMeta>) -> bool {
    forall|i: int, j: int| 0 <= i <= j < s.len() ==> s[i].mtime >= s[j].mtime
}

/// Insertion keeps the length, one longer.
proof fn lemma_insert_desc_len(x: FileMeta, s: Seq<FileMeta>)
    ensures
        insert_desc(x, s).len() == s.len() + 1,
    decreases s.len(),
{
    if s.len() > 0 && !(x.mtime > s[0].mtime) {
        lemma_insert_desc_len(x, s.drop_first());
    }
}

/// Everything in the inserted list is the new entry or an old one.
proof fn lemma_insert_desc_elems(x: FileMeta, s: Seq<FileMeta>)
    ensures
        forall|k: int| 0 <= k < insert_desc(x, s).len() ==> insert_desc(x, s)[k] == x
            || s.contains(#[trigger] insert_desc(x, s)[k]),
    decreases s.len(),
{
    let out = insert_desc(x, s);
    if s.len() == 0 || x.mtime > s[0].mtime {
        assert forall|k: int| 0 <= k < out.len() implies out[k] == x || s.contains(
            #[trigger] out[k],
        ) by {
            if k > 0 {
                assert(out[k] == s[k - 1]);
            }
        }
    } else {
        lemma_insert_desc_elems(x, s.drop_first());
        let tail = insert_desc(x, s.drop_first());
        assert forall|k: int| 0 <= k < out.len() implies out[k] == x || s.contains(
            #[trigger] out[k],
        ) by {
            if k == 0 {
                assert(out[0] == s[0]);
                assert(s.contains(s[0]));
            } else {
                assert(out[k] == tail[k - 1]);
                if tail[k - 1] != x {
                    assert(s.drop_first().contains(tail[k - 1]));
                    let l = choose|l: int|
                        0 <= l < s.drop_first().len() && s.drop_first()[l] == tail[k - 1];
                    assert(s[l + 1] == tail[k - 1]);
                }
            }
        }
    }
}

/// Insertion keeps the new entry and everything already there.
proof fn lemma_insert_desc_contains(x: FileMeta, s: Seq<FileMeta>)
    ensures
        insert_desc(x, s).contains(x),
        forall|y: FileMeta| s.contains(y) ==> insert_desc(x, s).contains(y),
    decreases s.len(),
{
    let out = insert_desc(x, s);
    if s.len() == 0 {
        assert(out[0] == x);
    } else if x.mtime > s[0].mtime {
        assert(out[0] == x);
        assert forall|y: FileMeta| s.contains(y) implies out.contains(y) by {
            let l = choose|l: int| 0 <= l < s.len() && s[l] == y;
            assert(out[l + 1] == y);
        }
    } else {
        lemma_insert_desc_contains(x, s.drop_first());
        let tail = insert_desc(x, s.drop_first());
        let lx = choose|l: int| 0 <= l < tail.len() && tail[l] == x;
        assert(out[lx + 1] == x);
        assert forall|y: FileMeta| s.contains(y) implies out.contains(y) by {
            let l = choose|l: int| 0 <= l < s.len() && s[l] == y;
            if l == 0 {
                assert(out[0] == y);
            } else {
                assert(s.drop_first().contains(y)) by {
                    assert(s.drop_first()[l - 1] == y);
                }
                assert(tail.contains(y));
                let lt = choose|lt: int| 0 <= lt < tail.len() && tail[lt] == y;
                assert(out[lt + 1] == y);
            }
        }
    }
}

/// Inserting into a sorted list keeps it sorted.
proof fn lemma_insert_desc_sorted(x: FileMeta, s: Seq<FileMeta>)
    requires
        sorted_desc(s),
    ensures
        sorted_desc(insert_desc(x, s)),
    decreases s.len(),
{
    let out = insert_desc(x, s);
    if s.len() == 0 {
    } else if x.mtime > s[0].mtime {
        assert forall|i: int, j: int| 0 <= i <= j < out.len() implies out[i].mtime
            >= out[j].mtime by {
            if i == 0 && j > 0 {
                assert(out[j] == s[j - 1]);
                assert(s[0].mtime >= s[j - 1].mtime);
            } else if i > 0 {
                assert(out[i] == s[i - 1]);
                assert(out[j] == s[j - 1]);
            }
        }
    } else {
        assert(sorted_desc(s.drop_first())) by {
            assert forall|i: int, j: int| 0 <= i <= j < s.drop_first().len() implies s.drop_first()[i].mtime
                >= s.drop_first()[j].mtime by {
                assert(s.drop_first()[i] == s[i + 1]);
                assert(s.drop_first()[j] == s[j + 1]);
            }
        }
        lemma_insert_desc_sorted(x, s.drop_first());
        lemma_insert_desc_elems(x, s.drop_first());
        let tail = insert_desc(x, s.drop_first());
        assert forall|i: int, j: int| 0 <= i <= j < out.len() implies out[i].mtime
            >= out[j].mtime by {
            if i == 0 && j > 0 {
                assert(out[j] == tail[j - 1]);
                if tail[j - 1] != x {
                    assert(s.drop_first().contains(tail[j - 1]));
                    let l = choose|l: int|
                        0 <= l < s.drop_first().len() && s.drop_first()[l] == tail[j - 1];
                    assert(s.drop_first()[l] == s[l + 1]);
                    assert(s[0].mtime >= s[l + 1].mtime);
                }
            } else if i > 0 {
                assert(out[i] == tail[i - 1]);
                assert(out[j] == tail[j - 1]);
            }
        }
    }
}

/// The sorted candidates run from most to least recent, are exactly as
/// many as the candidates, and hold every candidate: so the head of the
/// sorted list — the resolver's pick — is at least as recently modified
/// as every candidate.
pub proof fn lemma_sort_desc_picks_most_recent(s: Seq<FileMeta>)
    ensures
        spec_sort_desc(s).len() == s.len(),
        sorted_desc(spec_sort_desc(s)),
        forall|k: int| 0 <= k < s.len() ==> spec_sort_desc(s).contains(#[trigger] s[k]),
        s.len() > 0 ==> forall|k: int| 0 <= k < s.len() ==> spec_sort_desc(s)[0].mtime >= (
        #[trigger] s[k]).mtime,
    decreases s.len(),
{
    if s.len() > 0 {
        lemma_sort_desc_picks_most_recent(s.drop_last());
        let prev = spec_sort_desc(s.drop_last());
        lemma_insert_desc_len(s.last(), prev);
        lemma_insert_desc_sorted(s.last(), prev);
        lemma_insert_desc_contains(s.last(), prev);
        let out = spec_sort_desc(s);
        assert forall|k: int| 0 <= k < s.len() implies out.contains(#[trigger] s[k]) by {
            if k < s.len() - 1 {
                assert(s.drop_last()[k] == s[k]);
                assert(prev.contains(s[k]));
            } else {
                assert(s.last() == s[k]);
            }
        }
        assert forall|k: int| 0 <= k < s.len() implies out[0].mtime >= (#[trigger] s[k]).mtime by {
            assert(out.contains(s[k]));
            let l = choose|l: int| 0 <= l < out.len() && out[l] == s[k];
            assert(out[0].mtime >= out[l].mtime);
        }
    }
}

/// The first position holding a strictly older entry, where a file
/// modified at `mtime` is inserted.
fn find_insert_pos(mtime: u128, out: &Vec<FileMeta>) -> (k: usize)
    ensures
        k <= out@.len(),
        forall|l: int| 0 <= l < k ==> !(mtime > out@[l].mtime),
        k < out@.len() ==> mtime > out@[k as int].mtime,
{
    let mut k: usize = 0;
    while k < out.len()
        invariant
            k <= out@.len(),
            forall|l: int| 0 <= l < k ==> !(mtime > out@[l].mtime),
        decreases out@.len() - k,
    {
        if mtime > out[k].mtime {
            return k;
        }
        k += 1;
    }
    k
}

/// Sorts the candidates by modification time, most recent first; ties
/// keep the order the entries arrived in (a stable sort).
pub fn sort_by_modification_time(files: Vec<FileMeta>) -> (r: Vec<FileMeta>)
    ensures
        r@ == spec_sort_desc(files@),
{
    let ghost orig = files@;
    let mut rest = files;
    let mut out: Vec<FileMeta> = Vec::new();
    let ghost mut done: int = 0;
    proof {
        assert(orig.skip(0) =~= orig);
        assert(orig.take(0) =~= Seq::<FileMeta>::empty());
    }
    while rest.len() > 0
        invariant
            0 <= done <= orig.len(),
            rest@ == orig.skip(done),
            out@ == spec_sort_desc(orig.take(done)),
        decreases rest@.len(),
    {
        let x = rest.remove(0);
        proof {
            assert(orig.skip(done)[0] == orig[done]);
            assert(rest@ =~= orig.skip(done + 1));
            assert(orig.take(done + 1).drop_last() =~= orig.take(done));
            assert(orig.take(done + 1).last() == orig[done]);
        }
        let k = find_insert_pos(x.mtime, &out);
        proof {
            lemma_insert_at(x, out@, k as int);
        }
        let ghost before = out@;
        out.insert(k, x);
        proof {
            assert(out@ =~= before.take(k as int) + seq![x] + before.skip(k as int));
        }
        proof {
            done = done + 1;
        }
    }
    proof {
        assert(orig.take(orig.len() as int) =~= orig);
    }
    out
}

/// Whether the pattern holds a placeholder whose interior compiles.
pub open spec fn spec_valid_placeholder(s: Seq<char>) -> bool {
    exists|i: int, j: int|
        #[trigger] is_placeholder_match(s, i, j) && regex_is_valid(s.subrange(i + 1, j))
}

/// Whether two candidates cannot be told apart: same modification
/// time, same name, same size.
pub open spec fn files_tie(a: FileMeta, b: FileMeta) -> bool {
    a.mtime == b.mtime && a.name@ == b.name@ && a.size == b.size
}

/// The directory joined with a file name: a separator is slipped in
/// unless the directory already ends in one, a backslash when the
/// directory holds backslashes and a slash otherwise.
pub open spec fn spec_join(dir: Seq<char>, name: Seq<char>) -> Seq<char> {
    if dir.len() >= 1 && is_sep(dir[dir.len() - 1]) {
        dir + name
    } else if exists|k: int| 0 <= k < dir.len() && dir[k] == '\\' {
        dir + seq!['\\'] + name
    } else {
        dir + seq!['/'] + name
    }
}

/// Joins a directory and a file name under the library's path model.
pub fn join_path(dir: &str, name: &str) -> (r: String)
    ensures
        r@ == spec_join(dir@, name@),
{
    let n = dir.unicode_len();
    if n >= 1 {
        let last = dir.get_char(n - 1);
        if last == '/' || last == '\\' {
            return concat_str(dir, name);
        }
    }
    let has_backslash = {
        let mut i: usize = 0;
        let mut found = false;
        while i < n
            invariant
                i <= n,
                n == dir@.len(),
                found == exists|k: int| 0 <= k < i && dir@[k] == '\\',
            decreases n - i,
        {
            if dir.get_char(i) == '\\' {
                found = true;
                proof {
                    assert(dir@[i as int] == '\\');
                }
            }
            i += 1;
        }
        found
    };
    if has_backslash {
        let r1 = concat_str(dir, "\\");
        let r = concat_str(r1.as_str(), name);
        proof {
            reveal_strlit("\\");
            assert(r@ =~= dir@ + seq!['\\'] + name@);
        }
        r
    } else {
        let r1 = concat_str(dir, "/");
        let r = concat_str(r1.as_str(), name);
        proof {
            reveal_strlit("/");
            assert(r@ =~= dir@ + seq!['/'] + name@);
        }
        r
    }
}

/// The pattern's candidates among the entries, under the placeholder at
/// `(i, j)`: the entries whose names fit prefix, regular expression and
/// suffix, sorted most recently modified first, ties in arrival order.
pub open spec fn spec_sorted_candidates(
    s: Seq<char>,
    i: int,
    j: int,
    entries: Seq<FileMeta>,
) -> Seq<FileMeta> {
    spec_sort_desc(
        entries.filter(
            |f: FileMeta|
                is_candidate(
                    spec_file_name(s.take(i)),
                    s.subrange(i + 1, j),
                    s.skip(j + 1),
                    f.name@,
                ),
        ),
    )
}

/// Resolves a configured path pattern against a directory listing.
///
/// A pattern without a placeholder — or whose placeholder interior does
/// not compile — is a literal path: it comes back anchored at `cwd` and
/// untouched otherwise, and the listing is never consulted. A pattern
/// with a placeholder selects, among the entries whose names fit it,
/// the most recently modified one; `NoParentPath` when the anchored
/// pattern has no directory part, `NoMatchingFiles` when nothing fits,
/// and `AmbiguousFileMatch` when even modification time, name and size
/// cannot tell the top two candidates apart. Only the top two are
/// compared: a three-way tie still resolves to the first, deliberately.
pub fn parse_user_variable_path(path_str: &str, cwd: &str, entries: &Vec<FileMeta>) -> (r: Result<
    String,
    Error,
>)
    ensures
        match r {
            Ok(p) => {
                ||| (!spec_valid_placeholder(path_str@) && p@ == spec_anchored(path_str@, cwd@))
                ||| (exists|i: int, j: int|
                    #[trigger] is_placeholder_match(path_str@, i, j) && {
                        let base = spec_anchored(path_str@, cwd@);
                        let sorted = spec_sorted_candidates(path_str@, i, j, entries@);
                        &&& regex_is_valid(path_str@.subrange(i + 1, j))
                        &&& spec_parent_dir(base) is Some
                        &&& sorted.len() >= 1
                        &&& !(sorted.len() >= 2 && files_tie(sorted[0], sorted[1]))
                        &&& p@ == spec_join(spec_parent_dir(base)->0, sorted[0].name@)
                    })
            },
            Err(e) => {
                ||| ((e matches Error::NoParentPath(b) && b@ == spec_anchored(path_str@, cwd@))
                    && spec_valid_placeholder(path_str@) && spec_parent_dir(
                    spec_anchored(path_str@, cwd@),
                ) is None)
                ||| (e == Error::NoMatchingFiles && exists|i: int, j: int|
                    #[trigger] is_placeholder_match(path_str@, i, j) && regex_is_valid(
                        path_str@.subrange(i + 1, j),
                    ) && spec_parent_dir(spec_anchored(path_str@, cwd@)) is Some
                        && spec_sorted_candidates(path_str@, i, j, entries@).len() == 0)
                ||| (e == Error::AmbiguousFileMatch && exists|i: int, j: int|
                    #[trigger] is_placeholder_match(path_str@, i, j) && regex_is_valid(
                        path_str@.subrange(i + 1, j),
                    ) && spec_parent_dir(spec_anchored(path_str@, cwd@)) is Some && {
                        let sorted = spec_sorted_candidates(path_str@, i, j, entries@);
                        sorted.len() >= 2 && files_tie(sorted[0], sorted[1])
                    })
            },
        },
{
    let parts = match extract_user_regex(path_str) {
        Some(p) => p,
        None => {
            return Ok(is_relative(path_str, cwd));
        },
    };
    let ghost (i, j) = choose|i: int, j: int|
        {
            &&& #[trigger] is_placeholder_match(path_str@, i, j)
            &&& parts.base_path@ == path_str@
            &&& parts.before_regex@ == path_str@.take(i)
            &&& parts.user_regex@ == path_str@.subrange(i + 1, j)
            &&& parts.suffix_ext@ == path_str@.skip(j + 1)
            &&& regex_is_valid(parts.user_regex@)
        };

    let base = is_relative(parts.base_path.as_str(), cwd);
    let parent = match parent_dir_of(base.as_str()) {
        Some(d) => d,
        None => {
            return Err(Error::NoParentPath(base));
        },
    };
    let before_file = file_name_of(parts.before_regex.as_str());
    let candidates = find_match_files_from_regex_path(
        entries,
        before_file.as_str(),
        parts.user_regex.as_str(),
        parts.suffix_ext.as_str(),
    );
    proof {
        let pred_exec = |f: FileMeta|
            is_candidate(before_file@, parts.user_regex@, parts.suffix_ext@, f.name@);
        let pred_spec = |f: FileMeta|
            is_candidate(
                spec_file_name(path_str@.take(i)),
                path_str@.subrange(i + 1, j),
                path_str@.skip(j + 1),
                f.name@,
            );
        assert(pred_exec =~= pred_spec);
    }
    let sorted = sort_by_modification_time(candidates);
    proof {
        assert(sorted@ == spec_sorted_candidates(path_str@, i, j, entries@));
    }
    if sorted.len() == 0 {
        return Err(Error::NoMatchingFiles);
    }
    if sorted.len() >= 2 {
        let a = &sorted[0];
        let b = &sorted[1];
        if a.mtime == b.mtime && str_eq(a.name.as_str(), b.name.as_str()) && a.size == b.size {
            return Err(Error::AmbiguousFileMatch);
        }
    }
    let first = &sorted[0];
    Ok(join_path(parent.as_str(), first.name.as_str()))
}

/// The directory that a pattern's candidates are listed from: `None`
/// for a literal path, which needs no listing, and `NoParentPath` when
/// the anchored pattern has no directory part.
pub fn search_directory(path_str: &str, cwd: &str) -> (r: Result<Option<String>, Error>)
    ensures
        match r {
            Ok(d) => match d {
                Some(dir) => spec_valid_placeholder(path_str@) && spec_parent_dir(
                    spec_anchored(path_str@, cwd@),
                ) == Some(dir@),
                None => !spec_valid_placeholder(path_str@),
            },
            Err(e) => (e matches Error::NoParentPath(b) && b@ == spec_anchored(path_str@, cwd@))
                && spec_valid_placeholder(path_str@) && spec_parent_dir(
                spec_anchored(path_str@, cwd@),
            ) is None,
        },
{
    let parts = match extract_user_regex(path_str) {
        Some(p) => p,
        None => {
            return Ok(None);
        },
    };
    let base = is_relative(parts.base_path.as_str(), cwd);
    match parent_dir_of(base.as_str()) {
        Some(d) => Ok(Some(d)),
        None => Err(Error::NoParentPath(base)),
    }
}

} // verus!
