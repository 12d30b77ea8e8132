//! The Levenshtein edit distance, computed row by row.

use vstd::prelude::*;

verus! {

/// The least of three values.
pub open spec fn min3(a: nat, b: nat, c: nat) -> nat {
    if a <= b && a <= c {
        a
    } else if b <= c {
        b
    } else {
        c
    }
}

/// The Levenshtein distance between two character sequences: how many
/// single-character insertions, deletions and substitutions turn one
/// into the other.
pub open spec fn spec_levenshtein(a: Seq<char>, b: Seq<char>) -> nat
    decreases a.len(), b.len(),
{
    if a.len() == 0 {
        b.len()
    } else if b.len() == 0 {
        a.len()
    } else {
        min3(
            spec_levenshtein(a.drop_last(), b) + 1,
            spec_levenshtein(a, b.drop_last()) + 1,
            spec_levenshtein(a.drop_last(), b.drop_last()) + (if a.last() == b.last() {
                0nat
            } else {
                1nat
            }),
        )
    }
}

/// The distance never exceeds the longer input.
proof fn lemma_lev_le(a: Seq<char>, b: Seq<char>)
    ensures
        spec_levenshtein(a, b) <= a.len() + b.len(),
        a.len() <= b.len() ==> spec_levenshtein(a, b) <= b.len(),
        b.len() <= a.len() ==> spec_levenshtein(a, b) <= a.len(),
    decreases a.len(), b.len(),
{
    if a.len() > 0 && b.len() > 0 {
        lemma_lev_le(a.drop_last(), b);
        lemma_lev_le(a, b.drop_last());
        lemma_lev_le(a.drop_last(), b.drop_last());
    }
}

/// One cell of the distance table, unfolded over prefixes.
proof fn lemma_lev_step(a: Seq<char>, b: Seq<char>, i: int, j: int)
    requires
        1 <= i <= a.len(),
        1 <= j <= b.len(),
    ensures
        spec_levenshtein(a.take(i), b.take(j)) == min3(
            spec_levenshtein(a.take(i - 1), b.take(j)) + 1,
            spec_levenshtein(a.take(i), b.take(j - 1)) + 1,
            spec_levenshtein(a.take(i - 1), b.take(j - 1)) + (if a[i - 1] == b[j - 1] {
                0nat
            } else {
                1nat
            }),
        ),
{
    let ap = a.take(i);
    let bp = b.take(j);
    assert(ap.drop_last() =~= a.take(i - 1));
    assert(bp.drop_last() =~= b.take(j - 1));
    assert(ap.last() == a[i - 1]);
    assert(bp.last() == b[j - 1]);
}

/// The characters of a string, one vector entry per character.
fn chars_of(s: &str) -> (r: Vec<char>)
    ensures
        r@ == s@,
{
    let n = s.unicode_len();
    let mut r: Vec<char> = Vec::new();
    let mut i: usize = 0;
    while i < n
        invariant
            i <= n,
            n == s@.len(),
            r@ == s@.take(i as int),
        decreases n - i,
    {
        r.push(s.get_char(i));
        proof {
            assert(r@ =~= s@.take(i + 1));
        }
        i += 1;
    }
    proof {
        assert(s@.take(n as int) =~= s@);
    }
    r
}

/// The Levenshtein distance between `a` and `b`, by the classic
/// two-row dynamic programme over prefixes of the two strings.
pub fn levenshtein_distance_matrix(a: &str, b: &str) -> (r: i32)
    requires
        a@.len() < 0x7fff_ffff,
        b@.len() < 0x7fff_ffff,
    ensures
        r >= 0,
        r as nat == spec_levenshtein(a@, b@),
{
    let av = chars_of(a);
    let bv = chars_of(b);
    let m = av.len();
    let n = bv.len();

    let mut prev: Vec<usize> = Vec::new();
    let mut i0: usize = 0;
    while i0 <= m
        invariant
            i0 <= m + 1,
            m < 0x7fff_ffff,
            m == a@.len(),
            prev@.len() == i0,
            forall|k: int| 0 <= k < i0 ==> prev@[k] == k,
        decreases m - i0 + 1,
    {
        prev.push(i0);
        i0 += 1;
    }
    proof {
        assert forall|k: int| 0 <= k <= m implies prev@[k] == spec_levenshtein(
            a@.take(k),
            b@.take(0),
        ) by {
            assert(b@.take(0) =~= Seq::<char>::empty());
            assert(a@.take(k).len() == k);
            if k == 0 {
                assert(a@.take(k).len() == 0);
            }
        }
    }

    let mut j: usize = 1;
    while j <= n
        invariant
            1 <= j <= n + 1,
            m == a@.len(),
            n == b@.len(),
            m < 0x7fff_ffff,
            n < 0x7fff_ffff,
            av@ == a@,
            bv@ == b@,
            m == av@.len(),
            n == bv@.len(),
            prev@.len() == m + 1,
            forall|k: int| 0 <= k <= m ==> prev@[k] == spec_levenshtein(a@.take(k), b@.take(j - 1)),
        decreases n - j + 1,
    {
        let mut cur: Vec<usize> = Vec::new();
        cur.push(j);
        proof {
            assert(a@.take(0) =~= Seq::<char>::empty());
            assert(b@.take(j as int).len() == j);
            assert(cur@[0] == spec_levenshtein(a@.take(0), b@.take(j as int)));
        }
        let mut i: usize = 1;
        while i <= m
            invariant
                1 <= i <= m + 1,
                1 <= j <= n,
                m == a@.len(),
                n == b@.len(),
                m < 0x7fff_ffff,
                n < 0x7fff_ffff,
                av@ == a@,
                bv@ == b@,
                m == av@.len(),
                n == bv@.len(),
                prev@.len() == m + 1,
                forall|k: int| 0 <= k <= m ==> prev@[k] == spec_levenshtein(
                    a@.take(k),
                    b@.take(j - 1),
                ),
                cur@.len() == i,
                forall|k: int| 0 <= k < i ==> cur@[k] == spec_levenshtein(
                    a@.take(k),
                    b@.take(j as int),
                ),
            decreases m - i + 1,
        {
            proof {
                lemma_lev_le(a@.take(i - 1), b@.take(j as int));
                lemma_lev_le(a@.take(i as int), b@.take(j - 1));
                lemma_lev_le(a@.take(i - 1), b@.take(j - 1));
                lemma_lev_step(a@, b@, i as int, j as int);
            }
            let del = prev[i] + 1;
            let ins = cur[i - 1] + 1;
            let cost: usize = if av[i - 1] == bv[j - 1] {
                0
            } else {
                1
            };
            let sub = prev[i - 1] + cost;
            let best = if del <= ins && del <= sub {
                del
            } else if ins <= sub {
                ins
            } else {
                sub
            };
            cur.push(best);
            i += 1;
        }
        prev = cur;
        j += 1;
    }
    proof {
        assert(a@.take(m as int) =~= a@);
        assert(b@.take(n as int) =~= b@);
        lemma_lev_le(a@, b@);
    }
    let d = prev[m];
    d as i32
}

} // verus!
