//! Marker substitution over character sequences.
//!
//! A marker is a literal substring of a page's text.  Substitution replaces
//! every occurrence of a marker (scanning left to right, without overlap)
//! with a replacement string, the way the substitution engine applies a
//! dynamic page's anchors to loaded file content.

use vstd::prelude::*;

verus! {

/// `m` occurs in `s` at position `i`.
pub open spec fn occurs_at(s: Seq<char>, m: Seq<char>, i: int) -> bool {
    0 <= i && i + m.len() <= s.len() && s.subrange(i, i + m.len() as int) == m
}

/// Whether `m` occurs somewhere in `s`, defined by a left-to-right scan.
/// The empty marker occurs in every string.
pub open spec fn spec_contains(s: Seq<char>, m: Seq<char>) -> bool
    decreases s.len(),
{
    if m.len() == 0 {
        true
    } else if s.len() < m.len() {
        false
    } else if s.subrange(0, m.len() as int) == m {
        true
    } else {
        spec_contains(s.skip(1), m)
    }
}

/// The result of replacing every occurrence of `m` in `s` with `v`,
/// scanning left to right without overlap.  A string is left unchanged by
/// an empty marker.
pub open spec fn spec_replace(s: Seq<char>, m: Seq<char>, v: Seq<char>) -> Seq<char>
    decreases s.len(),
{
    if m.len() == 0 || s.len() < m.len() {
        s
    } else if s.subrange(0, m.len() as int) == m {
        v + spec_replace(s.skip(m.len() as int), m, v)
    } else {
        seq![s[0]] + spec_replace(s.skip(1), m, v)
    }
}

/// Position of the leftmost occurrence of `m` in `s` (meaningful when `m`
/// is nonempty and occurs in `s`).
pub open spec fn spec_first_match(s: Seq<char>, m: Seq<char>) -> int
    decreases s.len(),
{
    if m.len() == 0 || s.len() < m.len() {
        0
    } else if s.subrange(0, m.len() as int) == m {
        0
    } else {
        1 + spec_first_match(s.skip(1), m)
    }
}

/// How many occurrences of `m` the left-to-right scan finds in `s`,
/// counting without overlap.
pub open spec fn spec_count(s: Seq<char>, m: Seq<char>) -> int
    decreases s.len(),
{
    if m.len() == 0 || s.len() < m.len() {
        0
    } else if s.subrange(0, m.len() as int) == m {
        1 + spec_count(s.skip(m.len() as int), m)
    } else {
        spec_count(s.skip(1), m)
    }
}

/// An occurrence count is never negative.
pub proof fn lemma_count_nonneg(s: Seq<char>, m: Seq<char>)
    ensures
        spec_count(s, m) >= 0,
    decreases s.len(),
{
    if m.len() == 0 || s.len() < m.len() {
    } else if s.subrange(0, m.len() as int) == m {
        lemma_count_nonneg(s.skip(m.len() as int), m);
    } else {
        lemma_count_nonneg(s.skip(1), m);
    }
}

/// A nonempty marker occurs exactly when its count is positive.
pub proof fn lemma_count_zero_iff_absent(s: Seq<char>, m: Seq<char>)
    requires
        m.len() > 0,
    ensures
        (spec_count(s, m) == 0) <==> !spec_contains(s, m),
    decreases s.len(),
{
    if s.len() < m.len() {
    } else if s.subrange(0, m.len() as int) == m {
        lemma_count_nonneg(s.skip(m.len() as int), m);
    } else {
        lemma_count_zero_iff_absent(s.skip(1), m);
    }
}

/// Each of the N occurrences of the marker is traded for one copy of the
/// replacement: the result's length is the original's, adjusted N times by
/// the difference in their lengths.
pub proof fn lemma_replace_length(s: Seq<char>, m: Seq<char>, v: Seq<char>)
    requires
        m.len() > 0,
    ensures
        spec_replace(s, m, v).len() == s.len() + spec_count(s, m) * (v.len() - m.len()),
    decreases s.len(),
{
    let d: int = v.len() - m.len();
    if s.len() < m.len() {
    } else if s.subrange(0, m.len() as int) == m {
        lemma_replace_length(s.skip(m.len() as int), m, v);
        let c1 = spec_count(s.skip(m.len() as int), m);
        assert((1 + c1) * d == d + c1 * d) by (nonlinear_arith);
    } else {
        lemma_replace_length(s.skip(1), m, v);
    }
}

/// An occurrence anywhere makes the scan find one.
pub proof fn lemma_occurrence_implies_contains(s: Seq<char>, m: Seq<char>, i: int)
    requires
        occurs_at(s, m, i),
    ensures
        spec_contains(s, m),
    decreases s.len(),
{
    if m.len() == 0 {
    } else if i == 0 {
    } else {
        assert(s.skip(1).subrange(i - 1, i - 1 + m.len()) =~= s.subrange(i, i + m.len()));
        lemma_occurrence_implies_contains(s.skip(1), m, i - 1);
    }
}

/// The scan only reports occurrences that exist.
pub proof fn lemma_contains_implies_occurrence(s: Seq<char>, m: Seq<char>)
    requires
        spec_contains(s, m),
    ensures
        exists|i: int| occurs_at(s, m, i),
    decreases s.len(),
{
    if m.len() == 0 {
        assert(s.subrange(0, 0) =~= m);
        assert(occurs_at(s, m, 0));
    } else if s.len() < m.len() {
    } else if s.subrange(0, m.len() as int) == m {
        assert(occurs_at(s, m, 0));
    } else {
        lemma_contains_implies_occurrence(s.skip(1), m);
        let i = choose|i: int| occurs_at(s.skip(1), m, i);
        assert(s.subrange(i + 1, i + 1 + m.len()) =~= s.skip(1).subrange(i, i + m.len()));
        assert(occurs_at(s, m, i + 1));
    }
}

/// The leftmost occurrence of a nonempty marker that occurs at all: it is
/// a real occurrence, and nothing occurs before it.
pub proof fn lemma_first_match(s: Seq<char>, m: Seq<char>)
    requires
        m.len() > 0,
        spec_contains(s, m),
    ensures
        0 <= spec_first_match(s, m),
        spec_first_match(s, m) + m.len() <= s.len(),
        occurs_at(s, m, spec_first_match(s, m)),
        forall|j: int| 0 <= j < spec_first_match(s, m) ==> !occurs_at(s, m, j),
    decreases s.len(),
{
    if s.subrange(0, m.len() as int) == m {
    } else {
        lemma_first_match(s.skip(1), m);
        let k1 = spec_first_match(s.skip(1), m);
        assert(s.subrange(k1 + 1, k1 + 1 + m.len()) =~= s.skip(1).subrange(k1, k1 + m.len()));
        assert(occurs_at(s, m, k1 + 1));
        assert forall|j: int| 0 <= j < k1 + 1 implies !occurs_at(s, m, j) by {
            if j == 0 {
                assert(!occurs_at(s, m, 0));
            } else if occurs_at(s, m, j) {
                assert(s.skip(1).subrange(j - 1, j - 1 + m.len()) =~= s.subrange(j, j + m.len()));
                assert(occurs_at(s.skip(1), m, j - 1));
            }
        }
    }
}

/// How one round of substitution decomposes: everything before the
/// leftmost occurrence is kept, the replacement is spliced in, and the
/// rest is substituted in turn.  With the absence case this pins each of
/// the original occurrence positions in the result.
pub proof fn lemma_replace_decomposition(s: Seq<char>, m: Seq<char>, v: Seq<char>)
    requires
        m.len() > 0,
        spec_contains(s, m),
    ensures
        spec_replace(s, m, v) == s.subrange(0, spec_first_match(s, m)) + v + spec_replace(
            s.skip(spec_first_match(s, m) + m.len()),
            m,
            v,
        ),
    decreases s.len(),
{
    lemma_first_match(s, m);
    if s.subrange(0, m.len() as int) == m {
        assert(s.subrange(0, 0) =~= Seq::<char>::empty());
        assert(Seq::<char>::empty() + v =~= v);
    } else {
        lemma_replace_decomposition(s.skip(1), m, v);
        let k1 = spec_first_match(s.skip(1), m);
        assert(seq![s[0]] + s.skip(1).subrange(0, k1) =~= s.subrange(0, k1 + 1));
        assert(s.skip(1).skip(k1 + m.len()) =~= s.skip(k1 + 1 + m.len()));
        assert(seq![s[0]] + (s.skip(1).subrange(0, k1) + v + spec_replace(
            s.skip(k1 + 1 + m.len()),
            m,
            v,
        )) =~= s.subrange(0, k1 + 1) + v + spec_replace(s.skip(k1 + 1 + m.len()), m, v));
    }
}

/// After substitution the marker is gone: when the replacement is nonempty
/// and shares no character with the marker, the result contains no
/// occurrence of the marker at all.
pub proof fn lemma_replace_removes_marker(s: Seq<char>, m: Seq<char>, v: Seq<char>)
    requires
        m.len() > 0,
        v.len() > 0,
        forall|i: int, j: int| 0 <= i < v.len() && 0 <= j < m.len() ==> v[i] != m[j],
    ensures
        !spec_contains(spec_replace(s, m, v), m),
    decreases s.len(),
{
    if !spec_contains(s, m) {
        lemma_replace_absent_marker(s, m, v);
    } else {
        lemma_first_match(s, m);
        lemma_replace_decomposition(s, m, v);
        let k = spec_first_match(s, m);
        let pre = s.subrange(0, k);
        let rest = spec_replace(s.skip(k + m.len()), m, v);
        let t = pre + v + rest;
        lemma_replace_removes_marker(s.skip(k + m.len()), m, v);
        if spec_contains(t, m) {
            lemma_contains_implies_occurrence(t, m);
            let p = choose|p: int| occurs_at(t, m, p);
            if p + m.len() <= k {
                assert(s.subrange(p, p + m.len()) =~= t.subrange(p, p + m.len()));
                assert(occurs_at(s, m, p));
                assert(false);
            } else if p >= k + v.len() {
                let p1 = p - k - v.len();
                assert(rest.subrange(p1, p1 + m.len()) =~= t.subrange(p, p + m.len()));
                assert(occurs_at(rest, m, p1));
                lemma_occurrence_implies_contains(rest, m, p1);
                assert(false);
            } else {
                let q: int = if p >= k {
                    p
                } else {
                    k
                };
                assert(t[q] == v[q - k]);
                assert(t.subrange(p, p + m.len())[q - p] == t[q]);
                assert(v[q - k] == m[q - p]);
                assert(false);
            }
        }
    }
}

/// Replacing a marker that does not occur changes nothing.
pub proof fn lemma_replace_absent_marker(s: Seq<char>, m: Seq<char>, v: Seq<char>)
    requires
        !spec_contains(s, m),
    ensures
        spec_replace(s, m, v) == s,
    decreases s.len(),
{
    if m.len() == 0 || s.len() < m.len() {
    } else if s.subrange(0, m.len() as int) == m {
    } else {
        lemma_replace_absent_marker(s.skip(1), m, v);
        assert(seq![s[0]] + s.skip(1) =~= s);
    }
}

/// Whether the characters of `m` start at position `i` of `s`.
fn matches_at(s: &Vec<char>, m: &Vec<char>, i: usize) -> (b: bool)
    requires
        i <= s.len(),
    ensures
        b == (i + m@.len() <= s@.len() && s@.subrange(i as int, i + m@.len()) == m@),
{
    if s.len() - i < m.len() {
        return false;
    }
    let mut j: usize = 0;
    while j < m.len()
        invariant
            i + m@.len() <= s@.len(),
            s@.len() <= usize::MAX,
            j <= m@.len(),
            forall|k: int| 0 <= k < j ==> s@[i + k] == m@[k],
        decreases m@.len() - j,
    {
        if s[i + j] != m[j] {
            proof {
                assert(s@.subrange(i as int, i + m@.len())[j as int] == s@[i + j]);
            }
            return false;
        }
        j += 1;
    }
    proof {
        assert(s@.subrange(i as int, i + m@.len()) =~= m@);
    }
    true
}

/// Whether the marker `m` occurs in `s`.
pub fn contains_chars(s: &Vec<char>, m: &Vec<char>) -> (b: bool)
    ensures
        b == spec_contains(s@, m@),
{
    if m.len() == 0 {
        return true;
    }
    let mut i: usize = 0;
    proof {
        assert(s@.skip(0) =~= s@);
    }
    loop
        invariant
            m@.len() > 0,
            i <= s@.len(),
            spec_contains(s@, m@) == spec_contains(s@.skip(i as int), m@),
        decreases s@.len() - i,
    {
        if s.len() - i < m.len() {
            return false;
        }
        if matches_at(s, m, i) {
            proof {
                assert(s@.skip(i as int).subrange(0, m@.len() as int) =~= s@.subrange(
                    i as int,
                    i + m@.len(),
                ));
            }
            return true;
        }
        proof {
            assert(s@.skip(i as int).subrange(0, m@.len() as int) =~= s@.subrange(
                i as int,
                i + m@.len(),
            ));
            assert(s@.skip(i as int).skip(1) =~= s@.skip(i as int + 1));
        }
        i += 1;
    }
}

/// Appends every element of `v` to `out`.
pub fn push_all<T: Copy>(out: &mut Vec<T>, v: &Vec<T>)
    ensures
        final(out)@ == old(out)@ + v@,
{
    let mut k: usize = 0;
    while k < v.len()
        invariant
            k <= v@.len(),
            out@ == old(out)@ + v@.subrange(0, k as int),
        decreases v@.len() - k,
    {
        out.push(v[k]);
        proof {
            assert(old(out)@ + v@.subrange(0, k as int) + seq![v@[k as int]] =~= old(out)@
                + v@.subrange(0, (k + 1) as int));
        }
        k += 1;
    }
    proof {
        assert(old(out)@ + v@.subrange(0, v@.len() as int) =~= old(out)@ + v@);
    }
}

/// Replaces every occurrence of the marker `m` in `s` with `v`.
pub fn replace_chars(s: &Vec<char>, m: &Vec<char>, v: &Vec<char>) -> (out: Vec<char>)
    ensures
        out@ == spec_replace(s@, m@, v@),
{
    let mut out: Vec<char> = Vec::new();
    if m.len() == 0 {
        push_all(&mut out, s);
        proof {
            assert(Seq::<char>::empty() + s@ =~= s@);
        }
        return out;
    }
    let mut i: usize = 0;
    proof {
        assert(s@.skip(0) =~= s@);
        assert(Seq::<char>::empty() + spec_replace(s@, m@, v@) =~= spec_replace(s@, m@, v@));
    }
    loop
        invariant
            m@.len() > 0,
            i <= s@.len(),
            spec_replace(s@, m@, v@) == out@ + spec_replace(s@.skip(i as int), m@, v@),
        decreases s@.len() - i,
    {
        if s.len() - i < m.len() {
            let ghost out0 = out@;
            let mut k: usize = i;
            while k < s.len()
                invariant
                    i <= k <= s@.len(),
                    spec_replace(s@, m@, v@) == out@ + s@.skip(k as int),
                    m@.len() > 0,
                    s@.len() - k < m@.len(),
                decreases s@.len() - k,
            {
                proof {
                    assert(s@.skip(k as int) =~= seq![s@[k as int]] + s@.skip(k as int + 1));
                    assert((out@ + seq![s@[k as int]]) + s@.skip(k as int + 1) =~= out@ + s@.skip(
                        k as int,
                    ));
                }
                out.push(s[k]);
                k += 1;
            }
            proof {
                assert(out@ + s@.skip(s@.len() as int) =~= out@);
            }
            return out;
        }
        if matches_at(s, m, i) {
            let ghost out0 = out@;
            proof {
                assert(s@.skip(i as int).subrange(0, m@.len() as int) =~= s@.subrange(
                    i as int,
                    i + m@.len(),
                ));
            }
            push_all(&mut out, v);
            proof {
                assert(s@.skip(i as int).skip(m@.len() as int) =~= s@.skip(i + m@.len()));
                assert(out0 + (v@ + spec_replace(s@.skip(i + m@.len()), m@, v@)) =~= (out0 + v@)
                    + spec_replace(s@.skip(i + m@.len()), m@, v@));
            }
            i += m.len();
        } else {
            proof {
                assert(s@.skip(i as int).subrange(0, m@.len() as int) =~= s@.subrange(
                    i as int,
                    i + m@.len(),
                ));
                assert(s@.skip(i as int)[0] == s@[i as int]);
                assert(s@.skip(i as int).skip(1) =~= s@.skip(i as int + 1));
                assert(out@ + (seq![s@[i as int]] + spec_replace(s@.skip(i as int + 1), m@, v@))
                    =~= (out@ + seq![s@[i as int]]) + spec_replace(s@.skip(i as int + 1), m@, v@));
            }
            out.push(s[i]);
            i += 1;
        }
    }
}

} // verus!
