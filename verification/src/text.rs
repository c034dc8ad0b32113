//! Verified text searching and substitution over character sequences.
//!
//! These are the primitives the rendering pipeline is built on: testing
//! for a pattern at a position, finding the first occurrence of a
//! pattern, and replacing every non-overlapping occurrence of a pattern
//! (leftmost first) throughout a string.

use vstd::prelude::*;

verus! {

/// `pat` occurs in `s` starting at character position `i`.
pub open spec fn found_at(s: Seq<char>, pat: Seq<char>, i: int) -> bool {
    &&& 0 <= i
    &&& i + pat.len() <= s.len()
    &&& s.subrange(i, i + pat.len() as int) == pat
}

/// Character position of the first occurrence of `pat` in `s` at or
/// after position `from`, if any.
pub open spec fn find_from_spec(s: Seq<char>, pat: Seq<char>, from: int) -> Option<int>
    decreases s.len() - from + 1,
{
    if from < 0 || from + pat.len() > s.len() {
        None
    } else if s.subrange(from, from + pat.len() as int) == pat {
        Some(from)
    } else {
        find_from_spec(s, pat, from + 1)
    }
}

/// A found position is an occurrence, and lies at or after `from`.
pub proof fn lemma_find_from_spec_some(s: Seq<char>, pat: Seq<char>, from: int, i: int)
    requires
        find_from_spec(s, pat, from) == Some(i),
    ensures
        from <= i,
        found_at(s, pat, i),
    decreases s.len() - from + 1,
{
    if !(from < 0 || from + pat.len() > s.len())
        && s.subrange(from, from + pat.len() as int) != pat {
        lemma_find_from_spec_some(s, pat, from + 1, i);
    }
}

/// `s`, with every non-overlapping occurrence of `from` (scanning left
/// to right) replaced by `to`. An empty pattern replaces nothing.
pub open spec fn replace_all_spec(s: Seq<char>, from: Seq<char>, to: Seq<char>) -> Seq<char>
    decreases s.len(),
{
    if from.len() == 0 || s.len() < from.len() {
        s
    } else if s.subrange(0, from.len() as int) == from {
        to + replace_all_spec(s.skip(from.len() as int), from, to)
    } else {
        seq![s[0]] + replace_all_spec(s.skip(1), from, to)
    }
}

/// Replacing in a non-empty string by a non-empty replacement cannot
/// empty the string.
pub proof fn lemma_replace_all_nonempty(s: Seq<char>, from: Seq<char>, to: Seq<char>)
    requires
        s.len() > 0,
        to.len() > 0,
    ensures
        replace_all_spec(s, from, to).len() > 0,
{
}

/// Test whether `pat` occurs in `s` at character position `i`.
pub fn matches_at(s: &str, pat: &str, i: usize) -> (r: bool)
    ensures
        r == found_at(s@, pat@, i as int),
{
    let n = s.unicode_len();
    let m = pat.unicode_len();
    if i > n || m > n - i {
        return false;
    }
    let mut j: usize = 0;
    while j < m
        invariant
            n == s@.len(),
            m == pat@.len(),
            i + m <= n,
            j <= m,
            forall|k: int| 0 <= k < j ==> s@[i + k] == pat@[k],
        decreases m - j,
    {
        if s.get_char(i + j) != pat.get_char(j) {
            proof {
                assert(s@.subrange(i as int, i + m as int)[j as int] == s@[i + j]);
            }
            return false;
        }
        j += 1;
    }
    proof {
        assert(s@.subrange(i as int, i + m as int) =~= pat@);
    }
    true
}

/// Find the first occurrence of `pat` in `s` at or after character
/// position `from`.
pub fn find_from(s: &str, pat: &str, from: usize) -> (r: Option<usize>)
    ensures
        match r {
            Some(i) => find_from_spec(s@, pat@, from as int) == Some(i as int),
            None => find_from_spec(s@, pat@, from as int) is None,
        },
{
    let n = s.unicode_len();
    let m = pat.unicode_len();
    if from > n {
        return None;
    }
    if m == 0 {
        proof {
            assert(s@.subrange(from as int, from as int) =~= pat@);
        }
        return Some(from);
    }
    if m > n - from {
        return None;
    }
    let mut i: usize = from;
    while n - i >= m
        invariant
            n == s@.len(),
            m == pat@.len(),
            m > 0,
            from <= i <= n,
            find_from_spec(s@, pat@, from as int) == find_from_spec(s@, pat@, i as int),
        decreases n - i,
    {
        if matches_at(s, pat, i) {
            return Some(i);
        }
        i += 1;
    }
    None
}

/// Replace every non-overlapping occurrence of `from` in `s` by `to`,
/// scanning left to right. All occurrences of the same literal are
/// replaced in one pass; an empty pattern leaves `s` unchanged.
pub fn replace_all(s: &str, from: &str, to: &str) -> (r: String)
    ensures
        r@ == replace_all_spec(s@, from@, to@),
{
    let n = s.unicode_len();
    let m = from.unicode_len();
    if m == 0 {
        return String::from_str(s);
    }
    let mut out = String::new();
    let mut i: usize = 0;
    proof {
        assert(s@.skip(0) =~= s@);
        assert(Seq::<char>::empty() + replace_all_spec(s@, from@, to@) =~= replace_all_spec(
            s@,
            from@,
            to@,
        ));
    }
    while n - i >= m
        invariant
            n == s@.len(),
            m == from@.len(),
            m > 0,
            i <= n,
            replace_all_spec(s@, from@, to@) == out@ + replace_all_spec(
                s@.skip(i as int),
                from@,
                to@,
            ),
        decreases n - i,
    {
        if matches_at(s, from, i) {
            proof {
                assert(s@.skip(i as int).subrange(0, m as int) =~= s@.subrange(
                    i as int,
                    i + m as int,
                ));
                assert(s@.skip(i as int).skip(m as int) =~= s@.skip(i + m as int));
                assert(replace_all_spec(s@.skip(i as int), from@, to@) == to@ + replace_all_spec(
                    s@.skip(i + m as int),
                    from@,
                    to@,
                ));
                assert(out@ + replace_all_spec(s@.skip(i as int), from@, to@) =~= (out@ + to@)
                    + replace_all_spec(s@.skip(i + m as int), from@, to@));
            }
            out.append(to);
            i += m;
        } else {
            proof {
                assert(s@.skip(i as int).subrange(0, m as int) =~= s@.subrange(
                    i as int,
                    i + m as int,
                ));
                assert(s@.skip(i as int).skip(1) =~= s@.skip(i + 1));
                assert(s@.subrange(i as int, i + 1) =~= seq![s@[i as int]]);
                assert(replace_all_spec(s@.skip(i as int), from@, to@) == seq![s@[i as int]]
                    + replace_all_spec(s@.skip(i + 1), from@, to@));
                assert(out@ + replace_all_spec(s@.skip(i as int), from@, to@) =~= (out@ + seq![
                    s@[i as int],
                ]) + replace_all_spec(s@.skip(i + 1), from@, to@));
            }
            out.append(s.substring_char(i, i + 1));
            i += 1;
        }
    }
    out.append(s.substring_char(i, n));
    proof {
        assert(s@.subrange(i as int, n as int) =~= s@.skip(i as int));
        assert(replace_all_spec(s@.skip(i as int), from@, to@) == s@.skip(i as int));
    }
    out
}

} // verus!
