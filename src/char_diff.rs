//! Character-level diff between two near-identical strings, shown as
//! `prefix{-removed-}{+added+}suffix`.
use vstd::prelude::*;

use crate::text::{same_scalars, scalars, substring};

verus! {

broadcast use vstd::string::group_string_axioms;

/// Shorter of two lengths.
pub open spec fn min_len(a: Seq<char>, b: Seq<char>) -> nat {
    if a.len() <= b.len() {
        a.len()
    } else {
        b.len()
    }
}

/// `(p, s)` are the common prefix and suffix lengths of `a` and `b`: the
/// longest common prefix, then the longest common suffix of what the prefix
/// leaves, so that the two never overlap.
pub open spec fn is_boundary_pair(a: Seq<char>, b: Seq<char>, p: nat, s: nat) -> bool {
    &&& p + s <= min_len(a, b)
    &&& a.take(p as int) == b.take(p as int)
    &&& (p == min_len(a, b) || a[p as int] != b[p as int])
    &&& a.skip(a.len() - s) == b.skip(b.len() - s)
    &&& (p + s == min_len(a, b) || a[a.len() - 1 - s] != b[b.len() - 1 - s])
}

/// Each pair of sequences has one boundary pair only.
pub proof fn lemma_boundary_pair_unique(a: Seq<char>, b: Seq<char>, p1: nat, s1: nat, p2: nat, s2: nat)
    requires
        is_boundary_pair(a, b, p1, s1),
        is_boundary_pair(a, b, p2, s2),
    ensures
        p1 == p2,
        s1 == s2,
{
    if p1 < p2 {
        assert(a.take(p2 as int)[p1 as int] == b.take(p2 as int)[p1 as int]);
    }
    if p2 < p1 {
        assert(a.take(p1 as int)[p2 as int] == b.take(p1 as int)[p2 as int]);
    }
    if s1 < s2 {
        assert(a.skip(a.len() - s2)[s2 - 1 - s1] == b.skip(b.len() - s2)[s2 - 1 - s1]);
    }
    if s2 < s1 {
        assert(a.skip(a.len() - s1)[s1 - 1 - s2] == b.skip(b.len() - s1)[s1 - 1 - s2]);
    }
}

/// Prefix, middle and suffix put back together give the whole sequence, and
/// the prefix and suffix are the same on both sides: cutting at a boundary
/// pair loses nothing.
pub proof fn lemma_boundary_split(a: Seq<char>, b: Seq<char>, p: nat, s: nat)
    requires
        is_boundary_pair(a, b, p, s),
    ensures
        a == a.take(p as int) + a.subrange(p as int, a.len() - s) + a.skip(a.len() - s),
        b == b.take(p as int) + b.subrange(p as int, b.len() - s) + b.skip(b.len() - s),
        a.take(p as int) == b.take(p as int),
        a.skip(a.len() - s) == b.skip(b.len() - s),
{
    assert(a =~= a.take(p as int) + a.subrange(p as int, a.len() - s) + a.skip(a.len() - s));
    assert(b =~= b.take(p as int) + b.subrange(p as int, b.len() - s) + b.skip(b.len() - s));
}

/// Character-level diff result.
#[derive(Debug, Clone, PartialEq, Eq)]
pub struct CharDiff {
    pub common_prefix: String,
    pub expected_part: String,
    pub actual_part: String,
    pub common_suffix: String,
}

/// Name for what `str::trim` keeps of a string.
pub uninterp spec fn trimmed(s: Seq<char>) -> Seq<char>;

/// Relies on `str::trim`: the string without its leading and trailing
/// whitespace, which depends on the characters alone.
#[verifier::external_body]
fn trim(s: &str) -> (r: &str)
    ensures
        r@ == trimmed(s@),
{
    s.trim()
}

impl CharDiff {
    /// Length of the common prefix of two scalar sequences.
    pub(crate) fn find_common_prefix(a: &Vec<char>, b: &Vec<char>) -> (r: usize)
        ensures
            r <= min_len(a@, b@),
            a@.take(r as int) == b@.take(r as int),
            r == min_len(a@, b@) || a@[r as int] != b@[r as int],
    {
        let mut i: usize = 0;
        while i < a.len() && i < b.len() && a[i] == b[i]
            invariant
                i <= min_len(a@, b@),
                forall|k: int| 0 <= k < i ==> a@[k] == b@[k],
            decreases a@.len() - i,
        {
            i = i + 1;
        }
        assert(a@.take(i as int) =~= b@.take(i as int));
        i
    }

    /// Length of the common suffix of what follows the first `prefix_len`
    /// scalars of each sequence.
    pub(crate) fn find_common_suffix(a: &Vec<char>, b: &Vec<char>, prefix_len: usize) -> (r: usize)
        requires
            prefix_len <= min_len(a@, b@),
        ensures
            prefix_len + r <= min_len(a@, b@),
            a@.skip(a@.len() - r) == b@.skip(b@.len() - r),
            prefix_len + r == min_len(a@, b@) || a@[a@.len() - 1 - r] != b@[b@.len() - 1 - r],
    {
        let room = if a.len() <= b.len() {
            a.len() - prefix_len
        } else {
            b.len() - prefix_len
        };
        let mut i: usize = 0;
        while i < room && a[a.len() - 1 - i] == b[b.len() - 1 - i]
            invariant
                prefix_len + room == min_len(a@, b@),
                i <= room,
                a@.skip(a@.len() - i) == b@.skip(b@.len() - i),
            decreases room - i,
        {
            proof {
                let ghost x = a@.len() - 1 - i;
                let ghost y = b@.len() - 1 - i;
                assert(a@.skip(x) =~= seq![a@[x]] + a@.skip(a@.len() - i));
                assert(b@.skip(y) =~= seq![b@[y]] + b@.skip(b@.len() - i));
            }
            i = i + 1;
        }
        i
    }

    /// Finds the character-level diff between `expected` and `actual`: the
    /// common prefix, the differing middles of each, and the common suffix.
    pub fn new(expected: &str, actual: &str) -> (r: CharDiff)
        ensures
            is_boundary_pair(expected@, actual@, r.common_prefix@.len(), r.common_suffix@.len()),
            r.common_prefix@ == expected@.take(r.common_prefix@.len() as int),
            r.common_suffix@ == expected@.skip(expected@.len() - r.common_suffix@.len()),
            r.expected_part@ == expected@.subrange(
                r.common_prefix@.len() as int,
                expected@.len() - r.common_suffix@.len(),
            ),
            r.actual_part@ == actual@.subrange(
                r.common_prefix@.len() as int,
                actual@.len() - r.common_suffix@.len(),
            ),
            expected@ == r.common_prefix@ + r.expected_part@ + r.common_suffix@,
            actual@ == r.common_prefix@ + r.actual_part@ + r.common_suffix@,
    {
        let e = scalars(expected);
        let a = scalars(actual);
        let prefix_len = Self::find_common_prefix(&e, &a);
        let suffix_len = Self::find_common_suffix(&e, &a, prefix_len);
        let common_prefix = substring(expected, 0, prefix_len);
        let common_suffix = substring(expected, e.len() - suffix_len, e.len());
        let expected_part = substring(expected, prefix_len, e.len() - suffix_len);
        let actual_part = substring(actual, prefix_len, a.len() - suffix_len);
        proof {
            lemma_boundary_split(expected@, actual@, prefix_len as nat, suffix_len as nat);
            assert(expected@.subrange(0, prefix_len as int) =~= expected@.take(prefix_len as int));
            assert(expected@.subrange(expected@.len() - suffix_len, expected@.len() as int)
                =~= expected@.skip(expected@.len() - suffix_len));
        }
        CharDiff { common_prefix, expected_part, actual_part, common_suffix }
    }

    /// Formats the diff as `prefix{-old-}{+new+}suffix`.
    pub fn format(&self) -> (r: String)
        ensures
            r@ == self.common_prefix@ + "{-"@ + self.expected_part@ + "-}{+"@ + self.actual_part@
                + "+}"@ + self.common_suffix@,
    {
        let mut out = String::new();
        out.append(self.common_prefix.as_str());
        out.append("{-");
        out.append(self.expected_part.as_str());
        out.append("-}{+");
        out.append(self.actual_part.as_str());
        out.append("+}");
        out.append(self.common_suffix.as_str());
        proof {
            assert(out@ =~= self.common_prefix@ + "{-"@ + self.expected_part@ + "-}{+"@
                + self.actual_part@ + "+}"@ + self.common_suffix@);
        }
        out
    }

    /// Whether the two differing parts are equal once leading and trailing
    /// whitespace is removed.
    pub fn is_whitespace_only(&self) -> (r: bool)
        ensures
            r == (trimmed(self.expected_part@) == trimmed(self.actual_part@)),
    {
        same_scalars(trim(self.expected_part.as_str()), trim(self.actual_part.as_str()))
    }
}

} // verus!
