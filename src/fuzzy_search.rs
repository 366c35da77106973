//! Edit distance over scalar values, a divide-and-conquer locator of
//! approximate matches, and a similarity ratio.
use vstd::prelude::*;

use crate::text::{copy_range, scalar_len, scalars, substring};

verus! {

/// Smallest of three naturals.
pub open spec fn min3(x: nat, y: nat, z: nat) -> nat {
    if x <= y && x <= z {
        x
    } else if y <= z {
        y
    } else {
        z
    }
}

/// Levenshtein distance: the least number of single-scalar insertions,
/// deletions and substitutions that turn `a` into `b`.
pub open spec fn lev(a: Seq<char>, b: Seq<char>) -> nat
    decreases a.len() + b.len(),
{
    if a.len() == 0 {
        b.len()
    } else if b.len() == 0 {
        a.len()
    } else {
        min3(
            lev(a.drop_last(), b) + 1,
            lev(a, b.drop_last()) + 1,
            lev(a.drop_last(), b.drop_last()) + if a.last() == b.last() {
                0nat
            } else {
                1nat
            },
        )
    }
}

/// The distance never exceeds the longer length.
pub proof fn lemma_lev_upper(a: Seq<char>, b: Seq<char>)
    ensures
        lev(a, b) <= if a.len() >= b.len() {
            a.len()
        } else {
            b.len()
        },
    decreases a.len() + b.len(),
{
    if a.len() > 0 && b.len() > 0 {
        lemma_lev_upper(a.drop_last(), b.drop_last());
    }
}

/// The distance is at least the difference of the lengths.
pub proof fn lemma_lev_lower(a: Seq<char>, b: Seq<char>)
    ensures
        lev(a, b) >= a.len() - b.len(),
        lev(a, b) >= b.len() - a.len(),
    decreases a.len() + b.len(),
{
    if a.len() > 0 && b.len() > 0 {
        lemma_lev_lower(a.drop_last(), b);
        lemma_lev_lower(a, b.drop_last());
        lemma_lev_lower(a.drop_last(), b.drop_last());
    }
}

/// A sequence is at distance zero from itself.
pub proof fn lemma_lev_self(a: Seq<char>)
    ensures
        lev(a, a) == 0,
    decreases a.len(),
{
    if a.len() > 0 {
        lemma_lev_self(a.drop_last());
    }
}

/// Distance zero means equal sequences, and equal sequences are at distance zero.
pub proof fn lemma_distance_zero(a: Seq<char>, b: Seq<char>)
    ensures
        lev(a, b) == 0 <==> a == b,
    decreases a.len() + b.len(),
{
    if a == b {
        lemma_lev_self(a);
    } else if a.len() == 0 || b.len() == 0 {
        if a.len() == 0 && b.len() == 0 {
            assert(a =~= b);
        }
    } else {
        lemma_distance_zero(a.drop_last(), b.drop_last());
        if lev(a, b) == 0 {
            assert(a.drop_last() == b.drop_last());
            assert(a.last() == b.last());
            assert(a =~= a.drop_last().push(a.last()));
            assert(b =~= b.drop_last().push(b.last()));
        }
    }
}

/// Distance is symmetric.
pub proof fn lemma_lev_symmetric(a: Seq<char>, b: Seq<char>)
    ensures
        lev(a, b) == lev(b, a),
    decreases a.len() + b.len(),
{
    if a.len() > 0 && b.len() > 0 {
        lemma_lev_symmetric(a.drop_last(), b);
        lemma_lev_symmetric(a, b.drop_last());
        lemma_lev_symmetric(a.drop_last(), b.drop_last());
    }
}

/// Distance obeys the triangle inequality.
pub proof fn lemma_lev_triangle(a: Seq<char>, b: Seq<char>, c: Seq<char>)
    ensures
        lev(a, b) <= lev(a, c) + lev(c, b),
    decreases a.len() + b.len() + c.len(),
{
    if c.len() == 0 {
        lemma_lev_upper(a, b);
    } else if a.len() == 0 {
        lemma_lev_lower(c, b);
    } else if b.len() == 0 {
        lemma_lev_lower(a, c);
    } else {
        let a1 = a.drop_last();
        let b1 = b.drop_last();
        let c1 = c.drop_last();
        lemma_lev_triangle(a1, b, c);
        lemma_lev_triangle(a, b1, c);
        lemma_lev_triangle(a, b, c1);
        lemma_lev_triangle(a, b1, c1);
        lemma_lev_triangle(a1, b, c1);
        lemma_lev_triangle(a1, b1, c1);
    }
}

/// `x + 1`, or `x` when that would not fit.
fn bump(x: usize) -> (r: usize)
    ensures
        x < usize::MAX ==> r == x + 1,
        x == usize::MAX ==> r == x,
{
    if x < usize::MAX {
        x + 1
    } else {
        x
    }
}

/// Edit distance between two scalar sequences, one row of the table at a
/// time. The row leaves out column zero, whose value is the row number.
fn edit_distance(a: &Vec<char>, b: &Vec<char>) -> (r: usize)
    ensures
        r == lev(a@, b@),
{
    let n = a.len();
    let m = b.len();
    if n == 0 {
        return m;
    }
    if m == 0 {
        return n;
    }
    let mut prev: Vec<usize> = Vec::new();
    let mut j: usize = 0;
    while j < m
        invariant
            j <= m,
            m == b@.len(),
            prev@.len() == j,
            forall|k: int| 0 <= k < j ==> prev@[k] == lev(a@.take(0), b@.take(k + 1)),
        decreases m - j,
    {
        proof {
            assert(a@.take(0).len() == 0);
        }
        prev.push(j + 1);
        j = j + 1;
    }
    let mut i: usize = 0;
    while i < n
        invariant
            i <= n,
            n == a@.len(),
            m == b@.len(),
            m > 0,
            prev@.len() == m,
            forall|k: int| 0 <= k < m ==> prev@[k] == lev(a@.take(i as int), b@.take(k + 1)),
        decreases n - i,
    {
        let mut cur: Vec<usize> = Vec::new();
        let mut left: usize = i + 1;
        let mut diag: usize = i;
        proof {
            assert(b@.take(0).len() == 0);
        }
        let mut j: usize = 0;
        while j < m
            invariant
                i < n,
                j <= m,
                n == a@.len(),
                m == b@.len(),
                prev@.len() == m,
                cur@.len() == j,
                forall|k: int| 0 <= k < m ==> prev@[k] == lev(a@.take(i as int), b@.take(k + 1)),
                forall|k: int| 0 <= k < j ==> cur@[k] == lev(a@.take(i + 1), b@.take(k + 1)),
                left == lev(a@.take(i + 1), b@.take(j as int)),
                diag == lev(a@.take(i as int), b@.take(j as int)),
            decreases m - j,
        {
            let ghost x = a@.take(i + 1);
            let ghost y = b@.take(j + 1);
            proof {
                assert(x.drop_last() =~= a@.take(i as int));
                assert(y.drop_last() =~= b@.take(j as int));
                assert(x.last() == a@[i as int]);
                assert(y.last() == b@[j as int]);
                lemma_lev_upper(x, y);
            }
            let up = prev[j];
            let substitution = if a[i] == b[j] {
                diag
            } else {
                bump(diag)
            };
            let mut best = bump(up);
            let insertion = bump(left);
            if insertion < best {
                best = insertion;
            }
            if substitution < best {
                best = substitution;
            }
            proof {
                assert(lev(x, y) == min3(
                    lev(x.drop_last(), y) + 1,
                    lev(x, y.drop_last()) + 1,
                    lev(x.drop_last(), y.drop_last()) + if x.last() == y.last() {
                        0nat
                    } else {
                        1nat
                    },
                ));
            }
            cur.push(best);
            left = best;
            diag = up;
            j = j + 1;
        }
        prev = cur;
        i = i + 1;
    }
    proof {
        assert(a@.take(n as int) =~= a@);
        assert(b@.take(m as int) =~= b@);
    }
    prev[m - 1]
}

/// Levenshtein distance between two strings, counted in scalar values.
pub fn levenshtein_distance(a: &str, b: &str) -> (r: usize)
    ensures
        r == lev(a@, b@),
        a@.len() == 0 ==> r == b@.len(),
        b@.len() == 0 ==> r == a@.len(),
{
    let a_chars = scalars(a);
    let b_chars = scalars(b);
    edit_distance(&a_chars, &b_chars)
}

/// Distance between the window `t[s..e]` and `q`.
pub open spec fn window_distance(t: Seq<char>, q: Seq<char>, s: nat, e: nat) -> nat {
    lev(t.subrange(s as int, e as int), q)
}

/// Start and distance after moving the start right while each step
/// strictly lowers the distance.
pub open spec fn shrink_start(t: Seq<char>, q: Seq<char>, s: nat, e: nat, d: nat) -> (nat, nat)
    decreases e - s,
{
    if s < e && window_distance(t, q, s + 1, e) < d {
        shrink_start(t, q, s + 1, e, window_distance(t, q, s + 1, e))
    } else {
        (s, d)
    }
}

/// End and distance after moving the end left while each step strictly
/// lowers the distance.
pub open spec fn shrink_end(t: Seq<char>, q: Seq<char>, s: nat, e: nat, d: nat) -> (nat, nat)
    decreases e - s,
{
    if s < e && window_distance(t, q, s, (e - 1) as nat) < d {
        shrink_end(t, q, s, (e - 1) as nat, window_distance(t, q, s, (e - 1) as nat))
    } else {
        (e, d)
    }
}

/// Hill-climbing refinement of the window `[s, e)` whose distance is `d`:
/// first the start, then the end. The result is a local optimum only.
pub open spec fn refine(t: Seq<char>, q: Seq<char>, s: nat, e: nat, d: nat) -> (nat, nat, nat) {
    let (s2, d2) = shrink_start(t, q, s, e, d);
    let (e2, d3) = shrink_end(t, q, s2, e, d2);
    (s2, e2, d3)
}

/// Middle of the range `[s, e)`.
pub open spec fn midpoint(s: nat, e: nat) -> nat {
    (s + (e - s) / 2) as nat
}

/// End of the left candidate window: it reaches one query length past the middle.
pub open spec fn left_end(s: nat, e: nat, k: nat) -> nat {
    if midpoint(s, e) + k < e {
        midpoint(s, e) + k
    } else {
        e
    }
}

/// Start of the right candidate window: one query length before the middle.
pub open spec fn right_start(s: nat, e: nat, k: nat) -> nat {
    if midpoint(s, e) >= s + k {
        (midpoint(s, e) - k) as nat
    } else {
        s
    }
}

/// Recursion measure that drops when a known bound replaces an unknown one.
pub open spec fn unbounded(bound: Option<nat>) -> nat {
    if bound is None {
        1
    } else {
        0
    }
}

/// Value of a known bound, zero when there is none.
pub open spec fn bound_value(bound: Option<nat>) -> nat {
    match bound {
        Some(d) => d,
        None => 0,
    }
}

/// The window `(start, end, distance)` that the divide-and-conquer locator
/// picks for `q` inside the range `[s, e)` of `t`, `bound` being the
/// distance of that whole range when it is already known.
pub open spec fn locate_in(t: Seq<char>, q: Seq<char>, s: nat, e: nat, bound: Option<nat>) -> (
    nat,
    nat,
    nat,
)
    decreases e - s, unbounded(bound), bound_value(bound),
{
    let k = q.len();
    if k == 0 {
        (s, s, 0)
    } else if e - s <= 2 * k {
        let d = match bound {
            Some(d) => d,
            None => window_distance(t, q, s, e),
        };
        refine(t, q, s, e, d)
    } else {
        let le = left_end(s, e, k);
        let rs = right_start(s, e, k);
        let ld = window_distance(t, q, s, le);
        let rd = window_distance(t, q, rs, e);
        let split = if ld <= rd {
            ld
        } else {
            rd
        };
        if bound is Some && bound_value(bound) <= split {
            refine(t, q, s, e, bound_value(bound))
        } else if ld < rd {
            locate_in(t, q, s, le, Some(ld))
        } else {
            locate_in(t, q, rs, e, Some(rd))
        }
    }
}

/// The window that the locator picks for `q` over the whole of `t`.
pub open spec fn locate(t: Seq<char>, q: Seq<char>) -> (nat, nat, nat) {
    locate_in(t, q, 0, t.len(), None)
}

/// Result of a fuzzy search: the window `[start, end)` of the text, in
/// scalar values, the text it covers, and its distance from the query.
pub struct FuzzySearchResult {
    /// Start of the match, in scalar values.
    pub start: usize,
    /// End of the match (exclusive), in scalar values.
    pub end: usize,
    /// The matched text.
    pub value: String,
    /// Levenshtein distance between the matched text and the query.
    pub distance: usize,
}

/// A known bound, viewed as a natural number.
pub open spec fn bound_of(bound: Option<usize>) -> Option<nat> {
    match bound {
        Some(d) => Some(d as nat),
        None => None,
    }
}

/// Distance between `t[s..e]` and `q`.
fn distance_in(t: &Vec<char>, q: &Vec<char>, s: usize, e: usize) -> (r: usize)
    requires
        s <= e <= t@.len(),
    ensures
        r == window_distance(t@, q@, s as nat, e as nat),
{
    let w = copy_range(t, s, e);
    edit_distance(&w, q)
}

/// Iterative refinement of the window `[start, end)` whose distance is
/// `parent_distance`: moves the start right, then the end left, for as long
/// as each single step strictly lowers the distance. This is hill climbing:
/// it stops at a local optimum, not necessarily the best window.
fn iterative_reduction(
    t: &Vec<char>,
    q: &Vec<char>,
    start: usize,
    end: usize,
    parent_distance: usize,
) -> (r: (usize, usize, usize))
    requires
        start <= end <= t@.len(),
    ensures
        (r.0 as nat, r.1 as nat, r.2 as nat) == refine(
            t@,
            q@,
            start as nat,
            end as nat,
            parent_distance as nat,
        ),
        start <= r.0 <= r.1 <= end,
        parent_distance == window_distance(t@, q@, start as nat, end as nat) ==> r.2
            == window_distance(t@, q@, r.0 as nat, r.1 as nat),
        r.2 <= parent_distance,
{
    let ghost tv = t@;
    let ghost qv = q@;
    let ghost exact = parent_distance == window_distance(tv, qv, start as nat, end as nat);
    let mut best_start = start;
    let mut best_distance = parent_distance;
    let mut improving = true;
    while improving
        invariant
            start <= best_start <= end <= t@.len(),
            tv == t@,
            qv == q@,
            best_distance <= parent_distance,
            shrink_start(tv, qv, best_start as nat, end as nat, best_distance as nat)
                == shrink_start(tv, qv, start as nat, end as nat, parent_distance as nat),
            !improving ==> shrink_start(tv, qv, best_start as nat, end as nat, best_distance as nat)
                == (best_start as nat, best_distance as nat),
            exact ==> best_distance == window_distance(tv, qv, best_start as nat, end as nat),
        decreases end - best_start + if improving {
            1int
        } else {
            0int
        },
    {
        if best_start < end {
            let next = distance_in(t, q, best_start + 1, end);
            if next < best_distance {
                best_start = best_start + 1;
                best_distance = next;
            } else {
                improving = false;
            }
        } else {
            improving = false;
        }
    }
    let ghost mid_distance = best_distance;
    let mut best_end = end;
    improving = true;
    while improving
        invariant
            start <= best_start <= best_end <= end <= t@.len(),
            tv == t@,
            qv == q@,
            best_distance <= mid_distance <= parent_distance,
            shrink_end(tv, qv, best_start as nat, best_end as nat, best_distance as nat)
                == shrink_end(tv, qv, best_start as nat, end as nat, mid_distance as nat),
            !improving ==> shrink_end(tv, qv, best_start as nat, best_end as nat, best_distance as nat)
                == (best_end as nat, best_distance as nat),
            exact ==> best_distance == window_distance(tv, qv, best_start as nat, best_end as nat),
        decreases best_end - best_start + if improving {
            1int
        } else {
            0int
        },
    {
        if best_start < best_end {
            let next = distance_in(t, q, best_start, best_end - 1);
            if next < best_distance {
                best_end = best_end - 1;
                best_distance = next;
            } else {
                improving = false;
            }
        } else {
            improving = false;
        }
    }
    (best_start, best_end, best_distance)
}

/// Divide-and-conquer search over scalar vectors; see `locate_in`.
fn locate_chars(t: &Vec<char>, q: &Vec<char>, start: usize, end: usize, bound: Option<usize>) -> (r: (
    usize,
    usize,
    usize,
))
    requires
        start <= end <= t@.len(),
        bound matches Some(d) ==> d == window_distance(t@, q@, start as nat, end as nat),
    ensures
        (r.0 as nat, r.1 as nat, r.2 as nat) == locate_in(
            t@,
            q@,
            start as nat,
            end as nat,
            bound_of(bound),
        ),
        start <= r.0 <= r.1 <= end,
        r.2 == window_distance(t@, q@, r.0 as nat, r.1 as nat),
    decreases end - start, unbounded(bound_of(bound)), bound_value(bound_of(bound)),
{
    let k = q.len();
    if k == 0 {
        proof {
            lemma_lev_self(q@);
            assert(t@.subrange(start as int, start as int) =~= q@);
        }
        return (start, start, 0);
    }
    let width = end - start;
    if width <= k || width - k <= k {
        let d = match bound {
            Some(d) => d,
            None => distance_in(t, q, start, end),
        };
        return iterative_reduction(t, q, start, end, d);
    }
    let mid = start + width / 2;
    let left_end = if mid + k < end {
        mid + k
    } else {
        end
    };
    let right_start = if mid >= start + k {
        mid - k
    } else {
        start
    };
    let left_distance = distance_in(t, q, start, left_end);
    let right_distance = distance_in(t, q, right_start, end);
    let split = if left_distance <= right_distance {
        left_distance
    } else {
        right_distance
    };
    match bound {
        Some(d) => {
            if d <= split {
                return iterative_reduction(t, q, start, end, d);
            }
        },
        None => {},
    }
    if left_distance < right_distance {
        locate_chars(t, q, start, left_end, Some(left_distance))
    } else {
        locate_chars(t, q, right_start, end, Some(right_distance))
    }
}

/// End of a search range: `end` when given, else the end of the text.
pub open spec fn range_end(end: Option<usize>, t: Seq<char>) -> nat {
    match end {
        Some(e) => e as nat,
        None => t.len(),
    }
}

/// Finds an approximate occurrence of `query` in the range `[start, end)` of
/// `text` (to the end of the text when `end` is `None`), in scalar values.
///
/// While the range is wider than twice the query, two overlapping halves are
/// measured and the search goes on in the closer one; it stops splitting
/// when neither half beats `parent_distance`, and then refines the range by
/// hill climbing. `parent_distance`, when given, is the distance of the range
/// itself, as the recursion passes it on. An empty query gives an empty match
/// at `start`. The returned distance is always that of the returned text.
pub fn recursive_fuzzy_index_of(
    text: &str,
    query: &str,
    start: usize,
    end: Option<usize>,
    parent_distance: Option<usize>,
) -> (r: FuzzySearchResult)
    requires
        start <= range_end(end, text@) <= text@.len(),
        parent_distance matches Some(d) ==> d == window_distance(
            text@,
            query@,
            start as nat,
            range_end(end, text@),
        ),
    ensures
        (r.start as nat, r.end as nat, r.distance as nat) == locate_in(
            text@,
            query@,
            start as nat,
            range_end(end, text@),
            bound_of(parent_distance),
        ),
        start <= r.start <= r.end <= range_end(end, text@),
        r.value@ == text@.subrange(r.start as int, r.end as int),
        r.distance == lev(r.value@, query@),
        r.distance == 0 <==> r.value@ == query@,
{
    let t = scalars(text);
    let q = scalars(query);
    let stop = match end {
        Some(e) => e,
        None => t.len(),
    };
    let (s, e, d) = locate_chars(&t, &q, start, stop, parent_distance);
    let value = substring(text, s, e);
    proof {
        lemma_distance_zero(value@, query@);
    }
    FuzzySearchResult { start: s, end: e, value, distance: d }
}

/// Finds an approximate occurrence of `query` anywhere in `text`.
pub fn recursive_fuzzy_index_of_with_defaults(text: &str, query: &str) -> (r: FuzzySearchResult)
    ensures
        (r.start as nat, r.end as nat, r.distance as nat) == locate(text@, query@),
        r.start <= r.end <= text@.len(),
        r.value@ == text@.subrange(r.start as int, r.end as int),
        r.distance == lev(r.value@, query@),
        r.distance == 0 <==> r.value@ == query@,
{
    recursive_fuzzy_index_of(text, query, 0, None, None)
}

/// A similarity score `numerator / denominator` in `[0, 1]`, kept as an
/// exact fraction of scalar counts.
pub struct SimilarityRatio {
    /// Scalar positions that need no edit.
    pub numerator: usize,
    /// The longer operand's scalar length, or one when both are empty.
    pub denominator: usize,
}

/// Similarity of two sequences as `(numerator, denominator)`: one minus the
/// distance over the longer length, and exactly one when both are empty.
pub open spec fn similarity(a: Seq<char>, b: Seq<char>) -> (nat, nat) {
    let longest = if a.len() >= b.len() {
        a.len()
    } else {
        b.len()
    };
    if longest == 0 {
        (1, 1)
    } else {
        ((longest - lev(a, b)) as nat, longest)
    }
}

/// Similarity ratio between two strings, from 0 (nothing in common) to 1
/// (identical), counted in scalar values.
pub fn get_similarity_ratio(a: &str, b: &str) -> (r: SimilarityRatio)
    ensures
        (r.numerator as nat, r.denominator as nat) == similarity(a@, b@),
        0 < r.denominator,
        r.numerator <= r.denominator,
        r.numerator == r.denominator <==> a@ == b@,
{
    let a_len = scalar_len(a);
    let b_len = scalar_len(b);
    let longest = if a_len >= b_len {
        a_len
    } else {
        b_len
    };
    proof {
        lemma_distance_zero(a@, b@);
    }
    if longest == 0 {
        proof {
            assert(a@ =~= b@);
        }
        return SimilarityRatio { numerator: 1, denominator: 1 };
    }
    let distance = levenshtein_distance(a, b);
    proof {
        lemma_lev_upper(a@, b@);
    }
    SimilarityRatio { numerator: longest - distance, denominator: longest }
}

/// A string is fully similar to itself, and two empty strings are fully
/// similar: the ratio is exactly one.
pub proof fn lemma_similarity_self(a: Seq<char>)
    ensures
        similarity(a, a).0 == similarity(a, a).1,
        similarity(Seq::<char>::empty(), Seq::<char>::empty()) == (1nat, 1nat),
{
    lemma_lev_self(a);
}

/// When the text is the query itself, the locator returns the whole text at
/// distance zero.
pub proof fn lemma_locate_whole_match(q: Seq<char>)
    ensures
        locate(q, q) == (0nat, q.len(), 0nat),
{
    lemma_lev_self(q);
    assert(q.subrange(0, q.len() as int) =~= q);
}

/// The located window depends on the text and the query alone: two searches
/// with the same arguments give the same result.
pub proof fn lemma_locate_deterministic(
    text: Seq<char>,
    query: Seq<char>,
    r1: FuzzySearchResult,
    r2: FuzzySearchResult,
)
    requires
        (r1.start as nat, r1.end as nat, r1.distance as nat) == locate(text, query),
        r1.value@ == text.subrange(r1.start as int, r1.end as int),
        (r2.start as nat, r2.end as nat, r2.distance as nat) == locate(text, query),
        r2.value@ == text.subrange(r2.start as int, r2.end as int),
    ensures
        r1.start == r2.start,
        r1.end == r2.end,
        r1.distance == r2.distance,
        r1.value@ == r2.value@,
{
}

} // verus!
