//! Knot-span search. Knot values and parameters are handled through integer
//! keys that order exactly as the real numbers they stand for: `a < b` holds
//! of two keys iff it holds of the two values. Every decision of the search
//! is such a comparison, so it is made on the keys alone.

use vstd::prelude::*;

verus! {

/// Whether a knot vector never decreases.
pub open spec fn nondecreasing(knots: Seq<i64>) -> bool {
    forall|i: int, j: int| 0 <= i <= j < knots.len() ==> knots[i] <= knots[j]
}

/// Index of the last span of a knot vector for the given degree:
/// `knots.len() - degree - 2`.
pub open spec fn last_span(degree: int, knots: Seq<i64>) -> int {
    knots.len() - degree - 2
}

/// What the search for `u` may rely on: the knot vector has at least
/// `degree + 2` knots, and either `u` is clamped to one end (at or past the
/// end knot, or at or before the start knot), or the interior range
/// `degree ..= last_span` is non-empty.
pub open spec fn span_search_defined(degree: int, knots: Seq<i64>, u: i64) -> bool {
    &&& knots.len() >= degree + 2
    &&& (degree <= last_span(degree, knots) || u >= knots[last_span(degree, knots) + 1] || u
        <= knots[degree])
}

/// The span that the search returns: parameters at or past the end knot go to
/// the last span, those at or before the start knot to span `degree`, and any
/// other parameter lies in a half-open span `[knots[s], knots[s + 1])` with
/// `degree <= s <= last_span`.
pub open spec fn is_span_of(degree: int, knots: Seq<i64>, u: i64, s: int) -> bool {
    let n = last_span(degree, knots);
    if u >= knots[n + 1] {
        s == n
    } else if u <= knots[degree] {
        s == degree
    } else {
        &&& degree <= s <= n
        &&& knots[s] <= u < knots[s + 1]
    }
}

/// Finds the knot span index for parameter `u` by binary search
/// (Piegl & Tiller, Algorithm A2.1).
pub fn find_span(degree: usize, knots: &[i64], u: i64) -> (span: usize)
    requires
        span_search_defined(degree as int, knots@, u),
    ensures
        is_span_of(degree as int, knots@, u, span as int),
        span < knots@.len() - 1,
{
    let n = knots.len() - degree - 2;
    if u >= knots[n + 1] {
        return n;
    }
    if u <= knots[degree] {
        return degree;
    }
    let mut low = degree;
    let mut high = n + 1;
    let mut mid = low + (high - low) / 2;
    while u < knots[mid] || u >= knots[mid + 1]
        invariant
            n == last_span(degree as int, knots@),
            n + 2 <= knots@.len(),
            degree <= low < high <= n + 1,
            mid == (low + high) / 2,
            knots@[low as int] <= u < knots@[high as int],
        decreases high - low,
    {
        if u < knots[mid] {
            high = mid;
        } else {
            low = mid;
        }
        mid = low + (high - low) / 2;
    }
    mid
}

/// On a non-decreasing knot vector the span of a parameter is unique: any two
/// indices that both satisfy `is_span_of` are equal.
pub proof fn lemma_span_unique(degree: int, knots: Seq<i64>, u: i64, s1: int, s2: int)
    requires
        0 <= degree,
        span_search_defined(degree, knots, u),
        nondecreasing(knots),
        is_span_of(degree, knots, u, s1),
        is_span_of(degree, knots, u, s2),
    ensures
        s1 == s2,
{
    if s1 < s2 {
        assert(knots[s1 + 1] <= knots[s2]);
    } else if s2 < s1 {
        assert(knots[s2 + 1] <= knots[s1]);
    }
}

} // verus!
