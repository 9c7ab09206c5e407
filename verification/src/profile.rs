//! Which (station, dimension) points make up a taper's profile.
//!
//! Stations and dimensions are zipped pairwise (the shorter array bounds the
//! profile) and trailing points whose dimension is zero are dropped: some
//! sources pad fixed-size arrays with zeros past the rod's real length. The
//! first point is always kept. Whether a dimension is zero is read from the
//! numeric record by the caller.

use vstd::prelude::*;

verus! {

/// Number of profile points among the first `m` zipped points: trailing
/// points flagged zero are dropped, never the first.
pub open spec fn kept_points(m: nat, zero: Seq<bool>) -> nat
    decreases m,
{
    if m > 1 && zero[m - 1] {
        kept_points((m - 1) as nat, zero)
    } else {
        m
    }
}

/// Number of points in the profile of a record with `n_stations` stations
/// and `n_dimensions` dimensions, where `zero[i]` says whether dimension `i`
/// is zero.
pub fn profile_len(n_stations: usize, n_dimensions: usize, zero: &Vec<bool>) -> (r: usize)
    requires
        zero.len() >= if n_stations < n_dimensions { n_stations } else { n_dimensions },
    ensures
        r == kept_points(if n_stations < n_dimensions { n_stations as nat } else { n_dimensions as nat }, zero@),
{
    let m = if n_stations < n_dimensions { n_stations } else { n_dimensions };
    let mut k = m;
    while k > 1 && zero[k - 1]
        invariant
            k <= m <= zero.len(),
            kept_points(m as nat, zero@) == kept_points(k as nat, zero@),
        decreases k,
    {
        k -= 1;
    }
    k
}

/// Law: the profile keeps a prefix of the zipped points, never drops the
/// first one, ends on a non-zero dimension unless only one point is left,
/// and every dropped point is a zero.
pub proof fn lemma_kept_points(m: nat, zero: Seq<bool>)
    requires
        m <= zero.len(),
    ensures
        kept_points(m, zero) <= m,
        m >= 1 ==> kept_points(m, zero) >= 1,
        kept_points(m, zero) > 1 ==> !zero[kept_points(m, zero) - 1],
        forall|i: int| kept_points(m, zero) <= i < m ==> #[trigger] zero[i],
    decreases m,
{
    if m > 1 && zero[m - 1] {
        lemma_kept_points((m - 1) as nat, zero);
    }
}

} // verus!
