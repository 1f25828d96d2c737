//! Decisions of global surface interpolation that precede the linear solves.

use vstd::prelude::*;

verus! {

/// The smaller of two numbers.
pub open spec fn min_nat(a: nat, b: nat) -> nat {
    if a <= b {
        a
    } else {
        b
    }
}

/// The degrees used to interpolate a grid of `num_points_u` x `num_points_v`
/// data points with requested degrees `degree_u` and `degree_v`: none for an
/// empty grid; otherwise each degree is lowered to at most one less than the
/// number of points in its direction, so that every curve through the grid
/// has more points than its degree.
pub fn interpolation_degrees(
    num_points_u: usize,
    num_points_v: usize,
    degree_u: usize,
    degree_v: usize,
) -> (r: Option<(usize, usize)>)
    ensures
        r is None <==> num_points_u == 0 || num_points_v == 0,
        r matches Some((du, dv)) ==> {
            &&& du == min_nat(degree_u as nat, (num_points_u - 1) as nat)
            &&& dv == min_nat(degree_v as nat, (num_points_v - 1) as nat)
            &&& du < num_points_u
            &&& dv < num_points_v
        },
{
    if num_points_u == 0 || num_points_v == 0 {
        return None;
    }
    let du = if degree_u <= num_points_u - 1 {
        degree_u
    } else {
        num_points_u - 1
    };
    let dv = if degree_v <= num_points_v - 1 {
        degree_v
    } else {
        num_points_v - 1
    };
    Some((du, dv))
}

} // verus!
