//! Triangle meshes and the tessellation of a parametric grid.

use vstd::arithmetic::div_mod::*;
use vstd::arithmetic::mul::*;
use vstd::prelude::*;

verus! {

/// A triangle mesh over vertices of type `V`: a vertex list and triangles
/// given as three indices into it.
pub struct TriangleMesh<V> {
    pub vertices: Vec<V>,
    pub triangles: Vec<[usize; 3]>,
}

impl<V> TriangleMesh<V> {
    /// Number of vertices.
    pub fn vertex_count(&self) -> (n: usize)
        ensures
            n == self.vertices@.len(),
    {
        self.vertices.len()
    }

    /// Number of triangles.
    pub fn triangle_count(&self) -> (n: usize)
        ensures
            n == self.triangles@.len(),
    {
        self.triangles.len()
    }
}

/// Index of the grid vertex in column `iu` and row `iv` of a grid with
/// `segments_u + 1` vertices per row (rows are stored one after another).
pub open spec fn grid_vertex(segments_u: int, iu: int, iv: int) -> int {
    iv * (segments_u + 1) + iu
}

/// The `t`-th triangle of the tessellation of a `segments_u` x `segments_v`
/// grid. Cell `c = t / 2` lies in row `c / segments_u` and column
/// `c % segments_u`; its lower-left corner `i0` gives the triangles
/// `[i0, i0 + nu, i0 + 1]` (even `t`) and `[i0 + 1, i0 + nu, i0 + nu + 1]`
/// (odd `t`), where `nu = segments_u + 1`.
pub open spec fn grid_triangle(segments_u: int, t: int) -> [usize; 3] {
    let c = t / 2;
    let nu = segments_u + 1;
    let i0 = grid_vertex(segments_u, c % segments_u, c / segments_u);
    if t % 2 == 0 {
        [i0 as usize, (i0 + nu) as usize, (i0 + 1) as usize]
    } else {
        [(i0 + 1) as usize, (i0 + nu) as usize, (i0 + nu + 1) as usize]
    }
}

/// All triangles of the tessellation of a `segments_u` x `segments_v` grid,
/// two per cell, cells taken row by row.
pub open spec fn grid_triangles(segments_u: int, segments_v: int) -> Seq<[usize; 3]> {
    Seq::new((2 * segments_u * segments_v) as nat, |t: int| grid_triangle(segments_u, t))
}

/// Whether a grid of `segments_u` x `segments_v` cells can be tessellated
/// without overflowing `usize` counts.
pub open spec fn grid_fits(segments_u: int, segments_v: int) -> bool {
    &&& 1 <= segments_u
    &&& 1 <= segments_v
    &&& (segments_u + 1) * (segments_v + 1) <= usize::MAX
    &&& 2 * segments_u * segments_v <= usize::MAX
}

proof fn lemma_cell_position(segments_u: int, iv: int, iu: int)
    requires
        segments_u >= 1,
        iv >= 0,
        0 <= iu < segments_u,
    ensures
        (iv * segments_u + iu) / segments_u == iv,
        (iv * segments_u + iu) % segments_u == iu,
        (2 * (iv * segments_u + iu)) / 2 == iv * segments_u + iu,
        (2 * (iv * segments_u + iu) + 1) / 2 == iv * segments_u + iu,
        (2 * (iv * segments_u + iu)) % 2 == 0,
        (2 * (iv * segments_u + iu) + 1) % 2 == 1,
{
    lemma_fundamental_div_mod_converse(iv * segments_u + iu, segments_u, iv, iu);
    lemma_mul_nonnegative(iv, segments_u);
}

proof fn lemma_grid_triangle_bounds(segments_u: int, segments_v: int, t: int)
    requires
        segments_u >= 1,
        segments_v >= 1,
        0 <= t < 2 * segments_u * segments_v,
        (segments_u + 1) * (segments_v + 1) <= usize::MAX,
    ensures
        forall|k: int|
            0 <= k < 3 ==> #[trigger] grid_triangle(segments_u, t)[k] < (segments_u + 1) * (
            segments_v + 1),
{
    let c = t / 2;
    let iu = c % segments_u;
    let iv = c / segments_u;
    let nu = segments_u + 1;
    assert(c < segments_u * segments_v) by {
        lemma_mul_is_associative(2, segments_u, segments_v);
    }
    lemma_fundamental_div_mod(c, segments_u);
    assert(iv < segments_v) by {
        lemma_mul_is_commutative(segments_u, segments_v);
        lemma_div_by_multiple_is_strongly_ordered(c, segments_v * segments_u, segments_v, segments_u);
        lemma_div_by_multiple(segments_v, segments_u);
    }
    assert(0 <= iv) by {
        lemma_div_pos_is_pos(c, segments_u);
    }
    let i0 = grid_vertex(segments_u, iu, iv);
    assert(i0 + nu + 1 < nu * (segments_v + 1)) by {
        assert(iv + 1 <= segments_v);
        lemma_mul_inequality(iv + 1, segments_v, nu);
        lemma_mul_is_distributive_add_other_way(nu, iv, 1);
        lemma_mul_is_distributive_add(nu, segments_v, 1);
        lemma_mul_is_commutative(iv, nu);
        lemma_mul_is_commutative(segments_v, nu);
    }
    lemma_mul_nonnegative(iv, nu);
    lemma_mul_is_commutative(nu, segments_v + 1);
}

proof fn lemma_earlier_vertex(su: int, a: int, b: int, iu: int, iv: int)
    requires
        su >= 0,
        0 <= a,
        0 <= b,
        0 <= iu,
        (a <= su && b < iv) || (a < iu && b == iv),
    ensures
        0 <= grid_vertex(su, a, b) < grid_vertex(su, iu, iv),
{
    lemma_mul_nonnegative(b, su + 1);
    if b < iv {
        lemma_mul_inequality(b + 1, iv, su + 1);
        lemma_mul_is_distributive_add_other_way(su + 1, b, 1);
        assert((b + 1) * (su + 1) == b * (su + 1) + (su + 1));
        lemma_mul_nonnegative(iv, su + 1);
    }
}

/// Position in the triangle list of the first of the two triangles of cell
/// `(iu, iv)`: cells are taken row by row, two triangles each.
pub open spec fn cell_triangle_index(segments_u: int, iu: int, iv: int) -> int {
    2 * (iv * segments_u + iu)
}

/// Each cell of the grid, whatever its row, is covered by its two halves:
/// with `i0 = iv * (segments_u + 1) + iu` its lower-left corner and
/// `nu = segments_u + 1` the row length, the cell's triangles are
/// `[i0, i0 + nu, i0 + 1]` and `[i0 + 1, i0 + nu, i0 + nu + 1]`.
pub proof fn lemma_grid_cell_triangles(segments_u: int, segments_v: int, iu: int, iv: int)
    requires
        segments_u >= 1,
        segments_v >= 1,
        0 <= iu < segments_u,
        0 <= iv < segments_v,
    ensures
        0 <= cell_triangle_index(segments_u, iu, iv),
        cell_triangle_index(segments_u, iu, iv) + 1 < grid_triangles(segments_u, segments_v).len(),
        grid_triangles(segments_u, segments_v)[cell_triangle_index(segments_u, iu, iv)] == [
            (iv * (segments_u + 1) + iu) as usize,
            (iv * (segments_u + 1) + iu + segments_u + 1) as usize,
            (iv * (segments_u + 1) + iu + 1) as usize,
        ],
        grid_triangles(segments_u, segments_v)[cell_triangle_index(segments_u, iu, iv) + 1] == [
            (iv * (segments_u + 1) + iu + 1) as usize,
            (iv * (segments_u + 1) + iu + segments_u + 1) as usize,
            (iv * (segments_u + 1) + iu + segments_u + 2) as usize,
        ],
{
    lemma_cell_position(segments_u, iv, iu);
    assert(iv * segments_u + iu < segments_u * segments_v) by {
        lemma_mul_inequality(iv + 1, segments_v, segments_u);
        lemma_mul_is_distributive_add_other_way(segments_u, iv, 1);
        lemma_mul_is_commutative(segments_u, segments_v);
    }
    assert(2 * (iv * segments_u + iu) + 1 < 2 * segments_u * segments_v) by {
        lemma_mul_is_associative(2, segments_u, segments_v);
    }
}

/// Tessellates a `segments_u` x `segments_v` parametric grid: the vertex at
/// column `iu` and row `iv` is `vertex_at(iu, iv)` and sits at index
/// `iv * (segments_u + 1) + iu`; every grid cell is split into two
/// triangles as `grid_triangles` states.
pub fn tessellate_grid<V, F: Fn(usize, usize) -> V>(
    segments_u: usize,
    segments_v: usize,
    vertex_at: F,
) -> (mesh: TriangleMesh<V>)
    requires
        grid_fits(segments_u as int, segments_v as int),
        forall|iu: usize, iv: usize|
            iu <= segments_u && iv <= segments_v ==> call_requires(vertex_at, (iu, iv)),
    ensures
        mesh.vertices@.len() == (segments_u + 1) * (segments_v + 1),
        mesh.triangles@.len() == 2 * segments_u * segments_v,
        forall|iu: usize, iv: usize|
            iu <= segments_u && iv <= segments_v ==> call_ensures(
                vertex_at,
                (iu, iv),
                #[trigger] mesh.vertices@[grid_vertex(segments_u as int, iu as int, iv as int)],
            ),
        mesh.triangles@ == grid_triangles(segments_u as int, segments_v as int),
        forall|iu: int, iv: int|
            0 <= iu < segments_u && 0 <= iv < segments_v ==> {
                &&& #[trigger] mesh.triangles@[cell_triangle_index(segments_u as int, iu, iv)] == [
                    (iv * (segments_u + 1) + iu) as usize,
                    (iv * (segments_u + 1) + iu + segments_u + 1) as usize,
                    (iv * (segments_u + 1) + iu + 1) as usize,
                ]
                &&& mesh.triangles@[cell_triangle_index(segments_u as int, iu, iv) + 1] == [
                    (iv * (segments_u + 1) + iu + 1) as usize,
                    (iv * (segments_u + 1) + iu + segments_u + 1) as usize,
                    (iv * (segments_u + 1) + iu + segments_u + 2) as usize,
                ]
            },
        forall|t: int, k: int|
            0 <= t < mesh.triangles@.len() && 0 <= k < 3 ==> #[trigger] mesh.triangles@[t][k]
                < mesh.vertices@.len(),
{
    let ghost su = segments_u as int;
    let ghost sv = segments_v as int;
    proof {
        lemma_mul_inequality(2, sv + 1, su + 1);
        lemma_mul_inequality(2, su + 1, sv + 1);
        lemma_mul_is_commutative(2, su + 1);
        lemma_mul_is_commutative(sv + 1, su + 1);
    }
    let nu = segments_u + 1;
    let nv = segments_v + 1;
    let mut vertices: Vec<V> = Vec::new();
    let mut iv: usize = 0;
    while iv < nv
        invariant
            nu == su + 1,
            nv == sv + 1,
            su == segments_u,
            sv == segments_v,
            grid_fits(su, sv),
            iv <= nv,
            vertices@.len() == grid_vertex(su, 0, iv as int),
            forall|a: usize, b: usize|
                a <= segments_u && b <= segments_v ==> call_requires(vertex_at, (a, b)),
            forall|a: usize, b: usize|
                a <= segments_u && b < iv ==> call_ensures(
                    vertex_at,
                    (a, b),
                    #[trigger] vertices@[grid_vertex(su, a as int, b as int)],
                ),
        decreases nv - iv,
    {
        assert(grid_vertex(su, 0, iv + 1) <= (su + 1) * (sv + 1)) by {
            lemma_mul_inequality(iv + 1, sv + 1, su + 1);
        }
        assert(grid_vertex(su, 0, iv + 1) == grid_vertex(su, nu as int, iv as int)) by {
            lemma_mul_is_distributive_add_other_way(su + 1, iv as int, 1);
        }
        let mut iu: usize = 0;
        while iu < nu
            invariant
                nu == su + 1,
                nv == sv + 1,
                su == segments_u,
                sv == segments_v,
                grid_fits(su, sv),
                iv < nv,
                iu <= nu,
                grid_vertex(su, nu as int, iv as int) <= (su + 1) * (sv + 1),
                vertices@.len() == grid_vertex(su, iu as int, iv as int),
                forall|a: usize, b: usize|
                    a <= segments_u && b <= segments_v ==> call_requires(vertex_at, (a, b)),
                forall|a: usize, b: usize|
                    (a <= segments_u && b < iv) || (a < iu && b == iv) ==> call_ensures(
                        vertex_at,
                        (a, b),
                        #[trigger] vertices@[grid_vertex(su, a as int, b as int)],
                    ),
            decreases nu - iu,
        {
            let vertex = vertex_at(iu, iv);
            let ghost before = vertices@;
            vertices.push(vertex);
            proof {
                assert forall|a: usize, b: usize|
                    (a <= segments_u && b < iv) || (a < iu + 1 && b == iv) implies call_ensures(
                    vertex_at,
                    (a, b),
                    #[trigger] vertices@[grid_vertex(su, a as int, b as int)],
                ) by {
                    if a == iu && b == iv {
                    } else {
                        lemma_earlier_vertex(su, a as int, b as int, iu as int, iv as int);
                        assert(vertices@[grid_vertex(su, a as int, b as int)] == before[grid_vertex(su, a as int, b as int)]);
                    }
                }
            }
            iu = iu + 1;
        }
        iv = iv + 1;
    }

    let mut triangles: Vec<[usize; 3]> = Vec::new();
    let ghost all = grid_triangles(su, sv);
    let mut iv: usize = 0;
    while iv < segments_v
        invariant
            nu == su + 1,
            nv == sv + 1,
            su == segments_u,
            sv == segments_v,
            grid_fits(su, sv),
            all == grid_triangles(su, sv),
            iv <= segments_v,
            triangles@.len() == 2 * (iv * su),
            triangles@ =~= all.take(triangles@.len() as int),
        decreases segments_v - iv,
    {
        let mut iu: usize = 0;
        while iu < segments_u
            invariant
                nu == su + 1,
                nv == sv + 1,
                su == segments_u,
                sv == segments_v,
                grid_fits(su, sv),
                all == grid_triangles(su, sv),
                iv < segments_v,
                iu <= segments_u,
                triangles@.len() == 2 * (iv * su + iu),
                triangles@ =~= all.take(triangles@.len() as int),
            decreases segments_u - iu,
        {
            proof {
                lemma_cell_position(su, iv as int, iu as int);
                assert(iv * su + iu < su * sv) by {
                    lemma_mul_inequality(iv as int + 1, sv, su);
                    lemma_mul_is_distributive_add_other_way(su, iv as int, 1);
                    lemma_mul_is_commutative(su, sv);
                }
                assert(2 * (iv * su + iu) + 1 < 2 * su * sv) by {
                    lemma_mul_is_associative(2, su, sv);
                }
                assert(iv * nu + iu + nu + 1 <= nu * nv) by {
                    lemma_mul_inequality(iv as int + 1, sv, nu as int);
                    lemma_mul_is_distributive_add_other_way(nu as int, iv as int, 1);
                    lemma_mul_is_distributive_add(nu as int, sv, 1);
                    lemma_mul_is_commutative(iv as int, nu as int);
                    lemma_mul_is_commutative(sv, nu as int);
                    lemma_mul_is_commutative(su + 1, sv + 1);
                }
            }
            let i0 = iv * nu + iu;
            let i1 = i0 + 1;
            let i2 = i0 + nu;
            let i3 = i2 + 1;
            triangles.push([i0, i2, i1]);
            triangles.push([i1, i2, i3]);
            iu = iu + 1;
        }
        assert(iv * su + su == (iv + 1) * su) by {
            lemma_mul_is_distributive_add_other_way(su, iv as int, 1);
        }
        iv = iv + 1;
    }
    proof {
        assert(triangles@.len() == all.len()) by {
            lemma_mul_is_associative(2, su, sv);
            lemma_mul_is_commutative(sv, su);
        }
        assert forall|iu: int, iv: int| 0 <= iu < su && 0 <= iv < sv implies {
            &&& #[trigger] triangles@[cell_triangle_index(su, iu, iv)] == [
                (iv * (su + 1) + iu) as usize,
                (iv * (su + 1) + iu + su + 1) as usize,
                (iv * (su + 1) + iu + 1) as usize,
            ]
            &&& triangles@[cell_triangle_index(su, iu, iv) + 1] == [
                (iv * (su + 1) + iu + 1) as usize,
                (iv * (su + 1) + iu + su + 1) as usize,
                (iv * (su + 1) + iu + su + 2) as usize,
            ]
        } by {
            lemma_grid_cell_triangles(su, sv, iu, iv);
        }
        assert forall|t: int, k: int|
            0 <= t < triangles@.len() && 0 <= k < 3 implies #[trigger] triangles@[t][k]
            < vertices@.len() by {
            lemma_grid_triangle_bounds(su, sv, t);
            assert(triangles@[t] == grid_triangle(su, t));
        }
    }
    TriangleMesh { vertices, triangles }
}

} // verus!
