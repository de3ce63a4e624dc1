//! The integer side of triangle meshes: the index pattern of a tessellated
//! sphere, the accept/reject decisions of view-frustum clipping, and the
//! vertical order of a triangle's projected corners.
use vstd::prelude::*;
use vstd::arithmetic::div_mod::lemma_fundamental_div_mod_converse;

use crate::ieee::{f64_lt, less_than, ZERO_BITS};
use crate::line::Point;

verus! {

/// Three indices into a vertex list.
pub type TriangleIndices = (usize, usize, usize);

/// Vertices of a sphere cut into `divs` bands of `divs` vertices: `divs + 1` rings.
pub open spec fn sphere_vertex_count(divs: int) -> int {
    (divs + 1) * divs
}

/// Triangle `t` of the sphere mesh. Cell `(d, i)`, band `d` and slice `i`,
/// gives triangles `2 * (d * divs + i)` and the one after it.
pub open spec fn sphere_triangle(divs: int, t: int) -> (int, int, int) {
    let d = (t / 2) / divs;
    let i = (t / 2) % divs;
    let i0 = d * divs + i;
    let i1 = (d + 1) * divs + (i + 1) % divs;
    let i2 = d * divs + (i + 1) % divs;
    if t % 2 == 0 {
        (i0, i1, i2)
    } else {
        (i0, i0 + divs, i1)
    }
}

pub open spec fn triangle_as_ints(t: TriangleIndices) -> (int, int, int) {
    (t.0 as int, t.1 as int, t.2 as int)
}

/// The triangles of a sphere of `divs` bands and slices, as indices into its
/// `(divs + 1) * divs` vertices (ring by ring, `divs` per ring).
pub fn sphere_triangles(divs: u32) -> (r: Vec<TriangleIndices>)
    requires
        (divs + 1) * divs <= u32::MAX,
    ensures
        r@.len() == 2 * divs * divs,
        forall|t: int|
            0 <= t < r@.len() ==> triangle_as_ints(#[trigger] r@[t]) == sphere_triangle(divs as int, t),
        forall|t: int|
            0 <= t < r@.len() ==> {
                &&& (#[trigger] r@[t]).0 < sphere_vertex_count(divs as int)
                &&& r@[t].1 < sphere_vertex_count(divs as int)
                &&& r@[t].2 < sphere_vertex_count(divs as int)
            },
{
    let n: u64 = divs as u64;
    let mut r: Vec<TriangleIndices> = Vec::new();
    let mut d: u64 = 0;
    while d < n
        invariant
            n == divs,
            (n + 1) * n <= u32::MAX,
            0 <= d <= n,
            r@.len() == 2 * d * n,
            forall|t: int|
                0 <= t < r@.len() ==> triangle_as_ints(#[trigger] r@[t]) == sphere_triangle(n as int, t),
            forall|t: int|
                0 <= t < r@.len() ==> {
                    &&& (#[trigger] r@[t]).0 < sphere_vertex_count(n as int)
                    &&& r@[t].1 < sphere_vertex_count(n as int)
                    &&& r@[t].2 < sphere_vertex_count(n as int)
                },
        decreases n - d,
    {
        let mut i: u64 = 0;
        assert(2 * d * n == 2 * (d * n + i)) by (nonlinear_arith)
            requires
                i == 0,
        ;
        while i < n
            invariant
                n == divs,
                (n + 1) * n <= u32::MAX,
                0 <= d < n,
                0 <= i <= n,
                r@.len() == 2 * (d * n + i),
                forall|t: int|
                    0 <= t < r@.len() ==> triangle_as_ints(#[trigger] r@[t]) == sphere_triangle(n as int, t),
                forall|t: int|
                    0 <= t < r@.len() ==> {
                        &&& (#[trigger] r@[t]).0 < sphere_vertex_count(n as int)
                        &&& r@[t].1 < sphere_vertex_count(n as int)
                        &&& r@[t].2 < sphere_vertex_count(n as int)
                    },
            decreases n - i,
        {
            proof {
                assert((d + 1) * n <= (n + 1) * n - n) by (nonlinear_arith)
                    requires
                        d < n,
                ;
                assert(d * n + i < (d + 1) * n) by (nonlinear_arith)
                    requires
                        i < n,
                ;
            }
            let next: u64 = (i + 1) % n;
            let i0: u64 = d * n + i;
            let i1: u64 = (d + 1) * n + next;
            let i2: u64 = d * n + next;
            let i3: u64 = i0 + n;
            let ghost cell = d * n + i;
            let ghost t0 = 2 * cell;
            proof {
                lemma_fundamental_div_mod_converse(t0, 2, cell, 0);
                lemma_fundamental_div_mod_converse(t0 + 1, 2, cell, 1);
                lemma_fundamental_div_mod_converse(cell, n as int, d as int, i as int);
                assert(sphere_triangle(n as int, t0) == (i0 as int, i1 as int, i2 as int));
                assert(sphere_triangle(n as int, t0 + 1) == (i0 as int, i3 as int, i1 as int));
            }
            r.push((i0 as usize, i1 as usize, i2 as usize));
            r.push((i0 as usize, i3 as usize, i1 as usize));
            i = i + 1;
        }
        proof {
            assert(2 * (d * n + n) == 2 * (d + 1) * n) by (nonlinear_arith);
        }
        d = d + 1;
    }
    r
}

/// Whether the instance is culled: its bounding sphere lies wholly outside
/// one of the clip planes, that is, the signed distance of its center to
/// that plane is below minus its radius.
pub open spec fn culled(center_distances: Seq<u64>, neg_radius: u64) -> bool {
    exists|p: int| 0 <= p < center_distances.len() && f64_lt(#[trigger] center_distances[p], neg_radius)
}

/// Whether vertex `v` is strictly inside clip plane `p`.
pub open spec fn inside(vertex_distances: Seq<Vec<u64>>, p: int, v: int) -> bool {
    f64_lt(ZERO_BITS, vertex_distances[p]@[v])
}

/// Whether a triangle survives clipping: all three corners strictly inside
/// every clip plane.
pub open spec fn kept(tri: TriangleIndices, vertex_distances: Seq<Vec<u64>>) -> bool {
    forall|p: int|
        0 <= p < vertex_distances.len() ==> {
            &&& #[trigger] inside(vertex_distances, p, tri.0 as int)
            &&& inside(vertex_distances, p, tri.1 as int)
            &&& inside(vertex_distances, p, tri.2 as int)
        }
}

/// Every triangle indexes into every row of vertex distances.
pub open spec fn indices_valid(triangles: Seq<TriangleIndices>, vertex_distances: Seq<Vec<u64>>) -> bool {
    forall|t: int, p: int|
        0 <= t < triangles.len() && 0 <= p < vertex_distances.len() ==> {
            &&& (#[trigger] triangles[t]).0 < (#[trigger] vertex_distances[p])@.len()
            &&& triangles[t].1 < vertex_distances[p]@.len()
            &&& triangles[t].2 < vertex_distances[p]@.len()
        }
}

/// `v` lists, in increasing order, exactly the positions of the triangles that are kept.
pub open spec fn surviving(v: Seq<usize>, triangles: Seq<TriangleIndices>, vertex_distances: Seq<Vec<u64>>) -> bool {
    &&& forall|j: int| 0 <= j < v.len() ==> #[trigger] v[j] < triangles.len()
    &&& forall|j: int| 0 <= j < v.len() ==> kept(triangles[#[trigger] v[j] as int], vertex_distances)
    &&& forall|j: int, k: int| 0 <= j < k < v.len() ==> #[trigger] v[j] < #[trigger] v[k]
    &&& forall|t: int|
        0 <= t < triangles.len() && kept(#[trigger] triangles[t], vertex_distances) ==> exists|j: int|
            0 <= j < v.len() && v[j] == t
}

fn corners_inside(tri: TriangleIndices, row: &Vec<u64>) -> (r: bool)
    requires
        tri.0 < row@.len(),
        tri.1 < row@.len(),
        tri.2 < row@.len(),
    ensures
        r == (f64_lt(ZERO_BITS, row@[tri.0 as int]) && f64_lt(ZERO_BITS, row@[tri.1 as int]) && f64_lt(
            ZERO_BITS,
            row@[tri.2 as int],
        )),
{
    less_than(ZERO_BITS, row[tri.0]) && less_than(ZERO_BITS, row[tri.1]) && less_than(ZERO_BITS, row[tri.2])
}

fn survives(tri: TriangleIndices, vertex_distances: &Vec<Vec<u64>>) -> (r: bool)
    requires
        forall|p: int|
            0 <= p < vertex_distances@.len() ==> {
                &&& tri.0 < (#[trigger] vertex_distances@[p])@.len()
                &&& tri.1 < vertex_distances@[p]@.len()
                &&& tri.2 < vertex_distances@[p]@.len()
            },
    ensures
        r == kept(tri, vertex_distances@),
{
    let mut p: usize = 0;
    while p < vertex_distances.len()
        invariant
            0 <= p <= vertex_distances@.len(),
            forall|q: int|
                0 <= q < vertex_distances@.len() ==> {
                    &&& tri.0 < (#[trigger] vertex_distances@[q])@.len()
                    &&& tri.1 < vertex_distances@[q]@.len()
                    &&& tri.2 < vertex_distances@[q]@.len()
                },
            forall|q: int|
                0 <= q < p ==> {
                    &&& #[trigger] inside(vertex_distances@, q, tri.0 as int)
                    &&& inside(vertex_distances@, q, tri.1 as int)
                    &&& inside(vertex_distances@, q, tri.2 as int)
                },
        decreases vertex_distances@.len() - p,
    {
        if !corners_inside(tri, &vertex_distances[p]) {
            assert(!inside(vertex_distances@, p as int, tri.0 as int) || !inside(vertex_distances@, p as int, tri.1 as int)
                || !inside(vertex_distances@, p as int, tri.2 as int));
            return false;
        }
        assert(inside(vertex_distances@, p as int, tri.0 as int));
        assert(inside(vertex_distances@, p as int, tri.1 as int));
        assert(inside(vertex_distances@, p as int, tri.2 as int));
        p = p + 1;
    }
    true
}

/// Frustum clipping of one instance, given the signed distances (as double
/// bits) of its bounding-sphere center to each clip plane, minus its bounding
/// radius, and for each plane the signed distance of every vertex.
///
/// `None` when the instance is culled whole. Otherwise the positions, in
/// increasing order, of the triangles that lie strictly inside every plane:
/// a triangle with a corner on or outside a plane is dropped, never split.
pub fn clip_model(
    triangles: &Vec<TriangleIndices>,
    center_distances: &Vec<u64>,
    neg_radius: u64,
    vertex_distances: &Vec<Vec<u64>>,
) -> (r: Option<Vec<usize>>)
    requires
        indices_valid(triangles@, vertex_distances@),
    ensures
        r.is_none() == culled(center_distances@, neg_radius),
        r.is_some() ==> surviving(r.unwrap()@, triangles@, vertex_distances@),
{
    let mut p: usize = 0;
    while p < center_distances.len()
        invariant
            0 <= p <= center_distances@.len(),
            forall|q: int| 0 <= q < p ==> !f64_lt(#[trigger] center_distances@[q], neg_radius),
        decreases center_distances@.len() - p,
    {
        if less_than(center_distances[p], neg_radius) {
            return None;
        }
        p = p + 1;
    }
    let mut v: Vec<usize> = Vec::new();
    let mut t: usize = 0;
    while t < triangles.len()
        invariant
            indices_valid(triangles@, vertex_distances@),
            0 <= t <= triangles@.len(),
            forall|j: int| 0 <= j < v@.len() ==> #[trigger] v@[j] < t,
            forall|j: int| 0 <= j < v@.len() ==> kept(triangles@[#[trigger] v@[j] as int], vertex_distances@),
            forall|j: int, k: int| 0 <= j < k < v@.len() ==> #[trigger] v@[j] < #[trigger] v@[k],
            forall|s: int|
                0 <= s < t && kept(#[trigger] triangles@[s], vertex_distances@) ==> exists|j: int|
                    0 <= j < v@.len() && v@[j] == s,
        decreases triangles@.len() - t,
    {
        let tri = triangles[t];
        assert forall|q: int| 0 <= q < vertex_distances@.len() implies {
            &&& tri.0 < (#[trigger] vertex_distances@[q])@.len()
            &&& tri.1 < vertex_distances@[q]@.len()
            &&& tri.2 < vertex_distances@[q]@.len()
        } by {
            assert(triangles@[t as int] == tri);
        }
        if survives(tri, vertex_distances) {
            let ghost before = v@;
            v.push(t);
            assert forall|s: int|
                0 <= s < t + 1 && kept(#[trigger] triangles@[s], vertex_distances@) implies exists|j: int|
                0 <= j < v@.len() && v@[j] == s by {
                if s < t {
                    let j = choose|j: int| 0 <= j < before.len() && before[j] == s;
                    assert(v@[j] == s);
                } else {
                    assert(v@[before.len() as int] == s);
                }
            }
        }
        t = t + 1;
    }
    assert(surviving(v@, triangles@, vertex_distances@));
    Some(v)
}

/// The order in which a triangle's corners are visited from the lowest `y`
/// up: positions `0`, `1`, `2` after exchanging `0` and `1` when `y1 < y0`,
/// then the first and last when the last is lower, then the last two when
/// the last is lower.
pub open spec fn y_order(y0: int, y1: int, y2: int) -> (int, int, int) {
    let (a, b) = if y1 < y0 { (1int, 0int) } else { (0int, 1int) };
    let ys = |k: int| if k == 0 { y0 } else if k == 1 { y1 } else { y2 };
    let (a, c) = if ys(2) < ys(a) { (2int, a) } else { (a, 2int) };
    let (b, c) = if ys(c) < ys(b) { (c, b) } else { (b, c) };
    (a, b, c)
}

/// The corners of a projected triangle in ascending `y`: positions into
/// `[p0, p1, p2]`, a permutation, by the exchanges that `y_order` describes.
pub fn sort_by_y(p0: Point, p1: Point, p2: Point) -> (r: (usize, usize, usize))
    ensures
        (r.0 as int, r.1 as int, r.2 as int) == y_order(p0.y as int, p1.y as int, p2.y as int),
        r.0 != r.1 && r.1 != r.2 && r.0 != r.2,
        r.0 < 3 && r.1 < 3 && r.2 < 3,
        ({
            let ys = seq![p0.y, p1.y, p2.y];
            ys[r.0 as int] <= ys[r.1 as int] <= ys[r.2 as int]
        }),
{
    let ys = [p0.y, p1.y, p2.y];
    let mut a: usize = 0;
    let mut b: usize = 1;
    let mut c: usize = 2;
    if ys[b] < ys[a] {
        a = 1;
        b = 0;
    }
    if ys[c] < ys[a] {
        let s = a;
        a = c;
        c = s;
    }
    if ys[c] < ys[b] {
        let s = b;
        b = c;
        c = s;
    }
    (a, b, c)
}

} // verus!
