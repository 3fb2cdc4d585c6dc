//! Mesh topology helpers: matching triangle edges and building the
//! constraint set of a rectangular cloth grid.
use vstd::prelude::*;

use crate::constraints::{tet_volume_spec, ConstraintKind, DistanceConstraint, VolumeConstraint};
use crate::fixed::{add_s, div_s, mul_s, Fx};
use crate::vec3::Vec3;

verus! {

/// The inverse-mass contribution of one triangle: a third of the
/// reciprocal of its area, or nothing for a degenerate triangle.
pub open spec fn tri_mass_share(p0: Vec3, p1: Vec3, p2: Vec3) -> Fx {
    let area = mul_s(Fx { raw: 524288 }, p1.sub_spec(p0).cross_spec(p2.sub_spec(p0)).length_spec());
    if area.raw > 0 {
        div_s(div_s(Fx { raw: 1048576 }, area), Fx { raw: 3145728 })
    } else {
        Fx { raw: 0 }
    }
}

/// Inverse masses accumulated over the first `k` triangles.
pub open spec fn tri_masses_upto(tris: Seq<[usize; 3]>, pos: Seq<Vec3>, k: int) -> Seq<Fx>
    decreases k,
{
    if k <= 0 {
        Seq::new(pos.len(), |j: int| Fx { raw: 0 })
    } else {
        let base = tri_masses_upto(tris, pos, k - 1);
        let t = tris[k - 1];
        let i0 = t[0] as int;
        let i1 = t[1] as int;
        let i2 = t[2] as int;
        let c = tri_mass_share(pos[i0], pos[i1], pos[i2]);
        let s0 = base.update(i0, add_s(base[i0], c));
        let s1 = s0.update(i1, add_s(s0[i1], c));
        s1.update(i2, add_s(s1[i2], c))
    }
}

/// Inverse masses of a triangle mesh: every vertex accumulates a third of
/// the reciprocal area of each incident triangle, so smaller triangles
/// make lighter vertices.  Degenerate triangles contribute nothing.
pub fn tri_inv_masses(tri_ids: &Vec<[usize; 3]>, positions: &Vec<Vec3>) -> (r: Vec<Fx>)
    requires
        forall|t: int, j: int|
            0 <= t < tri_ids@.len() && 0 <= j < 3 ==> (#[trigger] tri_ids@[t][j])
                < positions@.len(),
        forall|i: int| 0 <= i < positions@.len() ==> (#[trigger] positions@[i]).wf(),
    ensures
        r@.len() == positions@.len(),
        r@ == tri_masses_upto(tri_ids@, positions@, tri_ids@.len() as int),
        forall|i: int| 0 <= i < r@.len() ==> (#[trigger] r@[i]).wf() && r@[i].raw >= 0,
{
    let n = positions.len();
    let mut r: Vec<Fx> = Vec::new();
    let mut i: usize = 0;
    while i < n
        invariant
            i <= n,
            r@.len() == i,
            forall|k: int| 0 <= k < i ==> (#[trigger] r@[k]).raw == 0,
        decreases n - i,
    {
        r.push(Fx { raw: 0 });
        i = i + 1;
    }
    proof {
        assert(r@ =~= tri_masses_upto(tri_ids@, positions@, 0));
    }
    let ntris = tri_ids.len();
    let mut t: usize = 0;
    while t < ntris
        invariant
            ntris == tri_ids@.len(),
            n == positions@.len(),
            forall|tt: int, j: int|
                0 <= tt < tri_ids@.len() && 0 <= j < 3 ==> (#[trigger] tri_ids@[tt][j])
                    < positions@.len(),
            forall|k: int| 0 <= k < positions@.len() ==> (#[trigger] positions@[k]).wf(),
            t <= ntris,
            r@.len() == n,
            r@ == tri_masses_upto(tri_ids@, positions@, t as int),
            forall|k: int| 0 <= k < r@.len() ==> (#[trigger] r@[k]).wf() && r@[k].raw >= 0,
        decreases ntris - t,
    {
        let tri = tri_ids[t];
        let i0 = tri[0];
        let i1 = tri[1];
        let i2 = tri[2];
        let p0 = positions[i0];
        let p1 = positions[i1];
        let p2 = positions[i2];
        let area = Fx { raw: 524288 }.mul(p1.sub(p0).cross(p2.sub(p0)).length());
        let c = if area.raw > 0 {
            let share = Fx { raw: 1048576 }.div(area).div(Fx { raw: 3145728 });
            share
        } else {
            Fx { raw: 0 }
        };
        proof {
            assert(c == tri_mass_share(p0, p1, p2));
        }
        let m0 = r[i0].add(c);
        r.set(i0, m0);
        let m1 = r[i1].add(c);
        r.set(i1, m1);
        let m2 = r[i2].add(c);
        r.set(i2, m2);
        proof {
            assert(r@ == tri_masses_upto(tri_ids@, positions@, t as int + 1));
            assert forall|k: int| 0 <= k < r@.len() implies (#[trigger] r@[k]).wf() && r@[k].raw
                >= 0 by {
                if c.raw < 0 {
                    assert(false);
                }
            }
        }
        t = t + 1;
    }
    r
}

/// The inverse-mass contribution of one tetrahedron: the reciprocal of a
/// quarter of its volume, or nothing when that quarter volume is not
/// positive (inverted, flat, or below the fixed-point quantum).
pub open spec fn tet_mass_share(p0: Vec3, p1: Vec3, p2: Vec3, p3: Vec3) -> Fx {
    let quarter = div_s(tet_volume_spec(p0, p1, p2, p3), Fx { raw: 4194304 });
    if quarter.raw > 0 {
        div_s(Fx { raw: 1048576 }, quarter)
    } else {
        Fx { raw: 0 }
    }
}

/// Inverse masses accumulated over the first `k` tetrahedra.
pub open spec fn tet_masses_upto(tets: Seq<VolumeConstraint>, pos: Seq<Vec3>, k: int) -> Seq<Fx>
    decreases k,
{
    if k <= 0 {
        Seq::new(pos.len(), |j: int| Fx { raw: 0 })
    } else {
        let base = tet_masses_upto(tets, pos, k - 1);
        let t = tets[k - 1];
        let c = tet_mass_share(
            pos[t.id0 as int],
            pos[t.id1 as int],
            pos[t.id2 as int],
            pos[t.id3 as int],
        );
        let s0 = base.update(t.id0 as int, add_s(base[t.id0 as int], c));
        let s1 = s0.update(t.id1 as int, add_s(s0[t.id1 as int], c));
        let s2 = s1.update(t.id2 as int, add_s(s1[t.id2 as int], c));
        s2.update(t.id3 as int, add_s(s2[t.id3 as int], c))
    }
}

/// Inverse masses of a tetrahedral mesh: every vertex accumulates the
/// reciprocal of a quarter of each incident tetrahedron's volume.
/// Inverted or flat tetrahedra contribute nothing.
pub fn tet_inv_masses(tets: &Vec<VolumeConstraint>, positions: &Vec<Vec3>) -> (r: Vec<Fx>)
    requires
        forall|t: int|
            0 <= t < tets@.len() ==> (#[trigger] tets@[t]).wf(positions@.len() as int),
        forall|i: int| 0 <= i < positions@.len() ==> (#[trigger] positions@[i]).wf(),
    ensures
        r@.len() == positions@.len(),
        r@ == tet_masses_upto(tets@, positions@, tets@.len() as int),
        forall|i: int| 0 <= i < r@.len() ==> (#[trigger] r@[i]).wf() && r@[i].raw >= 0,
{
    let n = positions.len();
    let mut r: Vec<Fx> = Vec::new();
    let mut i: usize = 0;
    while i < n
        invariant
            i <= n,
            r@.len() == i,
            forall|k: int| 0 <= k < i ==> (#[trigger] r@[k]).raw == 0,
        decreases n - i,
    {
        r.push(Fx { raw: 0 });
        i = i + 1;
    }
    proof {
        assert(r@ =~= tet_masses_upto(tets@, positions@, 0));
    }
    let ntets = tets.len();
    let mut t: usize = 0;
    while t < ntets
        invariant
            ntets == tets@.len(),
            n == positions@.len(),
            forall|tt: int| 0 <= tt < tets@.len() ==> (#[trigger] tets@[tt]).wf(n as int),
            forall|k: int| 0 <= k < positions@.len() ==> (#[trigger] positions@[k]).wf(),
            t <= ntets,
            r@.len() == n,
            r@ == tet_masses_upto(tets@, positions@, t as int),
            forall|k: int| 0 <= k < r@.len() ==> (#[trigger] r@[k]).wf() && r@[k].raw >= 0,
        decreases ntets - t,
    {
        let tet = tets[t];
        let p0 = positions[tet.id0];
        let p1 = positions[tet.id1];
        let p2 = positions[tet.id2];
        let p3 = positions[tet.id3];
        let six = Fx { raw: 6291456 };
        let vol = p1.sub(p0).cross(p2.sub(p0)).dot(p3.sub(p0)).div(six);
        let quarter = vol.div(Fx { raw: 4194304 });
        let c = if quarter.raw > 0 {
            let share = Fx { raw: 1048576 }.div(quarter);
            share
        } else {
            Fx { raw: 0 }
        };
        proof {
            assert(c == tet_mass_share(p0, p1, p2, p3));
        }
        let m0 = r[tet.id0].add(c);
        r.set(tet.id0, m0);
        let m1 = r[tet.id1].add(c);
        r.set(tet.id1, m1);
        let m2 = r[tet.id2].add(c);
        r.set(tet.id2, m2);
        let m3 = r[tet.id3].add(c);
        r.set(tet.id3, m3);
        proof {
            assert(r@ == tet_masses_upto(tets@, positions@, t as int + 1));
            assert forall|k: int| 0 <= k < r@.len() implies (#[trigger] r@[k]).wf() && r@[k].raw
                >= 0 by {
                if c.raw < 0 {
                    assert(false);
                }
            }
        }
        t = t + 1;
    }
    r
}

/// The vertex pair of directed edge `e` (edge `e % 3` of triangle
/// `e / 3`), ordered lower id first so both directions compare equal.
pub open spec fn tri_edge(tris: Seq<[usize; 3]>, e: int) -> (int, int) {
    let t = tris[e / 3];
    let j = e % 3;
    let a = t[j] as int;
    let b = t[(j + 1) % 3] as int;
    if a <= b {
        (a, b)
    } else {
        (b, a)
    }
}

/// Match the edges of a triangle list in pairs: two edges are neighbours
/// when they span the same (undirected) vertex pair.  Each edge is matched
/// with at most one partner; where a pair exists, both point at each
/// other; an edge stays unmatched only if every other edge over the same
/// vertex pair is already matched.
pub fn find_tri_neighbors(tri_ids: &Vec<[usize; 3]>) -> (r: Vec<Option<usize>>)
    requires
        tri_ids@.len() <= 10000000,
    ensures
        r@.len() == tri_ids@.len() * 3,
        forall|e: int|
            0 <= e < r@.len() ==> ((#[trigger] r@[e]) matches Some(f) ==> 0 <= f < r@.len() && f
                != e && tri_edge(tri_ids@, f as int) == tri_edge(tri_ids@, e) && r@[f as int]
                == Some(e as usize)),
        forall|e: int, f: int|
            0 <= e < f < r@.len() && tri_edge(tri_ids@, e) == tri_edge(tri_ids@, f) ==> !((
            #[trigger] r@[e]).is_none() && (#[trigger] r@[f]).is_none()),
{
    let num_tris = tri_ids.len();
    let num_edges = num_tris * 3;
    let mut neighbors: Vec<Option<usize>> = Vec::new();
    let mut i: usize = 0;
    while i < num_edges
        invariant
            i <= num_edges,
            neighbors@.len() == i,
            forall|k: int| 0 <= k < i ==> (#[trigger] neighbors@[k]).is_none(),
        decreases num_edges - i,
    {
        neighbors.push(None);
        i = i + 1;
    }
    let mut e: usize = 0;
    while e < num_edges
        invariant
            num_edges == tri_ids@.len() * 3,
            tri_ids@.len() <= 10000000,
            e <= num_edges,
            neighbors@.len() == num_edges,
            forall|k: int|
                0 <= k < num_edges ==> ((#[trigger] neighbors@[k]) matches Some(f) ==> 0 <= f
                    < num_edges && f != k && tri_edge(tri_ids@, f as int) == tri_edge(tri_ids@, k)
                    && neighbors@[f as int] == Some(k as usize)),
            forall|a: int, b: int|
                0 <= a < b < num_edges && a < e && tri_edge(tri_ids@, a) == tri_edge(tri_ids@, b)
                    ==> !((#[trigger] neighbors@[a]).is_none() && (
                #[trigger] neighbors@[b]).is_none()),
        decreases num_edges - e,
    {
        let te = e / 3;
        let je = e % 3;
        let a0 = tri_ids[te][je];
        let a1 = tri_ids[te][(je + 1) % 3];
        let lo_e = if a0 <= a1 {
            a0
        } else {
            a1
        };
        let hi_e = if a0 <= a1 {
            a1
        } else {
            a0
        };
        proof {
            assert(tri_edge(tri_ids@, e as int) == (lo_e as int, hi_e as int));
        }
        let mut f: usize = e + 1;
        while f < num_edges
            invariant
                num_edges == tri_ids@.len() * 3,
                tri_ids@.len() <= 10000000,
                e < num_edges,
                e < f <= num_edges || f == e + 1,
                e + 1 <= f <= num_edges,
                neighbors@.len() == num_edges,
                tri_edge(tri_ids@, e as int) == (lo_e as int, hi_e as int),
                forall|k: int|
                    0 <= k < num_edges ==> ((#[trigger] neighbors@[k]) matches Some(g) ==> 0 <= g
                        < num_edges && g != k && tri_edge(tri_ids@, g as int) == tri_edge(
                        tri_ids@,
                        k,
                    ) && neighbors@[g as int] == Some(k as usize)),
                forall|a: int, b: int|
                    0 <= a < b < num_edges && a < e && tri_edge(tri_ids@, a) == tri_edge(
                        tri_ids@,
                        b,
                    ) ==> !((#[trigger] neighbors@[a]).is_none() && (
                    #[trigger] neighbors@[b]).is_none()),
                forall|b: int|
                    e < b < f && tri_edge(tri_ids@, b) == tri_edge(tri_ids@, e as int) ==> !((
                    #[trigger] neighbors@[e as int]).is_none() && neighbors@[b].is_none()),
            decreases num_edges - f,
        {
            let none_e = self_is_none(&neighbors, e);
            let none_f = self_is_none(&neighbors, f);
            if none_e && none_f {
                let tf = f / 3;
                let jf = f % 3;
                let b0 = tri_ids[tf][jf];
                let b1 = tri_ids[tf][(jf + 1) % 3];
                let lo_f = if b0 <= b1 {
                    b0
                } else {
                    b1
                };
                let hi_f = if b0 <= b1 {
                    b1
                } else {
                    b0
                };
                proof {
                    assert(tri_edge(tri_ids@, f as int) == (lo_f as int, hi_f as int));
                }
                if lo_e == lo_f && hi_e == hi_f {
                    let ghost pre = neighbors@;
                    neighbors.set(e, Some(f));
                    neighbors.set(f, Some(e));
                    proof {
                        assert forall|k: int|
                            0 <= k < num_edges implies ((#[trigger] neighbors@[k]) matches Some(g)
                            ==> 0 <= g < num_edges && g != k && tri_edge(tri_ids@, g as int)
                            == tri_edge(tri_ids@, k) && neighbors@[g as int] == Some(
                            k as usize,
                        )) by {
                            if k != e as int && k != f as int {
                                if pre[k].is_some() {
                                    let g = pre[k].unwrap();
                                    assert(pre[g as int] == Some(k as usize));
                                    assert(g != e && g != f);
                                    assert(neighbors@[k] == pre[k]);
                                    assert(neighbors@[g as int] == pre[g as int]);
                                }
                            }
                        }
                    }
                }
            }
            f = f + 1;
        }
        e = e + 1;
    }
    neighbors
}

/// A grid id stays below the particle count.
proof fn lemma_grid_id(xi: int, yi: int, nx: int, ny: int)
    requires
        0 <= xi < nx,
        0 <= yi < ny,
    ensures
        0 <= xi * ny + yi < nx * ny,
{
    assert(xi * ny + yi < nx * ny) by (nonlinear_arith)
        requires
            0 <= xi < nx,
            0 <= yi < ny,
    ;
    assert(xi * ny + yi >= 0) by (nonlinear_arith)
        requires
            0 <= xi,
            0 <= yi,
            0 <= ny,
    ;
}

/// Reference positions of a rectangular cloth grid: particle
/// `xi * num_y + yi` sits at `(xi * spacing, height + yi * spacing, 0)`.
pub fn cloth_grid_positions(num_x: usize, num_y: usize, spacing: Fx, height: Fx) -> (r: Vec<
    crate::vec3::Vec3,
>)
    requires
        1 <= num_x <= 10000,
        1 <= num_y <= 10000,
        spacing.wf(),
        height.wf(),
    ensures
        r@.len() == num_x * num_y,
        forall|k: int| 0 <= k < r@.len() ==> (#[trigger] r@[k]).wf(),
{
    proof {
        assert((num_x as int) * (num_y as int) <= 100000000) by (nonlinear_arith)
            requires
                1 <= num_x as int <= 10000,
                1 <= num_y as int <= 10000,
        ;
    }
    let n = num_x * num_y;
    let mut r: Vec<crate::vec3::Vec3> = Vec::new();
    let mut xi: usize = 0;
    while xi < num_x
        invariant
            num_x <= 10000,
            num_y <= 10000,
            n == num_x * num_y,
            n <= 100000000,
            spacing.wf(),
            height.wf(),
            xi <= num_x,
            r@.len() == xi * num_y,
            forall|k: int| 0 <= k < r@.len() ==> (#[trigger] r@[k]).wf(),
        decreases num_x - xi,
    {
        let x = spacing.mul(Fx::from_int(xi as i64));
        let mut yi: usize = 0;
        while yi < num_y
            invariant
                num_x <= 10000,
                num_y <= 10000,
                n == num_x * num_y,
                n <= 100000000,
                spacing.wf(),
                height.wf(),
                x.wf(),
                xi < num_x,
                yi <= num_y,
                r@.len() == xi * num_y + yi,
                forall|k: int| 0 <= k < r@.len() ==> (#[trigger] r@[k]).wf(),
            decreases num_y - yi,
        {
            let y = height.add(spacing.mul(Fx::from_int(yi as i64)));
            r.push(crate::vec3::Vec3 { x, y, z: Fx { raw: 0 } });
            yi = yi + 1;
        }
        proof {
            assert((xi as int) * (num_y as int) + num_y as int == (xi as int + 1) * (num_y as int))
                by (nonlinear_arith);
        }
        xi = xi + 1;
    }
    proof {
        assert((num_x as int) * (num_y as int) == n as int);
    }
    r
}

/// The distance constraints of a rectangular cloth grid, emitted in the
/// solver's fixed projection order: all stretch edges (vertical then
/// horizontal), then the two shear diagonals of every quad, then the
/// two-step bending edges along both axes.  Rest lengths start at zero;
/// `init_rest_state` captures them from the pose.
pub fn cloth_grid_constraints(num_x: usize, num_y: usize) -> (r: Vec<DistanceConstraint>)
    requires
        1 <= num_x <= 10000,
        1 <= num_y <= 10000,
    ensures
        forall|k: int|
            0 <= k < r@.len() ==> (#[trigger] r@[k]).wf((num_x * num_y) as int),
{
    let mut r: Vec<DistanceConstraint> = Vec::new();
    push_grid_family(&mut r, num_x, num_y, 0, 1, ConstraintKind::Stretch);
    push_grid_family(&mut r, num_x, num_y, 1, 0, ConstraintKind::Stretch);
    push_grid_family(&mut r, num_x, num_y, 1, 1, ConstraintKind::Shear);
    push_grid_shear_cross(&mut r, num_x, num_y);
    push_grid_family(&mut r, num_x, num_y, 0, 2, ConstraintKind::Bending);
    push_grid_family(&mut r, num_x, num_y, 2, 0, ConstraintKind::Bending);
    r
}

/// Append one family of grid constraints: every particle `(xi, yi)` is
/// linked to `(xi + dx, yi + dy)` where that neighbour exists.
fn push_grid_family(
    r: &mut Vec<DistanceConstraint>,
    num_x: usize,
    num_y: usize,
    dx: usize,
    dy: usize,
    kind: ConstraintKind,
)
    requires
        1 <= num_x <= 10000,
        1 <= num_y <= 10000,
        dx <= 2,
        dy <= 2,
        forall|k: int|
            0 <= k < old(r)@.len() ==> (#[trigger] old(r)@[k]).wf((num_x * num_y) as int),
    ensures
        forall|k: int|
            0 <= k < final(r)@.len() ==> (#[trigger] final(r)@[k]).wf((num_x * num_y) as int),
{
    proof {
        assert((num_x as int) * (num_y as int) <= 100000000) by (nonlinear_arith)
            requires
                1 <= num_x as int <= 10000,
                1 <= num_y as int <= 10000,
        ;
    }
    let n = num_x * num_y;
    let mut xi: usize = 0;
    while xi < num_x
        invariant
            num_x <= 10000,
            num_y <= 10000,
            dx <= 2,
            dy <= 2,
            n == num_x * num_y,
            n <= 100000000,
            xi <= num_x,
            forall|k: int| 0 <= k < r@.len() ==> (#[trigger] r@[k]).wf(n as int),
        decreases num_x - xi,
    {
        let mut yi: usize = 0;
        while yi < num_y
            invariant
                num_x <= 10000,
                num_y <= 10000,
                dx <= 2,
                dy <= 2,
                n == num_x * num_y,
                n <= 100000000,
                xi < num_x,
                yi <= num_y,
                forall|k: int| 0 <= k < r@.len() ==> (#[trigger] r@[k]).wf(n as int),
            decreases num_y - yi,
        {
            if xi + dx < num_x && yi + dy < num_y {
                proof {
                    lemma_grid_id(xi as int, yi as int, num_x as int, num_y as int);
                    lemma_grid_id(
                        xi as int + dx as int,
                        yi as int + dy as int,
                        num_x as int,
                        num_y as int,
                    );
                    assert((xi as int + dx as int) * (num_y as int) == (xi as int) * (num_y as int)
                        + (dx as int) * (num_y as int)) by (nonlinear_arith);
                }
                let id = xi * num_y + yi;
                let other = (xi + dx) * num_y + (yi + dy);
                r.push(DistanceConstraint { id0: id, id1: other, kind, rest_len: Fx { raw: 0 } });
            }
            yi = yi + 1;
        }
        xi = xi + 1;
    }
}

/// Append the second shear diagonal of every quad: `(xi, yi + 1)` linked
/// to `(xi + 1, yi)`.
fn push_grid_shear_cross(r: &mut Vec<DistanceConstraint>, num_x: usize, num_y: usize)
    requires
        1 <= num_x <= 10000,
        1 <= num_y <= 10000,
        forall|k: int|
            0 <= k < old(r)@.len() ==> (#[trigger] old(r)@[k]).wf((num_x * num_y) as int),
    ensures
        forall|k: int|
            0 <= k < final(r)@.len() ==> (#[trigger] final(r)@[k]).wf((num_x * num_y) as int),
{
    proof {
        assert((num_x as int) * (num_y as int) <= 100000000) by (nonlinear_arith)
            requires
                1 <= num_x as int <= 10000,
                1 <= num_y as int <= 10000,
        ;
    }
    let n = num_x * num_y;
    let mut xi: usize = 0;
    while xi < num_x
        invariant
            num_x <= 10000,
            num_y <= 10000,
            n == num_x * num_y,
            n <= 100000000,
            xi <= num_x,
            forall|k: int| 0 <= k < r@.len() ==> (#[trigger] r@[k]).wf(n as int),
        decreases num_x - xi,
    {
        let mut yi: usize = 0;
        while yi < num_y
            invariant
                num_x <= 10000,
                num_y <= 10000,
                n == num_x * num_y,
                n <= 100000000,
                xi < num_x,
                yi <= num_y,
                forall|k: int| 0 <= k < r@.len() ==> (#[trigger] r@[k]).wf(n as int),
            decreases num_y - yi,
        {
            if xi + 1 < num_x && yi + 1 < num_y {
                proof {
                    lemma_grid_id(xi as int, yi as int + 1, num_x as int, num_y as int);
                    lemma_grid_id(xi as int + 1, yi as int, num_x as int, num_y as int);
                    assert((xi as int + 1) * (num_y as int) == (xi as int) * (num_y as int)
                        + num_y as int) by (nonlinear_arith);
                }
                let id = xi * num_y + (yi + 1);
                let other = (xi + 1) * num_y + yi;
                r.push(
                    DistanceConstraint {
                        id0: id,
                        id1: other,
                        kind: ConstraintKind::Shear,
                        rest_len: Fx { raw: 0 },
                    },
                );
            }
            yi = yi + 1;
        }
        xi = xi + 1;
    }
}

/// Whether the entry at `k` is still unmatched.
fn self_is_none(v: &Vec<Option<usize>>, k: usize) -> (r: bool)
    requires
        k < v@.len(),
    ensures
        r == v@[k as int].is_none(),
{
    match v[k] {
        None => true,
        Some(_) => false,
    }
}

} // verus!
