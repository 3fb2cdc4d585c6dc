//! Distance-style and volume constraints, and the XPBD projection step.
//!
//! Each projection computes the constraint violation `C`, the combined
//! inverse mass `w`, the compliance-scaled stiffness `alpha` (compliance
//! divided by the squared substep, the XPBD rule that keeps stiffness
//! stable under any substep count), the Lagrange step `-C / (w + alpha)`,
//! and distributes position corrections proportional to each participant's
//! inverse mass.  Fully pinned and zero-gradient constraints are skipped:
//! a defined no-op, not an error.
use vstd::prelude::*;

use crate::fixed::{abs_val, add_s, div_s, mul_s, neg_s, sub_s, Fx};
use crate::vec3::Vec3;

verus! {

/// Which compliance parameter applies to a constraint.
#[derive(Clone, Copy, Debug, PartialEq, Eq, Structural)]
pub enum ConstraintKind {
    Stretch,
    Shear,
    Bending,
    Volume,
}

/// A distance constraint between two particles with a rest length fixed at
/// initialization.
#[derive(Clone, Copy, Debug, PartialEq, Eq, Structural)]
pub struct DistanceConstraint {
    pub id0: usize,
    pub id1: usize,
    pub kind: ConstraintKind,
    pub rest_len: Fx,
}

/// A volume constraint over one tetrahedron with a rest volume fixed at
/// initialization.
#[derive(Clone, Copy, Debug, PartialEq, Eq, Structural)]
pub struct VolumeConstraint {
    pub id0: usize,
    pub id1: usize,
    pub id2: usize,
    pub id3: usize,
    pub rest_vol: Fx,
}

impl DistanceConstraint {
    pub open spec fn wf(self, n: int) -> bool {
        &&& self.id0 < n
        &&& self.id1 < n
        &&& self.rest_len.wf()
        &&& self.rest_len.raw >= 0
    }
}

impl VolumeConstraint {
    pub open spec fn wf(self, n: int) -> bool {
        &&& self.id0 < n
        &&& self.id1 < n
        &&& self.id2 < n
        &&& self.id3 < n
        &&& self.rest_vol.wf()
    }
}

/// The compliance-scaled stiffness that applies to a constraint kind.
pub open spec fn alpha_for(
    k: ConstraintKind,
    a_stretch: Fx,
    a_shear: Fx,
    a_bending: Fx,
    a_volume: Fx,
) -> Fx {
    match k {
        ConstraintKind::Stretch => a_stretch,
        ConstraintKind::Shear => a_shear,
        ConstraintKind::Bending => a_bending,
        ConstraintKind::Volume => a_volume,
    }
}

/// The positions after one distance-constraint projection, exactly as the
/// solver computes it: skip when both ends are pinned or coincident, else
/// move both ends along the normalized gradient by the Lagrange step
/// weighted with each end's inverse mass.
pub open spec fn projected_distance(
    pos: Seq<Vec3>,
    w: Seq<Fx>,
    c: DistanceConstraint,
    alpha: Fx,
) -> Seq<Vec3> {
    let id0 = c.id0 as int;
    let id1 = c.id1 as int;
    let w0 = w[id0];
    let w1 = w[id1];
    let wsum = add_s(w0, w1);
    if wsum.raw == 0 {
        pos
    } else {
        let grad = pos[id0].sub_spec(pos[id1]);
        let len = grad.length_spec();
        if len.raw == 0 {
            pos
        } else {
            let gradn = grad.div_scalar_spec(len);
            let viol = sub_s(len, c.rest_len);
            let step = div_s(neg_s(viol), add_s(wsum, alpha));
            pos.update(id0, pos[id0].add_spec(gradn.scale_spec(step).scale_spec(w0))).update(
                id1,
                pos[id1].add_spec(gradn.scale_spec(neg_s(step)).scale_spec(w1)),
            )
        }
    }
}

/// The positions after the first `k` distance constraints were projected
/// in order (Gauss-Seidel: each result feeds the next projection).
pub open spec fn solved_distance_upto(
    pos: Seq<Vec3>,
    w: Seq<Fx>,
    cs: Seq<DistanceConstraint>,
    k: int,
    a_stretch: Fx,
    a_shear: Fx,
    a_bending: Fx,
    a_volume: Fx,
) -> Seq<Vec3>
    decreases k,
{
    if k <= 0 {
        pos
    } else {
        projected_distance(
            solved_distance_upto(pos, w, cs, k - 1, a_stretch, a_shear, a_bending, a_volume),
            w,
            cs[k - 1],
            alpha_for(cs[k - 1].kind, a_stretch, a_shear, a_bending, a_volume),
        )
    }
}

/// The signed volume of a tetrahedron, as the solver computes it:
/// `((p1 - p0) x (p2 - p0)) . (p3 - p0) / 6`.
pub open spec fn tet_volume_spec(p0: Vec3, p1: Vec3, p2: Vec3, p3: Vec3) -> Fx {
    div_s(p1.sub_spec(p0).cross_spec(p2.sub_spec(p0)).dot_spec(p3.sub_spec(p0)), Fx { raw: 6291456 })
}

/// The face-area gradient at one corner of a tetrahedron:
/// `((b - a) x (c - a)) / 6` over the face opposite that corner.
pub open spec fn vol_grad_spec(a: Vec3, b: Vec3, c: Vec3) -> Vec3 {
    b.sub_spec(a).cross_spec(c.sub_spec(a)).div_scalar_spec(Fx { raw: 6291456 })
}

/// The positions after one volume-constraint projection, exactly as the
/// solver computes it.  The corner order of each opposite face follows the
/// usual tetrahedral convention, so all four gradients point outward.
pub open spec fn projected_volume(
    pos: Seq<Vec3>,
    w: Seq<Fx>,
    c: VolumeConstraint,
    alpha: Fx,
) -> Seq<Vec3> {
    let i0 = c.id0 as int;
    let i1 = c.id1 as int;
    let i2 = c.id2 as int;
    let i3 = c.id3 as int;
    let g0 = vol_grad_spec(pos[i1], pos[i3], pos[i2]);
    let g1 = vol_grad_spec(pos[i0], pos[i2], pos[i3]);
    let g2 = vol_grad_spec(pos[i0], pos[i3], pos[i1]);
    let g3 = vol_grad_spec(pos[i0], pos[i1], pos[i2]);
    let wsum = add_s(
        add_s(
            add_s(mul_s(w[i0], g0.length_squared_spec()), mul_s(w[i1], g1.length_squared_spec())),
            mul_s(w[i2], g2.length_squared_spec()),
        ),
        mul_s(w[i3], g3.length_squared_spec()),
    );
    if wsum.raw == 0 {
        pos
    } else {
        let vol = tet_volume_spec(pos[i0], pos[i1], pos[i2], pos[i3]);
        let viol = sub_s(vol, c.rest_vol);
        let step = div_s(neg_s(viol), add_s(wsum, alpha));
        let s0 = pos.update(i0, pos[i0].add_spec(g0.scale_spec(step).scale_spec(w[i0])));
        let s1 = s0.update(i1, s0[i1].add_spec(g1.scale_spec(step).scale_spec(w[i1])));
        let s2 = s1.update(i2, s1[i2].add_spec(g2.scale_spec(step).scale_spec(w[i2])));
        s2.update(i3, s2[i3].add_spec(g3.scale_spec(step).scale_spec(w[i3])))
    }
}

/// A pinned particle is never moved by a volume projection: every
/// correction it would receive is scaled by its zero inverse mass.
#[verifier::rlimit(100)]
pub proof fn lemma_projected_volume_pinned(
    pos: Seq<Vec3>,
    w: Seq<Fx>,
    c: VolumeConstraint,
    alpha: Fx,
    k: int,
)
    requires
        0 <= k < pos.len(),
        w.len() == pos.len(),
        c.wf(pos.len() as int),
        pos[k].wf(),
        w[k].raw == 0,
    ensures
        projected_volume(pos, w, c, alpha)[k] == pos[k],
{
    let i0 = c.id0 as int;
    let i1 = c.id1 as int;
    let i2 = c.id2 as int;
    let i3 = c.id3 as int;
    let g0 = vol_grad_spec(pos[i1], pos[i3], pos[i2]);
    let g1 = vol_grad_spec(pos[i0], pos[i2], pos[i3]);
    let g2 = vol_grad_spec(pos[i0], pos[i3], pos[i1]);
    let g3 = vol_grad_spec(pos[i0], pos[i1], pos[i2]);
    let wsum = add_s(
        add_s(
            add_s(mul_s(w[i0], g0.length_squared_spec()), mul_s(w[i1], g1.length_squared_spec())),
            mul_s(w[i2], g2.length_squared_spec()),
        ),
        mul_s(w[i3], g3.length_squared_spec()),
    );
    if wsum.raw != 0 {
        let vol = tet_volume_spec(pos[i0], pos[i1], pos[i2], pos[i3]);
        let viol = sub_s(vol, c.rest_vol);
        let step = div_s(neg_s(viol), add_s(wsum, alpha));
        let s0 = pos.update(i0, pos[i0].add_spec(g0.scale_spec(step).scale_spec(w[i0])));
        let s1 = s0.update(i1, s0[i1].add_spec(g1.scale_spec(step).scale_spec(w[i1])));
        let s2 = s1.update(i2, s1[i2].add_spec(g2.scale_spec(step).scale_spec(w[i2])));
        if k == i0 {
            crate::vec3::lemma_scale_zero(g0.scale_spec(step), w[i0]);
            crate::vec3::lemma_add_zero(pos[i0], g0.scale_spec(step).scale_spec(w[i0]));
        }
        assert(s0[k] == pos[k]);
        if k == i1 {
            crate::vec3::lemma_scale_zero(g1.scale_spec(step), w[i1]);
            assert(s0[i1].wf()) by {
                crate::vec3::lemma_add_spec_wf(pos[i0], g0.scale_spec(step).scale_spec(w[i0]));
            }
            crate::vec3::lemma_add_zero(s0[i1], g1.scale_spec(step).scale_spec(w[i1]));
        }
        assert(s1[k] == pos[k]);
        if k == i2 {
            crate::vec3::lemma_scale_zero(g2.scale_spec(step), w[i2]);
            assert(s1[i2].wf()) by {
                crate::vec3::lemma_add_spec_wf(pos[i0], g0.scale_spec(step).scale_spec(w[i0]));
                crate::vec3::lemma_add_spec_wf(s0[i1], g1.scale_spec(step).scale_spec(w[i1]));
            }
            crate::vec3::lemma_add_zero(s1[i2], g2.scale_spec(step).scale_spec(w[i2]));
        }
        assert(s2[k] == pos[k]);
        if k == i3 {
            crate::vec3::lemma_scale_zero(g3.scale_spec(step), w[i3]);
            assert(s2[i3].wf()) by {
                crate::vec3::lemma_add_spec_wf(pos[i0], g0.scale_spec(step).scale_spec(w[i0]));
                crate::vec3::lemma_add_spec_wf(s0[i1], g1.scale_spec(step).scale_spec(w[i1]));
                crate::vec3::lemma_add_spec_wf(s1[i2], g2.scale_spec(step).scale_spec(w[i2]));
            }
            crate::vec3::lemma_add_zero(s2[i3], g3.scale_spec(step).scale_spec(w[i3]));
        }
        assert(projected_volume(pos, w, c, alpha)[k] == pos[k]);
    }
}

/// The positions after the first `k` volume constraints were projected in
/// order.
pub open spec fn solved_volume_upto(
    pos: Seq<Vec3>,
    w: Seq<Fx>,
    cs: Seq<VolumeConstraint>,
    k: int,
    alpha: Fx,
) -> Seq<Vec3>
    decreases k,
{
    if k <= 0 {
        pos
    } else {
        projected_volume(solved_volume_upto(pos, w, cs, k - 1, alpha), w, cs[k - 1], alpha)
    }
}

/// A distance constraint whose rest length equals the current distance is
/// already satisfied: its projection moves nothing.
pub proof fn lemma_projected_distance_rest(pos: Seq<Vec3>, w: Seq<Fx>, c: DistanceConstraint, alpha: Fx)
    requires
        c.wf(pos.len() as int),
        w.len() == pos.len(),
        forall|j: int| 0 <= j < pos.len() ==> (#[trigger] pos[j]).wf(),
        forall|j: int| 0 <= j < w.len() ==> (#[trigger] w[j]).raw >= 0,
        alpha.wf(),
        alpha.raw >= 0,
        pos[c.id0 as int].sub_spec(pos[c.id1 as int]).length_spec() == c.rest_len,
    ensures
        projected_distance(pos, w, c, alpha) == pos,
{
    let id0 = c.id0 as int;
    let id1 = c.id1 as int;
    let w0 = w[id0];
    let w1 = w[id1];
    let wsum = add_s(w0, w1);
    if wsum.raw != 0 {
        let grad = pos[id0].sub_spec(pos[id1]);
        let len = grad.length_spec();
        if len.raw != 0 {
            let gradn = grad.div_scalar_spec(len);
            let viol = sub_s(len, c.rest_len);
            assert(viol.raw == 0);
            let denom = add_s(wsum, alpha);
            assert(denom.raw > 0);
            let step = div_s(neg_s(viol), denom);
            vstd::arithmetic::div_mod::lemma_div_of0(abs_val(denom.raw as int));
            assert(step.raw == 0);
            crate::vec3::lemma_scale_zero(gradn, step);
            crate::vec3::lemma_zero_scale(gradn.scale_spec(step), w0);
            crate::vec3::lemma_add_zero(pos[id0], gradn.scale_spec(step).scale_spec(w0));
            assert(neg_s(step).raw == 0);
            crate::vec3::lemma_scale_zero(gradn, neg_s(step));
            crate::vec3::lemma_zero_scale(gradn.scale_spec(neg_s(step)), w1);
            crate::vec3::lemma_add_zero(pos[id1], gradn.scale_spec(neg_s(step)).scale_spec(w1));
            assert(projected_distance(pos, w, c, alpha) =~= pos);
        }
    }
}

/// Folding already-satisfied distance constraints over a pose moves
/// nothing: the mesh is at rest and the solver leaves it there.
pub proof fn lemma_solved_distance_rest(
    pos: Seq<Vec3>,
    w: Seq<Fx>,
    cs: Seq<DistanceConstraint>,
    k: int,
    a_stretch: Fx,
    a_shear: Fx,
    a_bending: Fx,
    a_volume: Fx,
)
    requires
        0 <= k <= cs.len(),
        w.len() == pos.len(),
        forall|q: int| 0 <= q < cs.len() ==> (#[trigger] cs[q]).wf(pos.len() as int),
        forall|j: int| 0 <= j < pos.len() ==> (#[trigger] pos[j]).wf(),
        forall|j: int| 0 <= j < w.len() ==> (#[trigger] w[j]).raw >= 0,
        a_stretch.wf() && a_stretch.raw >= 0,
        a_shear.wf() && a_shear.raw >= 0,
        a_bending.wf() && a_bending.raw >= 0,
        a_volume.wf() && a_volume.raw >= 0,
        forall|q: int|
            0 <= q < cs.len() ==> pos[(#[trigger] cs[q]).id0 as int].sub_spec(
                pos[cs[q].id1 as int],
            ).length_spec() == cs[q].rest_len,
    ensures
        solved_distance_upto(pos, w, cs, k, a_stretch, a_shear, a_bending, a_volume) == pos,
    decreases k,
{
    if k > 0 {
        lemma_solved_distance_rest(pos, w, cs, k - 1, a_stretch, a_shear, a_bending, a_volume);
        lemma_projected_distance_rest(
            pos,
            w,
            cs[k - 1],
            alpha_for(cs[k - 1].kind, a_stretch, a_shear, a_bending, a_volume),
        );
    }
}

/// A volume constraint whose rest volume equals the current volume is
/// already satisfied: its projection moves nothing.
#[verifier::rlimit(100)]
pub proof fn lemma_projected_volume_rest(pos: Seq<Vec3>, w: Seq<Fx>, c: VolumeConstraint, alpha: Fx)
    requires
        c.wf(pos.len() as int),
        w.len() == pos.len(),
        forall|j: int| 0 <= j < pos.len() ==> (#[trigger] pos[j]).wf(),
        forall|j: int| 0 <= j < w.len() ==> (#[trigger] w[j]).raw >= 0,
        alpha.wf(),
        alpha.raw >= 0,
        tet_volume_spec(
            pos[c.id0 as int],
            pos[c.id1 as int],
            pos[c.id2 as int],
            pos[c.id3 as int],
        ) == c.rest_vol,
    ensures
        projected_volume(pos, w, c, alpha) == pos,
{
    let i0 = c.id0 as int;
    let i1 = c.id1 as int;
    let i2 = c.id2 as int;
    let i3 = c.id3 as int;
    let g0 = vol_grad_spec(pos[i1], pos[i3], pos[i2]);
    let g1 = vol_grad_spec(pos[i0], pos[i2], pos[i3]);
    let g2 = vol_grad_spec(pos[i0], pos[i3], pos[i1]);
    let g3 = vol_grad_spec(pos[i0], pos[i1], pos[i2]);
    let wsum = add_s(
        add_s(
            add_s(mul_s(w[i0], g0.length_squared_spec()), mul_s(w[i1], g1.length_squared_spec())),
            mul_s(w[i2], g2.length_squared_spec()),
        ),
        mul_s(w[i3], g3.length_squared_spec()),
    );
    if wsum.raw != 0 {
        let vol = tet_volume_spec(pos[i0], pos[i1], pos[i2], pos[i3]);
        let viol = sub_s(vol, c.rest_vol);
        assert(viol.raw == 0);
        crate::vec3::lemma_length_squared_nonneg(g0);
        crate::vec3::lemma_length_squared_nonneg(g1);
        crate::vec3::lemma_length_squared_nonneg(g2);
        crate::vec3::lemma_length_squared_nonneg(g3);
        crate::fixed::lemma_mul_s_nonneg(w[i0], g0.length_squared_spec());
        crate::fixed::lemma_mul_s_nonneg(w[i1], g1.length_squared_spec());
        crate::fixed::lemma_mul_s_nonneg(w[i2], g2.length_squared_spec());
        crate::fixed::lemma_mul_s_nonneg(w[i3], g3.length_squared_spec());
        let denom = add_s(wsum, alpha);
        assert(denom.raw > 0);
        let step = div_s(neg_s(viol), denom);
        vstd::arithmetic::div_mod::lemma_div_of0(abs_val(denom.raw as int));
        assert(step.raw == 0);
        crate::vec3::lemma_scale_zero(g0, step);
        crate::vec3::lemma_zero_scale(g0.scale_spec(step), w[i0]);
        crate::vec3::lemma_add_zero(pos[i0], g0.scale_spec(step).scale_spec(w[i0]));
        let s0 = pos.update(i0, pos[i0].add_spec(g0.scale_spec(step).scale_spec(w[i0])));
        assert(s0 =~= pos);
        crate::vec3::lemma_scale_zero(g1, step);
        crate::vec3::lemma_zero_scale(g1.scale_spec(step), w[i1]);
        crate::vec3::lemma_add_zero(pos[i1], g1.scale_spec(step).scale_spec(w[i1]));
        let s1 = s0.update(i1, s0[i1].add_spec(g1.scale_spec(step).scale_spec(w[i1])));
        assert(s1 =~= pos);
        crate::vec3::lemma_scale_zero(g2, step);
        crate::vec3::lemma_zero_scale(g2.scale_spec(step), w[i2]);
        crate::vec3::lemma_add_zero(pos[i2], g2.scale_spec(step).scale_spec(w[i2]));
        let s2 = s1.update(i2, s1[i2].add_spec(g2.scale_spec(step).scale_spec(w[i2])));
        assert(s2 =~= pos);
        crate::vec3::lemma_scale_zero(g3, step);
        crate::vec3::lemma_zero_scale(g3.scale_spec(step), w[i3]);
        crate::vec3::lemma_add_zero(pos[i3], g3.scale_spec(step).scale_spec(w[i3]));
        assert(projected_volume(pos, w, c, alpha) =~= pos);
    }
}

/// Folding already-satisfied volume constraints over a pose moves nothing.
pub proof fn lemma_solved_volume_rest(
    pos: Seq<Vec3>,
    w: Seq<Fx>,
    cs: Seq<VolumeConstraint>,
    k: int,
    alpha: Fx,
)
    requires
        0 <= k <= cs.len(),
        w.len() == pos.len(),
        forall|q: int| 0 <= q < cs.len() ==> (#[trigger] cs[q]).wf(pos.len() as int),
        forall|j: int| 0 <= j < pos.len() ==> (#[trigger] pos[j]).wf(),
        forall|j: int| 0 <= j < w.len() ==> (#[trigger] w[j]).raw >= 0,
        alpha.wf(),
        alpha.raw >= 0,
        forall|q: int|
            0 <= q < cs.len() ==> tet_volume_spec(
                pos[(#[trigger] cs[q]).id0 as int],
                pos[cs[q].id1 as int],
                pos[cs[q].id2 as int],
                pos[cs[q].id3 as int],
            ) == cs[q].rest_vol,
    ensures
        solved_volume_upto(pos, w, cs, k, alpha) == pos,
    decreases k,
{
    if k > 0 {
        lemma_solved_volume_rest(pos, w, cs, k - 1, alpha);
        lemma_projected_volume_rest(pos, w, cs[k - 1], alpha);
    }
}

/// Projection preserves the number of particles.
pub proof fn lemma_solved_distance_len(
    pos: Seq<Vec3>,
    w: Seq<Fx>,
    cs: Seq<DistanceConstraint>,
    k: int,
    a_stretch: Fx,
    a_shear: Fx,
    a_bending: Fx,
    a_volume: Fx,
)
    requires
        k <= cs.len(),
        forall|q: int| 0 <= q < cs.len() ==> (#[trigger] cs[q]).wf(pos.len() as int),
    ensures
        solved_distance_upto(pos, w, cs, k, a_stretch, a_shear, a_bending, a_volume).len()
            == pos.len(),
    decreases k,
{
    if k > 0 {
        lemma_solved_distance_len(pos, w, cs, k - 1, a_stretch, a_shear, a_bending, a_volume);
    }
}

/// Volume projection preserves the number of particles.
pub proof fn lemma_solved_volume_len(
    pos: Seq<Vec3>,
    w: Seq<Fx>,
    cs: Seq<VolumeConstraint>,
    k: int,
    alpha: Fx,
)
    requires
        k <= cs.len(),
        forall|q: int| 0 <= q < cs.len() ==> (#[trigger] cs[q]).wf(pos.len() as int),
    ensures
        solved_volume_upto(pos, w, cs, k, alpha).len() == pos.len(),
    decreases k,
{
    if k > 0 {
        lemma_solved_volume_len(pos, w, cs, k - 1, alpha);
    }
}

/// A particle no distance constraint references is never moved by the
/// distance pass.
pub proof fn lemma_solved_distance_untouched(
    pos: Seq<Vec3>,
    w: Seq<Fx>,
    cs: Seq<DistanceConstraint>,
    k: int,
    a_stretch: Fx,
    a_shear: Fx,
    a_bending: Fx,
    a_volume: Fx,
    i: int,
)
    requires
        k <= cs.len(),
        0 <= i < pos.len(),
        forall|q: int| 0 <= q < cs.len() ==> (#[trigger] cs[q]).wf(pos.len() as int),
        forall|q: int|
            0 <= q < cs.len() ==> (#[trigger] cs[q]).id0 != i && cs[q].id1 != i,
    ensures
        solved_distance_upto(pos, w, cs, k, a_stretch, a_shear, a_bending, a_volume)[i] == pos[i],
    decreases k,
{
    if k > 0 {
        lemma_solved_distance_len(pos, w, cs, k - 1, a_stretch, a_shear, a_bending, a_volume);
        lemma_solved_distance_untouched(
            pos,
            w,
            cs,
            k - 1,
            a_stretch,
            a_shear,
            a_bending,
            a_volume,
            i,
        );
    }
}

/// A particle no volume constraint references is never moved by the
/// volume pass.
pub proof fn lemma_solved_volume_untouched(
    pos: Seq<Vec3>,
    w: Seq<Fx>,
    cs: Seq<VolumeConstraint>,
    k: int,
    alpha: Fx,
    i: int,
)
    requires
        k <= cs.len(),
        0 <= i < pos.len(),
        forall|q: int| 0 <= q < cs.len() ==> (#[trigger] cs[q]).wf(pos.len() as int),
        forall|q: int|
            0 <= q < cs.len() ==> (#[trigger] cs[q]).id0 != i && cs[q].id1 != i && cs[q].id2 != i
                && cs[q].id3 != i,
    ensures
        solved_volume_upto(pos, w, cs, k, alpha)[i] == pos[i],
    decreases k,
{
    if k > 0 {
        lemma_solved_volume_len(pos, w, cs, k - 1, alpha);
        lemma_solved_volume_untouched(pos, w, cs, k - 1, alpha, i);
    }
}

/// A pinned particle is never moved by the whole distance pass.
pub proof fn lemma_solved_distance_pinned(
    pos: Seq<Vec3>,
    w: Seq<Fx>,
    cs: Seq<DistanceConstraint>,
    k: int,
    a_stretch: Fx,
    a_shear: Fx,
    a_bending: Fx,
    a_volume: Fx,
    i: int,
)
    requires
        k <= cs.len(),
        0 <= i < pos.len(),
        w.len() == pos.len(),
        w[i].raw == 0,
        pos[i].wf(),
        forall|q: int| 0 <= q < cs.len() ==> (#[trigger] cs[q]).wf(pos.len() as int),
    ensures
        solved_distance_upto(pos, w, cs, k, a_stretch, a_shear, a_bending, a_volume)[i] == pos[i],
    decreases k,
{
    if k > 0 {
        lemma_solved_distance_len(pos, w, cs, k - 1, a_stretch, a_shear, a_bending, a_volume);
        lemma_solved_distance_pinned(pos, w, cs, k - 1, a_stretch, a_shear, a_bending, a_volume, i);
        let base = solved_distance_upto(pos, w, cs, k - 1, a_stretch, a_shear, a_bending, a_volume);
        let c = cs[k - 1];
        let alpha = alpha_for(c.kind, a_stretch, a_shear, a_bending, a_volume);
        lemma_projected_distance_pinned_point(base, w, c, alpha, i);
    }
}

/// One distance projection never moves a pinned particle, and keeps every
/// position in range.
pub proof fn lemma_projected_distance_pinned_point(
    pos: Seq<Vec3>,
    w: Seq<Fx>,
    c: DistanceConstraint,
    alpha: Fx,
    i: int,
)
    requires
        0 <= i < pos.len(),
        w.len() == pos.len(),
        w[i].raw == 0,
        c.wf(pos.len() as int),
        pos[i].wf(),
    ensures
        projected_distance(pos, w, c, alpha)[i] == pos[i],
{
    let id0 = c.id0 as int;
    let id1 = c.id1 as int;
    let w0 = w[id0];
    let w1 = w[id1];
    let wsum = add_s(w0, w1);
    if wsum.raw != 0 {
        let grad = pos[id0].sub_spec(pos[id1]);
        let len = grad.length_spec();
        if len.raw != 0 {
            let gradn = grad.div_scalar_spec(len);
            let viol = sub_s(len, c.rest_len);
            let step = div_s(neg_s(viol), add_s(wsum, alpha));
            if i == id0 {
                crate::vec3::lemma_scale_zero(gradn.scale_spec(step), w0);
                crate::vec3::lemma_add_zero(pos[id0], gradn.scale_spec(step).scale_spec(w0));
            }
            if i == id1 {
                crate::vec3::lemma_scale_zero(gradn.scale_spec(neg_s(step)), w1);
                crate::vec3::lemma_add_zero(
                    pos[id1],
                    gradn.scale_spec(neg_s(step)).scale_spec(w1),
                );
            }
        }
    }
}

/// A pinned particle is never moved by the whole volume pass.
pub proof fn lemma_solved_volume_pinned(
    pos: Seq<Vec3>,
    w: Seq<Fx>,
    cs: Seq<VolumeConstraint>,
    k: int,
    alpha: Fx,
    i: int,
)
    requires
        k <= cs.len(),
        0 <= i < pos.len(),
        w.len() == pos.len(),
        w[i].raw == 0,
        pos[i].wf(),
        forall|q: int| 0 <= q < cs.len() ==> (#[trigger] cs[q]).wf(pos.len() as int),
    ensures
        solved_volume_upto(pos, w, cs, k, alpha)[i] == pos[i],
    decreases k,
{
    if k > 0 {
        lemma_solved_volume_len(pos, w, cs, k - 1, alpha);
        lemma_solved_volume_pinned(pos, w, cs, k - 1, alpha, i);
        let base = solved_volume_upto(pos, w, cs, k - 1, alpha);
        lemma_projected_volume_pinned(base, w, cs[k - 1], alpha, i);
    }
}


} // verus!
