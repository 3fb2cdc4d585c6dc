//! System-wide laws stated over the solver's specifications.
//!
//! The substep loop's own contract already pins down the pin invariant,
//! conservation at rest, and rest-state stability; the lemmas here cover
//! the remaining laws: softer constraints never correct more, a zero
//! radius query always covers a position's own cell, and a grab followed
//! by a release restores the inverse mass exactly.
use vstd::prelude::*;

use crate::fixed::{abs_val, add_s, clip, div_s, mul_s, neg_s, quot, scale_down, Fx, SCALE};
use crate::spatial_hash::{box_hi, box_lo, cell_coord, in_cell_box};
use crate::vec3::Vec3;

verus! {

/// Clamping never grows a magnitude, and keeps magnitudes ordered.
proof fn lemma_clip_abs_monotone(v1: int, v2: int)
    requires
        abs_val(v1) <= abs_val(v2),
    ensures
        abs_val(clip(v1)) <= abs_val(clip(v2)),
{
}

/// **Compliance monotonicity.**  For one distance projection with a fixed
/// violation and combined inverse mass, increasing the compliance-scaled
/// stiffness `alpha` (softening the constraint) never increases the
/// magnitude of the Lagrange step `-C / (w + alpha)`.
pub proof fn lemma_compliance_monotonic(viol: Fx, wsum: Fx, alpha1: Fx, alpha2: Fx)
    requires
        viol.wf(),
        wsum.wf(),
        wsum.raw > 0,
        alpha1.wf(),
        alpha2.wf(),
        0 <= alpha1.raw <= alpha2.raw,
    ensures
        abs_val(div_s(neg_s(viol), add_s(wsum, alpha2)).raw as int) <= abs_val(
            div_s(neg_s(viol), add_s(wsum, alpha1)).raw as int,
        ),
{
    let x = neg_s(viol).raw as int;
    let d1 = add_s(wsum, alpha1).raw as int;
    let d2 = add_s(wsum, alpha2).raw as int;
    assert(0 < d1 <= d2);
    assert(abs_val(quot(x, d2)) == (abs_val(x) * (SCALE as int)) / d2);
    assert(abs_val(quot(x, d1)) == (abs_val(x) * (SCALE as int)) / d1);
    assert(abs_val(x) * (SCALE as int) >= 0) by (nonlinear_arith)
        requires
            abs_val(x) >= 0,
    ;
    vstd::arithmetic::div_mod::lemma_div_is_ordered_by_denominator(
        abs_val(x) * (SCALE as int),
        d1,
        d2,
    );
    lemma_clip_abs_monotone(quot(x, d2), quot(x, d1));
}

/// **Compliance monotonicity, lifted to a correction component.**  A
/// smaller-magnitude Lagrange step yields a smaller-magnitude positional
/// correction along any gradient component, for any inverse mass.
pub proof fn lemma_softer_correction(g: Fx, w: Fx, s_soft: Fx, s_stiff: Fx)
    requires
        abs_val(s_soft.raw as int) <= abs_val(s_stiff.raw as int),
    ensures
        abs_val(mul_s(mul_s(g, s_soft), w).raw as int) <= abs_val(
            mul_s(mul_s(g, s_stiff), w).raw as int,
        ),
{
    lemma_mul_abs_monotone(g, s_soft, s_stiff);
    lemma_clip_abs_monotone(
        scale_down((g.raw as int) * (s_soft.raw as int)),
        scale_down((g.raw as int) * (s_stiff.raw as int)),
    );
    lemma_mul_abs_monotone_left(mul_s(g, s_soft), mul_s(g, s_stiff), w);
    lemma_clip_abs_monotone(
        scale_down((mul_s(g, s_soft).raw as int) * (w.raw as int)),
        scale_down((mul_s(g, s_stiff).raw as int) * (w.raw as int)),
    );
}

/// A product's magnitude grows with its second factor's magnitude,
/// through the scaling division.
proof fn lemma_mul_abs_monotone(g: Fx, b1: Fx, b2: Fx)
    requires
        abs_val(b1.raw as int) <= abs_val(b2.raw as int),
    ensures
        abs_val(scale_down((g.raw as int) * (b1.raw as int))) <= abs_val(
            scale_down((g.raw as int) * (b2.raw as int)),
        ),
{
    let p1 = (g.raw as int) * (b1.raw as int);
    let p2 = (g.raw as int) * (b2.raw as int);
    assert(abs_val(p1) == abs_val(g.raw as int) * abs_val(b1.raw as int)) by (nonlinear_arith)
        requires
            p1 == (g.raw as int) * (b1.raw as int),
    ;
    assert(abs_val(p2) == abs_val(g.raw as int) * abs_val(b2.raw as int)) by (nonlinear_arith)
        requires
            p2 == (g.raw as int) * (b2.raw as int),
    ;
    assert(abs_val(p1) <= abs_val(p2)) by (nonlinear_arith)
        requires
            abs_val(p1) == abs_val(g.raw as int) * abs_val(b1.raw as int),
            abs_val(p2) == abs_val(g.raw as int) * abs_val(b2.raw as int),
            abs_val(b1.raw as int) <= abs_val(b2.raw as int),
            abs_val(g.raw as int) >= 0,
            abs_val(b1.raw as int) >= 0,
    ;
    assert(abs_val(scale_down(p1)) == abs_val(p1) / (SCALE as int));
    assert(abs_val(scale_down(p2)) == abs_val(p2) / (SCALE as int));
    vstd::arithmetic::div_mod::lemma_div_is_ordered(abs_val(p1), abs_val(p2), SCALE as int);
}

/// The same, varying the first factor.
proof fn lemma_mul_abs_monotone_left(a1: Fx, a2: Fx, w: Fx)
    requires
        abs_val(a1.raw as int) <= abs_val(a2.raw as int),
    ensures
        abs_val(scale_down((a1.raw as int) * (w.raw as int))) <= abs_val(
            scale_down((a2.raw as int) * (w.raw as int)),
        ),
{
    let p1 = (a1.raw as int) * (w.raw as int);
    let p2 = (a2.raw as int) * (w.raw as int);
    assert(abs_val(p1) == abs_val(a1.raw as int) * abs_val(w.raw as int)) by (nonlinear_arith)
        requires
            p1 == (a1.raw as int) * (w.raw as int),
    ;
    assert(abs_val(p2) == abs_val(a2.raw as int) * abs_val(w.raw as int)) by (nonlinear_arith)
        requires
            p2 == (a2.raw as int) * (w.raw as int),
    ;
    assert(abs_val(p1) <= abs_val(p2)) by (nonlinear_arith)
        requires
            abs_val(p1) == abs_val(a1.raw as int) * abs_val(w.raw as int),
            abs_val(p2) == abs_val(a2.raw as int) * abs_val(w.raw as int),
            abs_val(a1.raw as int) <= abs_val(a2.raw as int),
            abs_val(w.raw as int) >= 0,
            abs_val(a1.raw as int) >= 0,
    ;
    assert(abs_val(scale_down(p1)) == abs_val(p1) / (SCALE as int));
    assert(abs_val(scale_down(p2)) == abs_val(p2) / (SCALE as int));
    vstd::arithmetic::div_mod::lemma_div_is_ordered(abs_val(p1), abs_val(p2), SCALE as int);
}

/// **Hash round trip.**  A zero-radius query box around a position always
/// covers that position's own grid cell, so together with `query`'s
/// guarantee, querying with radius zero around an indexed position
/// returns a result containing that position's index.
pub proof fn lemma_zero_radius_covers_own_cell(spacing: Fx, p: Vec3)
    requires
        spacing.wf(),
        spacing.raw > 0,
        p.wf(),
    ensures
        in_cell_box(spacing, p, Fx { raw: 0 }, p),
{
    assert(clip(p.x.raw - 0) == p.x.raw);
    assert(clip(p.x.raw + 0) == p.x.raw);
    assert(box_lo(spacing, p.x, Fx { raw: 0 }) == cell_coord(spacing, p.x));
    assert(box_hi(spacing, p.x, Fx { raw: 0 }) == cell_coord(spacing, p.x));
    assert(box_lo(spacing, p.y, Fx { raw: 0 }) == cell_coord(spacing, p.y));
    assert(box_hi(spacing, p.y, Fx { raw: 0 }) == cell_coord(spacing, p.y));
    assert(box_lo(spacing, p.z, Fx { raw: 0 }) == cell_coord(spacing, p.z));
    assert(box_hi(spacing, p.z, Fx { raw: 0 }) == cell_coord(spacing, p.z));
}

/// **Adjacency distances, unsquared.**  The adjacency builder records a
/// pair only when its squared distance is within the squared radius; this
/// carries that bound to the distances themselves: the true (fixed-point)
/// distance of every recorded pair is within the radius.
pub proof fn lemma_distance_within_radius(d2: Fx, r: Fx)
    requires
        d2.wf(),
        d2.raw >= 0,
        r.wf(),
        r.raw >= 0,
        d2.raw <= mul_s(r, r).raw,
    ensures
        crate::fixed::sqrt_s(d2).raw <= r.raw,
{
    let s = SCALE as int;
    let n = (d2.raw as int) * s;
    let rr = (r.raw as int) * (r.raw as int);
    assert(rr >= 0) by (nonlinear_arith)
        requires
            r.raw as int >= 0,
            rr == (r.raw as int) * (r.raw as int),
    ;
    assert(scale_down(rr) == rr / s);
    // whether or not the squared radius clamps, the unscaled product
    // bounds the scaled squared distance
    assert(n <= rr) by {
        if rr / s > (crate::fixed::LIM as int) {
            vstd::arithmetic::div_mod::lemma_fundamental_div_mod(rr, s);
            assert((d2.raw as int) * s <= (crate::fixed::LIM as int) * s) by (nonlinear_arith)
                requires
                    d2.raw as int <= (crate::fixed::LIM as int),
                    s > 0,
            ;
            assert((rr / s) * s + rr % s == rr);
            assert((crate::fixed::LIM as int) * s < (rr / s) * s) by (nonlinear_arith)
                requires
                    (crate::fixed::LIM as int) < rr / s,
                    s > 0,
            ;
            vstd::arithmetic::div_mod::lemma_mod_bound(rr, s);
        } else {
            assert(d2.raw as int <= rr / s);
            vstd::arithmetic::div_mod::lemma_fundamental_div_mod(rr, s);
            assert((d2.raw as int) * s <= (rr / s) * s) by (nonlinear_arith)
                requires
                    d2.raw as int <= rr / s,
                    s > 0,
            ;
            vstd::arithmetic::div_mod::lemma_mod_bound(rr, s);
        }
    }
    crate::fixed::lemma_isqrt_exists(n);
    crate::fixed::lemma_isqrt_monotone(n, rr);
    crate::fixed::lemma_isqrt_square(r.raw as int);
    assert(0 <= crate::fixed::isqrt(n) <= r.raw as int);
    assert(crate::fixed::sqrt_val(d2.raw as int) == crate::fixed::isqrt(n));
}

/// **Grab exact restore.**  Pinning an entry to zero and then writing the
/// saved value back restores the sequence exactly, which is what
/// `start_grab` followed by `end_grab` does to the inverse masses.
pub proof fn lemma_grab_exact_restore(m: Seq<Fx>, g: int)
    requires
        0 <= g < m.len(),
    ensures
        m.update(g, Fx { raw: 0 }).update(g, m[g]) == m,
{
    assert(m.update(g, Fx { raw: 0 }).update(g, m[g]) =~= m);
}

} // verus!
