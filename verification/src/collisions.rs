//! Particle-particle contact resolution over the adjacency list.
//!
//! For each unpinned particle, every recorded neighbour within the contact
//! thickness is pushed back symmetrically, with the penetration measured
//! against the lesser of the thickness and the rest-pose distance (so
//! neighbours that are close at rest are not pushed apart), and both
//! velocities are blended toward their average scaled by the friction
//! coefficient (tangential damping, not a Coulomb model).
use vstd::prelude::*;

use crate::fixed::{div_s, mul_s, sqrt_s, sub_s, Fx};
use crate::vec3::Vec3;

verus! {

/// The positions after the contact of particle `i` with its recorded
/// neighbour `j` was resolved, exactly as the solver computes it.
pub open spec fn collide_pair(
    pos: Seq<Vec3>,
    prev: Seq<Vec3>,
    rest: Seq<Vec3>,
    w: Seq<Fx>,
    i: int,
    j: int,
    thickness: Fx,
    friction: Fx,
) -> Seq<Vec3> {
    if w[j].raw == 0 {
        pos
    } else {
        let grad = pos[j].sub_spec(pos[i]);
        let d2 = grad.length_squared_spec();
        let t2 = mul_s(thickness, thickness);
        if d2.raw > t2.raw || d2.raw == 0 {
            pos
        } else {
            let rd2 = rest[i].sub_spec(rest[j]).length_squared_spec();
            if d2.raw > rd2.raw {
                pos
            } else {
                let min_dist = if rd2.raw < t2.raw {
                    sqrt_s(rd2)
                } else {
                    thickness
                };
                let dist = sqrt_s(d2);
                let push = grad.scale_spec(div_s(sub_s(min_dist, dist), dist));
                let s0 = pos.update(i, pos[i].add_spec(push.scale_spec(Fx { raw: -524288i64 })));
                let s1 = s0.update(j, s0[j].add_spec(push.scale_spec(Fx { raw: 524288 })));
                let v0 = s1[i].sub_spec(prev[i]);
                let v1 = s1[j].sub_spec(prev[j]);
                let vavg = v0.add_spec(v1).div_scalar_spec(Fx { raw: 2097152 });
                let dv0 = vavg.sub_spec(v0);
                let dv1 = vavg.sub_spec(v1);
                let s2 = s1.update(i, s1[i].add_spec(dv0.scale_spec(friction)));
                s2.update(j, s2[j].add_spec(dv1.scale_spec(friction)))
            }
        }
    }
}

/// The positions after particle `i`'s neighbours `adj[lo .. k]` were
/// resolved in order.
pub open spec fn collide_range(
    pos: Seq<Vec3>,
    prev: Seq<Vec3>,
    rest: Seq<Vec3>,
    w: Seq<Fx>,
    adj: Seq<usize>,
    i: int,
    lo: int,
    k: int,
    thickness: Fx,
    friction: Fx,
) -> Seq<Vec3>
    decreases k - lo,
{
    if k <= lo {
        pos
    } else {
        collide_pair(
            collide_range(pos, prev, rest, w, adj, i, lo, k - 1, thickness, friction),
            prev,
            rest,
            w,
            i,
            adj[k - 1] as int,
            thickness,
            friction,
        )
    }
}

/// The positions after the contacts of the first `m` particles were
/// resolved in ascending order; pinned particles are skipped outright.
pub open spec fn collided_upto(
    pos: Seq<Vec3>,
    prev: Seq<Vec3>,
    rest: Seq<Vec3>,
    w: Seq<Fx>,
    adj: Seq<usize>,
    first: Seq<usize>,
    m: int,
    thickness: Fx,
    friction: Fx,
) -> Seq<Vec3>
    decreases m,
{
    if m <= 0 {
        pos
    } else {
        let base = collided_upto(pos, prev, rest, w, adj, first, m - 1, thickness, friction);
        if w[m - 1].raw == 0 {
            base
        } else {
            collide_range(
                base,
                prev,
                rest,
                w,
                adj,
                m - 1,
                first[m - 1] as int,
                first[m] as int,
                thickness,
                friction,
            )
        }
    }
}

/// Resolving one contact never moves a pinned particle that is not the
/// contact's own (unpinned) owner.
pub proof fn lemma_collide_pair_pinned(
    pos: Seq<Vec3>,
    prev: Seq<Vec3>,
    rest: Seq<Vec3>,
    w: Seq<Fx>,
    i: int,
    j: int,
    thickness: Fx,
    friction: Fx,
    k: int,
)
    requires
        0 <= k < pos.len(),
        0 <= i < pos.len(),
        0 <= j < pos.len(),
        w.len() == pos.len(),
        w[k].raw == 0,
        k != i,
    ensures
        collide_pair(pos, prev, rest, w, i, j, thickness, friction)[k] == pos[k],
{
}

/// Resolving a whole neighbour range never moves a pinned particle other
/// than the (unpinned) owner.
pub proof fn lemma_collide_range_pinned(
    pos: Seq<Vec3>,
    prev: Seq<Vec3>,
    rest: Seq<Vec3>,
    w: Seq<Fx>,
    adj: Seq<usize>,
    i: int,
    lo: int,
    hi: int,
    thickness: Fx,
    friction: Fx,
    k: int,
)
    requires
        0 <= k < pos.len(),
        0 <= i < pos.len(),
        w.len() == pos.len(),
        forall|q: int| lo <= q < hi ==> 0 <= #[trigger] adj[q] < pos.len(),
        w[k].raw == 0,
        k != i,
    ensures
        collide_range(pos, prev, rest, w, adj, i, lo, hi, thickness, friction)[k] == pos[k],
    decreases hi - lo,
{
    if hi > lo {
        lemma_collide_range_pinned(pos, prev, rest, w, adj, i, lo, hi - 1, thickness, friction, k);
        lemma_collide_range_len(pos, prev, rest, w, adj, i, lo, hi - 1, thickness, friction);
        lemma_collide_pair_pinned(
            collide_range(pos, prev, rest, w, adj, i, lo, hi - 1, thickness, friction),
            prev,
            rest,
            w,
            i,
            adj[hi - 1] as int,
            thickness,
            friction,
            k,
        );
    }
}

/// Resolving every particle's contacts never moves a pinned particle.
pub proof fn lemma_collided_upto_pinned(
    pos: Seq<Vec3>,
    prev: Seq<Vec3>,
    rest: Seq<Vec3>,
    w: Seq<Fx>,
    adj: Seq<usize>,
    first: Seq<usize>,
    m: int,
    thickness: Fx,
    friction: Fx,
    k: int,
)
    requires
        0 <= k < pos.len(),
        m <= pos.len(),
        w.len() == pos.len(),
        first.len() >= m + 1,
        forall|a: int| 0 <= a <= m ==> (#[trigger] first[a]) <= adj.len(),
        forall|a: int, q: int|
            0 <= a < m && (#[trigger] first[a]) <= q < first[a + 1] ==> (#[trigger] adj[q]) < a,
        w[k].raw == 0,
    ensures
        collided_upto(pos, prev, rest, w, adj, first, m, thickness, friction)[k] == pos[k],
        collided_upto(pos, prev, rest, w, adj, first, m, thickness, friction).len() == pos.len(),
    decreases m,
{
    if m > 0 {
        lemma_collided_upto_pinned(pos, prev, rest, w, adj, first, m - 1, thickness, friction, k);
        let base = collided_upto(pos, prev, rest, w, adj, first, m - 1, thickness, friction);
        if w[m - 1].raw != 0 {
            lemma_collide_range_len(
                base,
                prev,
                rest,
                w,
                adj,
                m - 1,
                first[m - 1] as int,
                first[m] as int,
                thickness,
                friction,
            );
            lemma_collide_range_pinned(
                base,
                prev,
                rest,
                w,
                adj,
                m - 1,
                first[m - 1] as int,
                first[m] as int,
                thickness,
                friction,
                k,
            );
        }
    }
}

/// Resolving every particle's contacts keeps the number of particles.
pub proof fn lemma_collided_upto_len(
    pos: Seq<Vec3>,
    prev: Seq<Vec3>,
    rest: Seq<Vec3>,
    w: Seq<Fx>,
    adj: Seq<usize>,
    first: Seq<usize>,
    m: int,
    thickness: Fx,
    friction: Fx,
)
    requires
        m <= pos.len(),
        w.len() == pos.len(),
        first.len() >= m + 1,
        forall|a: int| 0 <= a <= m ==> (#[trigger] first[a]) <= adj.len(),
        forall|a: int, q: int|
            0 <= a < m && (#[trigger] first[a]) <= q < first[a + 1] ==> (#[trigger] adj[q]) < a,
    ensures
        collided_upto(pos, prev, rest, w, adj, first, m, thickness, friction).len() == pos.len(),
    decreases m,
{
    if m > 0 {
        lemma_collided_upto_len(pos, prev, rest, w, adj, first, m - 1, thickness, friction);
        let base = collided_upto(pos, prev, rest, w, adj, first, m - 1, thickness, friction);
        if w[m - 1].raw != 0 {
            lemma_collide_range_len(
                base,
                prev,
                rest,
                w,
                adj,
                m - 1,
                first[m - 1] as int,
                first[m] as int,
                thickness,
                friction,
            );
        }
    }
}

/// Contact resolution keeps the number of particles.
pub proof fn lemma_collide_range_len(
    pos: Seq<Vec3>,
    prev: Seq<Vec3>,
    rest: Seq<Vec3>,
    w: Seq<Fx>,
    adj: Seq<usize>,
    i: int,
    lo: int,
    hi: int,
    thickness: Fx,
    friction: Fx,
)
    requires
        0 <= i < pos.len(),
        w.len() == pos.len(),
        forall|q: int| lo <= q < hi ==> 0 <= #[trigger] adj[q] < pos.len(),
    ensures
        collide_range(pos, prev, rest, w, adj, i, lo, hi, thickness, friction).len() == pos.len(),
    decreases hi - lo,
{
    if hi > lo {
        lemma_collide_range_len(pos, prev, rest, w, adj, i, lo, hi - 1, thickness, friction);
    }
}

} // verus!
