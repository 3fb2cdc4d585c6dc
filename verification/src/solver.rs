//! The XPBD substep loop over one particle system.
//!
//! Each substep first predicts positions under gravity and clamps them at
//! the ground plane, then projects all constraints strictly in order
//! (Gauss-Seidel: every correction is immediately visible to the next
//! constraint, which is what gives the scheme its fast practical
//! convergence), resolves particle-particle contacts from the spatial
//! hash's adjacency list, and finally reconstructs every velocity from its
//! position delta.  Velocities are never integrated on their own: that
//! reconstruction is what keeps the scheme stable for arbitrarily stiff
//! constraints.
use vstd::prelude::*;

use crate::constraints::{
    alpha_for, projected_distance, projected_volume, solved_distance_upto, solved_volume_upto,
    ConstraintKind, DistanceConstraint, VolumeConstraint,
};
use crate::fixed::{add_s, div_s, mul_s, neg_s, sub_s, Fx, SCALE};
use crate::spatial_hash::SpatialHash;
use crate::vec3::Vec3;

verus! {

/// Raw fixed-point value of the frame time `1 / 60` second.
pub const TIME_STEP_RAW: i64 = 17476;

/// A particle system advanced by the XPBD substep loop: cloth and soft
/// bodies differ only in which constraints they carry.
pub struct Body {
    pub num_particles: usize,
    pub num_substeps: usize,
    /// Substep timestep: the frame time divided by the substep count.
    pub dt: Fx,
    /// Reciprocal of `dt`; recomputed together with it, never separately.
    pub inv_dt: Fx,
    /// Current solver position of each particle.
    pub pos: Vec<Vec3>,
    /// Position at the start of the current substep.
    pub prev: Vec<Vec3>,
    /// Reference (rest-pose) position of each particle.
    pub rest_pos: Vec<Vec3>,
    /// Velocity, reconstructed from position deltas each substep.
    pub vel: Vec<Vec3>,
    /// Zero pins a particle in place (infinite mass).
    pub inv_mass: Vec<Fx>,
    /// External acceleration applied each substep.
    pub gravity: Vec3,
    /// Distance constraints, projected in order.
    pub constraints: Vec<DistanceConstraint>,
    /// Volume constraints, projected after the distance constraints.
    pub vol_constraints: Vec<VolumeConstraint>,
    pub stretch_compliance: Fx,
    pub shear_compliance: Fx,
    pub bending_compliance: Fx,
    pub vol_compliance: Fx,
    /// Tangential damping applied on self-collision contacts.
    pub friction: Fx,
    /// Contact distance for self collision and the ground plane.
    pub thickness: Fx,
    /// Whether self collision is resolved at all.
    pub handle_collisions: bool,
    /// Neighbour index rebuilt once per frame.
    pub hash: SpatialHash,
    /// The particle currently grabbed, if any.
    pub grab_id: Option<usize>,
    /// The grabbed particle's true inverse mass, restored on release.
    pub grab_inv_mass: Fx,
}

/// Velocity after gravity was applied over one substep.
pub open spec fn integrated_vel(v: Vec3, g: Vec3, dt: Fx) -> Vec3 {
    v.add_spec(g.scale_spec(dt))
}

/// Position advanced by one substep of velocity, snapped back to the
/// ground plane when it would sink below it: the horizontal motion is
/// undone and the height zeroed.
pub open spec fn integrated_pos(p: Vec3, v: Vec3, dt: Fx) -> Vec3 {
    let cand = p.add_spec(v.scale_spec(dt));
    if cand.y.raw < 0 {
        Vec3 { x: p.x, y: Fx { raw: 0 }, z: p.z }
    } else {
        cand
    }
}

/// Velocity reconstructed from one substep's position delta.
pub open spec fn reconstructed_vel(p: Vec3, prev: Vec3, inv_dt: Fx) -> Vec3 {
    p.sub_spec(prev).scale_spec(inv_dt)
}

/// The speed cap of one substep when self collision is on: a fifth of the
/// contact thickness per substep, so no particle outruns the adjacency
/// snapshot built for the whole frame.
pub open spec fn max_substep_vel(thickness: Fx, dt: Fx) -> Fx {
    div_s(mul_s(Fx { raw: 209715 }, thickness), dt)
}

/// A velocity clamped to the speed cap: rescaled onto the cap when its
/// length exceeds it, untouched otherwise.
pub open spec fn capped_vel(v: Vec3, mv: Fx) -> Vec3 {
    if v.length_spec().raw > mv.raw {
        v.scale_spec(div_s(mv, v.length_spec()))
    } else {
        v
    }
}

/// The velocity of one unpinned particle after the integrate phase:
/// gravity applied over the substep, then the speed cap when self
/// collision is on.
pub open spec fn substep_vel(v: Vec3, g: Vec3, dt: Fx, cap_on: bool, mv: Fx) -> Vec3 {
    let v1 = integrated_vel(v, g, dt);
    if cap_on {
        capped_vel(v1, mv)
    } else {
        v1
    }
}

/// A valid CSR adjacency structure over `n` particles: the offsets stay
/// inside the flat list, they do not decrease, and each recorded
/// neighbour is below its owner.
pub open spec fn csr_ok(n: int, adj: Seq<usize>, first: Seq<usize>) -> bool {
    &&& first.len() >= n + 1
    &&& forall|a: int| 0 <= a <= n ==> (#[trigger] first[a]) <= adj.len()
    &&& forall|a: int| 0 <= a < n ==> (#[trigger] first[a]) <= first[a + 1]
    &&& forall|a: int, k: int|
        0 <= a < n && (#[trigger] first[a]) <= k < first[a + 1] ==> (#[trigger] adj[k]) < a
}

/// Velocities after the integrate phase, over the whole particle set:
/// pinned particles keep theirs, unpinned ones get gravity and the cap.
pub open spec fn pre_vel_map(
    vel: Seq<Vec3>,
    w: Seq<Fx>,
    g: Vec3,
    dt: Fx,
    cap_on: bool,
    mv: Fx,
) -> Seq<Vec3> {
    Seq::new(
        vel.len(),
        |i: int|
            if w[i].raw == 0 {
                vel[i]
            } else {
                substep_vel(vel[i], g, dt, cap_on, mv)
            },
    )
}

/// Previous positions after the integrate phase: unpinned particles
/// remember where this substep started.
pub open spec fn pre_prev_map(pos: Seq<Vec3>, prev: Seq<Vec3>, w: Seq<Fx>) -> Seq<Vec3> {
    Seq::new(
        prev.len(),
        |i: int|
            if w[i].raw == 0 {
                prev[i]
            } else {
                pos[i]
            },
    )
}

/// Positions after the integrate phase: advanced by the new velocity and
/// clamped at the ground.
pub open spec fn pre_pos_map(
    pos: Seq<Vec3>,
    vel: Seq<Vec3>,
    w: Seq<Fx>,
    g: Vec3,
    dt: Fx,
    cap_on: bool,
    mv: Fx,
) -> Seq<Vec3> {
    Seq::new(
        pos.len(),
        |i: int|
            if w[i].raw == 0 {
                pos[i]
            } else {
                integrated_pos(pos[i], substep_vel(vel[i], g, dt, cap_on, mv), dt)
            },
    )
}

/// Velocities after the update phase: reconstructed from this substep's
/// position delta for every unpinned particle.
pub open spec fn post_vel_map(
    pos: Seq<Vec3>,
    prev: Seq<Vec3>,
    vel: Seq<Vec3>,
    w: Seq<Fx>,
    inv_dt: Fx,
) -> Seq<Vec3> {
    Seq::new(
        vel.len(),
        |i: int|
            if w[i].raw == 0 {
                vel[i]
            } else {
                reconstructed_vel(pos[i], prev[i], inv_dt)
            },
    )
}

/// One whole substep of the body `b`'s configuration over the state
/// `(pos, prev, vel)`: integrate, project the distance then the volume
/// constraints in order, resolve the recorded contacts when self
/// collision is on, then reconstruct the velocities.  `adj` and `first`
/// are the frame's adjacency list.
pub open spec fn substep_state(
    b: Body,
    pos: Seq<Vec3>,
    prev: Seq<Vec3>,
    vel: Seq<Vec3>,
    adj: Seq<usize>,
    first: Seq<usize>,
) -> (Seq<Vec3>, Seq<Vec3>, Seq<Vec3>) {
    let w = b.inv_mass@;
    let mv = max_substep_vel(b.thickness, b.dt);
    let v1 = pre_vel_map(vel, w, b.gravity, b.dt, b.handle_collisions, mv);
    let q1 = pre_prev_map(pos, prev, w);
    let p1 = pre_pos_map(pos, vel, w, b.gravity, b.dt, b.handle_collisions, mv);
    let p2 = solved_distance_upto(
        p1,
        w,
        b.constraints@,
        b.constraints@.len() as int,
        b.a_stretch(),
        b.a_shear(),
        b.a_bending(),
        b.a_volume(),
    );
    let p3 = solved_volume_upto(p2, w, b.vol_constraints@, b.vol_constraints@.len() as int, b.a_volume());
    let p4 = if b.handle_collisions {
        crate::collisions::collided_upto(
            p3,
            q1,
            b.rest_pos@,
            w,
            adj,
            first,
            b.num_particles as int,
            b.thickness,
            b.friction,
        )
    } else {
        p3
    };
    let v2 = post_vel_map(p4, q1, v1, w, b.inv_dt);
    (p4, q1, v2)
}

/// The state after the first `k` substeps of a frame, starting from the
/// body's own state.
pub open spec fn stepped_upto(b: Body, adj: Seq<usize>, first: Seq<usize>, k: int) -> (
    Seq<Vec3>,
    Seq<Vec3>,
    Seq<Vec3>,
)
    decreases k,
{
    if k <= 0 {
        (b.pos@, b.prev@, b.vel@)
    } else {
        let s = stepped_upto(b, adj, first, k - 1);
        substep_state(b, s.0, s.1, s.2, adj, first)
    }
}

/// A substep preserves the number of particles in every buffer.
pub proof fn lemma_substep_state_lens(
    b: Body,
    pos: Seq<Vec3>,
    prev: Seq<Vec3>,
    vel: Seq<Vec3>,
    adj: Seq<usize>,
    first: Seq<usize>,
)
    requires
        b.wf(),
        pos.len() == b.num_particles,
        prev.len() == b.num_particles,
        vel.len() == b.num_particles,
        b.handle_collisions ==> csr_ok(b.num_particles as int, adj, first),
    ensures
        substep_state(b, pos, prev, vel, adj, first).0.len() == b.num_particles,
        substep_state(b, pos, prev, vel, adj, first).1.len() == b.num_particles,
        substep_state(b, pos, prev, vel, adj, first).2.len() == b.num_particles,
{
    let w = b.inv_mass@;
    let mv = max_substep_vel(b.thickness, b.dt);
    let p1 = pre_pos_map(pos, vel, w, b.gravity, b.dt, b.handle_collisions, mv);
    let q1 = pre_prev_map(pos, prev, w);
    crate::constraints::lemma_solved_distance_len(
        p1,
        w,
        b.constraints@,
        b.constraints@.len() as int,
        b.a_stretch(),
        b.a_shear(),
        b.a_bending(),
        b.a_volume(),
    );
    let p2 = solved_distance_upto(
        p1,
        w,
        b.constraints@,
        b.constraints@.len() as int,
        b.a_stretch(),
        b.a_shear(),
        b.a_bending(),
        b.a_volume(),
    );
    crate::constraints::lemma_solved_volume_len(
        p2,
        w,
        b.vol_constraints@,
        b.vol_constraints@.len() as int,
        b.a_volume(),
    );
    let p3 = solved_volume_upto(p2, w, b.vol_constraints@, b.vol_constraints@.len() as int, b.a_volume());
    if b.handle_collisions {
        crate::collisions::lemma_collided_upto_len(
            p3,
            q1,
            b.rest_pos@,
            w,
            adj,
            first,
            b.num_particles as int,
            b.thickness,
            b.friction,
        );
    }
}

/// A substep never moves a pinned particle nor changes its velocity.
pub proof fn lemma_substep_state_pinned(
    b: Body,
    pos: Seq<Vec3>,
    prev: Seq<Vec3>,
    vel: Seq<Vec3>,
    adj: Seq<usize>,
    first: Seq<usize>,
    i: int,
)
    requires
        b.wf(),
        pos.len() == b.num_particles,
        prev.len() == b.num_particles,
        vel.len() == b.num_particles,
        b.handle_collisions ==> csr_ok(b.num_particles as int, adj, first),
        0 <= i < b.num_particles,
        b.inv_mass@[i].raw == 0,
        pos[i].wf(),
    ensures
        substep_state(b, pos, prev, vel, adj, first).0[i] == pos[i],
        substep_state(b, pos, prev, vel, adj, first).2[i] == vel[i],
{
    let w = b.inv_mass@;
    let mv = max_substep_vel(b.thickness, b.dt);
    let p1 = pre_pos_map(pos, vel, w, b.gravity, b.dt, b.handle_collisions, mv);
    let q1 = pre_prev_map(pos, prev, w);
    assert(p1[i] == pos[i]);
    crate::constraints::lemma_solved_distance_pinned(
        p1,
        w,
        b.constraints@,
        b.constraints@.len() as int,
        b.a_stretch(),
        b.a_shear(),
        b.a_bending(),
        b.a_volume(),
        i,
    );
    crate::constraints::lemma_solved_distance_len(
        p1,
        w,
        b.constraints@,
        b.constraints@.len() as int,
        b.a_stretch(),
        b.a_shear(),
        b.a_bending(),
        b.a_volume(),
    );
    let p2 = solved_distance_upto(
        p1,
        w,
        b.constraints@,
        b.constraints@.len() as int,
        b.a_stretch(),
        b.a_shear(),
        b.a_bending(),
        b.a_volume(),
    );
    crate::constraints::lemma_solved_volume_pinned(
        p2,
        w,
        b.vol_constraints@,
        b.vol_constraints@.len() as int,
        b.a_volume(),
        i,
    );
    crate::constraints::lemma_solved_volume_len(
        p2,
        w,
        b.vol_constraints@,
        b.vol_constraints@.len() as int,
        b.a_volume(),
    );
    let p3 = solved_volume_upto(p2, w, b.vol_constraints@, b.vol_constraints@.len() as int, b.a_volume());
    if b.handle_collisions {
        crate::collisions::lemma_collided_upto_pinned(
            p3,
            q1,
            b.rest_pos@,
            w,
            adj,
            first,
            b.num_particles as int,
            b.thickness,
            b.friction,
            i,
        );
    }
}

/// A whole frame never moves a pinned particle nor changes its velocity.
pub proof fn lemma_stepped_upto_pinned(b: Body, adj: Seq<usize>, first: Seq<usize>, k: int, i: int)
    requires
        b.wf(),
        b.handle_collisions ==> csr_ok(b.num_particles as int, adj, first),
        0 <= i < b.num_particles,
        b.inv_mass@[i].raw == 0,
        k >= 0,
    ensures
        stepped_upto(b, adj, first, k).0.len() == b.num_particles,
        stepped_upto(b, adj, first, k).1.len() == b.num_particles,
        stepped_upto(b, adj, first, k).2.len() == b.num_particles,
        stepped_upto(b, adj, first, k).0[i] == b.pos@[i],
        stepped_upto(b, adj, first, k).2[i] == b.vel@[i],
    decreases k,
{
    if k > 0 {
        lemma_stepped_upto_pinned(b, adj, first, k - 1, i);
        let s = stepped_upto(b, adj, first, k - 1);
        lemma_substep_state_lens(b, s.0, s.1, s.2, adj, first);
        lemma_substep_state_pinned(b, s.0, s.1, s.2, adj, first, i);
    }
}

/// A substep leaves an unpinned particle exactly in place when gravity is
/// off, self collision is off, no constraint references it, it is at
/// rest, and it sits at or above the ground.
pub proof fn lemma_substep_state_free(
    b: Body,
    pos: Seq<Vec3>,
    prev: Seq<Vec3>,
    vel: Seq<Vec3>,
    adj: Seq<usize>,
    first: Seq<usize>,
    i: int,
)
    requires
        b.wf(),
        pos.len() == b.num_particles,
        prev.len() == b.num_particles,
        vel.len() == b.num_particles,
        b.gravity.is_zero(),
        !b.handle_collisions,
        0 <= i < b.num_particles,
        vel[i].is_zero(),
        pos[i].y.raw >= 0,
        pos[i].wf(),
        forall|q: int|
            0 <= q < b.constraints@.len() ==> (#[trigger] b.constraints@[q]).id0 != i
                && b.constraints@[q].id1 != i,
        forall|q: int|
            0 <= q < b.vol_constraints@.len() ==> (#[trigger] b.vol_constraints@[q]).id0 != i
                && b.vol_constraints@[q].id1 != i && b.vol_constraints@[q].id2 != i
                && b.vol_constraints@[q].id3 != i,
    ensures
        substep_state(b, pos, prev, vel, adj, first).0[i] == pos[i],
        substep_state(b, pos, prev, vel, adj, first).2[i].is_zero(),
{
    let w = b.inv_mass@;
    let mv = max_substep_vel(b.thickness, b.dt);
    let p1 = pre_pos_map(pos, vel, w, b.gravity, b.dt, b.handle_collisions, mv);
    let q1 = pre_prev_map(pos, prev, w);
    if w[i].raw == 0 {
        lemma_substep_state_pinned(b, pos, prev, vel, adj, first, i);
    } else {
        crate::vec3::lemma_zero_scale(b.gravity, b.dt);
        let v1i = substep_vel(vel[i], b.gravity, b.dt, b.handle_collisions, mv);
        assert(v1i.is_zero());
        crate::vec3::lemma_zero_scale(v1i, b.dt);
        crate::vec3::lemma_add_zero(pos[i], v1i.scale_spec(b.dt));
        assert(p1[i] == pos[i]);
        assert(q1[i] == pos[i]);
        crate::constraints::lemma_solved_distance_untouched(
            p1,
            w,
            b.constraints@,
            b.constraints@.len() as int,
            b.a_stretch(),
            b.a_shear(),
            b.a_bending(),
            b.a_volume(),
            i,
        );
        crate::constraints::lemma_solved_distance_len(
            p1,
            w,
            b.constraints@,
            b.constraints@.len() as int,
            b.a_stretch(),
            b.a_shear(),
            b.a_bending(),
            b.a_volume(),
        );
        let p2 = solved_distance_upto(
            p1,
            w,
            b.constraints@,
            b.constraints@.len() as int,
            b.a_stretch(),
            b.a_shear(),
            b.a_bending(),
            b.a_volume(),
        );
        crate::constraints::lemma_solved_volume_untouched(
            p2,
            w,
            b.vol_constraints@,
            b.vol_constraints@.len() as int,
            b.a_volume(),
            i,
        );
        crate::constraints::lemma_solved_volume_len(
            p2,
            w,
            b.vol_constraints@,
            b.vol_constraints@.len() as int,
            b.a_volume(),
        );
        let p4 = substep_state(b, pos, prev, vel, adj, first).0;
        assert(p4[i] == pos[i]);
        crate::vec3::lemma_sub_self(pos[i]);
        crate::vec3::lemma_zero_scale(pos[i].sub_spec(pos[i]), b.inv_dt);
        assert(substep_state(b, pos, prev, vel, adj, first).2[i] == reconstructed_vel(
            p4[i],
            q1[i],
            b.inv_dt,
        ));
    }
}

/// A whole frame leaves such a particle exactly in place.
pub proof fn lemma_stepped_upto_free(b: Body, adj: Seq<usize>, first: Seq<usize>, k: int, i: int)
    requires
        b.wf(),
        b.gravity.is_zero(),
        !b.handle_collisions,
        0 <= i < b.num_particles,
        b.vel@[i].is_zero(),
        b.pos@[i].y.raw >= 0,
        k >= 0,
        forall|q: int|
            0 <= q < b.constraints@.len() ==> (#[trigger] b.constraints@[q]).id0 != i
                && b.constraints@[q].id1 != i,
        forall|q: int|
            0 <= q < b.vol_constraints@.len() ==> (#[trigger] b.vol_constraints@[q]).id0 != i
                && b.vol_constraints@[q].id1 != i && b.vol_constraints@[q].id2 != i
                && b.vol_constraints@[q].id3 != i,
    ensures
        stepped_upto(b, adj, first, k).0.len() == b.num_particles,
        stepped_upto(b, adj, first, k).1.len() == b.num_particles,
        stepped_upto(b, adj, first, k).2.len() == b.num_particles,
        stepped_upto(b, adj, first, k).0[i] == b.pos@[i],
        stepped_upto(b, adj, first, k).2[i].is_zero(),
    decreases k,
{
    if k > 0 {
        lemma_stepped_upto_free(b, adj, first, k - 1, i);
        let s = stepped_upto(b, adj, first, k - 1);
        lemma_substep_state_lens(b, s.0, s.1, s.2, adj, first);
        lemma_substep_state_free(b, s.0, s.1, s.2, adj, first, i);
    }
}

/// A substep leaves a mesh exactly at rest: zero gravity, self collision
/// off, all velocities zero, everything at or above the ground, and every
/// constraint already satisfied.
pub proof fn lemma_substep_state_rest(
    b: Body,
    pos: Seq<Vec3>,
    prev: Seq<Vec3>,
    vel: Seq<Vec3>,
    adj: Seq<usize>,
    first: Seq<usize>,
)
    requires
        b.wf(),
        pos.len() == b.num_particles,
        prev.len() == b.num_particles,
        vel.len() == b.num_particles,
        b.gravity.is_zero(),
        !b.handle_collisions,
        forall|i: int| 0 <= i < pos.len() ==> (#[trigger] vel[i]).is_zero(),
        forall|i: int| 0 <= i < pos.len() ==> (#[trigger] pos[i]).y.raw >= 0,
        forall|i: int| 0 <= i < pos.len() ==> (#[trigger] pos[i]).wf(),
        forall|q: int|
            0 <= q < b.constraints@.len() ==> pos[(#[trigger] b.constraints@[q]).id0 as int].sub_spec(
                pos[b.constraints@[q].id1 as int],
            ).length_spec() == b.constraints@[q].rest_len,
        forall|q: int|
            0 <= q < b.vol_constraints@.len() ==> crate::constraints::tet_volume_spec(
                pos[(#[trigger] b.vol_constraints@[q]).id0 as int],
                pos[b.vol_constraints@[q].id1 as int],
                pos[b.vol_constraints@[q].id2 as int],
                pos[b.vol_constraints@[q].id3 as int],
            ) == b.vol_constraints@[q].rest_vol,
    ensures
        substep_state(b, pos, prev, vel, adj, first).0 == pos,
        forall|i: int|
            0 <= i < pos.len() ==> (#[trigger] substep_state(b, pos, prev, vel, adj, first).2[i]).is_zero(),
{
    let w = b.inv_mass@;
    let mv = max_substep_vel(b.thickness, b.dt);
    let p1 = pre_pos_map(pos, vel, w, b.gravity, b.dt, b.handle_collisions, mv);
    let q1 = pre_prev_map(pos, prev, w);
    assert forall|i: int| 0 <= i < pos.len() implies #[trigger] p1[i] == pos[i] by {
        if w[i].raw != 0 {
            crate::vec3::lemma_zero_scale(b.gravity, b.dt);
            let v1i = substep_vel(vel[i], b.gravity, b.dt, b.handle_collisions, mv);
            assert(v1i.is_zero());
            crate::vec3::lemma_zero_scale(v1i, b.dt);
            crate::vec3::lemma_add_zero(pos[i], v1i.scale_spec(b.dt));
        }
    }
    assert(p1 =~= pos);
    crate::fixed::lemma_mul_s_nonneg(b.stretch_compliance, b.inv_dt);
    crate::fixed::lemma_mul_s_nonneg(mul_s(b.stretch_compliance, b.inv_dt), b.inv_dt);
    crate::fixed::lemma_mul_s_nonneg(b.shear_compliance, b.inv_dt);
    crate::fixed::lemma_mul_s_nonneg(mul_s(b.shear_compliance, b.inv_dt), b.inv_dt);
    crate::fixed::lemma_mul_s_nonneg(b.bending_compliance, b.inv_dt);
    crate::fixed::lemma_mul_s_nonneg(mul_s(b.bending_compliance, b.inv_dt), b.inv_dt);
    crate::fixed::lemma_mul_s_nonneg(b.vol_compliance, b.inv_dt);
    crate::fixed::lemma_mul_s_nonneg(mul_s(b.vol_compliance, b.inv_dt), b.inv_dt);
    crate::constraints::lemma_solved_distance_rest(
        pos,
        w,
        b.constraints@,
        b.constraints@.len() as int,
        b.a_stretch(),
        b.a_shear(),
        b.a_bending(),
        b.a_volume(),
    );
    crate::constraints::lemma_solved_volume_rest(
        pos,
        w,
        b.vol_constraints@,
        b.vol_constraints@.len() as int,
        b.a_volume(),
    );
    let s2 = substep_state(b, pos, prev, vel, adj, first).2;
    assert forall|i: int| 0 <= i < pos.len() implies (#[trigger] s2[i]).is_zero() by {
        if w[i].raw != 0 {
            assert(q1[i] == pos[i]);
            crate::vec3::lemma_sub_self(pos[i]);
            crate::vec3::lemma_zero_scale(pos[i].sub_spec(pos[i]), b.inv_dt);
        }
    }
}

/// A whole frame leaves a mesh at rest exactly at rest.
pub proof fn lemma_stepped_upto_rest(b: Body, adj: Seq<usize>, first: Seq<usize>, k: int)
    requires
        b.wf(),
        b.gravity.is_zero(),
        !b.handle_collisions,
        forall|i: int| 0 <= i < b.vel@.len() ==> (#[trigger] b.vel@[i]).is_zero(),
        forall|i: int| 0 <= i < b.pos@.len() ==> (#[trigger] b.pos@[i]).y.raw >= 0,
        k >= 0,
        forall|q: int|
            0 <= q < b.constraints@.len() ==> b.pos@[(#[trigger] b.constraints@[q]).id0 as int].sub_spec(
                b.pos@[b.constraints@[q].id1 as int],
            ).length_spec() == b.constraints@[q].rest_len,
        forall|q: int|
            0 <= q < b.vol_constraints@.len() ==> crate::constraints::tet_volume_spec(
                b.pos@[(#[trigger] b.vol_constraints@[q]).id0 as int],
                b.pos@[b.vol_constraints@[q].id1 as int],
                b.pos@[b.vol_constraints@[q].id2 as int],
                b.pos@[b.vol_constraints@[q].id3 as int],
            ) == b.vol_constraints@[q].rest_vol,
    ensures
        stepped_upto(b, adj, first, k).0.len() == b.num_particles,
        stepped_upto(b, adj, first, k).1.len() == b.num_particles,
        stepped_upto(b, adj, first, k).2.len() == b.num_particles,
        stepped_upto(b, adj, first, k).0 == b.pos@,
        forall|i: int|
            0 <= i < b.num_particles ==> (#[trigger] stepped_upto(b, adj, first, k).2[i]).is_zero(),
    decreases k,
{
    if k > 0 {
        lemma_stepped_upto_rest(b, adj, first, k - 1);
        let s = stepped_upto(b, adj, first, k - 1);
        lemma_substep_state_lens(b, s.0, s.1, s.2, adj, first);
        lemma_substep_state_rest(b, s.0, s.1, s.2, adj, first);
    }
}

/// A whole frame preserves the number of particles in every buffer.
pub proof fn lemma_stepped_upto_lens(b: Body, adj: Seq<usize>, first: Seq<usize>, k: int)
    requires
        b.wf(),
        b.handle_collisions ==> csr_ok(b.num_particles as int, adj, first),
        k >= 0,
    ensures
        stepped_upto(b, adj, first, k).0.len() == b.num_particles,
        stepped_upto(b, adj, first, k).1.len() == b.num_particles,
        stepped_upto(b, adj, first, k).2.len() == b.num_particles,
    decreases k,
{
    if k > 0 {
        lemma_stepped_upto_lens(b, adj, first, k - 1);
        let s = stepped_upto(b, adj, first, k - 1);
        lemma_substep_state_lens(b, s.0, s.1, s.2, adj, first);
    }
}

/// A substep reads only the configuration of the body it is given, so two
/// bodies with the same configuration agree on it.
proof fn lemma_substep_state_same(
    b1: Body,
    b2: Body,
    pos: Seq<Vec3>,
    prev: Seq<Vec3>,
    vel: Seq<Vec3>,
    adj: Seq<usize>,
    first: Seq<usize>,
)
    requires
        b2.same_config(b1),
    ensures
        substep_state(b2, pos, prev, vel, adj, first) == substep_state(b1, pos, prev, vel, adj, first),
{
    assert(b2.inv_mass@ == b1.inv_mass@);
    assert(b2.constraints@ == b1.constraints@);
    assert(b2.vol_constraints@ == b1.vol_constraints@);
    assert(b2.rest_pos@ == b1.rest_pos@);
    assert(b2.a_stretch() == b1.a_stretch());
    assert(b2.a_shear() == b1.a_shear());
    assert(b2.a_bending() == b1.a_bending());
    assert(b2.a_volume() == b1.a_volume());
}

/// The radius of the frame's neighbour query: the per-substep speed cap
/// times the substep count, so the adjacency snapshot covers everything a
/// capped particle can reach within the frame.
pub open spec fn frame_radius(thickness: Fx, num_substeps: int) -> Fx {
    mul_s(
        mul_s(Fx { raw: 209715 }, thickness),
        Fx { raw: crate::fixed::clip(num_substeps * SCALE) as i64 },
    )
}

/// The hash holds the frame's adjacency list for the body `b`: built over
/// `b`'s positions, a valid CSR structure whose recorded pairs are all
/// within the frame radius, and complete for cell-box neighbours within
/// that radius unless the capacity cap was hit.
pub open spec fn frame_adjacency_ok(b: Body, h: SpatialHash) -> bool {
    let n = b.num_particles as int;
    let r = frame_radius(b.thickness, b.num_substeps as int);
    &&& csr_ok(n, h.adj_ids@, h.first_adj_id@)
    &&& h.indexed@ == b.pos@
    &&& h.first_adj_id@[n] == h.adj_ids@.len()
    &&& forall|a: int, k: int|
        0 <= a < n && (#[trigger] h.first_adj_id@[a]) <= k < h.first_adj_id@[a + 1] ==> (
        #[trigger] h.adj_ids@[k]) < a && b.pos@[a].distance_squared_spec(
            b.pos@[h.adj_ids@[k] as int],
        ).raw <= mul_s(r, r).raw
    &&& h.adj_ids@.len() < h.adj_capacity ==> forall|a: int, j: int|
        0 <= j < a < n && crate::spatial_hash::in_cell_box(h.spacing, b.pos@[a], r, b.pos@[j])
            && b.pos@[a].distance_squared_spec(b.pos@[j]).raw <= mul_s(r, r).raw
            ==> h.pair_recorded(a, j)
}

/// What a whole frame implies for the final state: the velocity
/// reconstruction convention, the pin invariant, conservation of free
/// unconstrained particles at rest, and rest-state stability.
#[verifier::rlimit(100)]
proof fn lemma_step_conclusions(
    b: Body,
    adj: Seq<usize>,
    first: Seq<usize>,
    k: int,
    pos: Seq<Vec3>,
    prev: Seq<Vec3>,
    vel: Seq<Vec3>,
)
    requires
        b.wf(),
        b.handle_collisions ==> csr_ok(b.num_particles as int, adj, first),
        k >= 1,
        pos == stepped_upto(b, adj, first, k).0,
        prev == stepped_upto(b, adj, first, k).1,
        vel == stepped_upto(b, adj, first, k).2,
    ensures
        forall|i: int|
            0 <= i < b.num_particles && b.inv_mass@[i].raw != 0 ==> (#[trigger] vel[i])
                == reconstructed_vel(pos[i], prev[i], b.inv_dt),
        forall|i: int|
            0 <= i < b.num_particles && b.inv_mass@[i].raw == 0 ==> (#[trigger] pos[i])
                == b.pos@[i],
        forall|i: int|
            0 <= i < b.num_particles && b.inv_mass@[i].raw == 0 ==> (#[trigger] vel[i])
                == b.vel@[i],
        (b.gravity.is_zero() && !b.handle_collisions) ==> forall|i: int|
            0 <= i < b.num_particles && b.vel@[i].is_zero() && b.pos@[i].y.raw >= 0 && (forall|
                q: int,
            |
                0 <= q < b.constraints@.len() ==> (#[trigger] b.constraints@[q]).id0 != i
                    && b.constraints@[q].id1 != i) && (forall|q: int|
                0 <= q < b.vol_constraints@.len() ==> (#[trigger] b.vol_constraints@[q]).id0 != i
                    && b.vol_constraints@[q].id1 != i && b.vol_constraints@[q].id2 != i
                    && b.vol_constraints@[q].id3 != i) ==> (#[trigger] pos[i]) == b.pos@[i]
                && vel[i].is_zero(),
        (b.gravity.is_zero() && !b.handle_collisions && (forall|i: int|
            0 <= i < b.num_particles ==> (#[trigger] b.vel@[i]).is_zero()) && (forall|i: int|
            0 <= i < b.num_particles ==> (#[trigger] b.pos@[i]).y.raw >= 0) && (forall|q: int|
            0 <= q < b.constraints@.len() ==> b.pos@[(#[trigger] b.constraints@[q]).id0 as int].sub_spec(
                b.pos@[b.constraints@[q].id1 as int],
            ).length_spec() == b.constraints@[q].rest_len) && (forall|q: int|
            0 <= q < b.vol_constraints@.len() ==> crate::constraints::tet_volume_spec(
                b.pos@[(#[trigger] b.vol_constraints@[q]).id0 as int],
                b.pos@[b.vol_constraints@[q].id1 as int],
                b.pos@[b.vol_constraints@[q].id2 as int],
                b.pos@[b.vol_constraints@[q].id3 as int],
            ) == b.vol_constraints@[q].rest_vol)) ==> pos == b.pos@ && (forall|i: int|
            0 <= i < b.num_particles ==> (#[trigger] vel[i]).is_zero()),
{
    let n = b.num_particles as int;
    let s_prev = stepped_upto(b, adj, first, k - 1);
    lemma_stepped_upto_lens(b, adj, first, k - 1);
    lemma_substep_state_lens(b, s_prev.0, s_prev.1, s_prev.2, adj, first);
    let s = stepped_upto(b, adj, first, k);
    assert(s == substep_state(b, s_prev.0, s_prev.1, s_prev.2, adj, first));
    assert forall|i: int| 0 <= i < n && b.inv_mass@[i].raw != 0 implies (#[trigger] vel[i])
        == reconstructed_vel(pos[i], prev[i], b.inv_dt) by {
        let w = b.inv_mass@;
        let mv = max_substep_vel(b.thickness, b.dt);
        let v1 = pre_vel_map(s_prev.2, w, b.gravity, b.dt, b.handle_collisions, mv);
        assert(s.2[i] == post_vel_map(s.0, s.1, v1, w, b.inv_dt)[i]);
    }
    assert forall|i: int| 0 <= i < n && b.inv_mass@[i].raw == 0 implies (#[trigger] pos[i])
        == b.pos@[i] by {
        lemma_stepped_upto_pinned(b, adj, first, k, i);
    }
    assert forall|i: int| 0 <= i < n && b.inv_mass@[i].raw == 0 implies (#[trigger] vel[i])
        == b.vel@[i] by {
        lemma_stepped_upto_pinned(b, adj, first, k, i);
    }
    if b.gravity.is_zero() && !b.handle_collisions {
        assert forall|i: int|
            0 <= i < n && b.vel@[i].is_zero() && b.pos@[i].y.raw >= 0 && (forall|q: int|
                0 <= q < b.constraints@.len() ==> (#[trigger] b.constraints@[q]).id0 != i
                    && b.constraints@[q].id1 != i) && (forall|q: int|
                0 <= q < b.vol_constraints@.len() ==> (#[trigger] b.vol_constraints@[q]).id0 != i
                    && b.vol_constraints@[q].id1 != i && b.vol_constraints@[q].id2 != i
                    && b.vol_constraints@[q].id3 != i) implies (#[trigger] pos[i]) == b.pos@[i]
            && vel[i].is_zero() by {
            lemma_stepped_upto_free(b, adj, first, k, i);
        }
        if (forall|i: int| 0 <= i < n ==> (#[trigger] b.vel@[i]).is_zero()) && (forall|i: int|
            0 <= i < n ==> (#[trigger] b.pos@[i]).y.raw >= 0) && (forall|q: int|
            0 <= q < b.constraints@.len() ==> b.pos@[(#[trigger] b.constraints@[q]).id0 as int].sub_spec(
                b.pos@[b.constraints@[q].id1 as int],
            ).length_spec() == b.constraints@[q].rest_len) && (forall|q: int|
            0 <= q < b.vol_constraints@.len() ==> crate::constraints::tet_volume_spec(
                b.pos@[(#[trigger] b.vol_constraints@[q]).id0 as int],
                b.pos@[b.vol_constraints@[q].id1 as int],
                b.pos@[b.vol_constraints@[q].id2 as int],
                b.pos@[b.vol_constraints@[q].id3 as int],
            ) == b.vol_constraints@[q].rest_vol) {
            lemma_stepped_upto_rest(b, adj, first, k);
        }
    }
}

impl Body {
    /// Every buffer has one entry per particle and every value is in
    /// range; inverse masses are never negative; the timestep is positive;
    /// constraints point at real particles; the hash is sized for this
    /// body.
    pub open spec fn wf(self) -> bool {
        let n = self.num_particles as int;
        &&& 1 <= n <= 100000000
        &&& self.pos@.len() == n
        &&& self.prev@.len() == n
        &&& self.rest_pos@.len() == n
        &&& self.vel@.len() == n
        &&& self.inv_mass@.len() == n
        &&& forall|i: int| 0 <= i < n ==> (#[trigger] self.pos@[i]).wf()
        &&& forall|i: int| 0 <= i < n ==> (#[trigger] self.prev@[i]).wf()
        &&& forall|i: int| 0 <= i < n ==> (#[trigger] self.rest_pos@[i]).wf()
        &&& forall|i: int| 0 <= i < n ==> (#[trigger] self.vel@[i]).wf()
        &&& forall|i: int|
            0 <= i < n ==> (#[trigger] self.inv_mass@[i]).wf() && self.inv_mass@[i].raw >= 0
        &&& 1 <= self.num_substeps <= 1000
        &&& self.dt.wf()
        &&& self.dt.raw > 0
        &&& self.inv_dt.wf()
        &&& self.inv_dt.raw >= 0
        &&& self.gravity.wf()
        &&& self.stretch_compliance.wf() && self.stretch_compliance.raw >= 0
        &&& self.shear_compliance.wf() && self.shear_compliance.raw >= 0
        &&& self.bending_compliance.wf() && self.bending_compliance.raw >= 0
        &&& self.vol_compliance.wf() && self.vol_compliance.raw >= 0
        &&& self.friction.wf()
        &&& self.thickness.wf() && self.thickness.raw >= 0
        &&& forall|k: int|
            0 <= k < self.constraints@.len() ==> (#[trigger] self.constraints@[k]).wf(n)
        &&& forall|k: int|
            0 <= k < self.vol_constraints@.len() ==> (#[trigger] self.vol_constraints@[k]).wf(n)
        &&& self.hash.wf()
        &&& self.hash.max_num_objects == self.num_particles
        &&& match self.grab_id {
            Some(i) => i < self.num_particles,
            None => true,
        }
        &&& self.grab_inv_mass.wf() && self.grab_inv_mass.raw >= 0
    }

    /// The compliance-scaled stiffness of each kind for the current substep.
    pub open spec fn a_stretch(self) -> Fx {
        mul_s(mul_s(self.stretch_compliance, self.inv_dt), self.inv_dt)
    }

    pub open spec fn a_shear(self) -> Fx {
        mul_s(mul_s(self.shear_compliance, self.inv_dt), self.inv_dt)
    }

    pub open spec fn a_bending(self) -> Fx {
        mul_s(mul_s(self.bending_compliance, self.inv_dt), self.inv_dt)
    }

    pub open spec fn a_volume(self) -> Fx {
        mul_s(mul_s(self.vol_compliance, self.inv_dt), self.inv_dt)
    }

    /// Everything but the particle state (positions, previous positions,
    /// velocities) and the hash's query scratch is the same.
    pub open spec fn same_config(self, o: Body) -> bool {
        &&& self.num_particles == o.num_particles
        &&& self.num_substeps == o.num_substeps
        &&& self.dt == o.dt
        &&& self.inv_dt == o.inv_dt
        &&& self.rest_pos == o.rest_pos
        &&& self.inv_mass == o.inv_mass
        &&& self.gravity == o.gravity
        &&& self.constraints == o.constraints
        &&& self.vol_constraints == o.vol_constraints
        &&& self.stretch_compliance == o.stretch_compliance
        &&& self.shear_compliance == o.shear_compliance
        &&& self.bending_compliance == o.bending_compliance
        &&& self.vol_compliance == o.vol_compliance
        &&& self.friction == o.friction
        &&& self.thickness == o.thickness
        &&& self.handle_collisions == o.handle_collisions
        &&& self.grab_id == o.grab_id
        &&& self.grab_inv_mass == o.grab_inv_mass
    }

    /// Assemble a body over a mesh provided by the caller: reference
    /// positions, inverse masses, and constraint topology.  The previous
    /// positions start at the reference pose and all velocities at zero.
    pub fn new(
        positions: Vec<Vec3>,
        inv_mass: Vec<Fx>,
        constraints: Vec<DistanceConstraint>,
        vol_constraints: Vec<VolumeConstraint>,
        num_substeps: usize,
        stretch_compliance: Fx,
        shear_compliance: Fx,
        bending_compliance: Fx,
        vol_compliance: Fx,
        friction: Fx,
        thickness: Fx,
        gravity: Vec3,
        handle_collisions: bool,
        spacing: Fx,
    ) -> (r: Body)
        requires
            1 <= positions@.len() <= 100000000,
            inv_mass@.len() == positions@.len(),
            forall|i: int| 0 <= i < positions@.len() ==> (#[trigger] positions@[i]).wf(),
            forall|i: int|
                0 <= i < inv_mass@.len() ==> (#[trigger] inv_mass@[i]).wf() && inv_mass@[i].raw
                    >= 0,
            forall|k: int|
                0 <= k < constraints@.len() ==> (#[trigger] constraints@[k]).wf(
                    positions@.len() as int,
                ),
            forall|k: int|
                0 <= k < vol_constraints@.len() ==> (#[trigger] vol_constraints@[k]).wf(
                    positions@.len() as int,
                ),
            1 <= num_substeps <= 1000,
            stretch_compliance.wf() && stretch_compliance.raw >= 0,
            shear_compliance.wf() && shear_compliance.raw >= 0,
            bending_compliance.wf() && bending_compliance.raw >= 0,
            vol_compliance.wf() && vol_compliance.raw >= 0,
            friction.wf(),
            thickness.wf() && thickness.raw >= 0,
            gravity.wf(),
            spacing.wf() && spacing.raw > 0,
        ensures
            r.wf(),
            r.pos@ == positions@,
            r.prev@ == positions@,
            r.rest_pos@ == positions@,
            r.vel@.len() == positions@.len(),
            forall|i: int| 0 <= i < r.vel@.len() ==> (#[trigger] r.vel@[i]).is_zero(),
            r.inv_mass@ == inv_mass@,
            r.constraints@ == constraints@,
            r.vol_constraints@ == vol_constraints@,
            r.num_particles == positions@.len(),
            r.num_substeps == num_substeps,
            r.grab_id.is_none(),
            r.gravity == gravity,
            r.dt == div_s(Fx { raw: TIME_STEP_RAW }, Fx { raw: (num_substeps * SCALE) as i64 }),
            r.inv_dt == div_s(Fx { raw: SCALE }, r.dt),
            r.stretch_compliance == stretch_compliance,
            r.shear_compliance == shear_compliance,
            r.bending_compliance == bending_compliance,
            r.vol_compliance == vol_compliance,
            r.friction == friction,
            r.thickness == thickness,
            r.handle_collisions == handle_collisions,
    {
        let n = positions.len();
        let (dt, inv_dt) = substep_timing(num_substeps);
        let mut vel: Vec<Vec3> = Vec::new();
        let mut i: usize = 0;
        while i < n
            invariant
                i <= n,
                vel@.len() == i,
                forall|k: int| 0 <= k < i ==> (#[trigger] vel@[k]).is_zero() && vel@[k].wf(),
            decreases n - i,
        {
            vel.push(Vec3::zero());
            i = i + 1;
        }
        let prev = clone_positions(&positions);
        let rest_pos = clone_positions(&positions);
        let hash = SpatialHash::new(spacing, n);
        Body {
            num_particles: n,
            num_substeps,
            dt,
            inv_dt,
            pos: positions,
            prev,
            rest_pos,
            vel,
            inv_mass,
            gravity,
            constraints,
            vol_constraints,
            stretch_compliance,
            shear_compliance,
            bending_compliance,
            vol_compliance,
            friction,
            thickness,
            handle_collisions,
            hash,
            grab_id: None,
            grab_inv_mass: Fx::zero(),
        }
    }

    /// Change the substep count; the substep timestep and its reciprocal
    /// are recomputed together, as several projection formulas assume
    /// `inv_dt` is exactly the reciprocal the solver uses.
    pub fn set_solver_substeps(&mut self, num_substeps: usize)
        requires
            old(self).wf(),
            1 <= num_substeps <= 1000,
        ensures
            final(self).wf(),
            final(self).num_substeps == num_substeps,
            final(self).dt == div_s(
                Fx { raw: TIME_STEP_RAW },
                Fx { raw: (num_substeps * SCALE) as i64 },
            ),
            final(self).inv_dt == div_s(Fx { raw: SCALE }, final(self).dt),
            final(self).pos == old(self).pos,
            final(self).prev == old(self).prev,
            final(self).vel == old(self).vel,
            final(self).rest_pos == old(self).rest_pos,
            final(self).inv_mass == old(self).inv_mass,
            final(self).constraints == old(self).constraints,
            final(self).vol_constraints == old(self).vol_constraints,
            final(self).grab_id == old(self).grab_id,
            final(self).grab_inv_mass == old(self).grab_inv_mass,
    {
        let (dt, inv_dt) = substep_timing(num_substeps);
        self.num_substeps = num_substeps;
        self.dt = dt;
        self.inv_dt = inv_dt;
    }

    /// Snap every particle back to the reference pose with zero velocity.
    pub fn reset(&mut self)
        requires
            old(self).wf(),
        ensures
            final(self).wf(),
            final(self).same_config(*old(self)),
            final(self).pos@ == old(self).rest_pos@,
            final(self).prev@ == old(self).rest_pos@,
            final(self).vel@.len() == old(self).vel@.len(),
            forall|i: int| 0 <= i < final(self).vel@.len() ==> (#[trigger] final(self).vel@[i]).is_zero(),
            final(self).hash == old(self).hash,
    {
        let n = self.num_particles;
        let mut i: usize = 0;
        while i < n
            invariant
                old(self).wf(),
                self.same_config(*old(self)),
                self.hash == old(self).hash,
                self.rest_pos == old(self).rest_pos,
                n == self.num_particles,
                self.pos@.len() == n,
                self.prev@.len() == n,
                self.vel@.len() == n,
                self.rest_pos@.len() == n,
                i <= n,
                forall|k: int| 0 <= k < i ==> #[trigger] self.pos@[k] == self.rest_pos@[k],
                forall|k: int| 0 <= k < i ==> #[trigger] self.prev@[k] == self.rest_pos@[k],
                forall|k: int| 0 <= k < i ==> (#[trigger] self.vel@[k]).is_zero() && self.vel@[k].wf(),
                forall|k: int| i <= k < n ==> #[trigger] self.pos@[k] == old(self).pos@[k],
                forall|k: int| i <= k < n ==> #[trigger] self.prev@[k] == old(self).prev@[k],
                forall|k: int| i <= k < n ==> #[trigger] self.vel@[k] == old(self).vel@[k],
            decreases n - i,
        {
            let p = self.rest_pos[i];
            self.pos.set(i, p);
            self.prev.set(i, p);
            self.vel.set(i, Vec3::zero());
            i = i + 1;
        }
        proof {
            assert(self.pos@ =~= old(self).rest_pos@);
            assert(self.prev@ =~= old(self).rest_pos@);
        }
    }

    /// Integrate one substep: apply gravity to every unpinned particle,
    /// remember the current position, advance it by the new velocity, and
    /// clamp at the ground plane.  Pinned particles do not move.
    #[verifier::rlimit(100)]
    pub fn pre_solve(&mut self)
        requires
            old(self).wf(),
        ensures
            final(self).wf(),
            final(self).same_config(*old(self)),
            final(self).hash == old(self).hash,
            forall|i: int|
                0 <= i < old(self).num_particles && old(self).inv_mass@[i].raw == 0 ==> (
                #[trigger] final(self).pos@[i]) == old(self).pos@[i],
            forall|i: int|
                0 <= i < old(self).num_particles && old(self).inv_mass@[i].raw == 0 ==> (
                #[trigger] final(self).prev@[i]) == old(self).prev@[i],
            forall|i: int|
                0 <= i < old(self).num_particles && old(self).inv_mass@[i].raw == 0 ==> (
                #[trigger] final(self).vel@[i]) == old(self).vel@[i],
            forall|i: int|
                0 <= i < old(self).num_particles && old(self).inv_mass@[i].raw != 0 ==> (
                #[trigger] final(self).vel@[i]) == substep_vel(
                    old(self).vel@[i],
                    old(self).gravity,
                    old(self).dt,
                    old(self).handle_collisions,
                    max_substep_vel(old(self).thickness, old(self).dt),
                ),
            forall|i: int|
                0 <= i < old(self).num_particles && old(self).inv_mass@[i].raw != 0 ==> (
                #[trigger] final(self).prev@[i]) == old(self).pos@[i],
            forall|i: int|
                0 <= i < old(self).num_particles && old(self).inv_mass@[i].raw != 0 ==> (
                #[trigger] final(self).pos@[i]) == integrated_pos(
                    old(self).pos@[i],
                    substep_vel(
                        old(self).vel@[i],
                        old(self).gravity,
                        old(self).dt,
                        old(self).handle_collisions,
                        max_substep_vel(old(self).thickness, old(self).dt),
                    ),
                    old(self).dt,
                ),
    {
        let n = self.num_particles;
        let cap_on = self.handle_collisions;
        let mv = Fx { raw: 209715 }.mul(self.thickness).div(self.dt);
        proof {
            crate::fixed::lemma_mul_s_nonneg(Fx { raw: 209715 }, self.thickness);
            crate::fixed::lemma_div_s_nonneg(mul_s(Fx { raw: 209715 }, self.thickness), self.dt);
            assert(mv == max_substep_vel(old(self).thickness, old(self).dt));
        }
        let mut i: usize = 0;
        while i < n
            invariant
                old(self).wf(),
                self.same_config(*old(self)),
                self.hash == old(self).hash,
                n == self.num_particles,
                self.pos@.len() == n,
                self.prev@.len() == n,
                self.vel@.len() == n,
                i <= n,
                forall|k: int| 0 <= k < n ==> (#[trigger] self.pos@[k]).wf(),
                forall|k: int| 0 <= k < n ==> (#[trigger] self.prev@[k]).wf(),
                forall|k: int| 0 <= k < n ==> (#[trigger] self.vel@[k]).wf(),
                forall|k: int|
                    0 <= k < n && old(self).inv_mass@[k].raw == 0 ==> (#[trigger] self.pos@[k])
                        == old(self).pos@[k],
                forall|k: int|
                    0 <= k < n && old(self).inv_mass@[k].raw == 0 ==> (#[trigger] self.prev@[k])
                        == old(self).prev@[k],
                forall|k: int|
                    0 <= k < n && old(self).inv_mass@[k].raw == 0 ==> (#[trigger] self.vel@[k])
                        == old(self).vel@[k],
                cap_on == old(self).handle_collisions,
                mv == max_substep_vel(old(self).thickness, old(self).dt),
                mv.wf(),
                mv.raw >= 0,
                forall|k: int|
                    0 <= k < i && old(self).inv_mass@[k].raw != 0 ==> (#[trigger] self.vel@[k])
                        == substep_vel(
                        old(self).vel@[k],
                        old(self).gravity,
                        old(self).dt,
                        old(self).handle_collisions,
                        mv,
                    ),
                forall|k: int|
                    0 <= k < i && old(self).inv_mass@[k].raw != 0 ==> (#[trigger] self.prev@[k])
                        == old(self).pos@[k],
                forall|k: int|
                    0 <= k < i && old(self).inv_mass@[k].raw != 0 ==> (#[trigger] self.pos@[k])
                        == integrated_pos(
                        old(self).pos@[k],
                        substep_vel(
                            old(self).vel@[k],
                            old(self).gravity,
                            old(self).dt,
                            old(self).handle_collisions,
                            mv,
                        ),
                        old(self).dt,
                    ),
                forall|k: int|
                    i <= k < n && old(self).inv_mass@[k].raw != 0 ==> (#[trigger] self.pos@[k])
                        == old(self).pos@[k],
                forall|k: int|
                    i <= k < n && old(self).inv_mass@[k].raw != 0 ==> (#[trigger] self.prev@[k])
                        == old(self).prev@[k],
                forall|k: int|
                    i <= k < n && old(self).inv_mass@[k].raw != 0 ==> (#[trigger] self.vel@[k])
                        == old(self).vel@[k],
            decreases n - i,
        {
            let ghost pre = *self;
            if self.inv_mass[i].raw != 0 {
                let mut v = self.vel[i].add(self.gravity.scale(self.dt));
                if cap_on {
                    let sp = v.length();
                    if sp.raw > mv.raw {
                        v = v.scale(mv.div(sp));
                    }
                }
                proof {
                    assert(v == substep_vel(
                        old(self).vel@[i as int],
                        old(self).gravity,
                        old(self).dt,
                        old(self).handle_collisions,
                        mv,
                    ));
                }
                self.vel.set(i, v);
                let p = self.pos[i];
                self.prev.set(i, p);
                let cand = p.add(v.scale(self.dt));
                if cand.y.raw < 0 {
                    self.pos.set(i, Vec3 { x: p.x, y: Fx { raw: 0 }, z: p.z });
                } else {
                    self.pos.set(i, cand);
                }
            }
            proof {
                assert(forall|k: int|
                    0 <= k < n && k != i as int ==> #[trigger] self.pos@[k] == pre.pos@[k]
                        && self.prev@[k] == pre.prev@[k] && self.vel@[k] == pre.vel@[k]);
                assert(self.inv_mass@ == old(self).inv_mass@);
            }
            i = i + 1;
        }
    }

    /// Project every distance constraint once, strictly in order: each
    /// correction is visible to the next constraint in the same pass.
    /// A particle with zero inverse mass is never moved.
    #[verifier::rlimit(100)]
    pub fn solve_constraints(&mut self)
        requires
            old(self).wf(),
        ensures
            final(self).wf(),
            final(self).same_config(*old(self)),
            final(self).hash == old(self).hash,
            final(self).prev == old(self).prev,
            final(self).vel == old(self).vel,
            final(self).pos@ == solved_distance_upto(
                old(self).pos@,
                old(self).inv_mass@,
                old(self).constraints@,
                old(self).constraints@.len() as int,
                old(self).a_stretch(),
                old(self).a_shear(),
                old(self).a_bending(),
                old(self).a_volume(),
            ),
            forall|i: int|
                0 <= i < old(self).num_particles && old(self).inv_mass@[i].raw == 0 ==> (
                #[trigger] final(self).pos@[i]) == old(self).pos@[i],
    {
        let ghost pos0 = old(self).pos@;
        let ghost w = old(self).inv_mass@;
        let ghost cs = old(self).constraints@;
        let ghost aa = old(self).a_stretch();
        let ghost ab = old(self).a_shear();
        let ghost ac = old(self).a_bending();
        let ghost ad = old(self).a_volume();
        let a_stretch = self.stretch_compliance.mul(self.inv_dt).mul(self.inv_dt);
        let a_shear = self.shear_compliance.mul(self.inv_dt).mul(self.inv_dt);
        let a_bending = self.bending_compliance.mul(self.inv_dt).mul(self.inv_dt);
        let a_volume = self.vol_compliance.mul(self.inv_dt).mul(self.inv_dt);
        proof {
            crate::fixed::lemma_mul_s_nonneg(self.stretch_compliance, self.inv_dt);
            crate::fixed::lemma_mul_s_nonneg(mul_s(self.stretch_compliance, self.inv_dt), self.inv_dt);
            crate::fixed::lemma_mul_s_nonneg(self.shear_compliance, self.inv_dt);
            crate::fixed::lemma_mul_s_nonneg(mul_s(self.shear_compliance, self.inv_dt), self.inv_dt);
            crate::fixed::lemma_mul_s_nonneg(self.bending_compliance, self.inv_dt);
            crate::fixed::lemma_mul_s_nonneg(mul_s(self.bending_compliance, self.inv_dt), self.inv_dt);
            crate::fixed::lemma_mul_s_nonneg(self.vol_compliance, self.inv_dt);
            crate::fixed::lemma_mul_s_nonneg(mul_s(self.vol_compliance, self.inv_dt), self.inv_dt);
        }
        let ncons = self.constraints.len();
        let mut i: usize = 0;
        while i < ncons
            invariant
                old(self).wf(),
                self.same_config(*old(self)),
                self.hash == old(self).hash,
                self.prev == old(self).prev,
                self.vel == old(self).vel,
                pos0 == old(self).pos@,
                w == old(self).inv_mass@,
                cs == old(self).constraints@,
                ncons == cs.len(),
                a_stretch == aa,
                a_shear == ab,
                a_bending == ac,
                a_volume == ad,
                a_stretch.wf() && a_stretch.raw >= 0,
                a_shear.wf() && a_shear.raw >= 0,
                a_bending.wf() && a_bending.raw >= 0,
                a_volume.wf() && a_volume.raw >= 0,
                i <= ncons,
                self.pos@.len() == old(self).num_particles,
                forall|k: int| 0 <= k < self.pos@.len() ==> (#[trigger] self.pos@[k]).wf(),
                self.pos@ == solved_distance_upto(pos0, w, cs, i as int, aa, ab, ac, ad),
                forall|k: int|
                    0 <= k < old(self).num_particles && old(self).inv_mass@[k].raw == 0 ==> (
                    #[trigger] self.pos@[k]) == pos0[k],
            decreases ncons - i,
        {
            let ghost cur = self.pos@;
            let c = self.constraints[i];
            let w0 = self.inv_mass[c.id0];
            let w1 = self.inv_mass[c.id1];
            let wsum = w0.add(w1);
            let alpha = match c.kind {
                ConstraintKind::Stretch => a_stretch,
                ConstraintKind::Shear => a_shear,
                ConstraintKind::Bending => a_bending,
                ConstraintKind::Volume => a_volume,
            };
            proof {
                assert(alpha == alpha_for(cs[i as int].kind, aa, ab, ac, ad));
            }
            if wsum.raw != 0 {
                let grad = self.pos[c.id0].sub(self.pos[c.id1]);
                let len = grad.length();
                if len.raw != 0 {
                    proof {
                        if c.id0 == c.id1 {
                            crate::fixed::lemma_isqrt_unique(0, 0);
                            assert(grad.is_zero());
                            assert(len.raw == 0);
                        }
                        assert(wsum.raw > 0);
                        assert(add_s(wsum, alpha).raw > 0);
                    }
                    let gradn = grad.div_scalar(len);
                    let viol = len.sub(c.rest_len);
                    let denom = wsum.add(alpha);
                    let step = viol.neg().div(denom);
                    let p0 = self.pos[c.id0].add(gradn.scale(step).scale(w0));
                    self.pos.set(c.id0, p0);
                    let p1 = self.pos[c.id1].add(gradn.scale(step.neg()).scale(w1));
                    self.pos.set(c.id1, p1);
                    proof {
                        assert(self.pos@ == projected_distance(cur, w, cs[i as int], alpha));
                        if w0.raw == 0 {
                            crate::vec3::lemma_scale_zero(gradn.scale_spec(step), w0);
                            crate::vec3::lemma_add_zero(
                                cur[c.id0 as int],
                                gradn.scale_spec(step).scale_spec(w0),
                            );
                            assert(p0 == cur[c.id0 as int]);
                        }
                        if w1.raw == 0 {
                            crate::vec3::lemma_scale_zero(gradn.scale_spec(neg_s(step)), w1);
                            crate::vec3::lemma_add_zero(
                                cur[c.id1 as int],
                                gradn.scale_spec(neg_s(step)).scale_spec(w1),
                            );
                            assert(p1 == cur[c.id1 as int]);
                        }
                    }
                } else {
                    proof {
                        assert(self.pos@ == projected_distance(cur, w, cs[i as int], alpha));
                    }
                }
            } else {
                proof {
                    assert(self.pos@ == projected_distance(cur, w, cs[i as int], alpha));
                }
            }
            proof {
                assert(self.pos@ == solved_distance_upto(pos0, w, cs, i as int + 1, aa, ab, ac, ad));
            }
            i = i + 1;
        }
    }

    /// Project every volume constraint once, in order, after the distance
    /// constraints.  A particle with zero inverse mass is never moved.
    #[verifier::rlimit(100)]
    pub fn solve_volumes(&mut self)
        requires
            old(self).wf(),
        ensures
            final(self).wf(),
            final(self).same_config(*old(self)),
            final(self).hash == old(self).hash,
            final(self).prev == old(self).prev,
            final(self).vel == old(self).vel,
            final(self).pos@ == solved_volume_upto(
                old(self).pos@,
                old(self).inv_mass@,
                old(self).vol_constraints@,
                old(self).vol_constraints@.len() as int,
                old(self).a_volume(),
            ),
            forall|i: int|
                0 <= i < old(self).num_particles && old(self).inv_mass@[i].raw == 0 ==> (
                #[trigger] final(self).pos@[i]) == old(self).pos@[i],
    {
        let ghost pos0 = old(self).pos@;
        let ghost w = old(self).inv_mass@;
        let ghost cs = old(self).vol_constraints@;
        let ghost av = old(self).a_volume();
        let a_volume = self.vol_compliance.mul(self.inv_dt).mul(self.inv_dt);
        proof {
            crate::fixed::lemma_mul_s_nonneg(self.vol_compliance, self.inv_dt);
            crate::fixed::lemma_mul_s_nonneg(mul_s(self.vol_compliance, self.inv_dt), self.inv_dt);
        }
        let six = Fx { raw: 6291456 };
        let ncons = self.vol_constraints.len();
        let mut i: usize = 0;
        while i < ncons
            invariant
                old(self).wf(),
                self.same_config(*old(self)),
                self.hash == old(self).hash,
                self.prev == old(self).prev,
                self.vel == old(self).vel,
                pos0 == old(self).pos@,
                w == old(self).inv_mass@,
                cs == old(self).vol_constraints@,
                ncons == cs.len(),
                a_volume == av,
                a_volume.wf() && a_volume.raw >= 0,
                six.raw == 6291456,
                i <= ncons,
                self.pos@.len() == old(self).num_particles,
                forall|k: int| 0 <= k < self.pos@.len() ==> (#[trigger] self.pos@[k]).wf(),
                self.pos@ == solved_volume_upto(pos0, w, cs, i as int, av),
                forall|k: int|
                    0 <= k < old(self).num_particles && old(self).inv_mass@[k].raw == 0 ==> (
                    #[trigger] self.pos@[k]) == pos0[k],
            decreases ncons - i,
        {
            let ghost cur = self.pos@;
            let c = self.vol_constraints[i];
            let w0 = self.inv_mass[c.id0];
            let w1 = self.inv_mass[c.id1];
            let w2 = self.inv_mass[c.id2];
            let w3 = self.inv_mass[c.id3];
            let pa = self.pos[c.id0];
            let pb = self.pos[c.id1];
            let pc = self.pos[c.id2];
            let pd = self.pos[c.id3];
            let g0 = pd.sub(pb).cross(pc.sub(pb)).div_scalar(six);
            let g1 = pc.sub(pa).cross(pd.sub(pa)).div_scalar(six);
            let g2 = pd.sub(pa).cross(pb.sub(pa)).div_scalar(six);
            let g3 = pb.sub(pa).cross(pc.sub(pa)).div_scalar(six);
            let wsum = w0.mul(g0.length_squared()).add(w1.mul(g1.length_squared())).add(
                w2.mul(g2.length_squared()),
            ).add(w3.mul(g3.length_squared()));
            if wsum.raw != 0 {
                proof {
                    crate::vec3::lemma_length_squared_nonneg(g0);
                    crate::vec3::lemma_length_squared_nonneg(g1);
                    crate::vec3::lemma_length_squared_nonneg(g2);
                    crate::vec3::lemma_length_squared_nonneg(g3);
                    crate::fixed::lemma_mul_s_nonneg(w0, g0.length_squared_spec());
                    crate::fixed::lemma_mul_s_nonneg(w1, g1.length_squared_spec());
                    crate::fixed::lemma_mul_s_nonneg(w2, g2.length_squared_spec());
                    crate::fixed::lemma_mul_s_nonneg(w3, g3.length_squared_spec());
                    assert(wsum.raw > 0);
                    assert(add_s(wsum, a_volume).raw > 0);
                }
                let vol = pb.sub(pa).cross(pc.sub(pa)).dot(pd.sub(pa)).div(six);
                let viol = vol.sub(c.rest_vol);
                let denom = wsum.add(a_volume);
                let step = viol.neg().div(denom);
                let q0 = self.pos[c.id0].add(g0.scale(step).scale(w0));
                self.pos.set(c.id0, q0);
                let q1 = self.pos[c.id1].add(g1.scale(step).scale(w1));
                self.pos.set(c.id1, q1);
                let q2 = self.pos[c.id2].add(g2.scale(step).scale(w2));
                self.pos.set(c.id2, q2);
                let q3 = self.pos[c.id3].add(g3.scale(step).scale(w3));
                self.pos.set(c.id3, q3);
                proof {
                    assert(self.pos@ == projected_volume(cur, w, cs[i as int], av));
                    assert forall|k: int|
                        0 <= k < old(self).num_particles && old(self).inv_mass@[k].raw == 0
                            implies (#[trigger] self.pos@[k]) == pos0[k] by {
                        crate::constraints::lemma_projected_volume_pinned(
                            cur,
                            w,
                            cs[i as int],
                            av,
                            k,
                        );
                    }
                }
            } else {
                proof {
                    assert(self.pos@ == projected_volume(cur, w, cs[i as int], av));
                }
            }
            proof {
                assert(self.pos@ == solved_volume_upto(pos0, w, cs, i as int + 1, av));
            }
            i = i + 1;
        }
    }

    /// The hash's adjacency list is a valid CSR structure over this body's
    /// particles, with each recorded neighbour below its owner.
    pub open spec fn adjacency_ok(self) -> bool {
        csr_ok(self.num_particles as int, self.hash.adj_ids@, self.hash.first_adj_id@)
    }

    /// Resolve one contact of particle `i` against its recorded
    /// neighbour `id1`, exactly as `collide_pair` describes.
    #[verifier::rlimit(100)]
    fn resolve_contact(&mut self, i: usize, id1: usize)
        requires
            old(self).wf(),
            i < old(self).num_particles,
            id1 < old(self).num_particles,
            id1 != i,
        ensures
            final(self).wf(),
            final(self).same_config(*old(self)),
            final(self).hash == old(self).hash,
            final(self).prev == old(self).prev,
            final(self).vel == old(self).vel,
            final(self).pos@ == crate::collisions::collide_pair(
                old(self).pos@,
                old(self).prev@,
                old(self).rest_pos@,
                old(self).inv_mass@,
                i as int,
                id1 as int,
                old(self).thickness,
                old(self).friction,
            ),
    {
        if self.inv_mass[id1].raw != 0 {
            let grad = self.pos[id1].sub(self.pos[i]);
            let d2 = grad.length_squared();
            let t2 = self.thickness.mul(self.thickness);
            if !(d2.raw > t2.raw || d2.raw == 0) {
                let rd2 = self.rest_pos[i].sub(self.rest_pos[id1]).length_squared();
                if !(d2.raw > rd2.raw) {
                    let min_dist = if rd2.raw < t2.raw {
                        rd2.sqrt()
                    } else {
                        self.thickness
                    };
                    let dist = d2.sqrt();
                    proof {
                        assert(dist.raw > 0) by {
                            assert((d2.raw as int) * (SCALE as int) >= 1048576);
                            if dist.raw == 0 {
                                assert((dist.raw as int + 1) * (dist.raw as int + 1) == 1);
                            }
                        }
                    }
                    let push = grad.scale(min_dist.sub(dist).div(dist));
                    let qi = self.pos[i].add(push.scale(Fx { raw: -524288 }));
                    self.pos.set(i, qi);
                    let qj = self.pos[id1].add(push.scale(Fx { raw: 524288 }));
                    self.pos.set(id1, qj);
                    let v0 = self.pos[i].sub(self.prev[i]);
                    let v1 = self.pos[id1].sub(self.prev[id1]);
                    let vavg = v0.add(v1).div_scalar(Fx { raw: 2097152 });
                    let dv0 = vavg.sub(v0);
                    let dv1 = vavg.sub(v1);
                    let ri = self.pos[i].add(dv0.scale(self.friction));
                    self.pos.set(i, ri);
                    let rj = self.pos[id1].add(dv1.scale(self.friction));
                    self.pos.set(id1, rj);
                }
            }
        }
    }

    /// Resolve the contacts of every unpinned particle against its
    /// recorded neighbours, in ascending particle order.  A particle with
    /// zero inverse mass is never moved.
    #[verifier::rlimit(100)]
    pub fn solve_collisions(&mut self)
        requires
            old(self).wf(),
            old(self).adjacency_ok(),
        ensures
            final(self).wf(),
            final(self).same_config(*old(self)),
            final(self).hash == old(self).hash,
            final(self).prev == old(self).prev,
            final(self).vel == old(self).vel,
            final(self).pos@ == crate::collisions::collided_upto(
                old(self).pos@,
                old(self).prev@,
                old(self).rest_pos@,
                old(self).inv_mass@,
                old(self).hash.adj_ids@,
                old(self).hash.first_adj_id@,
                old(self).num_particles as int,
                old(self).thickness,
                old(self).friction,
            ),
            forall|i: int|
                0 <= i < old(self).num_particles && old(self).inv_mass@[i].raw == 0 ==> (
                #[trigger] final(self).pos@[i]) == old(self).pos@[i],
    {
        let ghost pos0 = old(self).pos@;
        let ghost prev0 = old(self).prev@;
        let ghost rest0 = old(self).rest_pos@;
        let ghost w = old(self).inv_mass@;
        let ghost adj = old(self).hash.adj_ids@;
        let ghost first = old(self).hash.first_adj_id@;
        let ghost th = old(self).thickness;
        let ghost fr = old(self).friction;
        let n = self.num_particles;
        let mut i: usize = 0;
        while i < n
            invariant
                old(self).wf(),
                old(self).adjacency_ok(),
                self.same_config(*old(self)),
                self.hash == old(self).hash,
                self.prev == old(self).prev,
                self.vel == old(self).vel,
                pos0 == old(self).pos@,
                prev0 == old(self).prev@,
                rest0 == old(self).rest_pos@,
                w == old(self).inv_mass@,
                adj == old(self).hash.adj_ids@,
                first == old(self).hash.first_adj_id@,
                th == old(self).thickness,
                fr == old(self).friction,
                n == self.num_particles,
                i <= n,
                self.pos@.len() == n,
                forall|k: int| 0 <= k < self.pos@.len() ==> (#[trigger] self.pos@[k]).wf(),
                self.pos@ == crate::collisions::collided_upto(
                    pos0,
                    prev0,
                    rest0,
                    w,
                    adj,
                    first,
                    i as int,
                    th,
                    fr,
                ),
                forall|k: int|
                    0 <= k < n && w[k].raw == 0 ==> (#[trigger] self.pos@[k]) == pos0[k],
            decreases n - i,
        {
            if self.inv_mass[i].raw != 0 {
                let ghost base = self.pos@;
                let lo = self.hash.first_adj_id[i];
                let hi = self.hash.first_adj_id[i + 1];
                let mut k = lo;
                while k < hi
                    invariant
                        old(self).wf(),
                        old(self).adjacency_ok(),
                        self.same_config(*old(self)),
                        self.hash == old(self).hash,
                        self.prev == old(self).prev,
                        self.vel == old(self).vel,
                        pos0 == old(self).pos@,
                        prev0 == old(self).prev@,
                        rest0 == old(self).rest_pos@,
                        w == old(self).inv_mass@,
                        adj == old(self).hash.adj_ids@,
                        first == old(self).hash.first_adj_id@,
                        th == old(self).thickness,
                        fr == old(self).friction,
                        n == self.num_particles,
                        i < n,
                        w[i as int].raw != 0,
                        lo == first[i as int],
                        hi == first[i as int + 1],
                        lo <= k <= hi,
                        hi <= adj.len(),
                        self.pos@.len() == n,
                        forall|q: int| 0 <= q < self.pos@.len() ==> (#[trigger] self.pos@[q]).wf(),
                        self.pos@ == crate::collisions::collide_range(
                            base,
                            prev0,
                            rest0,
                            w,
                            adj,
                            i as int,
                            lo as int,
                            k as int,
                            th,
                            fr,
                        ),
                        base == crate::collisions::collided_upto(
                            pos0,
                            prev0,
                            rest0,
                            w,
                            adj,
                            first,
                            i as int,
                            th,
                            fr,
                        ),
                        forall|q: int|
                            0 <= q < n && w[q].raw == 0 ==> (#[trigger] self.pos@[q]) == pos0[q],
                    decreases hi - k,
                {
                    let ghost curk = self.pos@;
                    let id1 = self.hash.adj_ids[k];
                    proof {
                        assert(adj[k as int] < i as int);
                    }
                    self.resolve_contact(i, id1);
                    proof {
                        assert(self.pos@ == crate::collisions::collide_pair(
                            curk,
                            prev0,
                            rest0,
                            w,
                            i as int,
                            id1 as int,
                            th,
                            fr,
                        ));
                        assert(self.pos@ == crate::collisions::collide_range(
                            base,
                            prev0,
                            rest0,
                            w,
                            adj,
                            i as int,
                            lo as int,
                            k as int + 1,
                            th,
                            fr,
                        ));
                        assert forall|q: int| 0 <= q < n && w[q].raw == 0 implies (
                        #[trigger] self.pos@[q]) == pos0[q] by {
                            crate::collisions::lemma_collide_pair_pinned(
                                curk,
                                prev0,
                                rest0,
                                w,
                                i as int,
                                id1 as int,
                                th,
                                fr,
                                q,
                            );
                        }
                    }
                    k = k + 1;
                }
                proof {
                    assert(self.pos@ == crate::collisions::collided_upto(
                        pos0,
                        prev0,
                        rest0,
                        w,
                        adj,
                        first,
                        i as int + 1,
                        th,
                        fr,
                    ));
                }
            } else {
                proof {
                    assert(self.pos@ == crate::collisions::collided_upto(
                        pos0,
                        prev0,
                        rest0,
                        w,
                        adj,
                        first,
                        i as int + 1,
                        th,
                        fr,
                    ));
                }
            }
            i = i + 1;
        }
    }

    /// Reconstruct every unpinned particle's velocity from the position
    /// delta of this substep.  Pinned velocities are left alone.
    pub fn post_solve(&mut self)
        requires
            old(self).wf(),
        ensures
            final(self).wf(),
            final(self).same_config(*old(self)),
            final(self).hash == old(self).hash,
            final(self).pos == old(self).pos,
            final(self).prev == old(self).prev,
            forall|i: int|
                0 <= i < old(self).num_particles && old(self).inv_mass@[i].raw == 0 ==> (
                #[trigger] final(self).vel@[i]) == old(self).vel@[i],
            forall|i: int|
                0 <= i < old(self).num_particles && old(self).inv_mass@[i].raw != 0 ==> (
                #[trigger] final(self).vel@[i]) == reconstructed_vel(
                    old(self).pos@[i],
                    old(self).prev@[i],
                    old(self).inv_dt,
                ),
    {
        let n = self.num_particles;
        let mut i: usize = 0;
        while i < n
            invariant
                old(self).wf(),
                self.same_config(*old(self)),
                self.hash == old(self).hash,
                self.pos == old(self).pos,
                self.prev == old(self).prev,
                n == self.num_particles,
                self.vel@.len() == n,
                i <= n,
                forall|k: int| 0 <= k < n ==> (#[trigger] self.vel@[k]).wf(),
                forall|k: int|
                    0 <= k < n && old(self).inv_mass@[k].raw == 0 ==> (#[trigger] self.vel@[k])
                        == old(self).vel@[k],
                forall|k: int|
                    0 <= k < i && old(self).inv_mass@[k].raw != 0 ==> (#[trigger] self.vel@[k])
                        == reconstructed_vel(old(self).pos@[k], old(self).prev@[k], old(self).inv_dt),
                forall|k: int|
                    i <= k < n && old(self).inv_mass@[k].raw != 0 ==> (#[trigger] self.vel@[k])
                        == old(self).vel@[k],
            decreases n - i,
        {
            if self.inv_mass[i].raw != 0 {
                let v = self.pos[i].sub(self.prev[i]).scale(self.inv_dt);
                self.vel.set(i, v);
            }
            i = i + 1;
        }
    }
}

/// The index of the particle nearest to `p` among the first `k`, by
/// squared distance; the earliest particle wins ties.
pub open spec fn nearest_upto(pos: Seq<Vec3>, p: Vec3, k: int) -> int
    decreases k,
{
    if k <= 1 {
        0
    } else {
        let b = nearest_upto(pos, p, k - 1);
        if p.distance_squared_spec(pos[k - 1]).raw < p.distance_squared_spec(pos[b]).raw {
            k - 1
        } else {
            b
        }
    }
}

/// The nearest index is a real index.
pub proof fn lemma_nearest_in_range(pos: Seq<Vec3>, p: Vec3, k: int)
    requires
        k >= 1,
    ensures
        0 <= nearest_upto(pos, p, k) < k,
    decreases k,
{
    if k > 1 {
        lemma_nearest_in_range(pos, p, k - 1);
    }
}

impl Body {
    /// Capture the current pose as the rest state: every distance
    /// constraint's rest length and every volume constraint's rest volume
    /// are recomputed from the current positions, and the reference
    /// positions are overwritten with them.  A body initialized this way
    /// is exactly at rest.
    pub fn init_rest_state(&mut self)
        requires
            old(self).wf(),
        ensures
            final(self).wf(),
            final(self).pos == old(self).pos,
            final(self).prev == old(self).prev,
            final(self).vel == old(self).vel,
            final(self).inv_mass == old(self).inv_mass,
            final(self).rest_pos@ == old(self).pos@,
            final(self).hash == old(self).hash,
            final(self).grab_id == old(self).grab_id,
            final(self).num_particles == old(self).num_particles,
            final(self).constraints@.len() == old(self).constraints@.len(),
            final(self).vol_constraints@.len() == old(self).vol_constraints@.len(),
            forall|q: int|
                0 <= q < old(self).constraints@.len() ==> (#[trigger] final(self).constraints@[q])
                    == (DistanceConstraint {
                    rest_len: old(self).pos@[old(self).constraints@[q].id0 as int].sub_spec(
                        old(self).pos@[old(self).constraints@[q].id1 as int],
                    ).length_spec(),
                    ..old(self).constraints@[q]
                }),
            forall|q: int|
                0 <= q < old(self).vol_constraints@.len() ==> (
                #[trigger] final(self).vol_constraints@[q]) == (VolumeConstraint {
                    rest_vol: crate::constraints::tet_volume_spec(
                        old(self).pos@[old(self).vol_constraints@[q].id0 as int],
                        old(self).pos@[old(self).vol_constraints@[q].id1 as int],
                        old(self).pos@[old(self).vol_constraints@[q].id2 as int],
                        old(self).pos@[old(self).vol_constraints@[q].id3 as int],
                    ),
                    ..old(self).vol_constraints@[q]
                }),
    {
        let ncons = self.constraints.len();
        let mut q: usize = 0;
        while q < ncons
            invariant
                old(self).wf(),
                self.pos == old(self).pos,
                self.prev == old(self).prev,
                self.vel == old(self).vel,
                self.inv_mass == old(self).inv_mass,
                self.rest_pos == old(self).rest_pos,
                self.vol_constraints == old(self).vol_constraints,
                self.hash == old(self).hash,
                self.grab_id == old(self).grab_id,
                self.grab_inv_mass == old(self).grab_inv_mass,
                self.num_particles == old(self).num_particles,
                self.num_substeps == old(self).num_substeps,
                self.dt == old(self).dt,
                self.inv_dt == old(self).inv_dt,
                self.gravity == old(self).gravity,
                self.stretch_compliance == old(self).stretch_compliance,
                self.shear_compliance == old(self).shear_compliance,
                self.bending_compliance == old(self).bending_compliance,
                self.vol_compliance == old(self).vol_compliance,
                self.friction == old(self).friction,
                self.thickness == old(self).thickness,
                self.handle_collisions == old(self).handle_collisions,
                ncons == old(self).constraints@.len(),
                self.constraints@.len() == ncons,
                q <= ncons,
                forall|k: int|
                    0 <= k < q ==> (#[trigger] self.constraints@[k]).wf(
                        old(self).num_particles as int,
                    ),
                forall|k: int|
                    0 <= k < q ==> (#[trigger] self.constraints@[k]) == (DistanceConstraint {
                        rest_len: old(self).pos@[old(self).constraints@[k].id0 as int].sub_spec(
                            old(self).pos@[old(self).constraints@[k].id1 as int],
                        ).length_spec(),
                        ..old(self).constraints@[k]
                    }),
                forall|k: int|
                    q <= k < ncons ==> (#[trigger] self.constraints@[k]) == old(
                        self,
                    ).constraints@[k],
            decreases ncons - q,
        {
            let c = self.constraints[q];
            let len = self.pos[c.id0].sub(self.pos[c.id1]).length();
            self.constraints.set(
                q,
                DistanceConstraint { id0: c.id0, id1: c.id1, kind: c.kind, rest_len: len },
            );
            q = q + 1;
        }
        let nvols = self.vol_constraints.len();
        let mut q: usize = 0;
        while q < nvols
            invariant
                old(self).wf(),
                self.pos == old(self).pos,
                self.prev == old(self).prev,
                self.vel == old(self).vel,
                self.inv_mass == old(self).inv_mass,
                self.rest_pos == old(self).rest_pos,
                self.constraints@.len() == old(self).constraints@.len(),
                forall|k: int|
                    0 <= k < old(self).constraints@.len() ==> (#[trigger] self.constraints@[k]).wf(
                        old(self).num_particles as int,
                    ),
                forall|k: int|
                    0 <= k < old(self).constraints@.len() ==> (#[trigger] self.constraints@[k])
                        == (DistanceConstraint {
                        rest_len: old(self).pos@[old(self).constraints@[k].id0 as int].sub_spec(
                            old(self).pos@[old(self).constraints@[k].id1 as int],
                        ).length_spec(),
                        ..old(self).constraints@[k]
                    }),
                self.hash == old(self).hash,
                self.grab_id == old(self).grab_id,
                self.grab_inv_mass == old(self).grab_inv_mass,
                self.num_particles == old(self).num_particles,
                self.num_substeps == old(self).num_substeps,
                self.dt == old(self).dt,
                self.inv_dt == old(self).inv_dt,
                self.gravity == old(self).gravity,
                self.stretch_compliance == old(self).stretch_compliance,
                self.shear_compliance == old(self).shear_compliance,
                self.bending_compliance == old(self).bending_compliance,
                self.vol_compliance == old(self).vol_compliance,
                self.friction == old(self).friction,
                self.thickness == old(self).thickness,
                self.handle_collisions == old(self).handle_collisions,
                nvols == old(self).vol_constraints@.len(),
                self.vol_constraints@.len() == nvols,
                q <= nvols,
                forall|k: int|
                    0 <= k < q ==> (#[trigger] self.vol_constraints@[k]).wf(
                        old(self).num_particles as int,
                    ),
                forall|k: int|
                    0 <= k < q ==> (#[trigger] self.vol_constraints@[k]) == (VolumeConstraint {
                        rest_vol: crate::constraints::tet_volume_spec(
                            old(self).pos@[old(self).vol_constraints@[k].id0 as int],
                            old(self).pos@[old(self).vol_constraints@[k].id1 as int],
                            old(self).pos@[old(self).vol_constraints@[k].id2 as int],
                            old(self).pos@[old(self).vol_constraints@[k].id3 as int],
                        ),
                        ..old(self).vol_constraints@[k]
                    }),
                forall|k: int|
                    q <= k < nvols ==> (#[trigger] self.vol_constraints@[k]) == old(
                        self,
                    ).vol_constraints@[k],
            decreases nvols - q,
        {
            let c = self.vol_constraints[q];
            let six = Fx { raw: 6291456 };
            let pa = self.pos[c.id0];
            let pb = self.pos[c.id1];
            let pc = self.pos[c.id2];
            let pd = self.pos[c.id3];
            let vol = pb.sub(pa).cross(pc.sub(pa)).dot(pd.sub(pa)).div(six);
            self.vol_constraints.set(
                q,
                VolumeConstraint { id0: c.id0, id1: c.id1, id2: c.id2, id3: c.id3, rest_vol: vol },
            );
            q = q + 1;
        }
        let rest = clone_positions(&self.pos);
        self.rest_pos = rest;
    }

    /// Shift the whole body rigidly: every current and previous position
    /// moves by the displacement; velocities are untouched.
    pub fn translate(&mut self, displacement: Vec3)
        requires
            old(self).wf(),
            displacement.wf(),
        ensures
            final(self).wf(),
            final(self).same_config(*old(self)),
            final(self).hash == old(self).hash,
            final(self).vel == old(self).vel,
            forall|i: int|
                0 <= i < old(self).num_particles ==> (#[trigger] final(self).pos@[i]) == old(
                    self,
                ).pos@[i].add_spec(displacement),
            forall|i: int|
                0 <= i < old(self).num_particles ==> (#[trigger] final(self).prev@[i]) == old(
                    self,
                ).prev@[i].add_spec(displacement),
    {
        let n = self.num_particles;
        let mut i: usize = 0;
        while i < n
            invariant
                old(self).wf(),
                self.same_config(*old(self)),
                self.hash == old(self).hash,
                self.vel == old(self).vel,
                displacement.wf(),
                n == self.num_particles,
                self.pos@.len() == n,
                self.prev@.len() == n,
                i <= n,
                forall|k: int| 0 <= k < n ==> (#[trigger] self.pos@[k]).wf(),
                forall|k: int| 0 <= k < n ==> (#[trigger] self.prev@[k]).wf(),
                forall|k: int|
                    0 <= k < i ==> (#[trigger] self.pos@[k]) == old(self).pos@[k].add_spec(
                        displacement,
                    ),
                forall|k: int|
                    0 <= k < i ==> (#[trigger] self.prev@[k]) == old(self).prev@[k].add_spec(
                        displacement,
                    ),
                forall|k: int| i <= k < n ==> (#[trigger] self.pos@[k]) == old(self).pos@[k],
                forall|k: int| i <= k < n ==> (#[trigger] self.prev@[k]) == old(self).prev@[k],
            decreases n - i,
        {
            let p = self.pos[i].add(displacement);
            self.pos.set(i, p);
            let q = self.prev[i].add(displacement);
            self.prev.set(i, q);
            i = i + 1;
        }
    }

    /// Pick the particle nearest to `pos`, remember its inverse mass, pin
    /// it (zero inverse mass) and snap it to `pos`.  A second grab simply
    /// replaces the first.
    pub fn start_grab(&mut self, pos: &Vec3)
        requires
            old(self).wf(),
            pos.wf(),
        ensures
            final(self).wf(),
            final(self).grab_id == Some(
                nearest_upto(old(self).pos@, *pos, old(self).num_particles as int) as usize,
            ),
            final(self).grab_inv_mass == old(self).inv_mass@[nearest_upto(
                old(self).pos@,
                *pos,
                old(self).num_particles as int,
            )],
            final(self).inv_mass@ == old(self).inv_mass@.update(
                nearest_upto(old(self).pos@, *pos, old(self).num_particles as int),
                Fx { raw: 0 },
            ),
            final(self).pos@ == old(self).pos@.update(
                nearest_upto(old(self).pos@, *pos, old(self).num_particles as int),
                *pos,
            ),
            final(self).vel == old(self).vel,
            final(self).prev == old(self).prev,
            final(self).rest_pos == old(self).rest_pos,
            final(self).constraints == old(self).constraints,
            final(self).vol_constraints == old(self).vol_constraints,
            final(self).hash == old(self).hash,
            final(self).num_particles == old(self).num_particles,
    {
        let ghost s = old(self).pos@;
        let ghost n = old(self).num_particles as int;
        let mut best: usize = 0;
        let mut min_d2: Fx = pos.distance_squared(self.pos[0]);
        let mut i: usize = 1;
        while i < self.num_particles
            invariant
                old(self).wf(),
                *self == *old(self),
                s == old(self).pos@,
                n == old(self).num_particles as int,
                pos.wf(),
                1 <= i <= n,
                0 <= best < i,
                best as int == nearest_upto(s, *pos, i as int),
                min_d2 == pos.distance_squared_spec(s[best as int]),
            decreases n - i,
        {
            let d2 = pos.distance_squared(self.pos[i]);
            if d2.raw < min_d2.raw {
                min_d2 = d2;
                best = i;
            }
            i = i + 1;
        }
        self.grab_inv_mass = self.inv_mass[best];
        self.inv_mass.set(best, Fx { raw: 0 });
        let target = *pos;
        self.pos.set(best, target);
        self.grab_id = Some(best);
    }

    /// While a particle is grabbed, overwrite its position each frame.
    pub fn move_grabbed(&mut self, pos: &Vec3)
        requires
            old(self).wf(),
            pos.wf(),
        ensures
            final(self).wf(),
            match old(self).grab_id {
                Some(g) => final(self).pos@ == old(self).pos@.update(g as int, *pos),
                None => final(self).pos == old(self).pos,
            },
            final(self).vel == old(self).vel,
            final(self).prev == old(self).prev,
            final(self).inv_mass == old(self).inv_mass,
            final(self).grab_id == old(self).grab_id,
            final(self).grab_inv_mass == old(self).grab_inv_mass,
            final(self).hash == old(self).hash,
            final(self).num_particles == old(self).num_particles,
    {
        if let Some(g) = self.grab_id {
            let target = *pos;
            self.pos.set(g, target);
        }
    }

    /// Release the grabbed particle: restore its saved inverse mass
    /// exactly, set its velocity to the supplied release velocity, and
    /// clear the grab.
    pub fn end_grab(&mut self, vel: &Vec3)
        requires
            old(self).wf(),
            vel.wf(),
        ensures
            final(self).wf(),
            final(self).grab_id.is_none(),
            match old(self).grab_id {
                Some(g) => final(self).inv_mass@ == old(self).inv_mass@.update(
                    g as int,
                    old(self).grab_inv_mass,
                ) && final(self).vel@ == old(self).vel@.update(g as int, *vel),
                None => final(self).inv_mass == old(self).inv_mass && final(self).vel == old(
                    self,
                ).vel,
            },
            final(self).pos == old(self).pos,
            final(self).prev == old(self).prev,
            final(self).grab_inv_mass == old(self).grab_inv_mass,
            final(self).hash == old(self).hash,
            final(self).num_particles == old(self).num_particles,
    {
        if let Some(g) = self.grab_id {
            let m = self.grab_inv_mass;
            self.inv_mass.set(g, m);
            let v = *vel;
            self.vel.set(g, v);
        }
        self.grab_id = None;
    }

    /// Run one whole substep: the five phases in order, exactly as
    /// `substep_state` describes them over this body's configuration.
    #[verifier::rlimit(100)]
    fn substep(&mut self)
        requires
            old(self).wf(),
            old(self).handle_collisions ==> old(self).adjacency_ok(),
        ensures
            final(self).wf(),
            final(self).same_config(*old(self)),
            final(self).hash == old(self).hash,
            ({
                let s = substep_state(
                    *old(self),
                    old(self).pos@,
                    old(self).prev@,
                    old(self).vel@,
                    old(self).hash.adj_ids@,
                    old(self).hash.first_adj_id@,
                );
                final(self).pos@ == s.0 && final(self).prev@ == s.1 && final(self).vel@ == s.2
            }),
    {
        let ghost b = *old(self);
        let ghost w = b.inv_mass@;
        let ghost mv = max_substep_vel(b.thickness, b.dt);
        let ghost adj = b.hash.adj_ids@;
        let ghost first = b.hash.first_adj_id@;

        self.pre_solve();
        let ghost a1 = *self;
        proof {
            assert(a1.vel@ =~= pre_vel_map(b.vel@, w, b.gravity, b.dt, b.handle_collisions, mv));
            assert(a1.prev@ =~= pre_prev_map(b.pos@, b.prev@, w));
            assert(a1.pos@ =~= pre_pos_map(
                b.pos@,
                b.vel@,
                w,
                b.gravity,
                b.dt,
                b.handle_collisions,
                mv,
            ));
        }
        self.solve_constraints();
        let ghost a2 = *self;
        proof {
            assert(a1.a_stretch() == b.a_stretch());
            assert(a1.a_shear() == b.a_shear());
            assert(a1.a_bending() == b.a_bending());
            assert(a1.a_volume() == b.a_volume());
            assert(a2.pos@ == solved_distance_upto(
                a1.pos@,
                w,
                b.constraints@,
                b.constraints@.len() as int,
                b.a_stretch(),
                b.a_shear(),
                b.a_bending(),
                b.a_volume(),
            ));
        }
        self.solve_volumes();
        let ghost a3 = *self;
        proof {
            assert(a2.a_volume() == b.a_volume());
            assert(a3.pos@ == solved_volume_upto(
                a2.pos@,
                w,
                b.vol_constraints@,
                b.vol_constraints@.len() as int,
                b.a_volume(),
            ));
        }
        if self.handle_collisions {
            proof {
                lemma_adjacency_ok_same(b, a3);
            }
            self.solve_collisions();
            proof {
                assert(self.pos@ == crate::collisions::collided_upto(
                    a3.pos@,
                    a3.prev@,
                    b.rest_pos@,
                    w,
                    adj,
                    first,
                    b.num_particles as int,
                    b.thickness,
                    b.friction,
                ));
            }
        }
        let ghost a4 = *self;
        self.post_solve();
        proof {
            assert(a4.vel@ == a1.vel@);
            assert(a4.prev@ == a1.prev@);
            assert(self.vel@ =~= post_vel_map(a4.pos@, a4.prev@, a4.vel@, w, b.inv_dt));
            let s = substep_state(b, b.pos@, b.prev@, b.vel@, adj, first);
            assert(self.pos@ == s.0);
            assert(self.prev@ == s.1);
            assert(self.vel@ == s.2);
        }
    }

    /// Rebuild the spatial hash from the current positions and collect
    /// the frame's adjacency list, whose radius covers everything the
    /// speed cap lets a particle reach within one frame.
    #[verifier::rlimit(100)]
    #[verifier::spinoff_prover]
    fn rebuild_adjacency(&mut self)
        requires
            old(self).wf(),
            old(self).handle_collisions,
        ensures
            final(self).wf(),
            final(self).same_config(*old(self)),
            final(self).pos == old(self).pos,
            final(self).prev == old(self).prev,
            final(self).vel == old(self).vel,
            frame_adjacency_ok(*old(self), final(self).hash),
    {
        let ghost b = *old(self);
        let motion_limit = Fx { raw: 209715 };
        let radius_per_substep = motion_limit.mul(self.thickness);
        let max_dist = radius_per_substep.mul(Fx::from_int(self.num_substeps as i64));
        proof {
            crate::fixed::lemma_mul_s_nonneg(motion_limit, self.thickness);
            crate::fixed::lemma_mul_s_nonneg(
                radius_per_substep,
                Fx { raw: crate::fixed::clip((self.num_substeps as i64) * SCALE) as i64 },
            );
            assert(max_dist == frame_radius(b.thickness, b.num_substeps as int));
        }
        self.hash.create(&self.pos);
        self.hash.query_all(&self.pos, max_dist);
        proof {
            let r = frame_radius(b.thickness, b.num_substeps as int);
            let n = b.num_particles as int;
            assert(self.hash.indexed@ == b.pos@);
            assert(self.hash.first_adj_id@[n] == self.hash.adj_ids@.len());
            assert(csr_ok(n, self.hash.adj_ids@, self.hash.first_adj_id@));
            assert forall|a: int, k: int|
                0 <= a < n && (#[trigger] self.hash.first_adj_id@[a]) <= k
                    < self.hash.first_adj_id@[a + 1] implies (#[trigger] self.hash.adj_ids@[k])
                < a && b.pos@[a].distance_squared_spec(
                b.pos@[self.hash.adj_ids@[k] as int],
            ).raw <= mul_s(r, r).raw by {
                assert(mul_s(r, r).raw == crate::fixed::mul_val(max_dist.raw as int, max_dist.raw as int));
            }
            if self.hash.adj_ids@.len() < self.hash.adj_capacity {
                assert forall|a: int, j: int|
                    0 <= j < a < n && crate::spatial_hash::in_cell_box(
                        self.hash.spacing,
                        b.pos@[a],
                        r,
                        b.pos@[j],
                    ) && b.pos@[a].distance_squared_spec(b.pos@[j]).raw <= mul_s(r, r).raw implies
                    self.hash.pair_recorded(a, j) by {
                    assert(mul_s(r, r).raw == crate::fixed::mul_val(max_dist.raw as int, max_dist.raw as int));
                    assert(self.hash.spacing == b.hash.spacing);
                }
            }
            assert(frame_adjacency_ok(b, self.hash));
        }
    }

    /// Advance the body by one frame: when self collision is on, rebuild
    /// the neighbour index from the current positions and collect the
    /// frame's adjacency list, then run the full substep cycle
    /// `num_substeps` times.  The final state is exactly the
    /// `num_substeps`-fold iteration of the substep pipeline over the
    /// frame's adjacency list; on return every unpinned velocity is the
    /// reconstruction from its last substep's position delta; pinned
    /// particles never move; a free unconstrained particle at rest above
    /// the ground stays exactly in place under zero gravity; and a mesh
    /// whose constraints are all satisfied stays exactly at rest under
    /// zero gravity.
    #[verifier::rlimit(100)]
    pub fn step(&mut self)
        requires
            old(self).wf(),
        ensures
            final(self).wf(),
            final(self).same_config(*old(self)),
            !old(self).handle_collisions ==> final(self).hash == old(self).hash,
            old(self).handle_collisions ==> frame_adjacency_ok(*old(self), final(self).hash),
            ({
                let s = stepped_upto(
                    *old(self),
                    final(self).hash.adj_ids@,
                    final(self).hash.first_adj_id@,
                    old(self).num_substeps as int,
                );
                final(self).pos@ == s.0 && final(self).prev@ == s.1 && final(self).vel@ == s.2
            }),
            forall|i: int|
                0 <= i < old(self).num_particles && old(self).inv_mass@[i].raw != 0 ==> (
                #[trigger] final(self).vel@[i]) == reconstructed_vel(
                    final(self).pos@[i],
                    final(self).prev@[i],
                    old(self).inv_dt,
                ),
            forall|i: int|
                0 <= i < old(self).num_particles && old(self).inv_mass@[i].raw == 0 ==> (
                #[trigger] final(self).pos@[i]) == old(self).pos@[i],
            forall|i: int|
                0 <= i < old(self).num_particles && old(self).inv_mass@[i].raw == 0 ==> (
                #[trigger] final(self).vel@[i]) == old(self).vel@[i],
            (old(self).gravity.is_zero() && !old(self).handle_collisions) ==> forall|i: int|
                0 <= i < old(self).num_particles && old(self).vel@[i].is_zero()
                    && old(self).pos@[i].y.raw >= 0 && (forall|q: int|
                    0 <= q < old(self).constraints@.len() ==> (
                    #[trigger] old(self).constraints@[q]).id0 != i
                        && old(self).constraints@[q].id1 != i) && (forall|q: int|
                    0 <= q < old(self).vol_constraints@.len() ==> (
                    #[trigger] old(self).vol_constraints@[q]).id0 != i
                        && old(self).vol_constraints@[q].id1 != i
                        && old(self).vol_constraints@[q].id2 != i
                        && old(self).vol_constraints@[q].id3 != i) ==> (
                #[trigger] final(self).pos@[i]) == old(self).pos@[i] && final(self).vel@[i].is_zero(),
            (old(self).gravity.is_zero() && !old(self).handle_collisions && (forall|i: int|
                0 <= i < old(self).num_particles ==> (#[trigger] old(self).vel@[i]).is_zero()) && (
            forall|i: int|
                0 <= i < old(self).num_particles ==> (#[trigger] old(self).pos@[i]).y.raw >= 0) && (
            forall|q: int|
                0 <= q < old(self).constraints@.len() ==> old(self).pos@[(#[trigger] old(
                    self,
                ).constraints@[q]).id0 as int].sub_spec(
                    old(self).pos@[old(self).constraints@[q].id1 as int],
                ).length_spec() == old(self).constraints@[q].rest_len) && (forall|q: int|
                0 <= q < old(self).vol_constraints@.len()
                    ==> crate::constraints::tet_volume_spec(
                    old(self).pos@[(#[trigger] old(self).vol_constraints@[q]).id0 as int],
                    old(self).pos@[old(self).vol_constraints@[q].id1 as int],
                    old(self).pos@[old(self).vol_constraints@[q].id2 as int],
                    old(self).pos@[old(self).vol_constraints@[q].id3 as int],
                ) == old(self).vol_constraints@[q].rest_vol)) ==> final(self).pos@ == old(self).pos@
                && (forall|i: int|
                0 <= i < old(self).num_particles ==> (#[trigger] final(self).vel@[i]).is_zero()),
    {
        let ghost b = *old(self);
        let ghost n = b.num_particles as int;
        let ghost pos0 = b.pos@;

        if self.handle_collisions {
            self.rebuild_adjacency();
        }

        let ghost adj = self.hash.adj_ids@;
        let ghost first = self.hash.first_adj_id@;
        let substeps = self.num_substeps;
        let mut r: usize = 0;
        while r < substeps
            invariant
                b == *old(self),
                b.wf(),
                self.wf(),
                self.same_config(b),
                substeps == b.num_substeps,
                r <= substeps,
                adj == self.hash.adj_ids@,
                first == self.hash.first_adj_id@,
                !b.handle_collisions ==> self.hash == b.hash,
                b.handle_collisions ==> frame_adjacency_ok(b, self.hash),
                ({
                    let s = stepped_upto(b, adj, first, r as int);
                    self.pos@ == s.0 && self.prev@ == s.1 && self.vel@ == s.2
                }),
            decreases substeps - r,
        {
            proof {
                if b.handle_collisions {
                    assert(self.adjacency_ok());
                }
            }
            let ghost cur = *self;
            self.substep();
            proof {
                lemma_substep_state_same(b, cur, cur.pos@, cur.prev@, cur.vel@, adj, first);
                assert(stepped_upto(b, adj, first, r as int + 1) == substep_state(
                    b,
                    cur.pos@,
                    cur.prev@,
                    cur.vel@,
                    adj,
                    first,
                ));
            }
            r = r + 1;
        }
        proof {
            assert(b.handle_collisions ==> csr_ok(n, adj, first));
            lemma_step_conclusions(
                b,
                adj,
                first,
                substeps as int,
                self.pos@,
                self.prev@,
                self.vel@,
            );
        }
    }
}

/// A valid adjacency structure stays valid across states that share the
/// hash and the particle count.
#[verifier::rlimit(100)]
proof fn lemma_adjacency_ok_same(a: Body, c: Body)
    requires
        a.adjacency_ok(),
        c.hash == a.hash,
        c.num_particles == a.num_particles,
    ensures
        c.adjacency_ok(),
{
    let n = a.num_particles as int;
    assert forall|x: int| 0 <= x <= n implies (#[trigger] c.hash.first_adj_id@[x])
        <= c.hash.adj_ids@.len() by {
        assert(a.hash.first_adj_id@[x] <= a.hash.adj_ids@.len());
    }
    assert forall|x: int| 0 <= x < n implies (#[trigger] c.hash.first_adj_id@[x])
        <= c.hash.first_adj_id@[x + 1] by {
        assert(a.hash.first_adj_id@[x] <= a.hash.first_adj_id@[x + 1]);
    }
    assert forall|x: int, k: int|
        0 <= x < n && (#[trigger] c.hash.first_adj_id@[x]) <= k
            < c.hash.first_adj_id@[x + 1] implies (#[trigger] c.hash.adj_ids@[k]) < x by {
        assert(a.hash.first_adj_id@[x] <= k < a.hash.first_adj_id@[x + 1]);
        assert(a.hash.adj_ids@[k] < x);
    }
}

/// The substep timestep for a substep count, with its reciprocal.
fn substep_timing(num_substeps: usize) -> (r: (Fx, Fx))
    requires
        1 <= num_substeps <= 1000,
    ensures
        r.0 == div_s(Fx { raw: TIME_STEP_RAW }, Fx { raw: (num_substeps * SCALE) as i64 }),
        r.1 == div_s(Fx { raw: SCALE }, r.0),
        r.0.wf(),
        r.0.raw > 0,
        r.1.wf(),
        r.1.raw >= 0,
{
    let divider = Fx { raw: (num_substeps as i64) * SCALE };
    let dt = Fx { raw: TIME_STEP_RAW }.div(divider);
    proof {
        lemma_substep_dt_positive(num_substeps as int, dt);
    }
    let inv_dt = Fx { raw: SCALE }.div(dt);
    proof {
        assert(inv_dt.raw >= 0) by {
            assert(dt.raw > 0);
        }
    }
    (dt, inv_dt)
}

/// Dividing the frame time by at most a thousand substeps never rounds the
/// substep down to zero.
proof fn lemma_substep_dt_positive(n: int, dt: Fx)
    requires
        1 <= n <= 1000,
        dt.raw == div_s(Fx { raw: TIME_STEP_RAW }, Fx { raw: (n * SCALE) as i64 }).raw,
    ensures
        dt.raw > 0,
{
    let num = (TIME_STEP_RAW as int) * (SCALE as int);
    let den = n * (SCALE as int);
    assert(1048576 <= den <= 1048576000) by (nonlinear_arith)
        requires
            1 <= n <= 1000,
            den == n * 1048576,
    ;
    vstd::arithmetic::div_mod::lemma_div_non_zero(num, den);
    vstd::arithmetic::div_mod::lemma_div_nonincreasing(num, den);
}

/// A fresh buffer holding the same positions.
fn clone_positions(src: &Vec<Vec3>) -> (r: Vec<Vec3>)
    ensures
        r@ == src@,
{
    let mut r: Vec<Vec3> = Vec::new();
    let mut i: usize = 0;
    while i < src.len()
        invariant
            i <= src@.len(),
            r@.len() == i,
            forall|k: int| 0 <= k < i ==> #[trigger] r@[k] == src@[k],
        decreases src@.len() - i,
    {
        r.push(src[i]);
        i = i + 1;
    }
    proof {
        assert(r@ =~= src@);
    }
    r
}

} // verus!
