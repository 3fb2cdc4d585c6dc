//! The substep loop: conservation, the pin invariant, rest-state
//! stability, compliance monotonicity, a whole cloth scenario, and the
//! grab controller.
use xpbd::{Body, ConstraintKind, DistanceConstraint, Fx, Vec3, VolumeConstraint};

fn fx(v: i64) -> Fx {
    Fx { raw: v * 1048576 }
}

fn v3(x: i64, y: i64, z: i64) -> Vec3 {
    Vec3 { x: fx(x), y: fx(y), z: fx(z) }
}

fn free_body(positions: Vec<Vec3>, inv_mass: Vec<Fx>, gravity: Vec3) -> Body {
    Body::new(
        positions,
        inv_mass,
        Vec::new(),
        Vec::new(),
        15,
        Fx { raw: 0 },
        Fx { raw: 0 },
        Fx { raw: 0 },
        Fx { raw: 0 },
        Fx { raw: 0 },
        Fx { raw: 10486 },
        gravity,
        false,
        fx(1),
    )
}

#[test]
fn particle_at_rest_stays_at_rest_without_gravity() {
    let start = v3(2, 3, 4);
    let mut body = free_body(vec![start], vec![fx(1)], v3(0, 0, 0));
    for _ in 0..10 {
        body.step();
    }
    assert_eq!(body.pos[0], start);
    assert_eq!(body.vel[0], v3(0, 0, 0));
}

#[test]
fn pinned_particle_never_moves() {
    let start = v3(1, 5, 0);
    let mut body = free_body(
        vec![start, v3(1, 4, 0)],
        vec![Fx { raw: 0 }, fx(1)],
        v3(0, -10, 0),
    );
    for _ in 0..30 {
        body.step();
    }
    assert_eq!(body.pos[0], start);
    assert_eq!(body.vel[0], v3(0, 0, 0));
    // the unpinned particle did fall
    assert!(body.pos[1].y.raw < fx(4).raw);
}

#[test]
fn mesh_at_rest_does_not_drift() {
    let positions = vec![v3(0, 1, 0), v3(1, 1, 0), v3(0, 2, 0), v3(1, 2, 0)];
    let constraints = vec![
        DistanceConstraint { id0: 0, id1: 1, kind: ConstraintKind::Stretch, rest_len: Fx { raw: 0 } },
        DistanceConstraint { id0: 0, id1: 2, kind: ConstraintKind::Stretch, rest_len: Fx { raw: 0 } },
        DistanceConstraint { id0: 1, id1: 3, kind: ConstraintKind::Stretch, rest_len: Fx { raw: 0 } },
        DistanceConstraint { id0: 2, id1: 3, kind: ConstraintKind::Stretch, rest_len: Fx { raw: 0 } },
        DistanceConstraint { id0: 0, id1: 3, kind: ConstraintKind::Shear, rest_len: Fx { raw: 0 } },
    ];
    let mut body = Body::new(
        positions.clone(),
        vec![fx(1); 4],
        constraints,
        Vec::new(),
        15,
        Fx { raw: 0 },
        Fx { raw: 0 },
        Fx { raw: 0 },
        Fx { raw: 0 },
        Fx { raw: 0 },
        Fx { raw: 10486 },
        v3(0, 0, 0),
        false,
        fx(1),
    );
    body.init_rest_state();
    for _ in 0..5 {
        body.step();
    }
    for i in 0..4 {
        assert_eq!(body.pos[i], positions[i]);
        assert_eq!(body.vel[i], v3(0, 0, 0));
    }
}

/// One stretched constraint between a pinned anchor and a free particle;
/// the displacement of the free particle after one frame must not grow
/// when the constraint is softened.
fn stretched_displacement(compliance: Fx) -> i64 {
    let positions = vec![v3(0, 0, 0), v3(1, 0, 0)];
    let constraints = vec![DistanceConstraint {
        id0: 0,
        id1: 1,
        kind: ConstraintKind::Stretch,
        rest_len: Fx { raw: 524288 },
    }];
    let mut body = Body::new(
        positions,
        vec![Fx { raw: 0 }, fx(1)],
        constraints,
        Vec::new(),
        1,
        compliance,
        Fx { raw: 0 },
        Fx { raw: 0 },
        Fx { raw: 0 },
        Fx { raw: 0 },
        Fx { raw: 10486 },
        v3(0, 0, 0),
        false,
        fx(1),
    );
    body.step();
    fx(1).raw - body.pos[1].x.raw
}

#[test]
fn softer_constraints_correct_less() {
    let stiff = stretched_displacement(Fx { raw: 0 });
    let softer = stretched_displacement(Fx { raw: 100 });
    let softest = stretched_displacement(Fx { raw: 1000 });
    assert!(stiff > 0);
    assert!(softer <= stiff);
    assert!(softest <= softer);
    assert!(softest < stiff);
}

#[test]
fn hanging_cloth_strip_sags_without_exploding() {
    // a 1x1 quad of four particles (two triangles), both top corners
    // pinned, rigid bending, soft stretching, standard gravity, 1/60
    // frame split into 15 substeps
    let spacing = Fx { raw: 104858 };
    let positions = xpbd::cloth_grid_positions(2, 2, spacing, fx(1));
    let constraints = xpbd::cloth_grid_constraints(2, 2);
    // ids: 0 = bottom-left, 1 = top-left, 2 = bottom-right, 3 = top-right
    let inv_mass = vec![fx(1), Fx { raw: 0 }, fx(1), Fx { raw: 0 }];
    let mut body = Body::new(
        positions.clone(),
        inv_mass,
        constraints,
        Vec::new(),
        15,
        Fx { raw: 10486 },
        Fx { raw: 10486 },
        Fx { raw: 0 },
        Fx { raw: 0 },
        Fx { raw: 0 },
        Fx { raw: 10486 },
        v3(0, -10, 0),
        false,
        spacing,
    );
    body.init_rest_state();
    body.step();
    // both free bottom corners moved strictly downward
    assert!(body.pos[0].y.raw < positions[0].y.raw);
    assert!(body.pos[2].y.raw < positions[2].y.raw);
    // and stayed within 1.5 rest lengths of their pinned neighbours
    let limit = spacing.mul(Fx { raw: 1572864 });
    let limit_sq = limit.mul(limit);
    assert!(body.pos[0].distance_squared(body.pos[1]).raw <= limit_sq.raw);
    assert!(body.pos[2].distance_squared(body.pos[3]).raw <= limit_sq.raw);
}

#[test]
fn volume_constraint_holds_a_tet_at_rest() {
    let positions = vec![v3(0, 1, 0), v3(1, 1, 0), v3(0, 2, 0), v3(0, 1, 1)];
    let vols = vec![VolumeConstraint {
        id0: 0,
        id1: 1,
        id2: 2,
        id3: 3,
        rest_vol: Fx { raw: 0 },
    }];
    let mut body = Body::new(
        positions.clone(),
        vec![fx(1); 4],
        Vec::new(),
        vols,
        10,
        Fx { raw: 0 },
        Fx { raw: 0 },
        Fx { raw: 0 },
        Fx { raw: 0 },
        Fx { raw: 0 },
        Fx { raw: 10486 },
        v3(0, 0, 0),
        false,
        fx(1),
    );
    body.init_rest_state();
    body.step();
    for i in 0..4 {
        assert_eq!(body.pos[i], positions[i]);
    }
}

#[test]
fn overlapping_particles_are_pushed_apart() {
    // two particles at rest 0.02 apart, squeezed to 0.005: within the
    // 0.01 contact thickness but farther apart at rest, so the contact
    // must separate them
    let thickness = Fx { raw: 10486 };
    let positions = vec![v3(1, 1, 1), Vec3 { x: fx(1).add(Fx { raw: 20972 }), y: fx(1), z: fx(1) }];
    let mut body = Body::new(
        positions,
        vec![fx(1), fx(1)],
        Vec::new(),
        Vec::new(),
        15,
        Fx { raw: 0 },
        Fx { raw: 0 },
        Fx { raw: 0 },
        Fx { raw: 0 },
        Fx { raw: 0 },
        thickness,
        v3(0, 0, 0),
        true,
        thickness,
    );
    body.pos[1] = Vec3 { x: fx(1).add(Fx { raw: 5243 }), y: fx(1), z: fx(1) };
    let before = body.pos[0].distance_squared(body.pos[1]).raw;
    body.step();
    let after = body.pos[0].distance_squared(body.pos[1]).raw;
    assert!(after > before, "contact did not separate the pair");
}

#[test]
fn grab_and_release_restore_inverse_mass_exactly() {
    let mut body = free_body(
        vec![v3(0, 1, 0), v3(5, 1, 0)],
        vec![fx(1), Fx { raw: 77777 }],
        v3(0, 0, 0),
    );
    let before: Vec<i64> = body.inv_mass.iter().map(|m| m.raw).collect();
    let grab_at = v3(5, 1, 0);
    body.start_grab(&grab_at);
    // the grabbed (nearest) particle is pinned while held
    assert_eq!(body.inv_mass[1].raw, 0);
    body.end_grab(&v3(0, 0, 0));
    let after: Vec<i64> = body.inv_mass.iter().map(|m| m.raw).collect();
    assert_eq!(before, after);
}

#[test]
fn grab_moves_and_release_sets_velocity() {
    let mut body = free_body(vec![v3(0, 1, 0), v3(5, 1, 0)], vec![fx(1), fx(1)], v3(0, 0, 0));
    body.start_grab(&v3(4, 1, 0));
    assert_eq!(body.pos[1], v3(4, 1, 0));
    body.move_grabbed(&v3(3, 2, 0));
    assert_eq!(body.pos[1], v3(3, 2, 0));
    body.end_grab(&v3(0, 0, 1));
    assert_eq!(body.vel[1], v3(0, 0, 1));
}

#[test]
fn reset_returns_to_the_reference_pose() {
    let start = vec![v3(0, 3, 0), v3(1, 3, 0)];
    let mut body = free_body(start.clone(), vec![fx(1), fx(1)], v3(0, -10, 0));
    for _ in 0..5 {
        body.step();
    }
    assert!(body.pos[0] != start[0]);
    body.reset();
    assert_eq!(body.pos[0], start[0]);
    assert_eq!(body.pos[1], start[1]);
    assert_eq!(body.vel[0], v3(0, 0, 0));
}

#[test]
fn translate_shifts_the_whole_body() {
    let mut body = free_body(vec![v3(0, 1, 0), v3(1, 1, 0)], vec![fx(1), fx(1)], v3(0, 0, 0));
    body.translate(v3(2, 0, -1));
    assert_eq!(body.pos[0], v3(2, 1, -1));
    assert_eq!(body.pos[1], v3(3, 1, -1));
    assert_eq!(body.vel[0], v3(0, 0, 0));
}

#[test]
fn substep_timing_is_recomputed_together() {
    let mut body = free_body(vec![v3(0, 1, 0)], vec![fx(1)], v3(0, 0, 0));
    let dt15 = body.dt;
    body.set_solver_substeps(30);
    assert!(body.dt.raw < dt15.raw);
    assert_eq!(body.num_substeps, 30);
    // dt * inv_dt stays within one truncation step of one
    let prod = body.dt.mul(body.inv_dt);
    assert!(prod.raw <= 1048576 && prod.raw >= 1040000);
}
