//! Triangle-edge matching, the cloth grid builder, the render buffer,
//! and the jitter helper.
use xpbd::{cloth_grid_constraints, cloth_grid_positions, find_tri_neighbors, jitter_positions,
    tet_inv_masses, tri_inv_masses, ConstraintKind, Fx, Renderer, Vec3, VolumeConstraint};

fn fx(v: i64) -> Fx {
    Fx { raw: v * 1048576 }
}

#[test]
fn shared_edges_point_at_each_other() {
    // two triangles sharing the edge {0, 1}
    let tris = vec![[0usize, 1, 2], [1, 0, 3]];
    let neighbors = find_tri_neighbors(&tris);
    assert_eq!(neighbors.len(), 6);
    // edge 0 of triangle 0 is 0->1; edge 0 of triangle 1 is 1->0
    assert_eq!(neighbors[0], Some(3));
    assert_eq!(neighbors[3], Some(0));
    // the boundary edges stay unmatched
    assert_eq!(neighbors[1], None);
    assert_eq!(neighbors[2], None);
    assert_eq!(neighbors[4], None);
    assert_eq!(neighbors[5], None);
}

#[test]
fn lone_triangle_has_no_neighbors() {
    let tris = vec![[4usize, 7, 9]];
    let neighbors = find_tri_neighbors(&tris);
    assert_eq!(neighbors, vec![None, None, None]);
}

#[test]
fn grid_positions_form_the_expected_lattice() {
    let spacing = Fx { raw: 104858 };
    let height = fx(1);
    let pos = cloth_grid_positions(2, 2, spacing, height);
    assert_eq!(pos.len(), 4);
    assert_eq!(pos[0], Vec3 { x: Fx { raw: 0 }, y: fx(1), z: Fx { raw: 0 } });
    assert_eq!(pos[1].y.raw, fx(1).raw + 104858);
    assert_eq!(pos[2].x.raw, 104858);
    assert_eq!(pos[3].x.raw, 104858);
    assert_eq!(pos[3].y.raw, fx(1).raw + 104858);
}

#[test]
fn grid_constraints_cover_edges_shear_and_bending() {
    let cs = cloth_grid_constraints(3, 3);
    let n = 9;
    let mut stretch = 0;
    let mut shear = 0;
    let mut bending = 0;
    for c in &cs {
        assert!(c.id0 < n && c.id1 < n);
        match c.kind {
            ConstraintKind::Stretch => stretch += 1,
            ConstraintKind::Shear => shear += 1,
            ConstraintKind::Bending => bending += 1,
            ConstraintKind::Volume => panic!("a cloth grid has no volume constraints"),
        }
    }
    // 2 * 3 * 2 axis edges, 2 diagonals per quad, 2 * 3 bending pairs
    assert_eq!(stretch, 12);
    assert_eq!(shear, 8);
    assert_eq!(bending, 6);
}

#[test]
fn triangle_areas_set_inverse_masses() {
    // a single right triangle with legs of length 2: area 2, so each
    // corner carries (1 / 2) / 3 of inverse mass
    let positions = vec![
        Vec3 { x: fx(0), y: fx(0), z: fx(0) },
        Vec3 { x: fx(2), y: fx(0), z: fx(0) },
        Vec3 { x: fx(0), y: fx(2), z: fx(0) },
        Vec3 { x: fx(9), y: fx(9), z: fx(9) },
    ];
    let tris = vec![[0usize, 1, 2]];
    let masses = tri_inv_masses(&tris, &positions);
    assert_eq!(masses.len(), 4);
    let expected = 1048576 / 2 / 3;
    for i in 0..3 {
        assert!((masses[i].raw - expected).abs() <= 2);
    }
    assert_eq!(masses[3].raw, 0);
}

#[test]
fn degenerate_triangles_carry_no_mass() {
    let p = Vec3 { x: fx(1), y: fx(1), z: fx(1) };
    let positions = vec![p, p, p];
    let masses = tri_inv_masses(&vec![[0usize, 1, 2]], &positions);
    assert_eq!(masses[0].raw, 0);
    assert_eq!(masses[1].raw, 0);
    assert_eq!(masses[2].raw, 0);
}

#[test]
fn tet_volume_sets_inverse_masses() {
    // a unit right tetrahedron: volume 1/6, quarter volume 1/24,
    // inverse mass 24 per corner
    let positions = vec![
        Vec3 { x: fx(0), y: fx(0), z: fx(0) },
        Vec3 { x: fx(1), y: fx(0), z: fx(0) },
        Vec3 { x: fx(0), y: fx(1), z: fx(0) },
        Vec3 { x: fx(0), y: fx(0), z: fx(1) },
    ];
    let tets = vec![VolumeConstraint { id0: 0, id1: 1, id2: 2, id3: 3, rest_vol: Fx { raw: 0 } }];
    let masses = tet_inv_masses(&tets, &positions);
    for i in 0..4 {
        assert!((masses[i].raw - 24 * 1048576).abs() <= 1048);
    }
}

#[test]
fn renderer_starts_white_and_clears_back() {
    let mut r = Renderer::new();
    assert_eq!(r.render_buffer.len(), 800 * 600 * 4);
    assert_eq!(r.render_buffer[0], 255);
    assert_eq!(r.render_buffer[800 * 600 * 4 - 1], 255);
    assert!(!r.show_pressure && !r.show_smoke && !r.show_smoke_gradient);
    r.render_buffer[17] = 0;
    r.show_smoke = true;
    r.clear();
    assert_eq!(r.render_buffer[17], 255);
    assert!(!r.show_smoke);
}

#[test]
fn jitter_displaces_within_the_amplitude() {
    let amp = Fx { raw: 256 };
    let before = vec![
        Vec3 { x: fx(0), y: fx(1), z: fx(2) },
        Vec3 { x: fx(3), y: fx(4), z: fx(5) },
    ];
    let mut jittered = before.clone();
    jitter_positions(&mut jittered, amp);
    assert_eq!(jittered.len(), before.len());
    for (p, q) in before.iter().zip(jittered.iter()) {
        for (a, b) in [(p.x, q.x), (p.y, q.y), (p.z, q.z)] {
            let delta = b.raw - a.raw;
            assert!(delta >= 0 && delta <= amp.raw);
        }
    }
}
