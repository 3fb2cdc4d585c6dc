//! The spatial hash: rebuilds, zero-radius round trips, and the
//! adjacency list built from it.
use xpbd::{Fx, SpatialHash, Vec3};

fn fx(v: i64) -> Fx {
    Fx { raw: v * 1048576 }
}

fn v3(x: i64, y: i64, z: i64) -> Vec3 {
    Vec3 { x: fx(x), y: fx(y), z: fx(z) }
}

fn quarter(n: i64) -> Fx {
    Fx { raw: n * 262144 }
}

#[test]
fn zero_radius_query_returns_own_index() {
    let mut hash = SpatialHash::new(fx(1), 4);
    let positions = vec![v3(0, 0, 0), v3(5, 0, 0), v3(0, 5, 0), v3(7, 7, 7)];
    hash.create(&positions);
    for target in 0..positions.len() {
        hash.query(&positions[target], Fx { raw: 0 });
        let mut found = false;
        for k in 0..hash.query_size {
            if hash.query_ids[k] == target {
                found = true;
            }
        }
        assert!(found, "index {} missing from its own cell query", target);
    }
}

#[test]
fn query_covers_the_whole_box() {
    let mut hash = SpatialHash::new(fx(1), 3);
    let positions = vec![v3(0, 0, 0), v3(1, 0, 0), v3(9, 9, 9)];
    hash.create(&positions);
    // a radius of 1.5 around the first point covers the second
    hash.query(&positions[0], Fx { raw: 1572864 });
    let mut found0 = false;
    let mut found1 = false;
    for k in 0..hash.query_size {
        if hash.query_ids[k] == 0 {
            found0 = true;
        }
        if hash.query_ids[k] == 1 {
            found1 = true;
        }
    }
    assert!(found0);
    assert!(found1);
}

#[test]
fn adjacency_stores_each_close_pair_once_at_the_higher_id() {
    let mut hash = SpatialHash::new(quarter(1), 4);
    // two clusters: {0, 1} within 1/4, {2, 3} within 1/4, clusters far apart
    let positions = vec![
        v3(0, 0, 0),
        Vec3 { x: Fx { raw: 131072 }, y: fx(0), z: fx(0) },
        v3(6, 6, 6),
        Vec3 { x: fx(6), y: Fx { raw: 6291456 + 131072 }, z: fx(6) },
    ];
    hash.create(&positions);
    let max_dist = quarter(1);
    hash.query_all(&positions, max_dist);

    let n = 4;
    let max_dist_sq = max_dist.mul(max_dist);
    assert_eq!(hash.first_adj_id[n], hash.adj_ids.len());
    let mut pairs = Vec::new();
    for i in 0..n {
        assert!(hash.first_adj_id[i] <= hash.first_adj_id[i + 1]);
        for k in hash.first_adj_id[i]..hash.first_adj_id[i + 1] {
            let j = hash.adj_ids[k];
            // stored at the higher id, pointing at the lower
            assert!(j < i);
            // and genuinely within the radius
            let d2 = positions[i].distance_squared(positions[j]);
            assert!(d2.raw <= max_dist_sq.raw);
            pairs.push((i, j));
        }
    }
    assert!(pairs.contains(&(1, 0)));
    assert!(pairs.contains(&(3, 2)));
    assert!(!pairs.contains(&(2, 0)));
    assert!(!pairs.contains(&(2, 1)));
}

#[test]
fn rebuilding_replaces_the_snapshot() {
    let mut hash = SpatialHash::new(fx(1), 2);
    let first = vec![v3(0, 0, 0), v3(3, 3, 3)];
    hash.create(&first);
    let second = vec![v3(8, 8, 8), v3(2, 0, 0)];
    hash.create(&second);
    hash.query(&second[1], Fx { raw: 0 });
    let mut found = false;
    for k in 0..hash.query_size {
        if hash.query_ids[k] == 1 {
            found = true;
        }
    }
    assert!(found);
}
