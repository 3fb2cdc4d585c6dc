//! Exact arithmetic of the fixed-point scalar and vector types.
use xpbd::{Fx, Vec3};

fn fx(v: i64) -> Fx {
    Fx { raw: v * 1048576 }
}

#[test]
fn addition_and_subtraction_are_exact() {
    assert_eq!(fx(2).add(fx(3)), fx(5));
    assert_eq!(fx(2).sub(fx(3)), fx(-1));
    assert_eq!(fx(0).add(fx(0)).raw, 0);
}

#[test]
fn multiplication_scales_exactly() {
    assert_eq!(fx(2).mul(fx(3)), fx(6));
    assert_eq!(fx(-2).mul(fx(3)), fx(-6));
    // one half times one half is one quarter
    let half = Fx { raw: 524288 };
    assert_eq!(half.mul(half).raw, 262144);
}

#[test]
fn multiplication_truncates_toward_zero() {
    // (1/SCALE) * (1/SCALE) underflows to zero
    let eps = Fx { raw: 1 };
    assert_eq!(eps.mul(eps).raw, 0);
    let neg_eps = Fx { raw: -1 };
    assert_eq!(neg_eps.mul(eps).raw, 0);
}

#[test]
fn division_gives_exact_quotients() {
    assert_eq!(fx(6).div(fx(3)), fx(2));
    assert_eq!(fx(7).div(fx(2)).raw, 3670016);
    assert_eq!(fx(-7).div(fx(2)).raw, -3670016);
    assert_eq!(fx(1).div(fx(3)).raw, 349525);
}

#[test]
fn square_root_is_exact_on_squares() {
    assert_eq!(fx(9).sqrt(), fx(3));
    assert_eq!(fx(0).sqrt().raw, 0);
    assert_eq!(fx(2).sqrt().raw, 1482910);
}

#[test]
fn saturation_clamps_at_the_limit() {
    let lim: i64 = 4398046511104;
    let big = Fx { raw: lim };
    assert_eq!(big.add(big).raw, lim);
    assert_eq!(big.neg().add(big.neg()).raw, -lim);
    assert_eq!(Fx::new(lim + 5).raw, lim);
    assert_eq!(Fx::from_int(i64::MAX).raw, lim);
}

#[test]
fn absolute_value_and_negation() {
    assert_eq!(fx(-4).abs(), fx(4));
    assert_eq!(fx(4).abs(), fx(4));
    assert_eq!(fx(4).neg(), fx(-4));
}

fn v3(x: i64, y: i64, z: i64) -> Vec3 {
    Vec3 { x: fx(x), y: fx(y), z: fx(z) }
}

#[test]
fn vector_arithmetic_is_componentwise() {
    assert_eq!(v3(1, 2, 3).add(v3(4, 5, 6)), v3(5, 7, 9));
    assert_eq!(v3(4, 5, 6).sub(v3(1, 2, 3)), v3(3, 3, 3));
    assert_eq!(v3(1, 2, 3).scale(fx(2)), v3(2, 4, 6));
    assert_eq!(v3(4, 6, 8).div_scalar(fx(2)), v3(2, 3, 4));
}

#[test]
fn dot_cross_and_lengths() {
    assert_eq!(v3(1, 0, 0).dot(v3(0, 1, 0)).raw, 0);
    assert_eq!(v3(1, 2, 3).dot(v3(4, 5, 6)), fx(32));
    assert_eq!(v3(1, 0, 0).cross(v3(0, 1, 0)), v3(0, 0, 1));
    assert_eq!(v3(3, 4, 0).length_squared(), fx(25));
    assert_eq!(v3(3, 4, 0).length(), fx(5));
    assert_eq!(v3(1, 1, 0).distance_squared(v3(4, 5, 0)), fx(25));
    assert_eq!(v3(1, 1, 0).distance(v3(4, 5, 0)), fx(5));
}
