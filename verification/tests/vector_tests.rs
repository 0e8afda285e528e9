use oxide::fx::FX_ONE;
use oxide::vector::Vector;

fn fx(v: i64) -> i64 {
    v * FX_ONE
}

#[test]
fn add_test() {
    let v1 = Vector::from_v([fx(1), fx(2), fx(3), fx(4)], 4);
    let v2 = Vector::from_v([fx(6), fx(7), fx(8), fx(9)], 4);

    assert_eq!(v1.add(v2), Vector::from_v([fx(7), fx(9), fx(11), fx(13)], 4));
}

#[test]
fn sub_test() {
    let v1 = Vector::from_v([fx(1), fx(2), fx(3), fx(4)], 4);
    let v2 = Vector::from_v([fx(6), fx(7), fx(8), fx(9)], 4);

    assert_eq!(v1.sub(v2), Vector::from_v([fx(-5), fx(-5), fx(-5), fx(-5)], 4));
}

#[test]
fn mul_test() {
    let v1 = Vector::from_v([fx(1), fx(2), fx(3), fx(4)], 4);
    let v2 = Vector::from_v([fx(6), fx(7), fx(8), fx(9)], 4);

    assert_eq!(v1.mul(v2), Vector::from_v([fx(6), fx(14), fx(24), fx(36)], 4));
}

#[test]
fn dot_test() {
    let v1 = Vector::from_v([fx(1), fx(2), fx(3), fx(4)], 4);
    let v2 = Vector::from_v([fx(5), fx(4), fx(3), fx(2)], 4);

    assert_eq!(v1.dot(v2), fx(30));
}

#[test]
fn norm_test() {
    let v = Vector::from_v([fx(5), 0, 0, 0], 4);

    assert_eq!(v.norm(), Vector::from_v([fx(1), 0, 0, 0], 4));
}

#[test]
fn clamp_test() {
    let v = Vector::from_v([fx(-5), fx(-1), fx(1), fx(5)], 4);

    assert_eq!(v.clamp(fx(-1), fx(1)), Vector::from_v([fx(-1), fx(-1), fx(1), fx(1)], 4));
}

#[test]
fn norm_of_nonzero_vector_has_unit_dot() {
    // A vector whose magnitude is exactly representable normalizes to an
    // exact unit vector.
    let v = Vector::from_3(fx(3), fx(4), 0);
    let n = v.norm();
    assert_eq!(n, Vector::from_3(600_000, 800_000, 0));
    assert_eq!(n.dot(n), FX_ONE);

    // One whose magnitude is irrational lands within rounding distance of
    // a unit vector.
    let w = Vector::from_3(fx(1), fx(1), fx(1));
    let nw = w.norm();
    let d = nw.dot(nw);
    assert!(d >= 999_000 && d <= 1_001_000, "norm dot was {}", d);
}

#[test]
fn dot_with_self_is_nonnegative() {
    let v = Vector::from_3(fx(-3), fx(7), fx(-2));
    assert!(v.dot(v) >= 0);
    let z = Vector::zero(3);
    assert_eq!(z.dot(z), 0);
}

#[test]
fn reflecting_a_unit_vector_about_itself_is_identity() {
    let n1 = Vector::from_3(0, 0, fx(1));
    assert_eq!(Vector::refl(n1, n1), n1);

    let n2 = Vector::from_3(600_000, 800_000, 0);
    assert_eq!(Vector::refl(n2, n2), n2);
}

#[test]
fn lerp_interpolates_and_clamps_factor() {
    let a = Vector::from_3(fx(1), 0, 0);
    let b = Vector::from_3(0, fx(1), 0);
    // halfway between the two endpoints
    assert_eq!(Vector::lerp(a, b, 500_000), Vector::from_3(500_000, 500_000, 0));
    // a factor beyond one clamps to the first endpoint
    assert_eq!(Vector::lerp(a, b, fx(7)), a);
    // a negative factor clamps to the second endpoint
    assert_eq!(Vector::lerp(a, b, fx(-7)), b);
}

#[test]
fn accessors_and_constructors_agree() {
    let v = Vector::from_3(fx(1), fx(2), fx(3));
    assert_eq!(v.x(), fx(1));
    assert_eq!(v.y(), fx(2));
    assert_eq!(v.z(), fx(3));
    assert_eq!(v.len(), 3);
    assert!(!v.is_empty());
    assert_eq!(v.get(), [fx(1), fx(2), fx(3), 0]);

    let s = Vector::from_s(fx(4), 2);
    assert_eq!(s.get(), [fx(4), fx(4), fx(4), fx(4)]);
    assert_eq!(s.len(), 2);

    let w = Vector::from_vec(vec![fx(9), fx(8), fx(7), fx(6)]);
    assert_eq!(w.get(), [fx(9), fx(8), fx(7), fx(6)]);
    assert_eq!(w.len(), 4);

    let m = Vector::from_3(fx(1), fx(5), fx(2)).min(Vector::from_3(fx(3), fx(4), fx(2)));
    assert_eq!(m, Vector::from_3(fx(1), fx(4), fx(2)));
    let mx = Vector::from_3(fx(1), fx(5), fx(2)).max(Vector::from_3(fx(3), fx(4), fx(2)));
    assert_eq!(mx, Vector::from_3(fx(3), fx(5), fx(2)));

    let n = Vector::from_3(fx(1), fx(-2), fx(3)).neg();
    assert_eq!(n, Vector::from_3(fx(-1), fx(2), fx(-3)));

    let q = Vector::from_3(fx(6), fx(8), fx(9)).div(Vector::from_3(fx(2), fx(4), fx(3)));
    assert_eq!(q, Vector::from_3(fx(3), fx(2), fx(3)));
}
