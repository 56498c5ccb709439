use sdfray::math::SCALE;
use sdfray::vector::Vec3D;

fn vec_units(x: f64, y: f64, z: f64) -> Vec3D {
    Vec3D::new(
        (x * SCALE as f64) as i64,
        (y * SCALE as f64) as i64,
        (z * SCALE as f64) as i64,
    )
}

#[test]
fn normalize_unit_length_exact_triple() {
    let v = vec_units(3.0, 4.0, 0.0);
    let u = v.normalize().unwrap();
    assert_eq!(u.length(), SCALE);
}

#[test]
fn normalize_unit_length_within_tolerance() {
    let v = vec_units(1.0, 1.0, 1.0);
    let u = v.normalize().unwrap();
    let err = (u.length() - SCALE).abs();
    assert!(err <= 10, "unit length off by {} raw units", err);
}

#[test]
fn normalize_zero_vector_is_none() {
    assert!(Vec3D::new(0, 0, 0).normalize().is_none());
}

#[test]
fn add_sub_neg_componentwise() {
    let a = Vec3D::new(1, 2, 3);
    let b = Vec3D::new(10, 20, 30);
    let s = a.add(&b);
    assert_eq!((s.x, s.y, s.z), (11, 22, 33));
    let d = b.sub(&a);
    assert_eq!((d.x, d.y, d.z), (9, 18, 27));
    let n = a.neg();
    assert_eq!((n.x, n.y, n.z), (-1, -2, -3));
    let mut acc = a;
    acc.add_assign(&b);
    assert_eq!((acc.x, acc.y, acc.z), (11, 22, 33));
}

#[test]
fn dot_product_fixed_point() {
    let a = vec_units(1.0, 2.0, 3.0);
    let b = vec_units(4.0, 5.0, 6.0);
    assert_eq!(a.dot(&b), 32 * SCALE);
}

#[test]
fn cross_product_axes() {
    let x_axis = vec_units(1.0, 0.0, 0.0);
    let y_axis = vec_units(0.0, 1.0, 0.0);
    let c = x_axis.cross(&y_axis);
    assert_eq!((c.x, c.y, c.z), (0, 0, SCALE));
}

#[test]
fn distance_three_four_five() {
    let a = Vec3D::new(0, 0, 0);
    let b = vec_units(3.0, 4.0, 0.0);
    assert_eq!(a.distance(&b), 5 * SCALE);
}

#[test]
fn scalar_mul_and_div() {
    let v = vec_units(2.0, -3.0, 1.0);
    let half = v.mul(SCALE / 2);
    assert_eq!((half.x, half.y, half.z), (SCALE, -3 * SCALE / 2, SCALE / 2));
    let d = v.div(2 * SCALE);
    assert_eq!((d.x, d.y, d.z), (SCALE, -3 * SCALE / 2, SCALE / 2));
}

#[test]
fn abs_max_and_max_component() {
    let v = Vec3D::new(-7, 4, -9);
    let a = v.abs();
    assert_eq!((a.x, a.y, a.z), (7, 4, 9));
    let m = v.max(&Vec3D::new(0, 0, 0));
    assert_eq!((m.x, m.y, m.z), (0, 4, 0));
    assert_eq!(v.max_component(), 4);
}
