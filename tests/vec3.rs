use raytracer::fixed::ONE;
use raytracer::vec3::Vec3;

fn v(x: i32, y: i32, z: i32) -> Vec3 {
    Vec3::new(x * ONE, y * ONE, z * ONE)
}

#[test]
fn vec3_test_new() {
    let a = v(1, 2, 3);
    assert_eq!(a.x(), ONE);
    assert_eq!(a.y(), 2 * ONE);
    assert_eq!(a.z(), 3 * ONE);
}

#[test]
fn test_length_squared() {
    let a = v(1, 2, 3);
    let b = a.length_squared();
    assert_eq!(b, 14 * ONE);
}

#[test]
fn test_length() {
    let a = v(1, 2, 3);
    let b = a.length();
    assert_eq!(b, (14f64.sqrt() * 65536.0).floor() as i32);
}

#[test]
fn test_neg() {
    let a = v(1, 1, 1);
    let b = a.negated();
    assert_eq!(b.x(), -ONE);
    assert_eq!(b.y(), -ONE);
    assert_eq!(b.z(), -ONE);
}

#[test]
fn vec3_test_add() {
    let a = v(0, 1, 2);
    let b = v(1, 1, 1);
    let c = a.plus(b);
    assert_eq!(c.x(), ONE);
    assert_eq!(c.y(), 2 * ONE);
    assert_eq!(c.z(), 3 * ONE);
}

#[test]
fn vec3_test_add_assign() {
    let mut a = v(0, 1, 2);
    let b = v(1, 1, 1);
    a.add_assign(b);
    assert_eq!(a.x(), ONE);
    assert_eq!(a.y(), 2 * ONE);
    assert_eq!(a.z(), 3 * ONE);
}

#[test]
fn test_sub() {
    let a = v(0, 1, 2);
    let b = v(1, 1, 1);
    let c = a.minus(b);
    assert_eq!(c.x(), -ONE);
    assert_eq!(c.y(), 0);
    assert_eq!(c.z(), ONE);
}

#[test]
fn test_vec_mul() {
    let a = v(0, 1, 2);
    let b = v(1, 1, 1);
    let c = a.times(b);
    assert_eq!(c.x(), 0);
    assert_eq!(c.y(), ONE);
    assert_eq!(c.z(), 2 * ONE);
}

#[test]
fn vec3_test_f32_rhs_mul() {
    let a = v(0, 1, 2);
    let b = 2 * ONE;
    let c = a.scale(b);
    assert_eq!(c.x(), 0);
    assert_eq!(c.y(), 2 * ONE);
    assert_eq!(c.z(), 4 * ONE);
}

#[test]
fn vec3_test_f32_lhs_mul() {
    let a = v(0, 1, 2);
    let b = 2 * ONE;
    let c = a.scale(b);
    assert_eq!(c.x(), 0);
    assert_eq!(c.y(), 2 * ONE);
    assert_eq!(c.z(), 4 * ONE);
}

#[test]
fn test_f32_mul_assign() {
    let mut a = v(0, 1, 2);
    let b = 2 * ONE;
    a.mul_assign(b);
    assert_eq!(a.x(), 0);
    assert_eq!(a.y(), 2 * ONE);
    assert_eq!(a.z(), 4 * ONE);
}

#[test]
fn test_f32_div() {
    let a = v(4, 2, 0);
    let b = 2 * ONE;
    let c = a.div_by(b);
    assert_eq!(c.x(), 2 * ONE);
    assert_eq!(c.y(), ONE);
    assert_eq!(c.z(), 0);
}

#[test]
fn test_f32_div_assign() {
    let mut a = v(4, 2, 0);
    let b = 2 * ONE;
    a.div_assign(b);
    assert_eq!(a.x(), 2 * ONE);
    assert_eq!(a.y(), ONE);
    assert_eq!(a.z(), 0);
}

#[test]
fn test_dot() {
    let a = v(1, 2, 3);
    let b = v(3, 2, 1);
    let c = a.dot(b);
    assert_eq!(c, 10 * ONE)
}

#[test]
fn test_cross() {
    let a = v(1, 2, 3);
    let b = v(3, 2, 1);
    let c = a.cross(b);
    assert_eq!(c.x(), -4 * ONE);
    assert_eq!(c.y(), 8 * ONE);
    assert_eq!(c.z(), -4 * ONE)
}

#[test]
fn test_unit_vec() {
    let a = v(1, 0, 1);
    let b = a.unit_vec();
    // 1/sqrt(2) in fixed point: one, divided by the rounded-down length sqrt(2)
    let length = (2f64 * 65536.0 * 65536.0).sqrt().floor();
    let expected = (65536.0 * 65536.0 / length).floor() as i32;
    assert_eq!(expected, 46341);
    assert_eq!(b.x(), expected);
    assert_eq!(b.y(), 0);
    assert_eq!(b.z(), expected);
}

#[test]
fn sums_saturate_at_the_range_limit() {
    let a = Vec3::new(i32::MAX, 0, -i32::MAX);
    let c = a.plus(Vec3::new(1, 0, -1));
    assert_eq!(c.x(), i32::MAX);
    assert_eq!(c.z(), -i32::MAX);
    assert_eq!(Vec3::new(i32::MIN, 0, 0).negated().x(), i32::MAX);
}

#[test]
fn near_zero_only_for_the_zero_vector() {
    assert!(Vec3::new(0, 0, 0).near_zero());
    assert!(!Vec3::new(0, 1, 0).near_zero());
}

#[test]
fn reflect_twice_about_a_unit_normal_is_identity() {
    let vs = [v(1, -2, 3), v(-5, 7, 2), Vec3::new(12345, -6789, 4242)];
    let ns = [v(0, 1, 0), v(0, 0, -1), v(1, 0, 0)];
    for a in vs.iter() {
        for n in ns.iter() {
            assert_eq!(Vec3::reflect(Vec3::reflect(*a, *n), *n), *a);
        }
    }
}

#[test]
fn reflect_turns_the_normal_component_around() {
    let r = Vec3::reflect(v(1, -1, 0), v(0, 1, 0));
    assert_eq!(r, v(1, 1, 0));
}

#[test]
fn refract_straight_through_keeps_direction() {
    // a ray along the normal passes undeflected whatever the ratio
    let r = Vec3::refract(v(0, -1, 0), v(0, 1, 0), ONE * 3 / 2);
    assert_eq!(r, v(0, -1, 0));
}

#[test]
fn scale_and_divide_by_counts() {
    let a = v(3, -3, 1);
    assert_eq!(a.scale_int(2), v(6, -6, 2));
    assert_eq!(Vec3::new(7, -7, 0).div_int(2), Vec3::new(3, -4, 0));
}
