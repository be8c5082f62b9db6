use raytracer::vec3::Vec3;

// One unit is 4096 fixed-point steps.
const ONE: i64 = 4096;

#[test]
fn add() {
    assert_eq!(
        Vec3::new(0, 0, 0).add(Vec3::new(ONE, ONE, ONE)),
        Vec3::new(ONE, ONE, ONE)
    );
}

#[test]
fn mul() {
    assert_eq!(
        Vec3::new(2 * ONE, 2 * ONE, 2 * ONE).mul(Vec3::new(ONE, 2 * ONE, 3 * ONE)),
        Vec3::new(2 * ONE, 4 * ONE, 6 * ONE)
    );
    assert_eq!(
        Vec3::new(ONE, 2 * ONE, 3 * ONE).scale(2 * ONE),
        Vec3::new(2 * ONE, 4 * ONE, 6 * ONE)
    );
}

#[test]
fn div() {
    assert_eq!(
        Vec3::new(2 * ONE, 4 * ONE, 6 * ONE).div(2 * ONE),
        Vec3::new(ONE, 2 * ONE, 3 * ONE)
    );
}

#[test]
fn neg() {
    assert_eq!(
        Vec3::new(2 * ONE, 2 * ONE, 2 * ONE).neg(),
        Vec3::new(-2 * ONE, -2 * ONE, -2 * ONE)
    );
}

#[test]
fn add_commutes_and_zero_is_identity() {
    let a = Vec3::new(123, -456, 789);
    let b = Vec3::new(-17, 2048, 4096);
    assert_eq!(a.add(b), b.add(a));
    assert_eq!(a.add(Vec3::zero()), a);
    let c = Vec3::new(5, 6, 7);
    assert_eq!(a.add(b).add(c), a.add(b.add(c)));
}

#[test]
fn dot_scalar_consistency() {
    // (a . v) * s == a . (v * s) for the exact products; the fixed-point
    // versions agree here because every step divides evenly.
    let a = Vec3::new(ONE, 0, 0);
    let v = Vec3::new(1000, 2000, 3000);
    let s: i64 = 2048;
    let lhs = {
        let d = a.dot(&v);
        // fixed-point product of d and s
        d * s / ONE
    };
    let rhs = a.dot(&v.scale(s));
    assert_eq!(lhs, rhs);
}

#[test]
fn unit_vector_has_unit_length() {
    let v = Vec3::new(3000, 4000, 0);
    let u = v.unit_vector();
    let l = u.length();
    assert!((l - ONE).abs() <= 2, "length of unit vector was {l}");

    let w = Vec3::new(-123, 987, 5000);
    let lu = w.unit_vector().length();
    assert!((lu - ONE).abs() <= 2, "length of unit vector was {lu}");
}

#[test]
fn index_and_accessors() {
    let v = Vec3::new(1, 2, 3);
    assert_eq!(v.index(0), 1);
    assert_eq!(v.index(1), 2);
    assert_eq!(v.index(2), 3);
    assert_eq!(v.x(), 1);
    assert_eq!(v.r(), 1);
    assert_eq!(v.g(), 2);
    assert_eq!(v.b(), 3);
}

#[test]
fn sum_accumulates() {
    let vs = vec![Vec3::new(100, 200, 300), Vec3::new(1, 2, 3), Vec3::new(10, 20, 30)];
    assert_eq!(Vec3::sum(&vs), Vec3::new(111, 222, 333));
}
