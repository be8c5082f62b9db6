use raytracer::material::Lambertian;
use raytracer::ray::Ray;
use raytracer::sphere::Sphere;
use raytracer::vec3::Vec3;

const ONE: i64 = 4096;

// A unit-radius-style sphere straight ahead of the origin.
fn test_sphere() -> Sphere {
    Sphere::new(
        &Vec3::new(0, 0, -ONE),
        ONE / 2,
        Lambertian::new(3277, 1229, 1229),
    )
}

#[test]
fn head_on_hit_at_distance_minus_radius() {
    // Ray from the origin aimed at the center: the near intersection is
    // at distance (1 - 0.5) = 0.5 along the unit-length direction.
    let s = test_sphere();
    let r = Ray::new(&Vec3::new(0, 0, 0), &Vec3::new(0, 0, -ONE));
    let h = s.hit(&r, 4, i64::MAX).expect("head-on ray must hit");
    assert_eq!(h.t, ONE / 2);
    assert_eq!(h.p, Vec3::new(0, 0, -ONE / 2));
}

#[test]
fn ray_aimed_away_misses() {
    let s = test_sphere();
    let r = Ray::new(&Vec3::new(0, 0, 0), &Vec3::new(0, 0, ONE));
    assert!(s.hit(&r, 4, i64::MAX).is_none());
}

#[test]
fn normal_is_unit_and_points_outward() {
    let s = test_sphere();
    let r = Ray::new(&Vec3::new(0, 0, 0), &Vec3::new(0, 0, -ONE));
    let h = s.hit(&r, 4, i64::MAX).unwrap();
    // (hit_point - center) / radius: (0, 0, 0.5) / 0.5 = (0, 0, 1).
    assert_eq!(h.normal, Vec3::new(0, 0, ONE));
    assert_eq!(h.normal.length(), ONE);
}

#[test]
fn negative_radius_flips_the_normal() {
    // The hollow-shell trick: same geometry, negated radius, inward
    // normal.
    let s = Sphere::new(
        &Vec3::new(0, 0, -ONE),
        -(ONE / 2),
        Lambertian::new(3277, 1229, 1229),
    );
    let r = Ray::new(&Vec3::new(0, 0, 0), &Vec3::new(0, 0, -ONE));
    let h = s.hit(&r, 4, i64::MAX).expect("geometry is unchanged");
    assert_eq!(h.t, ONE / 2);
    assert_eq!(h.normal, Vec3::new(0, 0, -ONE));
}

#[test]
fn window_excludes_hits() {
    let s = test_sphere();
    let r = Ray::new(&Vec3::new(0, 0, 0), &Vec3::new(0, 0, -ONE));
    // Near root is at t = 0.5; a window that ends before it sees nothing.
    assert!(s.hit(&r, 4, ONE / 4).is_none());
    // The smaller root alone is tested: a window past it sees nothing,
    // even though the far side of the sphere lies inside the window.
    assert!(s.hit(&r, ONE, 4 * ONE).is_none());
}
