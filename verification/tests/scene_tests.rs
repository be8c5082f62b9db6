use raytracer::hitable::Hitables;
use raytracer::material::{Lambertian, Metal};
use raytracer::ray::Ray;
use raytracer::sphere::Sphere;
use raytracer::vec3::Vec3;

const ONE: i64 = 4096;

fn near_sphere() -> Sphere {
    Sphere::new(&Vec3::new(0, 0, -ONE), ONE / 2, Lambertian::new(3277, 1229, 1229))
}

fn far_sphere() -> Sphere {
    // Overlaps the near sphere along the same ray, center one unit
    // deeper.
    Sphere::new(&Vec3::new(0, 0, -2 * ONE), ONE / 2, Metal::new(3277, 2458, 819, 0))
}

#[test]
fn closest_hit_wins_regardless_of_order() {
    let r = Ray::new(&Vec3::new(0, 0, 0), &Vec3::new(0, 0, -ONE));
    let w1 = Hitables::new(vec![near_sphere(), far_sphere()]);
    let w2 = Hitables::new(vec![far_sphere(), near_sphere()]);
    let h1 = w1.hit(&r, 4, i64::MAX).expect("scene must hit");
    let h2 = w2.hit(&r, 4, i64::MAX).expect("scene must hit");
    assert_eq!(h1.t, ONE / 2);
    assert_eq!(h2.t, ONE / 2);
    assert_eq!(h1.p, h2.p);
    assert_eq!(h1.normal, h2.normal);
}

#[test]
fn later_surface_replaces_only_with_strictly_closer_hit() {
    let r = Ray::new(&Vec3::new(0, 0, 0), &Vec3::new(0, 0, -ONE));
    // Far sphere alone is hit at t = 1.5.
    let wf = Hitables::new(vec![far_sphere()]);
    assert_eq!(wf.hit(&r, 4, i64::MAX).unwrap().t, 3 * ONE / 2);
    // With the near sphere in front, the far hit is shadowed.
    let w = Hitables::new(vec![far_sphere(), near_sphere()]);
    assert_eq!(w.hit(&r, 4, i64::MAX).unwrap().t, ONE / 2);
}

#[test]
fn empty_scene_never_hits() {
    let w = Hitables::new(vec![]);
    let r = Ray::new(&Vec3::new(0, 0, 0), &Vec3::new(123, -456, -ONE));
    assert!(w.hit(&r, 4, i64::MAX).is_none());
}
