use raytracer::hitable::HitRecord;
use raytracer::material::{Dielectric, Lambertian, Metal};
use raytracer::ray::Ray;
use raytracer::rng::new_rng;
use raytracer::vec3::Vec3;

const ONE: i64 = 4096;

fn head_on_record(material: raytracer::material::Material) -> HitRecord {
    HitRecord {
        t: ONE / 2,
        p: Vec3::new(0, 0, -ONE / 2),
        normal: Vec3::new(0, 0, ONE),
        material,
    }
}

#[test]
fn diffuse_always_scatters_with_albedo_attenuation() {
    let albedo = Vec3::new(3277, 1229, 1229);
    let m = Lambertian::new(3277, 1229, 1229);
    let rec = head_on_record(m);
    let r = Ray::new(&Vec3::new(0, 0, 0), &Vec3::new(0, 0, -ONE));
    let mut rng = new_rng(7);
    for _ in 0..32 {
        let s = m.scatter(&r, &rec, &mut rng).expect("diffuse never absorbs");
        assert_eq!(s.attenuation, albedo);
        assert_eq!(s.scattered.origin(), rec.p);
        // The scattered direction is normal + a point inside the unit
        // sphere.
        let q = s.scattered.direction().sub(rec.normal);
        assert!(q.squared_length() < ONE);
    }
}

#[test]
fn metal_always_scatters_with_albedo_attenuation() {
    let albedo = Vec3::new(3277, 2458, 819);
    let m = Metal::new(3277, 2458, 819, 1228);
    let rec = head_on_record(m);
    let r = Ray::new(&Vec3::new(0, 0, 0), &Vec3::new(0, 0, -ONE));
    let mut rng = new_rng(11);
    for _ in 0..32 {
        let s = m.scatter(&r, &rec, &mut rng).expect("metal never absorbs");
        assert_eq!(s.attenuation, albedo);
        assert_eq!(s.scattered.origin(), rec.p);
    }
}

#[test]
fn dielectric_attenuation_is_exactly_one() {
    let m = Dielectric::new(6144); // index 1.5
    let rec = head_on_record(m);
    let r = Ray::new(&Vec3::new(0, 0, 0), &Vec3::new(0, 0, -ONE));
    let mut rng = new_rng(13);
    for _ in 0..64 {
        let s = m.scatter(&r, &rec, &mut rng).expect("dielectric never absorbs");
        assert_eq!(s.attenuation, Vec3::new(ONE, ONE, ONE));
        assert_eq!(s.scattered.origin(), rec.p);
    }
}

#[test]
fn fuzzless_metal_obeys_the_mirror_law() {
    let m = Metal::new(3277, 2458, 819, 0);
    let rec = head_on_record(m);
    // A slanted incoming direction.
    let r = Ray::new(&Vec3::new(0, 0, 0), &Vec3::new(ONE, 0, -ONE));
    let mut rng = new_rng(17);
    let s = m.scatter(&r, &rec, &mut rng).unwrap();
    let d = s.scattered.direction();
    let n = rec.normal;
    // reflect(v, n) . n == -(v . n) within fixed-point tolerance.
    let v = r.direction().unit_vector();
    let lhs = d.dot(&n);
    let rhs = -v.dot(&n);
    assert!((lhs - rhs).abs() <= 8, "mirror law off by {}", lhs - rhs);
    // Head-on the reflection is exact.
    let r2 = Ray::new(&Vec3::new(0, 0, 0), &Vec3::new(0, 0, -ONE));
    let s2 = m.scatter(&r2, &rec, &mut rng).unwrap();
    assert_eq!(s2.scattered.direction(), Vec3::new(0, 0, ONE));
}
