use raytracer::camera::Camera;
use raytracer::hitable::Hitables;
use raytracer::material::Lambertian;
use raytracer::ray::Ray;
use raytracer::render::{color, pixel_color, render, render_row, to_channel};
use raytracer::rng::new_rng;
use raytracer::sphere::Sphere;
use raytracer::vec3::Vec3;

const ONE: i64 = 4096;

fn single_sphere_world() -> Hitables {
    Hitables::new(vec![Sphere::new(
        &Vec3::new(0, 0, -ONE),
        ONE / 2,
        Lambertian::new(3277, 1229, 1229),
    )])
}

#[test]
fn trace_at_depth_cap_returns_black() {
    let world = single_sphere_world();
    let r = Ray::new(&Vec3::new(0, 0, 0), &Vec3::new(0, 0, -ONE));
    let mut rng = new_rng(1);
    assert_eq!(color(&r, &world, &mut rng, 50), Vec3::new(0, 0, 0));
    assert_eq!(color(&r, &world, &mut rng, 77), Vec3::new(0, 0, 0));
}

#[test]
fn center_pixel_hits_the_sphere_with_channels_in_unit_range() {
    // A unit sphere at (0, 0, -1) with radius 0.5, camera looking down
    // -z: the center ray hits the sphere, not the background, and the
    // pre-gamma channels stay inside [0, 1].
    let world = single_sphere_world();
    let cam = Camera::new();
    let r = cam.get_ray(ONE / 2, ONE / 2);
    assert_eq!(r.direction(), Vec3::new(0, 0, -ONE));
    let h = world.hit(&r, 4, i64::MAX).expect("center ray must hit the sphere");
    assert_eq!(h.t, ONE / 2);
    let mut rng = new_rng(42);
    let c = color(&r, &world, &mut rng, 0);
    assert!(0 <= c.x() && c.x() < ONE);
    assert!(0 <= c.y() && c.y() < ONE);
    assert!(0 <= c.z() && c.z() <= ONE);
    // The red channel is scaled by the 0.8 albedo, so it cannot reach 1.
    assert!(c.x() <= 3277);
}

#[test]
fn empty_scene_returns_the_background_gradient() {
    let world = Hitables::new(vec![]);
    let mut rng = new_rng(3);
    // Straight ahead: unit direction (0, 0, -1), t = 0.5, so the color
    // is the exact midpoint between white and sky blue.
    let r = Ray::new(&Vec3::new(0, 0, 0), &Vec3::new(0, 0, -ONE));
    assert_eq!(color(&r, &world, &mut rng, 0), Vec3::new(3072, 3481, ONE));
    // Straight up: t = 1, pure sky blue.
    let up = Ray::new(&Vec3::new(0, 0, 0), &Vec3::new(0, ONE, 0));
    assert_eq!(color(&up, &world, &mut rng, 0), Vec3::new(2048, 2867, ONE));
    // Straight down: t = 0, pure white.
    let down = Ray::new(&Vec3::new(0, 0, 0), &Vec3::new(0, -ONE, 0));
    assert_eq!(color(&down, &world, &mut rng, 0), Vec3::new(ONE, ONE, ONE));
}

#[test]
fn empty_scene_rows_keep_a_blue_sky() {
    // With no surfaces the blue channel of the background is always 1,
    // which quantizes to 255 in every pixel of every row.
    let world = Hitables::new(vec![]);
    let cam = Camera::new();
    let mut rng = new_rng(5);
    for j in [0usize, 3, 7] {
        let row = render_row(&cam, &world, &mut rng, j, 8, 8, 2);
        assert_eq!(row.len(), 8);
        for px in row {
            assert_eq!(px & 0xff, 255);
            assert!(px < 0x100_0000);
        }
    }
}

#[test]
fn gamma_quantization_endpoints() {
    assert_eq!(to_channel(0), 0);
    assert_eq!(to_channel(ONE), 255);
    // 0.25 gamma-corrects to 0.5: floor(255.99 * 0.5) = 127.
    assert_eq!(to_channel(ONE / 4), 127);
}

#[test]
fn render_assembles_a_full_flipped_frame() {
    let world = single_sphere_world();
    let cam = Camera::new();
    let mut rng = new_rng(9);
    let buf = render(&cam, &world, &mut rng, 6, 4, 1);
    assert_eq!(buf.len(), 24);
    for px in buf {
        assert!(px < 0x100_0000);
    }
}

#[test]
fn pixel_color_packs_three_channels() {
    let world = single_sphere_world();
    let cam = Camera::new();
    let mut rng = new_rng(21);
    let px = pixel_color(&cam, &world, &mut rng, 2, 2, 8, 8, 4);
    assert!(px < 0x100_0000);
}
