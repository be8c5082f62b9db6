//! The recursive radiance estimator, the per-pixel Monte-Carlo sampler
//! and the frame assembler.

use vstd::prelude::*;

use crate::camera::{cam_dir, camera_wf, Camera};
use crate::fixed::{
    fdiv, fmul, isqrt, lemma_fmul_unit_interval, lemma_tdiv_mag, sqrt_floor, tdiv, DIR_BOUND,
    POS_BOUND, SCALE,
};
use crate::hitable::{scene_hit, scene_wf, Hitables};
use crate::material::{scatter_ok_on, ScatterRec};
use crate::ray::Ray;
use crate::sphere::Sphere;
use crate::vec3::{in_rgb, is_zero, vbounded, vmul, vsum, vunit, vzero, Vec3, Vec3g};

verus! {

/// Lower intersection bound of the estimator, about 0.001: rays must
/// travel a short distance before hitting again, avoiding immediate
/// self-intersection ("shadow acne").
pub const HIT_EPS: i64 = 4;

/// The sky gradient behind a missed ray: linear interpolation between
/// white and sky blue `(0.5, 0.7, 1.0)` by the height of the unit
/// direction.
pub open spec fn background(d: Vec3g) -> Vec3g {
    let t = tdiv(vunit(d).y + (SCALE as int), 2);
    Vec3g {
        x: fmul(SCALE as int, (SCALE as int) - t) + fmul(2048, t),
        y: fmul(SCALE as int, (SCALE as int) - t) + fmul(2867, t),
        z: fmul(SCALE as int, (SCALE as int) - t) + fmul(SCALE as int, t),
    }
}

/// A scattered direction the estimator will follow: nonzero and within
/// the tracer's numeric budget.
pub open spec fn scatter_dir_ok(dv: Vec3g) -> bool {
    vbounded(dv, DIR_BOUND as int) && !is_zero(dv)
}

/// The radiance values the estimator can return for a ray at a depth,
/// over every outcome of the random draws: a miss is exactly the sky
/// gradient; a hit at the depth cap is exactly black; a hit below the
/// cap is the struck material's attenuation times a possible radiance
/// of a valid scattered ray at the next depth — black only when the
/// scattered direction is degenerate or out of budget.
pub open spec fn possible_color(scene: Seq<Sphere>, r: Ray, depth: int, c: Vec3g) -> bool
    decreases 50 - depth,
{
    let oh = scene_hit(scene, r, HIT_EPS as int, i64::MAX as int);
    if oh.is_none() {
        c == background(r.b@)
    } else {
        let h = oh.unwrap();
        if depth >= 50 {
            c == vzero()
        } else {
            exists|s: ScatterRec, rest: Vec3g|
                #![trigger scatter_ok_on(h.material, r.b@, h.p, h.normal, s), vmul(
                    s.attenuation@,
                    rest,
                )]
                scatter_ok_on(h.material, r.b@, h.p, h.normal, s) && ((scatter_dir_ok(
                    s.scattered.b@,
                ) && possible_color(scene, s.scattered, depth + 1, rest) && in_rgb(rest) && c
                    == vmul(s.attenuation@, rest)) || (!scatter_dir_ok(s.scattered.b@) && c
                    == vzero()))
        }
    }
}

#[verifier::spinoff_prover]
#[verifier::rlimit(100)]
proof fn lemma_possible_color_hit(
    scene: Seq<Sphere>,
    r: Ray,
    depth: int,
    s: ScatterRec,
    rest: Vec3g,
    c: Vec3g,
)
    requires
        scene_hit(scene, r, HIT_EPS as int, i64::MAX as int).is_some(),
        depth < 50,
        ({
            let h = scene_hit(scene, r, HIT_EPS as int, i64::MAX as int).unwrap();
            scatter_ok_on(h.material, r.b@, h.p, h.normal, s)
        }),
        scatter_dir_ok(s.scattered.b@),
        possible_color(scene, s.scattered, depth + 1, rest),
        in_rgb(rest),
        c == vmul(s.attenuation@, rest),
    ensures
        possible_color(scene, r, depth, c),
{
    let h = scene_hit(scene, r, HIT_EPS as int, i64::MAX as int).unwrap();
    assert(scatter_ok_on(h.material, r.b@, h.p, h.normal, s));
    assert(possible_color(scene, s.scattered, depth + 1, rest));
}

proof fn lemma_possible_color_absorbed(scene: Seq<Sphere>, r: Ray, depth: int, s: ScatterRec)
    requires
        scene_hit(scene, r, HIT_EPS as int, i64::MAX as int).is_some(),
        depth < 50,
        ({
            let h = scene_hit(scene, r, HIT_EPS as int, i64::MAX as int).unwrap();
            scatter_ok_on(h.material, r.b@, h.p, h.normal, s)
        }),
        !scatter_dir_ok(s.scattered.b@),
    ensures
        possible_color(scene, r, depth, vzero()),
{
    let h = scene_hit(scene, r, HIT_EPS as int, i64::MAX as int).unwrap();
    assert(scatter_ok_on(h.material, r.b@, h.p, h.normal, s));
    // A ground instance for the witness pair's second trigger term.
    assert(vmul(s.attenuation@, vzero()).x == fmul(s.attenuation@.x, 0));
}

/// Recursive radiance estimate of a ray: the nearest hit scatters and
/// attenuates (bounded by 50 bounces, after which the path goes black),
/// a miss returns the sky gradient.  Every channel of the result stays
/// in `[0, 1]`, and the result is a possible radiance of the ray in the
/// sense of `possible_color`.
///
/// A scattered ray that is degenerate (zero direction) or outside the
/// tracer's numeric budget is treated as absorbed — a hardening that
/// well-scaled scenes never reach.
pub fn color(r: &Ray, world: &Hitables, rng: &mut rand::rngs::StdRng, depth: u32) -> (c: Vec3)
    requires
        scene_wf(world@),
        vbounded(r.a@, POS_BOUND as int),
        vbounded(r.b@, DIR_BOUND as int),
        !is_zero(r.b@),
    ensures
        in_rgb(c@),
        possible_color(world@, *r, depth as int, c@),
        scene_hit(world@, *r, HIT_EPS as int, i64::MAX as int).is_none() ==> c@ == background(
            r.b@,
        ),
        scene_hit(world@, *r, HIT_EPS as int, i64::MAX as int).is_some() && depth >= 50 ==> c@
            == vzero(),
    decreases 50 - depth,
{
    match world.hit(r, HIT_EPS, i64::MAX) {
        Some(rec) => {
            if depth < 50 {
                match rec.material.scatter(r, &rec, rng) {
                    Some(srec) => {
                        let d = srec.scattered.b;
                        if (-0x4_0000 <= d.x && d.x <= 0x4_0000 && -0x4_0000 <= d.y && d.y
                            <= 0x4_0000 && -0x4_0000 <= d.z && d.z <= 0x4_0000) && !(d.x == 0
                            && d.y == 0 && d.z == 0) {
                            let rest = color(&srec.scattered, world, rng, depth + 1);
                            proof {
                                lemma_fmul_unit_interval(srec.attenuation@.x, rest@.x);
                                lemma_fmul_unit_interval(srec.attenuation@.y, rest@.y);
                                lemma_fmul_unit_interval(srec.attenuation@.z, rest@.z);
                            }
                            let out = srec.attenuation.mul(rest);
                            proof {
                                let h = scene_hit(
                                    world@,
                                    *r,
                                    HIT_EPS as int,
                                    i64::MAX as int,
                                ).unwrap();
                                assert(scatter_ok_on(h.material, r.b@, h.p, h.normal, srec));
                                lemma_possible_color_hit(
                                    world@,
                                    *r,
                                    depth as int,
                                    srec,
                                    rest@,
                                    out@,
                                );
                            }
                            return out;
                        } else {
                            proof {
                                let h = scene_hit(
                                    world@,
                                    *r,
                                    HIT_EPS as int,
                                    i64::MAX as int,
                                ).unwrap();
                                assert(scatter_ok_on(h.material, r.b@, h.p, h.normal, srec));
                                lemma_possible_color_absorbed(world@, *r, depth as int, srec);
                            }
                        }
                    },
                    None => {},
                }
            }
            Vec3::zero()
        },
        None => {
            let ud = r.b.unit_vector();
            let t = (((ud.y() + 4096) as u64) / 2) as i64;
            let white = Vec3::new(4096, 4096, 4096);
            let sky = Vec3::new(2048, 2867, 4096);
            white.scale(4096 - t).add(sky.scale(t))
        },
    }
}

/// Gamma-2 correction (square root) and 8-bit quantization of a channel
/// in `[0, 1]`.
pub open spec fn channel_of(c: int) -> int {
    tdiv((sqrt_floor((c * (SCALE as int)) as nat) as int) * 25599, 409600)
}

/// Quantize one color channel: gamma correction then
/// `floor(255.99 * channel)`.  Quantization is deliberately unclamped:
/// it cannot overflow because every traced channel is proven to lie in
/// `[0, 1]` (attenuations are colors), which the precondition records.
pub fn to_channel(c: i64) -> (r: u32)
    requires
        0 <= c <= SCALE,
    ensures
        r == channel_of(c as int),
        r <= 255,
{
    let g = isqrt((c as u128) * 4096);
    proof {
        assert(g <= 4096) by (nonlinear_arith)
            requires
                g * g <= (c as int) * 4096,
                (c as int) * 4096 <= 4096 * 4096,
                g >= 0,
        ;
    }
    let gi = (g as u64) * 25599;
    let q = gi / 409600;
    q as u32
}

/// A color one jittered sample of pixel `(i, j)` can produce: a possible
/// radiance of the camera ray through the pixel's jitter square.
pub open spec fn possible_sample(
    scene: Seq<Sphere>,
    i: int,
    j: int,
    nx: int,
    ny: int,
    c: Vec3g,
) -> bool {
    exists|du: int, dv: int, sr: Ray|
        #![trigger cam_dir(
            tdiv(i * (SCALE as int) + du, nx),
            tdiv(j * (SCALE as int) + dv, ny),
        ), possible_color(scene, sr, 0, c)]
        0 <= du < SCALE && 0 <= dv < SCALE && sr.a@ == vzero() && sr.b@ == cam_dir(
            tdiv(i * (SCALE as int) + du, nx),
            tdiv(j * (SCALE as int) + dv, ny),
        ) && possible_color(scene, sr, 0, c)
}

/// Average `ns` samples, gamma-correct each channel and pack `0xRRGGBB`.
pub open spec fn avg_pack(total: Vec3g, ns: int) -> int {
    let d = ns * (SCALE as int);
    channel_of(fdiv(total.x, d)) * 65536 + channel_of(fdiv(total.y, d)) * 256 + channel_of(
        fdiv(total.z, d),
    )
}

/// A packed value pixel `(i, j)` can produce: the quantized average of
/// `ns` possible samples.
pub open spec fn possible_pixel(
    scene: Seq<Sphere>,
    i: int,
    j: int,
    nx: int,
    ny: int,
    ns: int,
    px: int,
) -> bool {
    exists|samples: Seq<Vec3>|
        #![trigger vsum(samples)]
        samples.len() == ns && (forall|k: int|
            0 <= k < samples.len() ==> in_rgb(#[trigger] samples[k]@) && possible_sample(
                scene,
                i,
                j,
                nx,
                ny,
                samples[k]@,
            )) && px == avg_pack(vsum(samples), ns)
}

/// One pixel's color: `ns` jittered samples through the camera,
/// averaged, gamma-corrected and packed as `0xRRGGBB`.
pub fn pixel_color(
    cam: &Camera,
    world: &Hitables,
    rng: &mut rand::rngs::StdRng,
    i: usize,
    j: usize,
    nx: usize,
    ny: usize,
    ns: usize,
) -> (px: u32)
    requires
        camera_wf(*cam),
        scene_wf(world@),
        i < nx,
        j < ny,
        nx <= 0x10000,
        ny <= 0x10000,
        1 <= ns <= 0x10000,
    ensures
        px < 0x100_0000,
        possible_pixel(world@, i as int, j as int, nx as int, ny as int, ns as int, px as int),
{
    let mut samples: Vec<Vec3> = Vec::new();
    let mut k: usize = 0;
    while k < ns
        invariant
            camera_wf(*cam),
            scene_wf(world@),
            i < nx,
            j < ny,
            nx <= 0x10000,
            ny <= 0x10000,
            ns <= 0x10000,
            k <= ns,
            samples@.len() == k,
            forall|m: int| 0 <= m < k ==> in_rgb(#[trigger] samples@[m]@),
            forall|m: int|
                0 <= m < k ==> possible_sample(
                    world@,
                    i as int,
                    j as int,
                    nx as int,
                    ny as int,
                    #[trigger] samples@[m]@,
                ),
        decreases ns - k,
    {
        let du = crate::rng::next_unit(rng);
        let dv = crate::rng::next_unit(rng);
        let nu = (i as u64) * 4096 + (du as u64);
        let nv = (j as u64) * 4096 + (dv as u64);
        proof {
            lemma_tdiv_mag(nu as int, nx as int, 4096);
            lemma_tdiv_mag(nv as int, ny as int, 4096);
        }
        let u = (nu / (nx as u64)) as i64;
        let v = (nv / (ny as u64)) as i64;
        let ray = cam.get_ray(u, v);
        let c = color(&ray, world, rng, 0);
        proof {
            assert(u as int == tdiv((i as int) * (SCALE as int) + du, nx as int));
            assert(v as int == tdiv((j as int) * (SCALE as int) + dv, ny as int));
            assert(ray.b@ == cam_dir(
                tdiv((i as int) * (SCALE as int) + du, nx as int),
                tdiv((j as int) * (SCALE as int) + dv, ny as int),
            ));
            assert(possible_color(world@, ray, 0, c@));
            assert(possible_sample(world@, i as int, j as int, nx as int, ny as int, c@));
        }
        samples.push(c);
        k = k + 1;
    }
    let mut col = Vec3::sum(&samples);
    let ghost total = col@;
    proof {
        lemma_tdiv_mag(col@.x * 4096, (ns * 4096) as int, 4096);
        lemma_tdiv_mag(col@.y * 4096, (ns * 4096) as int, 4096);
        lemma_tdiv_mag(col@.z * 4096, (ns * 4096) as int, 4096);
    }
    col = col.div((ns as i64) * 4096);
    let ir = to_channel(col.x());
    let ig = to_channel(col.y());
    let ib = to_channel(col.z());
    let px = ir * 65536 + ig * 256 + ib;
    proof {
        assert(col@.x == fdiv(total.x, (ns as int) * (SCALE as int)));
        assert(px as int == avg_pack(vsum(samples@), ns as int));
        assert(possible_pixel(
            world@,
            i as int,
            j as int,
            nx as int,
            ny as int,
            ns as int,
            px as int,
        ));
    }
    px
}

/// One image row of packed pixels, left to right.
pub fn render_row(
    cam: &Camera,
    world: &Hitables,
    rng: &mut rand::rngs::StdRng,
    j: usize,
    nx: usize,
    ny: usize,
    ns: usize,
) -> (row: Vec<u32>)
    requires
        camera_wf(*cam),
        scene_wf(world@),
        j < ny,
        nx <= 0x10000,
        ny <= 0x10000,
        1 <= ns <= 0x10000,
    ensures
        row@.len() == nx,
        forall|k: int| 0 <= k < nx ==> #[trigger] row@[k] < 0x100_0000,
        forall|k: int|
            0 <= k < nx ==> possible_pixel(
                world@,
                k,
                j as int,
                nx as int,
                ny as int,
                ns as int,
                #[trigger] row@[k] as int,
            ),
{
    let mut row: Vec<u32> = Vec::new();
    let mut i: usize = 0;
    while i < nx
        invariant
            camera_wf(*cam),
            scene_wf(world@),
            j < ny,
            nx <= 0x10000,
            ny <= 0x10000,
            1 <= ns <= 0x10000,
            i <= nx,
            row@.len() == i,
            forall|k: int| 0 <= k < i ==> #[trigger] row@[k] < 0x100_0000,
            forall|k: int|
                0 <= k < i ==> possible_pixel(
                    world@,
                    k,
                    j as int,
                    nx as int,
                    ny as int,
                    ns as int,
                    #[trigger] row@[k] as int,
                ),
        decreases nx - i,
    {
        let px = pixel_color(cam, world, rng, i, j, nx, ny, ns);
        row.push(px);
        i = i + 1;
    }
    row
}

/// The whole frame, row-major with row 0 the visual top: sample row
/// `ny - 1` is written first (the image plane's `v` grows upward while
/// the buffer grows downward).
pub fn render(
    cam: &Camera,
    world: &Hitables,
    rng: &mut rand::rngs::StdRng,
    nx: usize,
    ny: usize,
    ns: usize,
) -> (buf: Vec<u32>)
    requires
        camera_wf(*cam),
        scene_wf(world@),
        1 <= nx <= 0x10000,
        1 <= ny <= 0x10000,
        1 <= ns <= 0x10000,
    ensures
        buf@.len() == nx * ny,
        forall|k: int| 0 <= k < buf@.len() ==> #[trigger] buf@[k] < 0x100_0000,
        forall|jj: int, ii: int|
            0 <= jj < ny && 0 <= ii < nx ==> possible_pixel(
                world@,
                ii,
                (ny as int) - 1 - jj,
                nx as int,
                ny as int,
                ns as int,
                #[trigger] buf@[jj * (nx as int) + ii] as int,
            ),
{
    let mut buf: Vec<u32> = Vec::new();
    let mut jj: usize = 0;
    while jj < ny
        invariant
            camera_wf(*cam),
            scene_wf(world@),
            1 <= nx <= 0x10000,
            1 <= ny <= 0x10000,
            1 <= ns <= 0x10000,
            jj <= ny,
            buf@.len() == jj * nx,
            forall|k: int| 0 <= k < buf@.len() ==> #[trigger] buf@[k] < 0x100_0000,
            forall|j2: int, ii: int|
                0 <= j2 < jj && 0 <= ii < nx ==> possible_pixel(
                    world@,
                    ii,
                    (ny as int) - 1 - j2,
                    nx as int,
                    ny as int,
                    ns as int,
                    #[trigger] buf@[j2 * (nx as int) + ii] as int,
                ),
        decreases ny - jj,
    {
        let j = ny - 1 - jj;
        let row = render_row(cam, world, rng, j, nx, ny, ns);
        let mut i: usize = 0;
        while i < nx
            invariant
                camera_wf(*cam),
                scene_wf(world@),
                i <= nx,
                row@.len() == nx,
                buf@.len() == jj * nx + i,
                jj < ny,
                j == ny - 1 - jj,
                1 <= nx <= 0x10000,
                1 <= ny <= 0x10000,
                1 <= ns <= 0x10000,
                forall|k: int| 0 <= k < row@.len() ==> #[trigger] row@[k] < 0x100_0000,
                forall|k: int|
                    0 <= k < nx ==> possible_pixel(
                        world@,
                        k,
                        j as int,
                        nx as int,
                        ny as int,
                        ns as int,
                        #[trigger] row@[k] as int,
                    ),
                forall|k: int| 0 <= k < buf@.len() ==> #[trigger] buf@[k] < 0x100_0000,
                forall|j2: int, ii: int|
                    0 <= j2 < jj && 0 <= ii < nx ==> possible_pixel(
                        world@,
                        ii,
                        (ny as int) - 1 - j2,
                        nx as int,
                        ny as int,
                        ns as int,
                        #[trigger] buf@[j2 * (nx as int) + ii] as int,
                    ),
                forall|ii: int|
                    0 <= ii < i ==> possible_pixel(
                        world@,
                        ii,
                        (ny as int) - 1 - (jj as int),
                        nx as int,
                        ny as int,
                        ns as int,
                        #[trigger] buf@[(jj as int) * (nx as int) + ii] as int,
                    ),
            decreases nx - i,
        {
            proof {
                assert(jj * nx + nx <= 0x10000 * 0x10000) by (nonlinear_arith)
                    requires
                        0 <= jj,
                        jj < ny,
                        ny <= 0x10000,
                        nx <= 0x10000,
                ;
            }
            let px = row[i];
            let ghost buf0 = buf@;
            buf.push(px);
            proof {
                assert forall|j2: int, ii: int| 0 <= j2 < jj && 0 <= ii < nx implies possible_pixel(
                    world@,
                    ii,
                    (ny as int) - 1 - j2,
                    nx as int,
                    ny as int,
                    ns as int,
                    #[trigger] buf@[j2 * (nx as int) + ii] as int,
                ) by {
                    assert(0 <= j2 * (nx as int) + ii && (j2 + 1) * (nx as int) <= (jj as int) * (
                    nx as int)) by (nonlinear_arith)
                        requires
                            0 <= j2 < jj as int,
                            0 <= ii < nx as int,
                    ;
                    assert(j2 * (nx as int) + ii < (j2 + 1) * (nx as int)) by (nonlinear_arith)
                        requires
                            0 <= ii < nx as int,
                    ;
                    assert(buf@[j2 * (nx as int) + ii] == buf0[j2 * (nx as int) + ii]);
                }
                assert(buf@[(jj as int) * (nx as int) + (i as int)] == row@[i as int]);
            }
            i = i + 1;
        }
        proof {
            assert(jj * nx + nx == (jj + 1) * nx) by (nonlinear_arith);
            let ghost bufn = buf@;
            assert forall|j2: int, ii: int|
                0 <= j2 < jj + 1 && 0 <= ii < nx implies possible_pixel(
                world@,
                ii,
                (ny as int) - 1 - j2,
                nx as int,
                ny as int,
                ns as int,
                #[trigger] bufn[j2 * (nx as int) + ii] as int,
            ) by {
                if j2 == jj as int {
                    assert(bufn[(jj as int) * (nx as int) + ii] == bufn[j2 * (nx as int) + ii]);
                }
            }
        }
        jj = jj + 1;
    }
    proof {
        assert(ny * nx == nx * ny) by (nonlinear_arith);
    }
    buf
}



} // verus!
