//! Material scattering: a closed set of behaviors — diffuse (Lambertian),
//! metal and dielectric — dispatched over a tagged sum type.

use vstd::prelude::*;

use crate::fixed::{
    clampi, clamp_mag, fdiv, fmul, fp_div, fp_mul, iabs, isqrt, lemma_fdiv_mag, lemma_fmul_mag,
    lemma_tdiv_mag, sqrt_floor, tdiv, DIR_BOUND, NORM_BOUND, SCAT_BOUND, SCALE,
};
use crate::hitable::{rec_wf, HitRecord};
use crate::ray::Ray;
use crate::vec3::{
    in_rgb, is_zero, lemma_mul_mag, lemma_raw_dot_self_nonneg, raw_dot, vadd, vbounded, vdot,
    vneg, vone, vscale, vsub, vunit, Vec3, Vec3g,
};

verus! {

#[derive(Clone, Copy, Debug)]
pub struct Lambertian {
    pub albedo: Vec3,
}

#[derive(Clone, Copy, Debug)]
pub struct Metal {
    pub albedo: Vec3,
    pub fuzz: i64,
}

#[derive(Clone, Copy, Debug)]
pub struct Dielectric {
    pub ref_idx: i64,
}

#[derive(Clone, Copy, Debug)]
pub enum Material {
    Lambertian(Lambertian),
    Metal(Metal),
    Dielectric(Dielectric),
}

/// A scatter result: the color attenuation and the outgoing ray.
#[derive(Clone, Copy, Debug)]
pub struct ScatterRec {
    pub attenuation: Vec3,
    pub scattered: Ray,
}

/// Validity of a material: attenuations are colors in `[0, 1]`; the
/// metal fuzz lies in `[0, 1]`; the refractive index lies in `[1/4, 4]`
/// so the fixed-point Snell and Schlick formulas stay in range.
pub open spec fn mat_wf(m: Material) -> bool {
    match m {
        Material::Lambertian(l) => in_rgb(l.albedo@),
        Material::Metal(mt) => in_rgb(mt.albedo@) && 0 <= mt.fuzz <= SCALE,
        Material::Dielectric(d) => 1024 <= d.ref_idx <= 16384,
    }
}

impl Lambertian {
    pub fn new(a: i64, b: i64, c: i64) -> (m: Material)
        requires
            0 <= a <= SCALE,
            0 <= b <= SCALE,
            0 <= c <= SCALE,
        ensures
            m == Material::Lambertian(Lambertian { albedo: Vec3 { x: a, y: b, z: c } }),
            mat_wf(m),
    {
        Material::Lambertian(Lambertian { albedo: Vec3::new(a, b, c) })
    }
}

impl Metal {
    /// The albedo is a color and the fuzz is kept in `[0, 1]`: larger
    /// fuzz would aim reflections into the surface, so bounding it here
    /// is the deliberate strengthening of the unclamped design.
    pub fn new(a: i64, b: i64, c: i64, fuzz: i64) -> (m: Material)
        requires
            0 <= a <= SCALE,
            0 <= b <= SCALE,
            0 <= c <= SCALE,
            0 <= fuzz <= SCALE,
        ensures
            m == Material::Metal(Metal { albedo: Vec3 { x: a, y: b, z: c }, fuzz }),
            mat_wf(m),
    {
        Material::Metal(Metal { albedo: Vec3::new(a, b, c), fuzz })
    }
}

impl Dielectric {
    /// Refractive indices are kept in the fixed-point range `[1/4, 4]`,
    /// which covers every physical glass and keeps the formulas in range.
    pub fn new(ref_idx: i64) -> (m: Material)
        requires
            1024 <= ref_idx <= 16384,
        ensures
            m == Material::Dielectric(Dielectric { ref_idx }),
            mat_wf(m),
    {
        Material::Dielectric(Dielectric { ref_idx })
    }
}

/// Fixed-point mirror reflection `v - 2 (v . n) n`.
pub open spec fn vreflect(v: Vec3g, n: Vec3g) -> Vec3g {
    vsub(v, vscale(n, 2 * vdot(v, n)))
}

/// The rounding-free reflection, scaled by `SCALE^2` so it stays an
/// integer: the algebra law below speaks of this exact form.
pub open spec fn vreflect_exact(v: Vec3g, n: Vec3g) -> Vec3g {
    let s2 = (SCALE as int) * (SCALE as int);
    let d = raw_dot(v, n);
    Vec3g { x: v.x * s2 - 2 * d * n.x, y: v.y * s2 - 2 * d * n.y, z: v.z * s2 - 2 * d * n.z }
}

/// Mirror-reflection law: against a unit-length normal, the exact
/// reflection's dot with the normal is the negation of the incoming
/// dot (both sides carry the `SCALE^2` of the exact form).
pub proof fn lemma_reflect_mirror(v: Vec3g, n: Vec3g)
    requires
        raw_dot(n, n) == (SCALE as int) * (SCALE as int),
    ensures
        raw_dot(vreflect_exact(v, n), n) == -(((SCALE as int) * (SCALE as int)) * raw_dot(v, n)),
{
    let s2 = (SCALE as int) * (SCALE as int);
    let d = raw_dot(v, n);
    assert((v.x * s2 - 2 * d * n.x) * n.x == s2 * (v.x * n.x) - 2 * d * (n.x * n.x))
        by (nonlinear_arith);
    assert((v.y * s2 - 2 * d * n.y) * n.y == s2 * (v.y * n.y) - 2 * d * (n.y * n.y))
        by (nonlinear_arith);
    assert((v.z * s2 - 2 * d * n.z) * n.z == s2 * (v.z * n.z) - 2 * d * (n.z * n.z))
        by (nonlinear_arith);
    assert(s2 * (v.x * n.x) + s2 * (v.y * n.y) + s2 * (v.z * n.z) == s2 * (v.x * n.x + v.y * n.y
        + v.z * n.z)) by (nonlinear_arith);
    assert(2 * d * (n.x * n.x) + 2 * d * (n.y * n.y) + 2 * d * (n.z * n.z) == 2 * d * (n.x * n.x
        + n.y * n.y + n.z * n.z)) by (nonlinear_arith);
    assert(s2 * d - 2 * d * s2 == -(s2 * d)) by (nonlinear_arith);
}

/// Executable mirror reflection.
pub fn reflect(v: &Vec3, n: &Vec3) -> (r: Vec3)
    requires
        vbounded(v@, DIR_BOUND as int),
        vbounded(n@, NORM_BOUND as int),
    ensures
        r@ == vreflect(v@, n@),
        vbounded(r@, 0x64_0000),
{
    proof {
        lemma_mul_mag(v@.x, n@.x, DIR_BOUND as int, NORM_BOUND as int);
        lemma_mul_mag(v@.y, n@.y, DIR_BOUND as int, NORM_BOUND as int);
        lemma_mul_mag(v@.z, n@.z, DIR_BOUND as int, NORM_BOUND as int);
        lemma_tdiv_mag(raw_dot(v@, n@), SCALE as int, 0x18_0000);
    }
    let d = v.dot(n);
    let k = 2 * d;
    proof {
        lemma_fmul_mag(n@.x, k as int, NORM_BOUND as int, 0x30_0000);
        lemma_fmul_mag(n@.y, k as int, NORM_BOUND as int, 0x30_0000);
        lemma_fmul_mag(n@.z, k as int, NORM_BOUND as int, 0x30_0000);
    }
    let scaled = n.scale(k);
    v.sub(scaled)
}

/// Snell refraction: `Some` when the refraction discriminant is
/// positive, `None` on total internal reflection.
pub open spec fn refract_spec(v: Vec3g, n: Vec3g, eta: int) -> Option<Vec3g> {
    let uv = vunit(v);
    let dt = vdot(uv, n);
    let disc = (SCALE as int) - fmul(fmul(eta, eta), (SCALE as int) - fmul(dt, dt));
    if disc > 0 {
        Some(
            vsub(
                vscale(vsub(uv, vscale(n, dt)), eta),
                vscale(n, sqrt_floor((disc * (SCALE as int)) as nat) as int),
            ),
        )
    } else {
        None
    }
}

/// Executable refraction.
pub fn refract(v: &Vec3, n: &Vec3, ni_over_nt: i64) -> (r: Option<Vec3>)
    requires
        vbounded(v@, DIR_BOUND as int),
        !is_zero(v@),
        vbounded(n@, NORM_BOUND as int),
        0 <= ni_over_nt <= 16384,
    ensures
        ({
            let s = refract_spec(v@, n@, ni_over_nt as int);
            match r {
                Some(w) => s == Some(w@) && vbounded(w@, 0x8_0000),
                None => s.is_none(),
            }
        }),
{
    let uv = v.unit_vector();
    proof {
        lemma_mul_mag(uv@.x, n@.x, SCALE as int, NORM_BOUND as int);
        lemma_mul_mag(uv@.y, n@.y, SCALE as int, NORM_BOUND as int);
        lemma_mul_mag(uv@.z, n@.z, SCALE as int, NORM_BOUND as int);
        lemma_tdiv_mag(raw_dot(uv@, n@), SCALE as int, 0x6000);
    }
    let dt = uv.dot(n);
    proof {
        lemma_fmul_mag(dt as int, dt as int, 0x6000, 0x6000);
        lemma_fmul_mag(ni_over_nt as int, ni_over_nt as int, 0x4000, 0x4000);
    }
    let dt2 = fp_mul(dt, dt);
    let eta2 = fp_mul(ni_over_nt, ni_over_nt);
    let inner = 4096 - dt2;
    proof {
        lemma_fmul_mag(eta2 as int, inner as int, 0x1_0000, 0x2_5000);
    }
    let prod = fp_mul(eta2, inner);
    let disc = 4096 - prod;
    if disc > 0 {
        let sq_u = isqrt((disc as u128) * 4096);
        proof {
            assert(sq_u < 0x2_0000) by (nonlinear_arith)
                requires
                    sq_u * sq_u <= (disc as int) * 4096,
                    (disc as int) * 4096 < 0x4_0000_0000,
                    sq_u >= 0,
            ;
        }
        let sq = sq_u as i64;
        proof {
            lemma_fmul_mag(n@.x, dt as int, NORM_BOUND as int, 0x6000);
            lemma_fmul_mag(n@.y, dt as int, NORM_BOUND as int, 0x6000);
            lemma_fmul_mag(n@.z, dt as int, NORM_BOUND as int, 0x6000);
        }
        let ndt = n.scale(dt);
        let w1 = uv.sub(ndt);
        proof {
            lemma_fmul_mag(w1@.x, ni_over_nt as int, 0xd000, 0x4000);
            lemma_fmul_mag(w1@.y, ni_over_nt as int, 0xd000, 0x4000);
            lemma_fmul_mag(w1@.z, ni_over_nt as int, 0xd000, 0x4000);
            lemma_fmul_mag(n@.x, sq as int, NORM_BOUND as int, 0x2_0000);
            lemma_fmul_mag(n@.y, sq as int, NORM_BOUND as int, 0x2_0000);
            lemma_fmul_mag(n@.z, sq as int, NORM_BOUND as int, 0x2_0000);
        }
        let w2 = w1.scale(ni_over_nt);
        let w3 = n.scale(sq);
        Some(w2.sub(w3))
    } else {
        None
    }
}

/// Schlick's reflectance approximation.
pub open spec fn schlick_spec(c: int, ri: int) -> int {
    let r0a = fdiv((SCALE as int) - ri, (SCALE as int) + ri);
    let r0 = fmul(r0a, r0a);
    let x = (SCALE as int) - c;
    let x2 = fmul(x, x);
    let x4 = fmul(x2, x2);
    let x5 = fmul(x4, x);
    r0 + fmul((SCALE as int) - r0, x5)
}

/// Executable Schlick reflectance.
pub fn schlick(cosine: i64, ref_idx: i64) -> (r: i64)
    requires
        iabs(cosine as int) <= 16384,
        1024 <= ref_idx <= 16384,
    ensures
        r == schlick_spec(cosine as int, ref_idx as int),
{
    proof {
        lemma_tdiv_mag(((SCALE as int) - ref_idx) * (SCALE as int), (SCALE as int) + ref_idx,
            0x3000);
    }
    let r0a = fp_div(4096 - ref_idx, 4096 + ref_idx);
    proof {
        lemma_fmul_mag(r0a as int, r0a as int, 0x3000, 0x3000);
    }
    let r0 = fp_mul(r0a, r0a);
    let x = 4096 - cosine;
    proof {
        lemma_fmul_mag(x as int, x as int, 0x5000, 0x5000);
    }
    let x2 = fp_mul(x, x);
    proof {
        lemma_fmul_mag(x2 as int, x2 as int, 0x1_9000, 0x1_9000);
    }
    let x4 = fp_mul(x2, x2);
    proof {
        lemma_fmul_mag(x4 as int, x as int, 0x27_1000, 0x5000);
    }
    let x5 = fp_mul(x4, x);
    proof {
        lemma_fmul_mag((SCALE as int) - r0, x5 as int, 0xa000, 0xc3_5000);
    }
    let t = fp_mul(4096 - r0, x5);
    r0 + t
}

/// A vector strictly inside the fixed-point unit sphere.
pub open spec fn in_sphere(q: Vec3g) -> bool {
    raw_dot(q, q) < (SCALE as int) * (SCALE as int)
}

/// A uniformly random point strictly inside the unit sphere, by bounded
/// rejection sampling; after 64 misses (probability below 1e-20) it
/// falls back to the center, which lies inside the sphere.
fn random_in_unit_sphere(rng: &mut rand::rngs::StdRng) -> (p: Vec3)
    ensures
        in_sphere(p@),
        vbounded(p@, SCALE as int),
{
    let mut k: usize = 0;
    while k < 64
        invariant
            k <= 64,
        decreases 64 - k,
    {
        let r1 = crate::rng::next_unit(rng);
        let r2 = crate::rng::next_unit(rng);
        let r3 = crate::rng::next_unit(rng);
        let p = Vec3::new(2 * r1 - 4096, 2 * r2 - 4096, 2 * r3 - 4096);
        let sl = p.squared_length();
        if sl < 4096 {
            proof {
                lemma_raw_dot_self_nonneg(p@);
                let rd = raw_dot(p@, p@);
                assert(tdiv(rd, SCALE as int) == rd / 4096);
                assert(rd < 4096 * 4096) by (nonlinear_arith)
                    requires
                        rd >= 0,
                        rd / 4096 < 4096,
                ;
            }
            return p;
        }
        k = k + 1;
    }
    Vec3::zero()
}

/// What `scatter` promises of its result, over the incoming direction
/// and the hit point and normal of the struck surface.
pub open spec fn scatter_ok_on(
    m: Material,
    in_dir: Vec3g,
    p: Vec3g,
    normal: Vec3g,
    s: ScatterRec,
) -> bool {
    &&& s.scattered.a@ == p
    &&& vbounded(s.scattered.b@, SCAT_BOUND as int)
    &&& in_rgb(s.attenuation@)
    &&& match m {
        Material::Lambertian(l) => {
            &&& s.attenuation@ == l.albedo@
            &&& in_sphere(vsub(s.scattered.b@, normal))
        },
        Material::Metal(mt) => {
            &&& s.attenuation@ == mt.albedo@
            &&& exists|q: Vec3g|
                in_sphere(q) && s.scattered.b@ == vadd(
                    vreflect(vunit(in_dir), normal),
                    #[trigger] vscale(q, mt.fuzz as int),
                )
            &&& (mt.fuzz == 0 ==> s.scattered.b@ == vreflect(vunit(in_dir), normal))
        },
        Material::Dielectric(d) => {
            &&& s.attenuation@ == vone()
            &&& dielectric_dir_ok(d, in_dir, normal, s.scattered.b@)
        },
    }
}

/// What `scatter` promises of its result.
pub open spec fn scatter_ok(m: Material, r_in: Ray, rec: HitRecord, s: ScatterRec) -> bool {
    scatter_ok_on(m, r_in.b@, rec.p@, rec.normal@, s)
}

/// The cosine fed to the Schlick reflectance, as the dielectric computes
/// it: the incidence dot over the incoming length, scaled by the index
/// on exit, and clamped to the range later arithmetic needs (the clamp
/// never alters a geometrically consistent value).
pub open spec fn dielectric_cosine(d: Dielectric, in_dir: Vec3g, normal: Vec3g) -> int {
    let dd = vdot(in_dir, normal);
    let len = sqrt_floor(raw_dot(in_dir, in_dir) as nat) as int;
    clampi(
        if dd > 0 { fdiv(fmul(d.ref_idx as int, dd), len) } else { fdiv(-dd, len) },
        16384,
    )
}

/// The dielectric's choice for a given uniform draw: reflect when the
/// draw undercuts the Schlick reflectance, refract otherwise.
pub open spec fn dielectric_pick(u: int, refl: Vec3g, refr: Vec3g, cosv: int, ri: int) -> Vec3g {
    if u < schlick_spec(cosv, ri) {
        refl
    } else {
        refr
    }
}

/// The dielectric draws one uniform value and compares it with the
/// Schlick reflectance: below it the mirror reflection of the incoming
/// direction comes out, otherwise the Snell refraction; on total
/// internal reflection only the reflection can come out.
pub open spec fn dielectric_dir_ok(d: Dielectric, in_dir: Vec3g, normal: Vec3g, dir: Vec3g) -> bool {
    let dd = vdot(in_dir, normal);
    let outward = if dd > 0 { vneg(normal) } else { normal };
    let eta = if dd > 0 { d.ref_idx as int } else { fdiv(SCALE as int, d.ref_idx as int) };
    let cosv = dielectric_cosine(d, in_dir, normal);
    let rs = refract_spec(in_dir, outward, eta);
    if rs.is_some() {
        exists|u: int, w: Vec3g|
            rs == Some(w) && 0 <= u < SCALE && dir == #[trigger] dielectric_pick(
                u,
                vreflect(in_dir, normal),
                w,
                cosv,
                d.ref_idx as int,
            )
    } else {
        dir == vreflect(in_dir, normal)
    }
}

proof fn lemma_dielectric_pick_witness(
    d: Dielectric,
    in_dir: Vec3g,
    normal: Vec3g,
    w: Vec3g,
    u: int,
    dir: Vec3g,
)
    requires
        ({
            let dd = vdot(in_dir, normal);
            let outward = if dd > 0 { vneg(normal) } else { normal };
            let eta = if dd > 0 { d.ref_idx as int } else { fdiv(SCALE as int, d.ref_idx as int) };
            refract_spec(in_dir, outward, eta) == Some(w)
        }),
        0 <= u < SCALE,
        dir == dielectric_pick(
            u,
            vreflect(in_dir, normal),
            w,
            dielectric_cosine(d, in_dir, normal),
            d.ref_idx as int,
        ),
    ensures
        dielectric_dir_ok(d, in_dir, normal, dir),
{
    let dd = vdot(in_dir, normal);
    let outward = if dd > 0 { vneg(normal) } else { normal };
    let eta = if dd > 0 { d.ref_idx as int } else { fdiv(SCALE as int, d.ref_idx as int) };
    let rs = refract_spec(in_dir, outward, eta);
    assert(rs == Some(w));
    let cosv = dielectric_cosine(d, in_dir, normal);
    assert(dir == dielectric_pick(u, vreflect(in_dir, normal), w, cosv, d.ref_idx as int));
}

proof fn lemma_dielectric_tir(d: Dielectric, in_dir: Vec3g, normal: Vec3g, dir: Vec3g)
    requires
        ({
            let dd = vdot(in_dir, normal);
            let outward = if dd > 0 { vneg(normal) } else { normal };
            let eta = if dd > 0 { d.ref_idx as int } else { fdiv(SCALE as int, d.ref_idx as int) };
            refract_spec(in_dir, outward, eta) is None
        }),
        dir == vreflect(in_dir, normal),
    ensures
        dielectric_dir_ok(d, in_dir, normal, dir),
{
}

impl Material {
    /// Consume a hit and the incoming ray, produce the outgoing ray and
    /// attenuation.  Every material of this closed set scatters (none
    /// absorbs), so the result is always `Some`.
    pub fn scatter(&self, r_in: &Ray, rec: &HitRecord, rng: &mut rand::rngs::StdRng) -> (r:
        Option<ScatterRec>)
        requires
            mat_wf(*self),
            rec_wf(*rec),
            vbounded(r_in.b@, DIR_BOUND as int),
            !is_zero(r_in.b@),
        ensures
            r.is_some(),
            scatter_ok(*self, *r_in, *rec, r.unwrap()),
    {
        match self {
            Material::Lambertian(l) => {
                let p = random_in_unit_sphere(rng);
                let target = rec.p.add(rec.normal).add(p);
                let dir = target.sub(rec.p);
                let scattered = Ray::new(&rec.p, &dir);
                Some(ScatterRec { attenuation: l.albedo, scattered })
            },
            Material::Metal(mt) => {
                let unit_in = r_in.b.unit_vector();
                let reflected = reflect(&unit_in, &rec.normal);
                let p = random_in_unit_sphere(rng);
                proof {
                    lemma_fmul_mag(p@.x, mt.fuzz as int, SCALE as int, SCALE as int);
                    lemma_fmul_mag(p@.y, mt.fuzz as int, SCALE as int, SCALE as int);
                    lemma_fmul_mag(p@.z, mt.fuzz as int, SCALE as int, SCALE as int);
                }
                let fz = p.scale(mt.fuzz);
                let dir = reflected.add(fz);
                let scattered = Ray::new(&rec.p, &dir);
                let res = ScatterRec { attenuation: mt.albedo, scattered };
                proof {
                    assert(dir@ == vadd(
                        vreflect(vunit(r_in.b@), rec.normal@),
                        vscale(p@, mt.fuzz as int),
                    ));
                    if mt.fuzz == 0 {
                        assert(p@.x * 0 == 0);
                        assert(p@.y * 0 == 0);
                        assert(p@.z * 0 == 0);
                        assert(tdiv(0, SCALE as int) == 0);
                        assert(vscale(p@, 0) == (Vec3g { x: 0, y: 0, z: 0 }));
                        assert(dir@ == vreflect(vunit(r_in.b@), rec.normal@));
                    }
                }
                Some(res)
            },
            Material::Dielectric(d) => {
                let reflected = reflect(&r_in.b, &rec.normal);
                let attenuation = Vec3::new(4096, 4096, 4096);
                proof {
                    lemma_mul_mag(r_in.b@.x, rec.normal@.x, DIR_BOUND as int, NORM_BOUND as int);
                    lemma_mul_mag(r_in.b@.y, rec.normal@.y, DIR_BOUND as int, NORM_BOUND as int);
                    lemma_mul_mag(r_in.b@.z, rec.normal@.z, DIR_BOUND as int, NORM_BOUND as int);
                    lemma_tdiv_mag(raw_dot(r_in.b@, rec.normal@), SCALE as int, 0x18_0000);
                }
                let dd = r_in.b.dot(&rec.normal);
                let len = r_in.b.length();
                let (outward, eta, cosine_raw): (Vec3, i64, i64) = if dd > 0 {
                    proof {
                        lemma_fmul_mag(d.ref_idx as int, dd as int, 0x4000, 0x18_0000);
                    }
                    let q1 = fp_mul(d.ref_idx, dd);
                    proof {
                        lemma_fdiv_mag(q1 as int, len as int, 0x60_0000);
                    }
                    let c = fp_div(q1, len);
                    (rec.normal.neg(), d.ref_idx, c)
                } else {
                    proof {
                        lemma_tdiv_mag((SCALE as int) * (SCALE as int), d.ref_idx as int, 0x4000);
                    }
                    let eta = fp_div(4096, d.ref_idx);
                    proof {
                        lemma_fdiv_mag(-(dd as int), len as int, 0x18_0000);
                    }
                    let c = fp_div(-dd, len);
                    (rec.normal, eta, c)
                };
                let cosine = clamp_mag(cosine_raw, 16384);
                let refr = refract(&r_in.b, &outward, eta);
                let u = crate::rng::next_unit(rng);
                proof {
                    assert(cosine as int == dielectric_cosine(*d, r_in.b@, rec.normal@));
                    assert(outward@ == (if vdot(r_in.b@, rec.normal@) > 0 {
                        vneg(rec.normal@)
                    } else {
                        rec.normal@
                    }));
                    assert(eta as int == (if vdot(r_in.b@, rec.normal@) > 0 {
                        d.ref_idx as int
                    } else {
                        fdiv(SCALE as int, d.ref_idx as int)
                    }));
                }
                match refr {
                    Some(refracted) => {
                        let prob = schlick(cosine, d.ref_idx);
                        if u < prob {
                            let scattered = Ray::new(&rec.p, &reflected);
                            proof {
                                assert(reflected@ == dielectric_pick(
                                    u as int,
                                    vreflect(r_in.b@, rec.normal@),
                                    refracted@,
                                    dielectric_cosine(*d, r_in.b@, rec.normal@),
                                    d.ref_idx as int,
                                ));
                                lemma_dielectric_pick_witness(
                                    *d,
                                    r_in.b@,
                                    rec.normal@,
                                    refracted@,
                                    u as int,
                                    reflected@,
                                );
                            }
                            Some(ScatterRec { attenuation, scattered })
                        } else {
                            let scattered = Ray::new(&rec.p, &refracted);
                            proof {
                                assert(refracted@ == dielectric_pick(
                                    u as int,
                                    vreflect(r_in.b@, rec.normal@),
                                    refracted@,
                                    dielectric_cosine(*d, r_in.b@, rec.normal@),
                                    d.ref_idx as int,
                                ));
                                lemma_dielectric_pick_witness(
                                    *d,
                                    r_in.b@,
                                    rec.normal@,
                                    refracted@,
                                    u as int,
                                    refracted@,
                                );
                            }
                            Some(ScatterRec { attenuation, scattered })
                        }
                    },
                    None => {
                        let scattered = Ray::new(&rec.p, &reflected);
                        proof {
                            lemma_dielectric_tir(*d, r_in.b@, rec.normal@, reflected@);
                        }
                        Some(ScatterRec { attenuation, scattered })
                    },
                }
            },
        }
    }
}

} // verus!
