//! Spheres and the closed-form ray/sphere intersection.

use vstd::prelude::*;

use crate::fixed::{
    fp_div, iabs, isqrt, lemma_fdiv_mag, lemma_sqrt_char, sqrt_floor, tdiv, tdiv_i128,
    CEN_BOUND, DIR_BOUND, NORM_BOUND, POS_BOUND, RAD_BOUND, SCALE,
};
use crate::hitable::{hitg_of, rec_wf, HitG, HitRecord};
use crate::material::{mat_wf, Material};
use crate::ray::{point_at, Ray};
use crate::vec3::{
    lemma_mul_mag, lemma_raw_dot_bound2, lemma_raw_dot_self_nonneg, lemma_raw_dot_self_zero,
    raw_dot, raw_dot_wide, vbounded, vdiv, vsub, Vec3, Vec3g,
};

verus! {

#[derive(Clone, Copy, Debug)]
pub struct Sphere {
    pub center: Vec3,
    pub radius: i64,
    pub material: Material,
}

/// A sphere within the numeric budget.  The radius may be negative (a
/// hollow shell whose normals point inward); a radius of exactly zero
/// would make the normal formula divide by zero, so it is excluded here
/// — the deliberate hardening of the degenerate-sphere edge case.
pub open spec fn sphere_wf(s: Sphere) -> bool {
    &&& vbounded(s.center@, CEN_BOUND as int)
    &&& s.radius != 0
    &&& iabs(s.radius as int) <= RAD_BOUND as int
    &&& mat_wf(s.material)
}

impl Sphere {
    pub fn new(center: &Vec3, radius: i64, material: Material) -> (s: Self)
        requires
            vbounded(center@, CEN_BOUND as int),
            radius != 0,
            iabs(radius as int) <= RAD_BOUND as int,
            mat_wf(material),
        ensures
            s == (Sphere { center: *center, radius, material }),
            sphere_wf(s),
    {
        Sphere { center: *center, radius, material }
    }
}

/// Quadratic coefficients of the intersection, in unscaled (raw) form:
/// `a t'^2 + 2 b t' + c = 0` for the true parameter `t' = t / SCALE`.
pub open spec fn coeff_a(r: Ray) -> int {
    raw_dot(r.b@, r.b@)
}

pub open spec fn coeff_b(s: Sphere, r: Ray) -> int {
    raw_dot(vsub(r.a@, s.center@), r.b@)
}

pub open spec fn coeff_c(s: Sphere, r: Ray) -> int {
    raw_dot(vsub(r.a@, s.center@), vsub(r.a@, s.center@)) - (s.radius as int) * (s.radius as int)
}

pub open spec fn discriminant(s: Sphere, r: Ray) -> int {
    coeff_b(s, r) * coeff_b(s, r) - coeff_a(r) * coeff_c(s, r)
}

/// The smaller quadratic root as a fixed-point parameter.
pub open spec fn hit_t(s: Sphere, r: Ray) -> int {
    tdiv((-coeff_b(s, r) - sqrt_floor(discriminant(s, r) as nat)) * (SCALE as int), coeff_a(r))
}

pub open spec fn cand_point(s: Sphere, r: Ray) -> Vec3g {
    point_at(r, hit_t(s, r))
}

/// Normal at the candidate point: `(p - center) / radius`, whose sign
/// follows the stored radius (the negative-radius inversion trick).
pub open spec fn cand_normal(s: Sphere, r: Ray) -> Vec3g {
    vdiv(vsub(cand_point(s, r), s.center@), s.radius as int)
}

pub open spec fn cand_rec(s: Sphere, r: Ray) -> HitG {
    HitG {
        t: hit_t(s, r),
        p: cand_point(s, r),
        normal: cand_normal(s, r),
        material: s.material,
    }
}

/// When the sphere reports a hit: positive discriminant, the smaller
/// root strictly inside the window, and the hit point and normal within
/// the numeric budget (hits outside it are rejected — a hardening that
/// only extreme rounding could ever reach).
pub open spec fn cand_ok(s: Sphere, r: Ray, t_min: int, t_max: int) -> bool {
    &&& discriminant(s, r) > 0
    &&& t_min < hit_t(s, r) < t_max
    &&& vbounded(cand_point(s, r), POS_BOUND as int)
    &&& vbounded(cand_normal(s, r), NORM_BOUND as int)
}

pub open spec fn sphere_hit_g(s: Sphere, r: Ray, t_min: int, t_max: int) -> Option<HitG> {
    if cand_ok(s, r, t_min, t_max) {
        Some(cand_rec(s, r))
    } else {
        None
    }
}

/// Head-on intersection law: a ray aimed directly at a sphere's center
/// from distance one always has a positive discriminant, and the near
/// intersection lies at distance one minus the radius.
pub proof fn lemma_head_on_distance(s: Sphere, r: Ray, len: int)
    requires
        r.b@ == vsub(s.center@, r.a@),
        raw_dot(r.b@, r.b@) == len * len,
        1 <= len,
        0 < s.radius < len,
    ensures
        discriminant(s, r) > 0,
        hit_t(s, r) == tdiv((len - s.radius) * (SCALE as int), len),
{
    let d = r.b@;
    let oc = vsub(r.a@, s.center@);
    let a = len * len;
    let rr = (s.radius as int) * (s.radius as int);
    assert(oc.x == -d.x && oc.y == -d.y && oc.z == -d.z);
    assert((-d.x) * d.x == -(d.x * d.x) && (-d.y) * d.y == -(d.y * d.y) && (-d.z) * d.z == -(d.z
        * d.z)) by (nonlinear_arith);
    assert((-d.x) * (-d.x) == d.x * d.x && (-d.y) * (-d.y) == d.y * d.y && (-d.z) * (-d.z) == d.z
        * d.z) by (nonlinear_arith);
    assert(coeff_b(s, r) == -a);
    assert(coeff_c(s, r) == a - rr);
    assert((-a) * (-a) - a * (a - rr) == a * rr) by (nonlinear_arith);
    assert(discriminant(s, r) == a * rr);
    assert(a > 0 && rr > 0) by (nonlinear_arith)
        requires
            a == len * len,
            rr == (s.radius as int) * (s.radius as int),
            len >= 1,
            s.radius > 0,
    ;
    assert(a * rr > 0) by (nonlinear_arith)
        requires
            a > 0,
            rr > 0,
    ;
    let x = len * (s.radius as int);
    assert(x > 0 && x * x == a * rr) by (nonlinear_arith)
        requires
            x == len * (s.radius as int),
            a == len * len,
            rr == (s.radius as int) * (s.radius as int),
            len >= 1,
            s.radius > 0,
    ;
    assert(x * x < (x + 1) * (x + 1)) by (nonlinear_arith)
        requires
            x > 0,
    ;
    lemma_sqrt_char((a * rr) as nat, x as nat);
    assert((-coeff_b(s, r) - x) * (SCALE as int) == len * ((len - s.radius) * (SCALE as int)))
        by (nonlinear_arith)
        requires
            coeff_b(s, r) == -a,
            a == len * len,
            x == len * (s.radius as int),
    ;
    assert(tdiv(len * ((len - s.radius) * (SCALE as int)), len * len) == tdiv(
        (len - s.radius) * (SCALE as int),
        len,
    )) by {
        lemma_tdiv_cancel((len - s.radius) * (SCALE as int), len);
    }
}

/// Truncating division is unchanged when numerator and denominator carry
/// a common positive factor.
proof fn lemma_tdiv_cancel(n: int, l: int)
    requires
        0 <= n,
        1 <= l,
    ensures
        tdiv(l * n, l * l) == tdiv(n, l),
{
    let q = n / l;
    let m = n % l;
    vstd::arithmetic::div_mod::lemma_fundamental_div_mod(n, l);
    assert(l * n == q * (l * l) + l * m && 0 <= l * m < l * l) by (nonlinear_arith)
        requires
            n == l * q + m,
            0 <= m < l,
            1 <= l,
    ;
    assert(l * n == q * (l * l) + l * m) by (nonlinear_arith)
        requires
            n == l * q + m,
    ;
    vstd::arithmetic::div_mod::lemma_fundamental_div_mod_converse_div(l * n, l * l, q, l * m);
    assert((l * n) / (l * l) == q);
    assert(l * n >= 0 && l * l >= 1) by (nonlinear_arith)
        requires
            0 <= n,
            1 <= l,
    ;
}

impl Sphere {
    /// Nearest intersection of `r` with this sphere strictly inside
    /// `(t_min, t_max)`, or `None`.  Only the smaller quadratic root is
    /// tested: a near intersection behind `t_min` hides the far side.
    #[verifier::rlimit(60)]
    pub fn hit(&self, r: &Ray, t_min: i64, t_max: i64) -> (res: Option<HitRecord>)
        requires
            sphere_wf(*self),
            vbounded(r.a@, POS_BOUND as int),
            vbounded(r.b@, DIR_BOUND as int),
        ensures
            ({
                let g = sphere_hit_g(*self, *r, t_min as int, t_max as int);
                match res {
                    Some(h) => g == Some(hitg_of(h)) && rec_wf(h) && t_min < h.t < t_max
                        && h.material == self.material,
                    None => g.is_none(),
                }
            }),
    {
        let ocv = r.a.sub(self.center);
        proof {
            lemma_raw_dot_bound2(r.b@, r.b@, DIR_BOUND as int, DIR_BOUND as int);
            lemma_raw_dot_bound2(ocv@, r.b@, 0x500_0000, DIR_BOUND as int);
            lemma_raw_dot_bound2(ocv@, ocv@, 0x500_0000, 0x500_0000);
            lemma_mul_mag(self.radius as int, self.radius as int, RAD_BOUND as int,
                RAD_BOUND as int);
        }
        let aw = raw_dot_wide(&r.b, &r.b);
        let bw = raw_dot_wide(&ocv, &r.b);
        let oc2 = raw_dot_wide(&ocv, &ocv);
        let r2: i128 = (self.radius as i128) * (self.radius as i128);
        let cw = oc2 - r2;
        proof {
            lemma_mul_mag(bw as int, bw as int, 0x3c00_0000_0000, 0x3c00_0000_0000);
            lemma_mul_mag(aw as int, cw as int, 0x30_0000_0000, 0x4c_0000_0000_0000);
        }
        let disc = bw * bw - aw * cw;
        if disc > 0 {
            proof {
                lemma_raw_dot_self_nonneg(r.b@);
                if aw == 0 {
                    lemma_raw_dot_self_zero(r.b@);
                    assert(ocv@.x * r.b@.x == 0) by (nonlinear_arith)
                        requires
                            r.b@.x == 0,
                    ;
                    assert(ocv@.y * r.b@.y == 0) by (nonlinear_arith)
                        requires
                            r.b@.y == 0,
                    ;
                    assert(ocv@.z * r.b@.z == 0) by (nonlinear_arith)
                        requires
                            r.b@.z == 0,
                    ;
                    assert(bw == 0);
                    assert(bw * bw == 0) by (nonlinear_arith)
                        requires
                            bw == 0,
                    ;
                    assert(aw * cw == 0) by (nonlinear_arith)
                        requires
                            aw == 0,
                    ;
                    assert(false);
                }
            }
            let sq_u = isqrt(disc as u128);
            proof {
                assert(sq_u < 0x8000_0000_0000) by (nonlinear_arith)
                    requires
                        sq_u * sq_u <= disc as int,
                        (disc as int) < 0x8000_0000_0000 * 0x8000_0000_0000,
                        sq_u >= 0,
                ;
            }
            let sq = sq_u as i128;
            let num = (-bw - sq) * 4096;
            let tw = tdiv_i128(num, aw);
            if (t_min as i128) < tw && tw < (t_max as i128) {
                let t = tw as i64;
                proof {
                    lemma_mul_mag(r.b@.x, t as int, DIR_BOUND as int, 0x8000_0000_0000_0000);
                    lemma_mul_mag(r.b@.y, t as int, DIR_BOUND as int, 0x8000_0000_0000_0000);
                    lemma_mul_mag(r.b@.z, t as int, DIR_BOUND as int, 0x8000_0000_0000_0000);
                }
                let px = (r.a.x as i128) + tdiv_i128((r.b.x as i128) * (t as i128), 4096);
                let py = (r.a.y as i128) + tdiv_i128((r.b.y as i128) * (t as i128), 4096);
                let pz = (r.a.z as i128) + tdiv_i128((r.b.z as i128) * (t as i128), 4096);
                if -0x400_0000 <= px && px <= 0x400_0000 && -0x400_0000 <= py && py <= 0x400_0000
                    && -0x400_0000 <= pz && pz <= 0x400_0000 {
                    let p = Vec3::new(px as i64, py as i64, pz as i64);
                    proof {
                        assert(p@ == cand_point(*self, *r));
                        lemma_fdiv_mag(p@.x - self.center@.x, self.radius as int, 0x500_0000);
                        lemma_fdiv_mag(p@.y - self.center@.y, self.radius as int, 0x500_0000);
                        lemma_fdiv_mag(p@.z - self.center@.z, self.radius as int, 0x500_0000);
                    }
                    let nx = fp_div(p.x - self.center.x, self.radius);
                    let ny = fp_div(p.y - self.center.y, self.radius);
                    let nz = fp_div(p.z - self.center.z, self.radius);
                    if -8192 <= nx && nx <= 8192 && -8192 <= ny && ny <= 8192 && -8192 <= nz
                        && nz <= 8192 {
                        let normal = Vec3::new(nx, ny, nz);
                        proof {
                            assert(normal@ == cand_normal(*self, *r));
                        }
                        Some(HitRecord { t, p, normal, material: self.material })
                    } else {
                        None
                    }
                } else {
                    None
                }
            } else {
                None
            }
        } else {
            None
        }
    }
}

} // verus!
