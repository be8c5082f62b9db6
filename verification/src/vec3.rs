//! Three-component fixed-point vectors, used for points, directions and
//! colors alike.

use vstd::prelude::*;

use crate::fixed::{
    fdiv, fmul, fp_div, fp_mul, iabs, isqrt, lemma_tdiv_mag, sqrt_floor, tdiv, tdiv_i128, SCALE,
};

verus! {

/// Executable vector: each component counts 1/4096ths of a unit.
#[derive(Clone, Copy, Debug, PartialEq, Eq, Structural)]
pub struct Vec3 {
    pub x: i64,
    pub y: i64,
    pub z: i64,
}

/// Mathematical model of a vector: the same three components as
/// unbounded integers.
pub struct Vec3g {
    pub x: int,
    pub y: int,
    pub z: int,
}

impl View for Vec3 {
    type V = Vec3g;

    open spec fn view(&self) -> Vec3g {
        Vec3g { x: self.x as int, y: self.y as int, z: self.z as int }
    }
}

pub open spec fn vzero() -> Vec3g {
    Vec3g { x: 0, y: 0, z: 0 }
}

/// The all-ones color (fixed-point `(1, 1, 1)`).
pub open spec fn vone() -> Vec3g {
    Vec3g { x: SCALE as int, y: SCALE as int, z: SCALE as int }
}

pub open spec fn vadd(a: Vec3g, b: Vec3g) -> Vec3g {
    Vec3g { x: a.x + b.x, y: a.y + b.y, z: a.z + b.z }
}

pub open spec fn vsub(a: Vec3g, b: Vec3g) -> Vec3g {
    Vec3g { x: a.x - b.x, y: a.y - b.y, z: a.z - b.z }
}

pub open spec fn vneg(a: Vec3g) -> Vec3g {
    Vec3g { x: -a.x, y: -a.y, z: -a.z }
}

/// Component-wise fixed-point product (used for color attenuation).
pub open spec fn vmul(a: Vec3g, b: Vec3g) -> Vec3g {
    Vec3g { x: fmul(a.x, b.x), y: fmul(a.y, b.y), z: fmul(a.z, b.z) }
}

/// Vector scaled by a fixed-point scalar.
pub open spec fn vscale(a: Vec3g, s: int) -> Vec3g {
    Vec3g { x: fmul(a.x, s), y: fmul(a.y, s), z: fmul(a.z, s) }
}

/// Vector divided by a fixed-point scalar.
pub open spec fn vdiv(a: Vec3g, s: int) -> Vec3g {
    Vec3g { x: fdiv(a.x, s), y: fdiv(a.y, s), z: fdiv(a.z, s) }
}

/// Vector scaled by an exact integer factor, the rounding-free scaling
/// that the algebra laws below speak of.
pub open spec fn vscale_exact(a: Vec3g, s: int) -> Vec3g {
    Vec3g { x: a.x * s, y: a.y * s, z: a.z * s }
}

/// The unscaled dot product: for two vectors of fixed-point components it
/// carries two scale factors.
pub open spec fn raw_dot(a: Vec3g, b: Vec3g) -> int {
    a.x * b.x + a.y * b.y + a.z * b.z
}

/// Fixed-point dot product.
pub open spec fn vdot(a: Vec3g, b: Vec3g) -> int {
    tdiv(raw_dot(a, b), SCALE as int)
}

/// Fixed-point unit vector: components divided by the floor square root
/// of the unscaled self-dot (which is the fixed-point length).
pub open spec fn vunit(a: Vec3g) -> Vec3g {
    let l = sqrt_floor(raw_dot(a, a) as nat) as int;
    Vec3g {
        x: tdiv(a.x * (SCALE as int), l),
        y: tdiv(a.y * (SCALE as int), l),
        z: tdiv(a.z * (SCALE as int), l),
    }
}

pub open spec fn is_zero(a: Vec3g) -> bool {
    a.x == 0 && a.y == 0 && a.z == 0
}

pub open spec fn vbounded(a: Vec3g, m: int) -> bool {
    iabs(a.x) <= m && iabs(a.y) <= m && iabs(a.z) <= m
}

/// Components in the fixed-point unit interval `[0, 1]` — valid color
/// channels and attenuations.
pub open spec fn in_rgb(a: Vec3g) -> bool {
    0 <= a.x <= SCALE as int && 0 <= a.y <= SCALE as int && 0 <= a.z <= SCALE as int
}

pub open spec fn vfits(a: Vec3g) -> bool {
    i64::MIN <= a.x <= i64::MAX && i64::MIN <= a.y <= i64::MAX && i64::MIN <= a.z <= i64::MAX
}

/// Generic bound for the unary and dot-product operations: vectors this
/// size keep every intermediate product inside the machine range.
pub const VEC_BOUND: i64 = 0x4000_0000;

/// `|x * y| <= mx * my` when the factors are bounded.
pub proof fn lemma_mul_mag(x: int, y: int, mx: int, my: int)
    by (nonlinear_arith)
    requires
        0 <= mx,
        0 <= my,
        iabs(x) <= mx,
        iabs(y) <= my,
    ensures
        iabs(x * y) <= mx * my,
        -(mx * my) <= x * y <= mx * my,
{
}

/// Each term of `raw_dot(a, b)` is bounded by `m * m` when both vectors
/// are bounded by `m`, so the whole dot product is bounded by `3 m^2`.
pub proof fn lemma_raw_dot_bound(a: Vec3g, b: Vec3g, m: int)
    requires
        0 <= m,
        vbounded(a, m),
        vbounded(b, m),
    ensures
        iabs(raw_dot(a, b)) <= 3 * (m * m),
        iabs(a.x * b.x) <= m * m,
        iabs(a.y * b.y) <= m * m,
        iabs(a.z * b.z) <= m * m,
{
    lemma_mul_mag(a.x, b.x, m, m);
    lemma_mul_mag(a.y, b.y, m, m);
    lemma_mul_mag(a.z, b.z, m, m);
}

/// Two-bound form: each term of `raw_dot(a, b)` is bounded by `ma * mb`.
pub proof fn lemma_raw_dot_bound2(a: Vec3g, b: Vec3g, ma: int, mb: int)
    requires
        0 <= ma,
        0 <= mb,
        vbounded(a, ma),
        vbounded(b, mb),
    ensures
        iabs(raw_dot(a, b)) <= 3 * (ma * mb),
        iabs(a.x * b.x) <= ma * mb,
        iabs(a.y * b.y) <= ma * mb,
        iabs(a.z * b.z) <= ma * mb,
{
    lemma_mul_mag(a.x, b.x, ma, mb);
    lemma_mul_mag(a.y, b.y, ma, mb);
    lemma_mul_mag(a.z, b.z, ma, mb);
}

/// A vector whose self-dot vanishes is the zero vector.
pub proof fn lemma_raw_dot_self_zero(a: Vec3g)
    by (nonlinear_arith)
    ensures
        raw_dot(a, a) == 0 ==> is_zero(a),
{
}

/// The unscaled self-dot is a sum of squares.
pub proof fn lemma_raw_dot_self_nonneg(a: Vec3g)
    by (nonlinear_arith)
    ensures
        raw_dot(a, a) >= 0,
        !is_zero(a) ==> raw_dot(a, a) >= 1,
        a.x * a.x >= 0,
        a.y * a.y >= 0,
        a.z * a.z >= 0,
        a.x * a.x <= raw_dot(a, a),
        a.y * a.y <= raw_dot(a, a),
        a.z * a.z <= raw_dot(a, a),
{
}

impl Vec3 {
    pub fn new(e0: i64, e1: i64, e2: i64) -> (r: Self)
        ensures
            r@ == (Vec3g { x: e0 as int, y: e1 as int, z: e2 as int }),
    {
        Vec3 { x: e0, y: e1, z: e2 }
    }

    pub fn zero() -> (r: Self)
        ensures
            r@ == vzero(),
    {
        Vec3 { x: 0, y: 0, z: 0 }
    }

    pub fn x(&self) -> (r: i64)
        ensures
            r == self.x,
    {
        self.x
    }

    pub fn y(&self) -> (r: i64)
        ensures
            r == self.y,
    {
        self.y
    }

    pub fn z(&self) -> (r: i64)
        ensures
            r == self.z,
    {
        self.z
    }

    pub fn r(&self) -> (r: i64)
        ensures
            r == self.x,
    {
        self.x
    }

    pub fn g(&self) -> (r: i64)
        ensures
            r == self.y,
    {
        self.y
    }

    pub fn b(&self) -> (r: i64)
        ensures
            r == self.z,
    {
        self.z
    }

    pub fn add(self, other: Self) -> (r: Self)
        requires
            vfits(vadd(self@, other@)),
        ensures
            r@ == vadd(self@, other@),
    {
        Vec3 { x: self.x + other.x, y: self.y + other.y, z: self.z + other.z }
    }

    pub fn sub(self, other: Self) -> (r: Self)
        requires
            vfits(vsub(self@, other@)),
        ensures
            r@ == vsub(self@, other@),
    {
        Vec3 { x: self.x - other.x, y: self.y - other.y, z: self.z - other.z }
    }

    pub fn neg(self) -> (r: Self)
        requires
            vfits(vneg(self@)),
        ensures
            r@ == vneg(self@),
    {
        Vec3 { x: -self.x, y: -self.y, z: -self.z }
    }

    /// Component-wise fixed-point product.
    pub fn mul(self, other: Self) -> (r: Self)
        requires
            vfits(vmul(self@, other@)),
        ensures
            r@ == vmul(self@, other@),
    {
        Vec3 {
            x: fp_mul(self.x, other.x),
            y: fp_mul(self.y, other.y),
            z: fp_mul(self.z, other.z),
        }
    }

    /// Scale by a fixed-point scalar.
    pub fn scale(self, s: i64) -> (r: Self)
        requires
            vfits(vscale(self@, s as int)),
        ensures
            r@ == vscale(self@, s as int),
    {
        Vec3 { x: fp_mul(self.x, s), y: fp_mul(self.y, s), z: fp_mul(self.z, s) }
    }

    /// Divide by a fixed-point scalar.
    pub fn div(self, s: i64) -> (r: Self)
        requires
            s != 0,
            vfits(vdiv(self@, s as int)),
        ensures
            r@ == vdiv(self@, s as int),
    {
        Vec3 { x: fp_div(self.x, s), y: fp_div(self.y, s), z: fp_div(self.z, s) }
    }

    pub fn add_assign(&mut self, other: Self)
        requires
            vfits(vadd(old(self)@, other@)),
        ensures
            final(self)@ == vadd(old(self)@, other@),
    {
        self.x = self.x + other.x;
        self.y = self.y + other.y;
        self.z = self.z + other.z;
    }

    pub fn div_assign(&mut self, s: i64)
        requires
            s != 0,
            vfits(vdiv(old(self)@, s as int)),
        ensures
            final(self)@ == vdiv(old(self)@, s as int),
    {
        self.x = fp_div(self.x, s);
        self.y = fp_div(self.y, s);
        self.z = fp_div(self.z, s);
    }

    pub fn index(&self, i: usize) -> (r: i64)
        requires
            i < 3,
        ensures
            i == 0 ==> r == self.x,
            i == 1 ==> r == self.y,
            i == 2 ==> r == self.z,
    {
        if i == 0 {
            self.x
        } else if i == 1 {
            self.y
        } else {
            self.z
        }
    }

    /// Fixed-point dot product.
    pub fn dot(&self, other: &Self) -> (r: i64)
        requires
            vbounded(self@, VEC_BOUND as int),
            vbounded(other@, VEC_BOUND as int),
        ensures
            r == vdot(self@, other@),
            iabs(r as int) <= 0x3_0000_0000_0000,
    {
        proof {
            lemma_raw_dot_bound(self@, other@, VEC_BOUND as int);
        }
        let px: i128 = (self.x as i128) * (other.x as i128);
        let py: i128 = (self.y as i128) * (other.y as i128);
        let pz: i128 = (self.z as i128) * (other.z as i128);
        let p: i128 = px + py + pz;
        proof {
            lemma_tdiv_mag(p as int, SCALE as int, 0x3_0000_0000_0000);
        }
        let q = tdiv_i128(p, 4096);
        q as i64
    }

    /// Fixed-point squared length.
    pub fn squared_length(&self) -> (r: i64)
        requires
            vbounded(self@, VEC_BOUND as int),
        ensures
            r == vdot(self@, self@),
            0 <= r <= 0x3_0000_0000_0000,
    {
        proof {
            lemma_raw_dot_self_nonneg(self@);
        }
        self.dot(self)
    }

    /// Fixed-point length: the floor square root of the unscaled self-dot.
    pub fn length(&self) -> (r: i64)
        requires
            vbounded(self@, VEC_BOUND as int),
        ensures
            r == sqrt_floor(raw_dot(self@, self@) as nat),
            0 <= r <= 0x1_0000_0000,
            !is_zero(self@) ==> r >= 1,
    {
        proof {
            lemma_raw_dot_self_nonneg(self@);
            lemma_raw_dot_bound(self@, self@, VEC_BOUND as int);
        }
        let px: i128 = (self.x as i128) * (self.x as i128);
        let py: i128 = (self.y as i128) * (self.y as i128);
        let pz: i128 = (self.z as i128) * (self.z as i128);
        let p: i128 = px + py + pz;
        let s = isqrt(p as u128);
        proof {
            let r = sqrt_floor(p as nat);
            assert(r <= 0x1_0000_0000) by (nonlinear_arith)
                requires
                    r * r <= p as int,
                    p as int <= 3 * (VEC_BOUND as int) * (VEC_BOUND as int),
            ;
            if p >= 1 {
                assert(r >= 1) by (nonlinear_arith)
                    requires
                        p as int >= 1,
                        p < (r + 1) * (r + 1),
                        r >= 0,
                ;
            }
        }
        s as i64
    }

    /// Fixed-point normalization.  Undefined for the zero vector in the
    /// real-number design, so the zero vector is excluded here.
    pub fn unit_vector(&self) -> (r: Self)
        requires
            vbounded(self@, VEC_BOUND as int),
            !is_zero(self@),
        ensures
            r@ == vunit(self@),
            vbounded(r@, SCALE as int),
    {
        let l = self.length();
        proof {
            lemma_raw_dot_self_nonneg(self@);
            crate::fixed::lemma_sqrt_floor(raw_dot(self@, self@) as nat);
            lemma_unit_component(self@.x, l as int, raw_dot(self@, self@));
            lemma_unit_component(self@.y, l as int, raw_dot(self@, self@));
            lemma_unit_component(self@.z, l as int, raw_dot(self@, self@));
        }
        let ux = tdiv_i128((self.x as i128) * 4096, l as i128);
        let uy = tdiv_i128((self.y as i128) * 4096, l as i128);
        let uz = tdiv_i128((self.z as i128) * 4096, l as i128);
        Vec3 { x: ux as i64, y: uy as i64, z: uz as i64 }
    }

    pub fn make_unit_vector(&mut self)
        requires
            vbounded(old(self)@, VEC_BOUND as int),
            !is_zero(old(self)@),
        ensures
            final(self)@ == vunit(old(self)@),
            vbounded(final(self)@, SCALE as int),
    {
        let u = self.unit_vector();
        self.x = u.x;
        self.y = u.y;
        self.z = u.z;
    }

    /// Sum of a sequence of color vectors (Monte-Carlo accumulation).
    pub fn sum(vs: &Vec<Vec3>) -> (r: Self)
        requires
            forall|k: int| 0 <= k < vs@.len() ==> in_rgb(#[trigger] vs@[k]@),
            vs@.len() <= 0x10_0000,
        ensures
            r@ == vsum(vs@),
            0 <= r@.x <= vs@.len() * (SCALE as int),
            0 <= r@.y <= vs@.len() * (SCALE as int),
            0 <= r@.z <= vs@.len() * (SCALE as int),
    {
        let mut acc = Vec3::zero();
        let mut i: usize = 0;
        while i < vs.len()
            invariant
                i <= vs@.len(),
                vs@.len() <= 0x10_0000,
                forall|k: int| 0 <= k < vs@.len() ==> in_rgb(#[trigger] vs@[k]@),
                acc@ == vsum(vs@.subrange(0, i as int)),
                0 <= acc@.x <= i * (SCALE as int),
                0 <= acc@.y <= i * (SCALE as int),
                0 <= acc@.z <= i * (SCALE as int),
            decreases vs@.len() - i,
        {
            let v = vs[i];
            acc = acc.add(v);
            proof {
                assert(vs@.subrange(0, i + 1).drop_last() =~= vs@.subrange(0, i as int));
                assert(vs@.subrange(0, i + 1).last() == vs@[i as int]);
            }
            i = i + 1;
        }
        proof {
            assert(vs@.subrange(0, vs@.len() as int) =~= vs@);
        }
        acc
    }
}

/// The unscaled dot product at full width, for the intersection math.
pub fn raw_dot_wide(a: &Vec3, b: &Vec3) -> (r: i128)
    requires
        vbounded(a@, 0x1_0000_0000_0000),
        vbounded(b@, 0x1_0000_0000_0000),
    ensures
        r == raw_dot(a@, b@),
{
    proof {
        lemma_raw_dot_bound2(a@, b@, 0x1_0000_0000_0000, 0x1_0000_0000_0000);
    }
    let px: i128 = (a.x as i128) * (b.x as i128);
    let py: i128 = (a.y as i128) * (b.y as i128);
    let pz: i128 = (a.z as i128) * (b.z as i128);
    px + py + pz
}

/// Left fold of vector addition over a sequence.
pub open spec fn vsum(s: Seq<Vec3>) -> Vec3g
    decreases s.len(),
{
    if s.len() == 0 {
        vzero()
    } else {
        vadd(vsum(s.drop_last()), s.last()@)
    }
}

/// A component of a fixed-point unit vector lies in `[-1, 1]`.
proof fn lemma_unit_component(c: int, l: int, n: int)
    requires
        c * c <= n,
        l >= 1,
        l * l <= n,
        n < (l + 1) * (l + 1),
    ensures
        iabs(tdiv(c * (SCALE as int), l)) <= SCALE as int,
{
    assert(iabs(c) <= l) by (nonlinear_arith)
        requires
            c * c <= n,
            n < (l + 1) * (l + 1),
            l >= 1,
    ;
    assert(iabs(c * (SCALE as int)) <= (SCALE as int) * iabs(l)) by (nonlinear_arith)
        requires
            iabs(c) <= l,
            l >= 1,
    ;
    lemma_tdiv_mag(c * (SCALE as int), l, SCALE as int);
}

// ---------------------------------------------------------------------
// Algebra laws.
// ---------------------------------------------------------------------

/// Vector addition is commutative.
pub proof fn lemma_add_comm(a: Vec3g, b: Vec3g)
    ensures
        vadd(a, b) == vadd(b, a),
{
}

/// Vector addition is associative.
pub proof fn lemma_add_assoc(a: Vec3g, b: Vec3g, c: Vec3g)
    ensures
        vadd(vadd(a, b), c) == vadd(a, vadd(b, c)),
{
}

/// The zero vector is the additive identity.
pub proof fn lemma_add_zero(a: Vec3g)
    ensures
        vadd(a, vzero()) == a,
{
}

/// Dot/scalar consistency: scaling one argument of the unscaled dot
/// product scales the product, exactly.
pub proof fn lemma_dot_scale(a: Vec3g, v: Vec3g, s: int)
    ensures
        raw_dot(a, vscale_exact(v, s)) == raw_dot(a, v) * s,
{
    vstd::arithmetic::mul::lemma_mul_is_associative(a.x, v.x, s);
    vstd::arithmetic::mul::lemma_mul_is_associative(a.y, v.y, s);
    vstd::arithmetic::mul::lemma_mul_is_associative(a.z, v.z, s);
    vstd::arithmetic::mul::lemma_mul_is_distributive_add_other_way(
        s,
        a.x * v.x + a.y * v.y,
        a.z * v.z,
    );
    vstd::arithmetic::mul::lemma_mul_is_distributive_add_other_way(s, a.x * v.x, a.y * v.y);
}

} // verus!
