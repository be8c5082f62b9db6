//! Fixed-point scalar arithmetic.
//!
//! A scalar is an `i64` counting `SCALE`ths of a unit.  Multiplication and
//! division of two scalars rescale their exact integer result with a
//! division that rounds toward zero, mirroring how the executable helpers
//! below compute.

use vstd::prelude::*;

verus! {

/// Number of fixed-point steps per unit: every scalar in this crate is an
/// integer counting 1/4096ths.
pub const SCALE: i64 = 4096;

// Numeric budget of the render engine.  Scenes and rays within these
// bounds keep every intermediate product of the intersection and
// scattering formulas inside the machine integer range.

/// Largest component of a ray direction the tracer accepts (64 units).
pub const DIR_BOUND: i64 = 0x4_0000;

/// Largest component of a ray origin or hit point (16384 units).
pub const POS_BOUND: i64 = 0x400_0000;

/// Largest component of a sphere center (4096 units).
pub const CEN_BOUND: i64 = 0x100_0000;

/// Largest sphere radius magnitude (4096 units).
pub const RAD_BOUND: i64 = 0x100_0000;

/// Largest component of a stored surface normal (2 units; true normals
/// have unit length, the slack covers fixed-point rounding).
pub const NORM_BOUND: i64 = 8192;

/// Largest component of a scattered direction (2048 units).
pub const SCAT_BOUND: i64 = 0x80_0000;

pub open spec fn iabs(x: int) -> int {
    if x < 0 { -x } else { x }
}

/// Division rounding toward zero (the rounding of the executable helpers).
pub open spec fn tdiv(n: int, d: int) -> int {
    let q = iabs(n) / iabs(d);
    if (n < 0) != (d < 0) { -q } else { q }
}

/// Product of two fixed-point scalars.
pub open spec fn fmul(a: int, b: int) -> int {
    tdiv(a * b, SCALE as int)
}

/// Quotient of two fixed-point scalars.
pub open spec fn fdiv(a: int, b: int) -> int {
    tdiv(a * (SCALE as int), b)
}

/// Floor of the square root.
pub open spec fn sqrt_floor(n: nat) -> nat
    decreases n,
{
    if n == 0 {
        0
    } else {
        let r = sqrt_floor((n - 1) as nat);
        if (r + 1) * (r + 1) <= n { (r + 1) as nat } else { r }
    }
}

pub proof fn lemma_sqrt_floor(n: nat)
    ensures
        sqrt_floor(n) * sqrt_floor(n) <= n,
        n < (sqrt_floor(n) + 1) * (sqrt_floor(n) + 1),
    decreases n,
{
    if n == 0 {
        assert(sqrt_floor(0) == 0);
        assert(n < (sqrt_floor(n) + 1) * (sqrt_floor(n) + 1)) by (nonlinear_arith)
            requires
                n == 0,
                sqrt_floor(n) == 0,
        ;
    } else {
        let m = (n - 1) as nat;
        lemma_sqrt_floor(m);
        let r = sqrt_floor(m);
        if (r + 1) * (r + 1) <= n {
            assert(sqrt_floor(n) == r + 1);
            assert(sqrt_floor(n) * sqrt_floor(n) <= n
                && n < (sqrt_floor(n) + 1) * (sqrt_floor(n) + 1)) by (nonlinear_arith)
                requires
                    n == m + 1,
                    sqrt_floor(n) == r + 1,
                    r * r <= m,
                    m < (r + 1) * (r + 1),
                    (r + 1) * (r + 1) <= n,
            ;
        } else {
            assert(sqrt_floor(n) == r);
            assert(sqrt_floor(n) * sqrt_floor(n) <= n
                && n < (sqrt_floor(n) + 1) * (sqrt_floor(n) + 1)) by (nonlinear_arith)
                requires
                    n == m + 1,
                    sqrt_floor(n) == r,
                    r * r <= m,
                    !((r + 1) * (r + 1) <= n),
            ;
        }
    }
}

/// The two bracketing inequalities pin the floor square root down.
pub proof fn lemma_sqrt_char(n: nat, r: nat)
    requires
        r * r <= n,
        n < (r + 1) * (r + 1),
    ensures
        r == sqrt_floor(n),
{
    lemma_sqrt_floor(n);
    let s = sqrt_floor(n);
    assert(r < s ==> (r + 1) * (r + 1) <= s * s) by (nonlinear_arith);
    assert(s < r ==> (s + 1) * (s + 1) <= r * r) by (nonlinear_arith);
}

/// A quotient is no larger in magnitude than the bound forced by its
/// numerator: `|n| <= m * d` gives `|n / d| <= m`.
pub proof fn lemma_tdiv_mag(n: int, d: int, m: int)
    requires
        d != 0,
        0 <= m,
        iabs(n) <= m * iabs(d),
    ensures
        iabs(tdiv(n, d)) <= m,
{
    assert(iabs(n) / iabs(d) <= m) by (nonlinear_arith)
        requires
            iabs(d) >= 1,
            0 <= m,
            0 <= iabs(n) <= m * iabs(d),
    ;
}

/// Fixed-point products of scalars in `[0, 1]` stay in `[0, 1]` and under
/// either factor.
pub proof fn lemma_fmul_unit_interval(a: int, b: int)
    by (nonlinear_arith)
    requires
        0 <= a <= SCALE as int,
        0 <= b <= SCALE as int,
    ensures
        0 <= fmul(a, b),
        fmul(a, b) <= a,
        fmul(a, b) <= b,
{
}

/// Floor square root of a `u128`, by binary search.
pub fn isqrt(n: u128) -> (r: u128)
    requires
        n < 0x4000_0000_0000_0000_0000_0000_0000_0000u128,
    ensures
        r == sqrt_floor(n as nat),
        r * r <= n,
        n < (r + 1) * (r + 1),
        r < 0x8000_0000_0000_0000u128,
{
    if n == 0 {
        proof {
            assert(0nat * 0nat <= 0nat && 0nat < (0nat + 1) * (0nat + 1)) by (nonlinear_arith);
            lemma_sqrt_char(0, 0);
        }
        return 0;
    }
    let mut lo: u128 = 0;
    let mut hi: u128 = 0x8000_0000_0000_0000;
    while hi - lo > 1
        invariant
            lo < hi,
            hi <= 0x8000_0000_0000_0000u128,
            lo * lo <= n,
            n < hi * hi,
            n < 0x4000_0000_0000_0000_0000_0000_0000_0000u128,
        decreases hi - lo,
    {
        let mid: u128 = lo + (hi - lo) / 2;
        assert(mid * mid < 0x4000_0000_0000_0000_0000_0000_0000_0000u128)
            by (nonlinear_arith)
            requires
                mid < 0x8000_0000_0000_0000u128,
        ;
        if mid * mid <= n {
            lo = mid;
        } else {
            hi = mid;
        }
    }
    proof {
        lemma_sqrt_char(n as nat, lo as nat);
    }
    lo
}

/// Truncating division of an `i128` by a positive divisor.
pub fn tdiv_i128(n: i128, d: i128) -> (r: i128)
    requires
        d > 0,
        n > i128::MIN,
    ensures
        r == tdiv(n as int, d as int),
{
    if n >= 0 {
        let q: u128 = (n as u128) / (d as u128);
        assert(q <= n as u128) by (nonlinear_arith)
            requires
                d as u128 >= 1,
                q == (n as u128) / (d as u128),
        ;
        q as i128
    } else {
        let m: u128 = ((-n) as u128) / (d as u128);
        assert(m <= (-n) as u128) by (nonlinear_arith)
            requires
                d as u128 >= 1,
                m == ((-n) as u128) / (d as u128),
        ;
        -(m as i128)
    }
}

/// Fixed-point multiplication.
pub fn fp_mul(a: i64, b: i64) -> (r: i64)
    requires
        i64::MIN <= fmul(a as int, b as int) <= i64::MAX,
    ensures
        r == fmul(a as int, b as int),
{
    assert(-0x4000_0000_0000_0000_0000_0000_0000_0000
        <= (a as int) * (b as int)
        <= 0x4000_0000_0000_0000_0000_0000_0000_0000) by (nonlinear_arith)
        requires
            -0x8000_0000_0000_0000 <= a as int <= 0x7fff_ffff_ffff_ffff,
            -0x8000_0000_0000_0000 <= b as int <= 0x7fff_ffff_ffff_ffff,
    ;
    let p: i128 = (a as i128) * (b as i128);
    let q = tdiv_i128(p, 4096);
    q as i64
}

/// Fixed-point division.
pub fn fp_div(a: i64, b: i64) -> (r: i64)
    requires
        b != 0,
        i64::MIN <= fdiv(a as int, b as int) <= i64::MAX,
    ensures
        r == fdiv(a as int, b as int),
{
    let n: i128 = (a as i128) * 4096;
    if b > 0 {
        let q = tdiv_i128(n, b as i128);
        q as i64
    } else {
        let q = tdiv_i128(n, -(b as i128));
        assert(tdiv(n as int, -(b as int)) == -tdiv(n as int, b as int));
        (-q) as i64
    }
}

/// Magnitude of a fixed-point product, from magnitudes of the factors.
pub proof fn lemma_fmul_mag(a: int, b: int, ma: int, mb: int)
    by (nonlinear_arith)
    requires
        0 <= ma,
        0 <= mb,
        iabs(a) <= ma,
        iabs(b) <= mb,
    ensures
        iabs(a * b) <= ma * mb,
        iabs(fmul(a, b)) <= (ma * mb) / (SCALE as int),
        iabs(fmul(a, b)) <= ma * mb,
{
}

/// Magnitude of a fixed-point quotient by a divisor of magnitude at
/// least one.
pub proof fn lemma_fdiv_mag(a: int, b: int, ma: int)
    by (nonlinear_arith)
    requires
        0 <= ma,
        iabs(a) <= ma,
        iabs(b) >= 1,
    ensures
        iabs(fdiv(a, b)) <= ma * (SCALE as int),
{
}

pub open spec fn clampi(x: int, m: int) -> int {
    if x > m { m } else if x < -m { -m } else { x }
}

/// Clamp a scalar to the symmetric range `[-m, m]`.
pub fn clamp_mag(x: i64, m: i64) -> (r: i64)
    requires
        m > 0,
    ensures
        r == clampi(x as int, m as int),
{
    if x > m {
        m
    } else if x < -m {
        -m
    } else {
        x
    }
}

} // verus!
