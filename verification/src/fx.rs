//! Signed 16.16 fixed-point scalars.
//!
//! A scalar is an `i64` whose real value is the integer divided by
//! [`FX_ONE`].  Multiplication and division round toward zero; the square
//! root rounds down.  Every operation is specified exactly in terms of the
//! underlying integers.

use vstd::prelude::*;

verus! {

/// The fixed-point unit: the representation of the real number 1.
pub const FX_ONE: i64 = 65536;

/// π in fixed point, rounded to nearest.
pub const FX_PI: i64 = 205887;

/// Whether a mathematical integer is representable as an `i64`.
pub open spec fn fits64(x: int) -> bool {
    i64::MIN <= x <= i64::MAX
}

/// Division truncated toward zero, for any nonzero divisor.
pub open spec fn qdiv(n: int, d: int) -> int
    recommends
        d != 0,
{
    let m = if n >= 0 {
        n
    } else {
        -n
    };
    let e = if d >= 0 {
        d
    } else {
        -d
    };
    if (n >= 0) == (d >= 0) {
        m / e
    } else {
        -(m / e)
    }
}

/// The exact value of a fixed-point product before narrowing.
pub open spec fn fx_mul_spec(a: int, b: int) -> int {
    qdiv(a * b, FX_ONE as int)
}

/// The exact value of a fixed-point quotient before narrowing.
pub open spec fn fx_div_spec(a: int, b: int) -> int
    recommends
        b != 0,
{
    qdiv(a * FX_ONE, b)
}

/// Truncated division of two `i128` values, with the quotient known to
/// fit in the result range demanded by the caller.
pub fn qdiv_i128(n: i128, d: i128) -> (r: i128)
    requires
        d != 0,
        d > i128::MIN,
        n > i128::MIN,
    ensures
        r == qdiv(n as int, d as int),
        n >= 0 && d > 0 ==> 0 <= r <= n,
{
    let m: u128 = if n >= 0 {
        n as u128
    } else {
        (-n) as u128
    };
    let e: u128 = if d >= 0 {
        d as u128
    } else {
        (-d) as u128
    };
    let q: u128 = m / e;
    assert(q * e <= m) by (nonlinear_arith)
        requires
            q == m / e,
            e > 0,
    ;
    if (n >= 0) == (d >= 0) {
        q as i128
    } else {
        assert(q <= m);
        -(q as i128)
    }
}

/// Fixed-point multiplication, truncated toward zero.
pub fn fx_mul(a: i64, b: i64) -> (r: i64)
    requires
        fits64(fx_mul_spec(a as int, b as int)),
    ensures
        r == fx_mul_spec(a as int, b as int),
{
    let p: i128 = (a as i128) * (b as i128);
    let q: i128 = qdiv_i128(p, FX_ONE as i128);
    q as i64
}

/// Fixed-point division, truncated toward zero.
pub fn fx_div(a: i64, b: i64) -> (r: i64)
    requires
        b != 0,
        fits64(fx_div_spec(a as int, b as int)),
    ensures
        r == fx_div_spec(a as int, b as int),
{
    let p: i128 = (a as i128) * (FX_ONE as i128);
    let q: i128 = qdiv_i128(p, b as i128);
    q as i64
}

/// Halve a scalar, truncating toward zero.
pub fn fx_half(x: i64) -> (r: i64)
    requires
        x > i64::MIN,
    ensures
        r == qdiv(x as int, 2),
{
    if x >= 0 {
        ((x as u64) / 2) as i64
    } else {
        -(((-x) as u64 / 2) as i64)
    }
}

/// Division of a nonnegative scalar by a positive one.
pub fn div_pos(n: i64, d: i64) -> (r: i64)
    requires
        n >= 0,
        d >= 1,
    ensures
        r == n as int / d as int,
{
    ((n as u64) / (d as u64)) as i64
}

/// Integer square root, rounded down.
pub fn isqrt_u128(v: u128) -> (r: u128)
    ensures
        r * r <= v,
        v < (r + 1) * (r + 1),
{
    let mut lo: u128 = 0;
    let mut hi: u128 = 0x1_0000_0000_0000_0000;
    assert((0x1_0000_0000_0000_0000 as int) * (0x1_0000_0000_0000_0000 as int) > v as int)
        by (nonlinear_arith)
        requires
            v <= u128::MAX,
    ;
    while lo + 1 < hi
        invariant
            lo < hi,
            hi <= 0x1_0000_0000_0000_0000,
            lo * lo <= v,
            v < hi * hi,
        decreases hi - lo,
    {
        let mid: u128 = lo + (hi - lo) / 2;
        assert(lo < mid < hi);
        assert(mid * mid < 0x1_0000_0000_0000_0000u128 * 0x1_0000_0000_0000_0000u128)
            by (nonlinear_arith)
            requires
                mid < 0x1_0000_0000_0000_0000u128,
        ;
        if mid * mid <= v {
            lo = mid;
        } else {
            hi = mid;
        }
    }
    lo
}

/// The integer square root of a nonnegative integer.
pub open spec fn isqrt_spec(v: int) -> int
    recommends
        v >= 0,
{
    choose|r: int| 0 <= r && #[trigger] (r * r) <= v && v < (r + 1) * (r + 1)
}

/// A nonnegative `r` with `r² ≤ v < (r+1)²` is the integer square root.
pub proof fn lemma_isqrt_is(v: int, r: int)
    requires
        r >= 0,
        r * r <= v,
        v < (r + 1) * (r + 1),
    ensures
        isqrt_spec(v) == r,
{
    assert(exists|q: int| 0 <= q && #[trigger] (q * q) <= v && v < (q + 1) * (q + 1)) by {
        assert(0 <= r && r * r <= v && v < (r + 1) * (r + 1));
    }
    let q = choose|q: int| 0 <= q && #[trigger] (q * q) <= v && v < (q + 1) * (q + 1);
    assert(q == r) by (nonlinear_arith)
        requires
            q >= 0,
            r >= 0,
            q * q <= v,
            v < (q + 1) * (q + 1),
            r * r <= v,
            v < (r + 1) * (r + 1),
    ;
}

/// Every nonnegative integer has an integer square root.
pub proof fn lemma_isqrt_exists(v: int)
    requires
        v >= 0,
    ensures
        isqrt_spec(v) >= 0,
        isqrt_spec(v) * isqrt_spec(v) <= v,
        v < (isqrt_spec(v) + 1) * (isqrt_spec(v) + 1),
    decreases v,
{
    if v == 0 {
        lemma_isqrt_is(0, 0);
    } else {
        lemma_isqrt_exists(v - 1);
        let r = isqrt_spec(v - 1);
        if v < (r + 1) * (r + 1) {
            lemma_isqrt_is(v, r);
        } else {
            assert(v == (r + 1) * (r + 1));
            assert(v < (r + 2) * (r + 2)) by (nonlinear_arith)
                requires
                    v == (r + 1) * (r + 1),
                    r >= 0,
            ;
            lemma_isqrt_is(v, r + 1);
        }
    }
}

/// Bound on a product from bounds on its factors.
pub proof fn lemma_mul_le(a: int, b: int, c: int, d: int)
    requires
        abs_spec(a) <= c,
        abs_spec(b) <= d,
    ensures
        abs_spec(a * b) <= c * d,
{
    assert(abs_spec(a * b) <= c * d) by (nonlinear_arith)
        requires
            abs_spec(a) <= c,
            abs_spec(b) <= d,
    ;
}

/// Truncated division shrinks magnitude: `|n/d| ≤ m/d` when `|n| ≤ m`.
pub proof fn lemma_qdiv_le(n: int, d: int, m: int)
    requires
        d >= 1,
        abs_spec(n) <= m,
    ensures
        abs_spec(qdiv(n, d)) <= m / d,
{
    assert(abs_spec(qdiv(n, d)) <= m / d) by (nonlinear_arith)
        requires
            d >= 1,
            abs_spec(n) <= m,
    ;
}

/// Division by at least one does not grow a nonnegative value.
pub proof fn lemma_div_shrink(m: int, d: int)
    requires
        m >= 0,
        d >= 1,
    ensures
        m / d <= m,
        m / d >= 0,
{
    assert(m / d <= m && m / d >= 0) by (nonlinear_arith)
        requires
            m >= 0,
            d >= 1,
    ;
}

/// Truncated division is monotone in the dividend.
pub proof fn lemma_qdiv_mono(n1: int, n2: int, d: int)
    requires
        d >= 1,
        n1 <= n2,
    ensures
        qdiv(n1, d) <= qdiv(n2, d),
{
    assert(qdiv(n1, d) <= qdiv(n2, d)) by (nonlinear_arith)
        requires
            d >= 1,
            n1 <= n2,
    ;
}

/// A scaled ratio of `a` to `b` with `0 ≤ a ≤ b` lies within one unit.
pub proof fn lemma_div_ratio(a: int, b: int)
    requires
        0 <= a <= b,
        b >= 1,
    ensures
        0 <= qdiv(a * FX_ONE, b) <= FX_ONE,
{
    assert(0 <= qdiv(a * FX_ONE, b) <= FX_ONE) by (nonlinear_arith)
        requires
            0 <= a <= b,
            b >= 1,
            FX_ONE == 65536,
    ;
}

/// Truncated division keeps the sign of a nonnegative dividend.
pub proof fn lemma_qdiv_nonneg(n: int, d: int)
    requires
        d >= 1,
        n >= 0,
    ensures
        qdiv(n, d) >= 0,
        qdiv(n, d) <= n,
{
    assert(qdiv(n, d) >= 0 && qdiv(n, d) <= n) by (nonlinear_arith)
        requires
            d >= 1,
            n >= 0,
    ;
}

/// Fixed-point square root of a nonnegative scalar, rounded down:
/// the result `r` satisfies `r² ≤ a·FX_ONE < (r+1)²` over the raw integers.
pub fn fx_sqrt(a: i64) -> (r: i64)
    requires
        a >= 0,
    ensures
        r >= 0,
        r * r <= a * FX_ONE,
        a * FX_ONE < (r + 1) * (r + 1),
        r == isqrt_spec(a * FX_ONE),
{
    proof {
        assert((a as u128) * (FX_ONE as u128) < 0x1_0000_0000_0000_0000_0000_0000u128)
            by (nonlinear_arith)
            requires
                0 <= a <= i64::MAX,
        ;
    }
    let v: u128 = (a as u128) * (FX_ONE as u128);
    let r: u128 = isqrt_u128(v);
    assert(r * r <= v);
    assert(r < 0x1_0000_0000_0000_0000u128) by (nonlinear_arith)
        requires
            r * r <= v,
            v < 0x1_0000_0000_0000_0000_0000_0000u128,
    ;
    assert(r * r < 0x1_0000_0000_0000_0000_0000_0000u128);
    assert(r <= 0xffff_ffff_ffffu128) by (nonlinear_arith)
        requires
            r * r < 0x1_0000_0000_0000_0000_0000_0000u128,
    ;
    proof {
        lemma_isqrt_is(a * FX_ONE, r as int);
    }
    r as i64
}

/// Natural logarithm of `u / FX_ONE`, negated, for `u` in `(0, 1]`:
/// doublings count whole multiples of ln 2, a short series handles the
/// rest.  The contract states only what the sampling code needs: the
/// result is a nonnegative, moderate free-flight length.
pub fn neg_ln_unit(u: i64) -> (r: i64)
    requires
        1 <= u <= FX_ONE,
    ensures
        0 <= r <= 2_000_000,
{
    let mut x: i64 = u;
    let mut k: i64 = 0;
    while x < 32768
        invariant
            1 <= x <= FX_ONE,
            0 <= k <= 17,
        decreases FX_ONE - x,
    {
        x = 2 * x;
        if k < 17 {
            k = k + 1;
        }
    }
    let z: i64 = FX_ONE - x;
    proof {
        lemma_mul_le(z as int, z as int, 32768, 32768);
        lemma_qdiv_nonneg(z * z, FX_ONE as int);
        lemma_qdiv_le(z * z, FX_ONE as int, 32768int * 32768int);
    }
    let z2 = fx_mul(z, z);
    proof {
        lemma_mul_le(z2 as int, z as int, 32768, 32768);
        lemma_qdiv_nonneg(z2 * z, FX_ONE as int);
        lemma_qdiv_le(z2 * z, FX_ONE as int, 32768int * 32768int);
    }
    let z3 = fx_mul(z2, z);
    proof {
        lemma_mul_le(z3 as int, z as int, 32768, 32768);
        lemma_qdiv_nonneg(z3 * z, FX_ONE as int);
        lemma_qdiv_le(z3 * z, FX_ONE as int, 32768int * 32768int);
    }
    let z4 = fx_mul(z3, z);
    proof {
        lemma_mul_le(z4 as int, z as int, 32768, 32768);
        lemma_qdiv_nonneg(z4 * z, FX_ONE as int);
        lemma_qdiv_le(z4 * z, FX_ONE as int, 32768int * 32768int);
    }
    let z5 = fx_mul(z4, z);
    let series: i64 = z + div_pos(z2, 2) + div_pos(z3, 3) + div_pos(z4, 4) + div_pos(z5, 5);
    let ln2: i64 = 45426;
    let r = k * ln2 + series;
    if r > 2_000_000 {
        2_000_000
    } else {
        r
    }
}

/// The sine of an angle in fixed-point radians, clamped to `[-1, 1]`.
/// Range reduction to a quadrant and a short odd series; the contract
/// promises only the range and the value at zero.
pub fn fx_sin(x: i64) -> (r: i64)
    requires
        -0x4000_0000 <= x <= 0x4000_0000,
    ensures
        -FX_ONE <= r <= FX_ONE,
        x == 0 ==> r == 0,
{
    let two_pi: i64 = 411775;
    let half_pi: i64 = 102944;
    let y: i64 = if x >= 0 {
        x
    } else {
        -x
    };
    let q0: i64 = div_pos(y, two_pi);
    proof {
        assert(0 <= y - (y as int / 411775) * 411775 < 411775) by (nonlinear_arith)
            requires
                0 <= y,
        ;
    }
    let mut a: i64 = y - q0 * two_pi;
    if a < 0 {
        a = 0;
    }
    if a >= two_pi {
        a = a - two_pi;
    }
    let quad: i64 = div_pos(a, half_pi);
    proof {
        assert(0 <= a - (a as int / 102944) * 102944 < 102944 && 0 <= a as int / 102944 <= 3)
            by (nonlinear_arith)
            requires
                0 <= a < 411775,
        ;
    }
    let b: i64 = a - quad * half_pi;
    let bb = if b > half_pi {
        half_pi
    } else if b < 0 {
        0
    } else {
        b
    };
    let s = sin_quarter(bb);
    let c = cos_quarter(bb);
    let v: i64 = if quad == 0 {
        s
    } else if quad == 1 {
        c
    } else if quad == 2 {
        -s
    } else {
        -c
    };
    let v2 = fx_clamp(v, -FX_ONE, FX_ONE);
    if x >= 0 {
        v2
    } else {
        -v2
    }
}

/// The cosine of an angle in fixed-point radians, clamped to `[-1, 1]`.
pub fn fx_cos(x: i64) -> (r: i64)
    requires
        -0x4000_0000 <= x <= 0x4000_0000,
    ensures
        -FX_ONE <= r <= FX_ONE,
        x == 0 ==> r == FX_ONE,
{
    if x == 0 {
        return FX_ONE;
    }
    let half_pi: i64 = 102944;
    let y: i64 = if x >= 0 {
        x
    } else {
        -x
    };
    if y <= 0x4000_0000 - half_pi {
        fx_sin(y + half_pi)
    } else {
        fx_sin(y - 308831)
    }
}

/// Sine on the first quadrant by series, clamped.
fn sin_quarter(b: i64) -> (r: i64)
    requires
        0 <= b <= 102944,
    ensures
        -FX_ONE <= r <= FX_ONE,
        b == 0 ==> r == 0,
{
    if b == 0 {
        return 0;
    }
    proof {
        lemma_mul_le(b as int, b as int, 102944, 102944);
        lemma_qdiv_le(b * b, FX_ONE as int, 102944int * 102944int);
        lemma_qdiv_nonneg(b * b, FX_ONE as int);
    }
    let b2 = fx_mul(b, b);
    proof {
        lemma_mul_le(b2 as int, b as int, 161705, 102944);
        lemma_qdiv_le(b2 * b, FX_ONE as int, 161705int * 102944int);
    }
    let b3 = fx_mul(b2, b);
    proof {
        lemma_mul_le(b3 as int, b as int, 254010, 102944);
        lemma_qdiv_le(b3 * b, FX_ONE as int, 254010int * 102944int);
    }
    let b4 = fx_mul(b3, b);
    proof {
        lemma_mul_le(b4 as int, b as int, 399000, 102944);
        lemma_qdiv_le(b4 * b, FX_ONE as int, 399000int * 102944int);
    }
    let b5 = fx_mul(b4, b);
    proof {
        lemma_mul_le(b5 as int, b as int, 626800, 102944);
        lemma_qdiv_le(b5 * b, FX_ONE as int, 626800int * 102944int);
    }
    let b6 = fx_mul(b5, b);
    proof {
        lemma_mul_le(b6 as int, b as int, 984700, 102944);
        lemma_qdiv_le(b6 * b, FX_ONE as int, 984700int * 102944int);
    }
    let b7 = fx_mul(b6, b);
    let v = b - div_pos(if b3 >= 0 {
        b3
    } else {
        0
    }, 6) + div_pos(if b5 >= 0 {
        b5
    } else {
        0
    }, 120) - div_pos(if b7 >= 0 {
        b7
    } else {
        0
    }, 5040);
    fx_clamp(v, -FX_ONE, FX_ONE)
}

/// Cosine on the first quadrant by series, clamped.
fn cos_quarter(b: i64) -> (r: i64)
    requires
        0 <= b <= 102944,
    ensures
        -FX_ONE <= r <= FX_ONE,
{
    proof {
        lemma_mul_le(b as int, b as int, 102944, 102944);
        lemma_qdiv_le(b * b, FX_ONE as int, 102944int * 102944int);
        lemma_qdiv_nonneg(b * b, FX_ONE as int);
    }
    let b2 = fx_mul(b, b);
    proof {
        lemma_mul_le(b2 as int, b2 as int, 161705, 161705);
        lemma_qdiv_le(b2 * b2, FX_ONE as int, 161705int * 161705int);
        lemma_qdiv_nonneg(b2 * b2, FX_ONE as int);
    }
    let b4 = fx_mul(b2, b2);
    proof {
        lemma_mul_le(b4 as int, b2 as int, 399000, 161705);
        lemma_qdiv_le(b4 * b2, FX_ONE as int, 399000int * 161705int);
        lemma_qdiv_nonneg(b4 * b2, FX_ONE as int);
    }
    let b6 = fx_mul(b4, b2);
    let v = FX_ONE - div_pos(if b2 >= 0 {
        b2
    } else {
        0
    }, 2) + div_pos(if b4 >= 0 {
        b4
    } else {
        0
    }, 24) - div_pos(if b6 >= 0 {
        b6
    } else {
        0
    }, 720);
    fx_clamp(v, -FX_ONE, FX_ONE)
}

/// Degrees to fixed-point radians, exactly `d·π / 180` truncated.
pub fn degree_to_radians(d: i64) -> (r: i64)
    requires
        -0x4000_0000 <= d <= 0x4000_0000,
    ensures
        r == qdiv(fx_mul_spec(d as int, FX_PI as int), 180),
{
    proof {
        lemma_mul_le(d as int, FX_PI as int, 0x4000_0000, FX_PI as int);
        lemma_qdiv_le(d * FX_PI, FX_ONE as int, 0x4000_0000 * (FX_PI as int));
        lemma_qdiv_le(
            fx_mul_spec(d as int, FX_PI as int),
            180,
            (0x4000_0000 * (FX_PI as int)) / (FX_ONE as int),
        );
    }
    let p: i128 = (d as i128) * (FX_PI as i128);
    let m: i128 = qdiv_i128(p, FX_ONE as i128);
    let r: i128 = qdiv_i128(m, 180);
    r as i64
}

/// Clamp a scalar into `[lo, hi]`.
pub fn fx_clamp(x: i64, lo: i64, hi: i64) -> (r: i64)
    requires
        lo <= hi,
    ensures
        r == fx_clamp_spec(x as int, lo as int, hi as int),
{
    if x < lo {
        lo
    } else if x > hi {
        hi
    } else {
        x
    }
}

/// The value of [`fx_clamp`].
pub open spec fn fx_clamp_spec(x: int, lo: int, hi: int) -> int {
    if x < lo {
        lo
    } else if x > hi {
        hi
    } else {
        x
    }
}

/// Absolute value of a scalar.
pub fn fx_abs(x: i64) -> (r: i64)
    requires
        x > i64::MIN,
    ensures
        r == abs_spec(x as int),
{
    if x < 0 {
        -x
    } else {
        x
    }
}

/// The absolute value of a mathematical integer.
pub open spec fn abs_spec(x: int) -> int {
    if x >= 0 {
        x
    } else {
        -x
    }
}

} // verus!
