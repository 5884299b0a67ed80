use vstd::prelude::*;
use vstd::arithmetic::div_mod::*;

verus! {

/// The fixed-point scale: this many integer units stand for the real value one.
/// Every scalar the renderer works with is an `i64` holding a multiple of
/// 1/65536, so a value `v` stands for the real number `v / 65536`.
pub const ONE: i64 = 65536;

/// The fixed-point rendering of one half.
pub const HALF: i64 = 32768;

/// Largest magnitude allowed for a scene coordinate (about 1024 in real
/// units).  Keeping coordinates inside this range is what makes every
/// intermediate product below fit its machine integer.
pub const COORD_MAX: i64 = 0x400_0000;

/// Far bound for ray parameters (about 16384 in real units); it stands in for
/// infinity when the scene is searched along a whole ray.
pub const T_FAR: i64 = 0x4000_0000;

/// Near clip for bounce rays (about 0.001 in real units), guarding a ray that
/// starts on a surface against immediately re-intersecting that surface.
pub const T_NEAR: i64 = 66;

/// Truncating division (rounding toward zero), the behaviour of `/` on the
/// machine's signed integers; this library only divides by positive divisors.
pub open spec fn tdiv(a: int, b: int) -> int {
    if a >= 0 {
        a / b
    } else {
        -((-a) / b)
    }
}

/// Fixed-point product: the truncated, rescaled product of two fixed-point
/// scalars.
pub open spec fn fxmul(a: int, b: int) -> int {
    tdiv(a * b, 65536)
}

/// Fixed-point quotient of two fixed-point scalars (positive divisor).
pub open spec fn fxdiv(a: int, b: int) -> int {
    tdiv(a * 65536, b)
}

/// Integer square root rounded down.
pub open spec fn sqrt_floor(n: nat) -> nat
    decreases n,
{
    if n == 0 {
        0
    } else {
        let s = sqrt_floor((n - 1) as nat);
        if (s + 1) * (s + 1) <= n {
            s + 1
        } else {
            s
        }
    }
}

/// Square root of a nonnegative fixed-point scalar, as a fixed-point scalar.
pub open spec fn fxsqrt(a: int) -> int {
    sqrt_floor((a * 65536) as nat) as int
}

pub proof fn lemma_square_monotonic(x: nat, y: nat)
    by (nonlinear_arith)
    requires
        x <= y,
    ensures
        x * x <= y * y,
{
}

/// `sqrt_floor(n)` really is the square root rounded down.
pub proof fn lemma_sqrt_floor_bounds(n: nat)
    ensures
        sqrt_floor(n) * sqrt_floor(n) <= n,
        n < (sqrt_floor(n) + 1) * (sqrt_floor(n) + 1),
    decreases n,
{
    if n == 0 {
        assert(sqrt_floor(0) == 0);
        assert(n < (sqrt_floor(n) + 1) * (sqrt_floor(n) + 1)) by (nonlinear_arith)
            requires
                n == 0,
                sqrt_floor(n) == 0,
        {
        }
    } else {
        lemma_sqrt_floor_bounds((n - 1) as nat);
        let s = sqrt_floor((n - 1) as nat);
        assert(s * s <= n - 1 && n - 1 < (s + 1) * (s + 1));
        if (s + 1) * (s + 1) <= n {
            assert(sqrt_floor(n) == s + 1);
            assert(n < (s + 2) * (s + 2)) by (nonlinear_arith)
                requires
                    n <= (n - 1) + 1,
                    (n - 1) < (s + 1) * (s + 1),
            {
            }
            assert(sqrt_floor(n) * sqrt_floor(n) == (s + 1) * (s + 1));
            assert((sqrt_floor(n) + 1) * (sqrt_floor(n) + 1) == (s + 2) * (s + 2));
        } else {
            assert(sqrt_floor(n) == s);
            assert(sqrt_floor(n) * sqrt_floor(n) == s * s);
            assert((sqrt_floor(n) + 1) * (sqrt_floor(n) + 1) == (s + 1) * (s + 1));
        }
    }
}

/// Any `r` with `r^2 <= n < (r+1)^2` is the rounded-down square root.
pub proof fn lemma_sqrt_floor_unique(n: nat, r: nat)
    requires
        r * r <= n,
        n < (r + 1) * (r + 1),
    ensures
        sqrt_floor(n) == r,
{
    let s = sqrt_floor(n);
    lemma_sqrt_floor_bounds(n);
    if s < r {
        lemma_square_monotonic((s + 1) as nat, r);
        assert(n < (s + 1) * (s + 1));
    }
    if r < s {
        lemma_square_monotonic((r + 1) as nat, s);
        assert(n < (r + 1) * (r + 1));
    }
}

pub proof fn lemma_sqrt_floor_monotonic(a: nat, b: nat)
    requires
        a <= b,
    ensures
        sqrt_floor(a) <= sqrt_floor(b),
{
    let sa = sqrt_floor(a);
    let sb = sqrt_floor(b);
    lemma_sqrt_floor_bounds(a);
    lemma_sqrt_floor_bounds(b);
    if sb < sa {
        lemma_square_monotonic((sb + 1) as nat, sa);
        assert(b < sa * sa);
    }
}

/// Dividing a multiple of `b` by `b` recovers the factor exactly.
pub proof fn lemma_tdiv_cancel(x: int, b: int)
    requires
        0 < b,
    ensures
        tdiv(x * b, b) == x,
{
    if x >= 0 {
        assert(0 <= x * b && x * b == b * x) by (nonlinear_arith)
            requires
                0 <= x,
                0 < b,
        {
        }
        lemma_div_multiples_vanish(x, b);
    } else {
        assert(x * b < 0 && -(x * b) == b * (-x)) by (nonlinear_arith)
            requires
                x < 0,
                0 < b,
        {
        }
        lemma_div_multiples_vanish(-x, b);
    }
}

/// Truncating division never moves away from zero faster than the dividend.
pub proof fn lemma_tdiv_bound(a: int, b: int)
    requires
        0 < b,
    ensures
        a >= 0 ==> 0 <= tdiv(a, b) <= a,
        a < 0 ==> a <= tdiv(a, b) <= 0,
{
    if a >= 0 {
        lemma_div_pos_is_pos(a, b);
        lemma_div_nonincreasing(a, b);
    } else {
        lemma_div_pos_is_pos(-a, b);
        lemma_div_nonincreasing(-a, b);
    }
}

pub proof fn lemma_tdiv_monotonic(x: int, y: int, b: int)
    requires
        x <= y,
        0 < b,
    ensures
        tdiv(x, b) <= tdiv(y, b),
{
    if x >= 0 {
        lemma_div_is_ordered(x, y, b);
    } else if y >= 0 {
        lemma_tdiv_bound(x, b);
        lemma_tdiv_bound(y, b);
    } else {
        lemma_div_is_ordered(-y, -x, b);
    }
}

/// The magnitude of a fixed-point product is bounded by the rescaled product
/// of the factor bounds.
pub proof fn lemma_fxmul_bound(a: int, b: int, m1: int, m2: int)
    requires
        -m1 <= a <= m1,
        -m2 <= b <= m2,
    ensures
        -tdiv(m1 * m2, 65536) <= fxmul(a, b) <= tdiv(m1 * m2, 65536),
        0 <= tdiv(m1 * m2, 65536) <= m1 * m2,
{
    assert(-(m1 * m2) <= a * b <= m1 * m2) by (nonlinear_arith)
        requires
            -m1 <= a <= m1,
            -m2 <= b <= m2,
    {
    }
    lemma_tdiv_monotonic(a * b, m1 * m2, 65536);
    lemma_tdiv_monotonic(-(m1 * m2), a * b, 65536);
    lemma_tdiv_bound(m1 * m2, 65536);
    assert(tdiv(-(m1 * m2), 65536) == -tdiv(m1 * m2, 65536));
}

/// A fixed-point product of nonnegative scalars is nonnegative and bounded
/// by the rescaled product of the bounds.
pub proof fn lemma_fxmul_nonneg_le(a: int, b: int, m1: int, m2: int)
    requires
        0 <= a <= m1,
        0 <= b <= m2,
    ensures
        0 <= fxmul(a, b) <= tdiv(m1 * m2, 65536),
        tdiv(m1 * m2, 65536) <= m1 * m2,
{
    assert(0 <= a * b <= m1 * m2) by (nonlinear_arith)
        requires
            0 <= a <= m1,
            0 <= b <= m2,
    {
    }
    lemma_tdiv_bound(a * b, 65536);
    lemma_tdiv_monotonic(a * b, m1 * m2, 65536);
    lemma_tdiv_bound(m1 * m2, 65536);
}

/// A fixed-point square is never negative.
pub proof fn lemma_fxmul_self_nonneg(a: int)
    ensures
        0 <= fxmul(a, a),
{
    assert(0 <= a * a) by (nonlinear_arith);
    lemma_tdiv_bound(a * a, 65536);
}

/// Truncating division of machine integers, computed over nonnegative
/// magnitudes so that its value is pinned down exactly.
pub fn tdiv_i128(a: i128, b: i128) -> (r: i128)
    requires
        0 < b,
        i128::MIN < a,
    ensures
        r as int == tdiv(a as int, b as int),
{
    proof {
        lemma_tdiv_bound(a as int, b as int);
    }
    if a >= 0 {
        let q: u128 = (a as u128) / (b as u128);
        q as i128
    } else {
        let q: u128 = ((-a) as u128) / (b as u128);
        -(q as i128)
    }
}

/// Fixed-point multiplication on machine scalars.
pub fn fx_mul(a: i64, b: i64) -> (r: i64)
    requires
        i64::MIN <= fxmul(a as int, b as int) <= i64::MAX,
    ensures
        r as int == fxmul(a as int, b as int),
{
    proof {
        assert((a as int) * (b as int) <= 0x4000_0000_0000_0000_0000_0000_0000_0000
            && -0x4000_0000_0000_0000_0000_0000_0000_0000 <= (a as int) * (b as int))
            by (nonlinear_arith)
            requires
                i64::MIN <= a <= i64::MAX,
                i64::MIN <= b <= i64::MAX,
        {
        }
    }
    let p: i128 = (a as i128) * (b as i128);
    let q: i128 = tdiv_i128(p, 65536);
    q as i64
}

/// Fixed-point multiplication with a wide result, for intermediates that can
/// outgrow a 64-bit scalar.
pub fn fxmul_wide(a: i64, b: i64) -> (r: i128)
    ensures
        r as int == fxmul(a as int, b as int),
{
    proof {
        assert((a as int) * (b as int) <= 0x4000_0000_0000_0000_0000_0000_0000_0000
            && -0x4000_0000_0000_0000_0000_0000_0000_0000 <= (a as int) * (b as int))
            by (nonlinear_arith)
            requires
                i64::MIN <= a <= i64::MAX,
                i64::MIN <= b <= i64::MAX,
        {
        }
    }
    let p: i128 = (a as i128) * (b as i128);
    tdiv_i128(p, 65536)
}

/// Fixed-point division by a positive fixed-point scalar.
pub fn fx_div(a: i64, b: i64) -> (r: i64)
    requires
        0 < b,
        i64::MIN <= fxdiv(a as int, b as int) <= i64::MAX,
    ensures
        r as int == fxdiv(a as int, b as int),
{
    let p: i128 = (a as i128) * 65536;
    let q: i128 = tdiv_i128(p, b as i128);
    q as i64
}

/// Truncating division on 64-bit scalars by a positive divisor.
pub fn tdiv_i64(a: i64, b: i64) -> (r: i64)
    requires
        0 < b,
    ensures
        r as int == tdiv(a as int, b as int),
{
    proof {
        lemma_tdiv_bound(a as int, b as int);
    }
    let q: i128 = tdiv_i128(a as i128, b as i128);
    q as i64
}

/// Integer square root of a 128-bit value, by bisection.
pub fn isqrt_u128(n: u128) -> (r: u128)
    ensures
        r as nat == sqrt_floor(n as nat),
        r * r <= n,
{
    let mut lo: u128 = 0;
    let mut hi: u128 = if n >= 0xFFFF_FFFF_FFFF_FFFF {
        0x1_0000_0000_0000_0000
    } else {
        n + 1
    };
    proof {
        if n >= 0xFFFF_FFFF_FFFF_FFFF {
            assert((hi as int) * (hi as int) > n as int) by (nonlinear_arith)
                requires
                    hi == 0x1_0000_0000_0000_0000,
                    n < 0x1_0000_0000_0000_0000_0000_0000_0000_0000,
            {
            }
        } else {
            assert((n as int + 1) * (n as int + 1) > n as int) by (nonlinear_arith);
        }
    }
    while lo + 1 < hi
        invariant
            lo < hi <= 0x1_0000_0000_0000_0000,
            (lo as int) * (lo as int) <= n as int,
            (hi as int) * (hi as int) > n as int,
        decreases hi - lo,
    {
        let mid: u128 = lo + (hi - lo) / 2;
        proof {
            assert((mid as int) * (mid as int) < 0x1_0000_0000_0000_0000_0000_0000_0000_0000)
                by (nonlinear_arith)
                requires
                    mid < 0x1_0000_0000_0000_0000,
            {
            }
        }
        if mid * mid <= n {
            lo = mid;
        } else {
            hi = mid;
        }
    }
    proof {
        lemma_sqrt_floor_unique(n as nat, lo as nat);
    }
    lo
}

/// Square root of a nonnegative fixed-point scalar.
pub fn fx_sqrt(a: i64) -> (r: i64)
    requires
        0 <= a,
    ensures
        r as int == fxsqrt(a as int),
        0 <= r,
{
    let w: u128 = (a as u128) * 65536;
    let s: u128 = isqrt_u128(w);
    proof {
        assert(s < 0x8000_0000_0000_0000_0000_0000_0000_0000u128) by (nonlinear_arith)
            requires
                (s as int) * (s as int) <= w as int,
                w < 0x1_0000_0000_0000_0000_0000,
        {
        }
        assert(s < 0x8000_0000_0000_0000u128) by (nonlinear_arith)
            requires
                (s as int) * (s as int) <= w as int,
                w < 0x1_0000_0000_0000_0000_0000,
        {
        }
    }
    s as i64
}

} // verus!
