//! Fixed-point scalar arithmetic.
//!
//! Scalars are 64-bit integers denoting the rational `value / SCALE`.  All
//! rounding is floor rounding (towards negative infinity), which matches the
//! Euclidean `/` of specification integers, so every executable helper here
//! has an exact `ensures` over `int` arithmetic.

use vstd::prelude::*;

verus! {

/// One whole unit: a fixed-point scalar `v` denotes the rational `v / SCALE`.
pub const SCALE: i64 = 65536;

/// Largest magnitude allowed for a scene coordinate, radius or focus distance.
pub const COORD_MAX: i64 = 1073741824;

/// Largest magnitude allowed for a component of a ray origin or direction.
pub const RAY_MAX: i64 = 34359738368;

/// Upper bound of the ray-parameter interval used by the integrator; rays are
/// never followed beyond this many `1/SCALE` steps of their direction.
pub const T_CAP: i64 = 1073741824;

/// The integer square root, rounded down; meaningful for `n >= 0`.
pub open spec fn sqrt_floor(n: int) -> int {
    choose|r: int| 0 <= r && #[trigger] (r * r) <= n && n < (r + 1) * (r + 1)
}


/// For every nonnegative `n` the floor square root exists, so `sqrt_floor`
/// satisfies its bracketing property.
pub proof fn lemma_sqrt_floor_exists(n: int)
    requires
        n >= 0,
    ensures
        0 <= sqrt_floor(n),
        sqrt_floor(n) * sqrt_floor(n) <= n,
        n < (sqrt_floor(n) + 1) * (sqrt_floor(n) + 1),
    decreases n,
{
    if n == 0 {
        assert(0 <= 0 && #[trigger] (0int * 0int) <= n && n < (0int + 1) * (0int + 1));
        let r = sqrt_floor(n);
        assert(0 <= r && r * r <= n && n < (r + 1) * (r + 1));
    } else {
        lemma_sqrt_floor_exists(n - 1);
        let s = sqrt_floor(n - 1);
        if n < (s + 1) * (s + 1) {
            assert(0 <= s && #[trigger] (s * s) <= n && n < (s + 1) * (s + 1));
        } else {
            assert(n == (s + 1) * (s + 1));
            assert((s + 1) * (s + 1) < (s + 2) * (s + 2)) by (nonlinear_arith)
                requires
                    s >= 0,
            {
            }
            assert(0 <= s + 1 && #[trigger] ((s + 1) * (s + 1)) <= n && n < (s + 2) * (s + 2));
        }
        let r = sqrt_floor(n);
        assert(0 <= r && r * r <= n && n < (r + 1) * (r + 1));
    }
}

/// `sqrt_floor` is pinned down by the bracketing property.
pub proof fn lemma_sqrt_floor_is(n: int, r: int)
    requires
        0 <= r,
        r * r <= n,
        n < (r + 1) * (r + 1),
    ensures
        sqrt_floor(n) == r,
{
    let s: int = sqrt_floor(n);
    assert(0 <= s && s * s <= n && n < (s + 1) * (s + 1));
    assert(s == r) by (nonlinear_arith)
        requires
            0 <= r,
            r * r <= n,
            n < (r + 1) * (r + 1),
            0 <= s,
            s * s <= n,
            n < (s + 1) * (s + 1),
    {
    }
}

/// Integer square root of a 128-bit value by bisection.
pub fn isqrt_u128(n: u128) -> (r: u128)
    ensures
        r * r <= n < (r + 1) * (r + 1),
        r == sqrt_floor(n as int),
{
    let mut lo: u128 = 0;
    let mut hi: u128 = 0x10000000000000000u128;
    assert(n < hi * hi);
    while hi - lo > 1
        invariant
            lo < hi <= 0x10000000000000000u128,
            lo * lo <= n,
            n < hi * hi,
        decreases hi - lo,
    {
        let mid: u128 = lo + (hi - lo) / 2;
        assert(lo < mid < hi);
        assert(mid * mid <= 0xffffffffffffffffu128 * 0xffffffffffffffffu128) by (nonlinear_arith)
            requires
                mid <= 0xffffffffffffffffu128,
        {
        }
        if mid * mid <= n {
            lo = mid;
        } else {
            hi = mid;
        }
    }
    assert(hi == lo + 1);
    proof {
        lemma_sqrt_floor_is(n as int, lo as int);
    }
    lo
}

/// Floor division of a 64-bit scalar by a positive divisor.
pub fn div_floor_i64(a: i64, b: i64) -> (r: i64)
    requires
        b > 0,
    ensures
        r == a as int / b as int,
{
    let q: i128 = div_floor_i128(a as i128, b as i128);
    proof {
        lemma_div_floor_fits(a as int, b as int);
    }
    q as i64
}

/// The floor quotient of `a` by a positive `b` never leaves `a`'s own range.
proof fn lemma_div_floor_fits(a: int, b: int)
    requires
        b > 0,
        i64::MIN <= a <= i64::MAX,
    ensures
        i64::MIN <= a / b <= i64::MAX,
{
    vstd::arithmetic::div_mod::lemma_fundamental_div_mod(a, b);
    assert(i64::MIN <= a / b <= i64::MAX) by (nonlinear_arith)
        requires
            b > 0,
            i64::MIN <= a <= i64::MAX,
            a == b * (a / b) + a % b,
            0 <= a % b < b,
    {
    }
}

/// Floor division of a 128-bit scalar by a positive divisor.
pub fn div_floor_i128(a: i128, b: i128) -> (r: i128)
    requires
        b > 0,
        a > i128::MIN,
    ensures
        r == a as int / b as int,
{
    if a >= 0 {
        let q: u128 = (a as u128) / (b as u128);
        assert(q == a as int / b as int);
        q as i128
    } else {
        let m: u128 = (-a) as u128;
        assert(m == -(a as int));
        let bu: u128 = b as u128;
        let q: u128 = m / bu;
        let rem: u128 = m % bu;
        assert(q <= m) by (nonlinear_arith)
            requires
                bu > 0,
                q == m / bu,
        {
            vstd::arithmetic::div_mod::lemma_fundamental_div_mod(m as int, bu as int);
        }
        assert(q <= 0x7fffffffffffffffffffffffffffffffu128);
        if rem == 0 {
            proof {
                lemma_neg_div_exact(a as int, b as int, q as int);
            }
            -(q as i128)
        } else {
            proof {
                lemma_neg_div_round(a as int, b as int, q as int, rem as int);
            }
            -(q as i128) - 1
        }
    }
}

proof fn lemma_neg_div_exact(a: int, b: int, q: int)
    requires
        b > 0,
        a < 0,
        q == (-a) / b,
        (-a) % b == 0,
    ensures
        a / b == -q,
{
    vstd::arithmetic::div_mod::lemma_fundamental_div_mod(-a, b);
    assert(-a == b * q);
    assert(a == b * (-q) + 0) by (nonlinear_arith)
        requires
            -a == b * q,
    {
    }
    vstd::arithmetic::div_mod::lemma_fundamental_div_mod_converse(a, b, -q, 0);
}

proof fn lemma_neg_div_round(a: int, b: int, q: int, rem: int)
    requires
        b > 0,
        a < 0,
        i128::MIN <= a,
        q == (-a) / b,
        rem == (-a) % b,
        0 < rem,
    ensures
        a / b == -q - 1,
{
    vstd::arithmetic::div_mod::lemma_fundamental_div_mod(-a, b);
    assert(rem < b);
    assert(a == b * (-q - 1) + (b - rem)) by (nonlinear_arith)
        requires
            -a == b * q + rem,
    {
    }
    vstd::arithmetic::div_mod::lemma_fundamental_div_mod_converse(a, b, -q - 1, b - rem);
    assert(b * q <= -a) by (nonlinear_arith)
        requires
            -a == b * q + rem,
            rem > 0,
    {
    }
}

} // verus!
