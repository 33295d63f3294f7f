//! Points, directions and colors as fixed-point 3-vectors, and rays.
//!
//! Every operation carries an exact contract over mathematical integers:
//! a product of two scalars is divided by `SCALE` (floor rounding), so the
//! specification of each method is the integer formula the body computes.

use vstd::prelude::*;

use crate::fixed::{div_floor_i128, isqrt_u128, sqrt_floor, RAY_MAX, SCALE, T_CAP};
use crate::rng::{sm_next_state, sm_word, Sampler};

verus! {

/// Magnitude cap under which `dot` is safe from intermediate overflow.
pub const DOT_MAX: i64 = 1152921504606846976;

/// Magnitude cap under which `unit_vector` is safe from overflow.
pub const UNIT_MAX: i64 = 274877906944;

/// Fixed-point clamp ceiling for color channels (0.999 in units of `SCALE`).
pub const CHANNEL_CLAMP: i64 = 65470;

/// How many rejection-sampling attempts are made before falling back to a
/// fixed in-range point.
pub const SAMPLE_ATTEMPTS: u32 = 64;

/// A value fits the 64-bit signed range.
pub open spec fn in64(v: int) -> bool {
    i64::MIN <= v <= i64::MAX
}

#[derive(Clone, Copy, Debug, PartialEq, Eq, Structural)]
pub struct Vec3 {
    pub x: i64,
    pub y: i64,
    pub z: i64,
}

pub type Point = Vec3;

pub type Color = Vec3;

/// Every component of `v` has magnitude at most `b`.
pub open spec fn bounded(v: Vec3, b: int) -> bool {
    &&& -b <= v.x <= b
    &&& -b <= v.y <= b
    &&& -b <= v.z <= b
}

/// The unscaled inner product (in units of `SCALE * SCALE`).
pub open spec fn dot_wide(a: Vec3, b: Vec3) -> int {
    a.x * b.x + a.y * b.y + a.z * b.z
}

/// The fixed-point inner product.
pub open spec fn dot_spec(a: Vec3, b: Vec3) -> int {
    dot_wide(a, b) / (SCALE as int)
}

/// The fixed-point length: `sqrt(|v|^2)` in units of `SCALE`.
pub open spec fn len_spec(v: Vec3) -> int {
    sqrt_floor(dot_spec(v, v) * SCALE)
}

/// The smaller of two integers.
pub open spec fn imin(a: int, b: int) -> int {
    if a < b {
        a
    } else {
        b
    }
}

/// A floor quotient by a positive divisor keeps any symmetric bound on the
/// dividend.
pub proof fn lemma_div_scale_bound(e: int, d: int, m: int)
    requires
        d >= 1,
        0 <= m,
        -m <= e <= m,
    ensures
        -m <= e / d <= m,
{
    vstd::arithmetic::div_mod::lemma_fundamental_div_mod(e, d);
    assert(-m <= e / d <= m) by (nonlinear_arith)
        requires
            d >= 1,
            0 <= m,
            -m <= e <= m,
            e == d * (e / d) + e % d,
            0 <= e % d < d,
    {
    }
}

/// A product of two bounded scalars, divided by `SCALE`, keeps the product
/// of the bounds divided by `SCALE`.
pub proof fn lemma_muldiv_bound(a: int, k: int, ab: int, kb: int)
    requires
        0 <= ab,
        0 <= kb,
        -ab <= a <= ab,
        -kb <= k <= kb,
    ensures
        -(ab * kb) <= a * k <= ab * kb,
        (-(ab * kb)) / (SCALE as int) <= a * k / (SCALE as int) <= (ab * kb) / (SCALE as int),
{
    assert(-(ab * kb) <= a * k <= ab * kb) by (nonlinear_arith)
        requires
            0 <= ab,
            0 <= kb,
            -ab <= a <= ab,
            -kb <= k <= kb,
    {
    }
    vstd::arithmetic::div_mod::lemma_div_is_ordered(a * k, ab * kb, SCALE as int);
    vstd::arithmetic::div_mod::lemma_div_is_ordered(-(ab * kb), a * k, SCALE as int);
}

/// Componentwise bounds give a bound on the inner product.
pub proof fn lemma_dot_bound(a: Vec3, b: Vec3, m: int, n: int)
    requires
        0 <= m,
        0 <= n,
        bounded(a, m),
        bounded(b, n),
    ensures
        -(3 * m * n) <= dot_wide(a, b) <= 3 * m * n,
        -(3 * m * n) <= dot_spec(a, b) <= 3 * m * n,
        -(3 * m * n) / (SCALE as int) <= dot_spec(a, b) <= (3 * m * n) / (SCALE as int),
{
    assert(0 <= 3 * m * n && -(3 * m * n) <= dot_wide(a, b) && dot_wide(a, b) <= 3 * m * n)
        by (nonlinear_arith)
        requires
            0 <= m,
            0 <= n,
            bounded(a, m),
            bounded(b, n),
    {
    }
    lemma_div_scale_bound(dot_wide(a, b), SCALE as int, 3 * m * n);
    vstd::arithmetic::div_mod::lemma_div_is_ordered(dot_wide(a, b), 3 * m * n, SCALE as int);
    vstd::arithmetic::div_mod::lemma_div_is_ordered(-(3 * m * n), dot_wide(a, b), SCALE as int);
}

/// The inner product of a vector with itself is nonnegative.
pub proof fn lemma_dot_self_nonneg(v: Vec3)
    ensures
        dot_wide(v, v) >= 0,
        dot_spec(v, v) >= 0,
{
    assert(dot_wide(v, v) >= 0) by (nonlinear_arith) {}
    vstd::arithmetic::div_mod::lemma_div_pos_is_pos(dot_wide(v, v), SCALE as int);
}

/// `a * k / d` with floor rounding, computed without intermediate overflow.
pub fn muldiv(a: i64, k: i64, d: i64) -> (r: i64)
    requires
        d > 0,
        in64(a as int * k as int / d as int),
    ensures
        r == a as int * k as int / d as int,
{
    assert(-0x40000000000000000000000000000000 <= a as int * k as int
        <= 0x40000000000000000000000000000000) by (nonlinear_arith)
        requires
            i64::MIN <= a <= i64::MAX,
            i64::MIN <= k <= i64::MAX,
    {
    }
    let p: i128 = (a as i128) * (k as i128);
    let q: i128 = div_floor_i128(p, d as i128);
    q as i64
}

impl Vec3 {
    /// Create a new Vec3.
    pub fn new(x: i64, y: i64, z: i64) -> (r: Self)
        ensures
            r == (Vec3 { x, y, z }),
    {
        Vec3 { x, y, z }
    }

    /// The zero vector.
    pub fn zero() -> (r: Self)
        ensures
            r == (Vec3 { x: 0i64, y: 0i64, z: 0i64 }),
    {
        Vec3 { x: 0, y: 0, z: 0 }
    }

    /// Get the vec3's x.
    pub fn x(self) -> (r: i64)
        ensures
            r == self.x,
    {
        self.x
    }

    /// Get the vec3's y.
    pub fn y(self) -> (r: i64)
        ensures
            r == self.y,
    {
        self.y
    }

    /// Get the vec3's z.
    pub fn z(self) -> (r: i64)
        ensures
            r == self.z,
    {
        self.z
    }

    /// Componentwise sum.
    pub fn add(self, other: Vec3) -> (r: Vec3)
        requires
            in64(self.x + other.x),
            in64(self.y + other.y),
            in64(self.z + other.z),
        ensures
            r.x == self.x + other.x,
            r.y == self.y + other.y,
            r.z == self.z + other.z,
    {
        Vec3 { x: self.x + other.x, y: self.y + other.y, z: self.z + other.z }
    }

    /// Componentwise difference.
    pub fn sub(self, other: Vec3) -> (r: Vec3)
        requires
            in64(self.x - other.x),
            in64(self.y - other.y),
            in64(self.z - other.z),
        ensures
            r.x == self.x - other.x,
            r.y == self.y - other.y,
            r.z == self.z - other.z,
    {
        Vec3 { x: self.x - other.x, y: self.y - other.y, z: self.z - other.z }
    }

    /// Componentwise negation.
    pub fn neg(self) -> (r: Vec3)
        requires
            self.x > i64::MIN,
            self.y > i64::MIN,
            self.z > i64::MIN,
        ensures
            r.x == -self.x,
            r.y == -self.y,
            r.z == -self.z,
    {
        Vec3 { x: -self.x, y: -self.y, z: -self.z }
    }

    /// Multiplication by a fixed-point scalar.
    pub fn scale(self, k: i64) -> (r: Vec3)
        requires
            in64(self.x * k / (SCALE as int)),
            in64(self.y * k / (SCALE as int)),
            in64(self.z * k / (SCALE as int)),
        ensures
            r.x == self.x * k / (SCALE as int),
            r.y == self.y * k / (SCALE as int),
            r.z == self.z * k / (SCALE as int),
    {
        Vec3 {
            x: muldiv(self.x, k, SCALE),
            y: muldiv(self.y, k, SCALE),
            z: muldiv(self.z, k, SCALE),
        }
    }

    /// Division by a positive fixed-point scalar.
    pub fn div_scalar(self, k: i64) -> (r: Vec3)
        requires
            k > 0,
            in64(self.x * SCALE / (k as int)),
            in64(self.y * SCALE / (k as int)),
            in64(self.z * SCALE / (k as int)),
        ensures
            r.x == self.x * SCALE / (k as int),
            r.y == self.y * SCALE / (k as int),
            r.z == self.z * SCALE / (k as int),
    {
        Vec3 {
            x: muldiv(self.x, SCALE, k),
            y: muldiv(self.y, SCALE, k),
            z: muldiv(self.z, SCALE, k),
        }
    }

    /// Componentwise (Hadamard) product of two fixed-point vectors.
    pub fn mul(self, other: Vec3) -> (r: Vec3)
        requires
            in64(self.x * other.x / (SCALE as int)),
            in64(self.y * other.y / (SCALE as int)),
            in64(self.z * other.z / (SCALE as int)),
        ensures
            r.x == self.x * other.x / (SCALE as int),
            r.y == self.y * other.y / (SCALE as int),
            r.z == self.z * other.z / (SCALE as int),
    {
        Vec3 {
            x: muldiv(self.x, other.x, SCALE),
            y: muldiv(self.y, other.y, SCALE),
            z: muldiv(self.z, other.z, SCALE),
        }
    }

    /// Dot product of two vectors.
    pub fn dot(self, other: Vec3) -> (r: i64)
        requires
            bounded(self, DOT_MAX as int),
            bounded(other, DOT_MAX as int),
            in64(dot_spec(self, other)),
        ensures
            r == dot_spec(self, other),
    {
        proof {
            lemma_dot_bound(self, other, DOT_MAX as int, DOT_MAX as int);
            assert({
                &&& -0x1000000000000000000000000000000 <= self.x * other.x
                    <= 0x1000000000000000000000000000000
                &&& -0x1000000000000000000000000000000 <= self.y * other.y
                    <= 0x1000000000000000000000000000000
                &&& -0x1000000000000000000000000000000 <= self.z * other.z
                    <= 0x1000000000000000000000000000000
            }) by (nonlinear_arith)
                requires
                    bounded(self, DOT_MAX as int),
                    bounded(other, DOT_MAX as int),
            {
            }
        }
        let s: i128 = (self.x as i128) * (other.x as i128) + (self.y as i128) * (other.y as i128)
            + (self.z as i128) * (other.z as i128);
        let q: i128 = div_floor_i128(s, SCALE as i128);
        q as i64
    }

    /// Cross product of two vectors.
    pub fn cross(self, other: Vec3) -> (r: Vec3)
        requires
            bounded(self, DOT_MAX as int),
            bounded(other, DOT_MAX as int),
            in64((self.y * other.z - self.z * other.y) / (SCALE as int)),
            in64((self.z * other.x - self.x * other.z) / (SCALE as int)),
            in64((self.x * other.y - self.y * other.x) / (SCALE as int)),
        ensures
            r.x == (self.y * other.z - self.z * other.y) / (SCALE as int),
            r.y == (self.z * other.x - self.x * other.z) / (SCALE as int),
            r.z == (self.x * other.y - self.y * other.x) / (SCALE as int),
    {
        Vec3 {
            x: cross_term(self.y, other.z, self.z, other.y),
            y: cross_term(self.z, other.x, self.x, other.z),
            z: cross_term(self.x, other.y, self.y, other.x),
        }
    }

    /// Length of the vector squared (a fixed-point scalar).
    pub fn length_squared(self) -> (r: i64)
        requires
            bounded(self, DOT_MAX as int),
            in64(dot_spec(self, self)),
        ensures
            r == dot_spec(self, self),
            r >= 0,
    {
        proof {
            lemma_dot_self_nonneg(self);
        }
        self.dot(self)
    }

    /// Length of the vector (a fixed-point scalar).
    pub fn length(self) -> (r: i64)
        requires
            bounded(self, DOT_MAX as int),
            in64(dot_spec(self, self)),
        ensures
            r == len_spec(self),
            r >= 0,
    {
        let lsq: i64 = self.length_squared();
        let n: u128 = (lsq as u128) * 65536u128;
        let s: u128 = isqrt_u128(n);
        assert(s < 0x10000000000u128) by (nonlinear_arith)
            requires
                s * s <= n,
                n < 0x100000000000000000000u128,
        {
        }
        s as i64
    }

    /// Unit vector of the vector.  The zero vector is its own unit vector,
    /// and a result that rounding pushed past `4 * SCALE` falls back to the
    /// x axis, so the result is always unit-sized.
    pub fn unit_vector(self) -> (r: Vec3)
        requires
            bounded(self, UNIT_MAX as int),
        ensures
            r == unit_spec(self),
            bounded(r, 4 * SCALE),
    {
        proof {
            lemma_dot_bound(self, self, UNIT_MAX as int, UNIT_MAX as int);
        }
        let len: i64 = self.length();
        if len == 0 {
            proof {
                lemma_dot_self_nonneg(self);
                if dot_spec(self, self) >= 1 {
                    assert(dot_spec(self, self) * SCALE >= SCALE) by (nonlinear_arith)
                        requires
                            dot_spec(self, self) >= 1,
                            SCALE == 65536,
                    {
                    }
                    lemma_sqrt_pos(dot_spec(self, self) * SCALE);
                    assert(false);
                }
                vstd::arithmetic::div_mod::lemma_fundamental_div_mod(dot_wide(self, self),
                    SCALE as int);
                assert(dot_wide(self, self) < SCALE);
                assert(self.x * self.x <= dot_wide(self, self) && self.y * self.y <= dot_wide(
                    self,
                    self,
                ) && self.z * self.z <= dot_wide(self, self)) by (nonlinear_arith) {}
                assert(-SCALE <= self.x <= SCALE) by (nonlinear_arith)
                    requires
                        self.x * self.x < 65536,
                {
                }
                assert(-SCALE <= self.y <= SCALE) by (nonlinear_arith)
                    requires
                        self.y * self.y < 65536,
                {
                }
                assert(-SCALE <= self.z <= SCALE) by (nonlinear_arith)
                    requires
                        self.z * self.z < 65536,
                {
                }
            }
            self
        } else {
            proof {
                lemma_div_scale_bound(self.x * SCALE, len as int, UNIT_MAX as int * SCALE);
                lemma_div_scale_bound(self.y * SCALE, len as int, UNIT_MAX as int * SCALE);
                lemma_div_scale_bound(self.z * SCALE, len as int, UNIT_MAX as int * SCALE);
            }
            let u = Vec3 {
                x: muldiv(self.x, SCALE, len),
                y: muldiv(self.y, SCALE, len),
                z: muldiv(self.z, SCALE, len),
            };
            if -4 * SCALE <= u.x && u.x <= 4 * SCALE && -4 * SCALE <= u.y && u.y <= 4 * SCALE
                && -4 * SCALE <= u.z && u.z <= 4 * SCALE {
                u
            } else {
                Vec3 { x: SCALE, y: 0, z: 0 }
            }
        }
    }

    /// Whether the vector is close to zero in all dimensions; at this model's
    /// resolution that means exactly zero.
    pub fn is_near_zero(self) -> (r: bool)
        ensures
            r <==> (self.x == 0 && self.y == 0 && self.z == 0),
    {
        self.x == 0 && self.y == 0 && self.z == 0
    }

    /// Componentwise fixed-point square root.
    pub fn sqrt(self) -> (r: Vec3)
        requires
            self.x >= 0,
            self.y >= 0,
            self.z >= 0,
        ensures
            r.x == sqrt_floor(self.x * SCALE),
            r.y == sqrt_floor(self.y * SCALE),
            r.z == sqrt_floor(self.z * SCALE),
    {
        Vec3 {
            x: sqrt_fixed(self.x),
            y: sqrt_fixed(self.y),
            z: sqrt_fixed(self.z),
        }
    }

    /// Mirror `self` about the plane orthogonal to `normal`.
    pub fn reflect(self, normal: Vec3) -> (r: Vec3)
        requires
            bounded(self, 0x100000),
            bounded(normal, 0x100000),
        ensures
            r == reflect_spec(self, normal),
            bounded(r, 0x80100000),
    {
        proof {
            lemma_dot_bound(self, normal, 0x100000, 0x100000);
        }
        let d: i64 = self.dot(normal);
        let twice: i64 = 2 * d;
        proof {
            lemma_muldiv_bound(normal.x as int, twice as int, 0x100000, 0x8000000);
            lemma_muldiv_bound(normal.y as int, twice as int, 0x100000, 0x8000000);
            lemma_muldiv_bound(normal.z as int, twice as int, 0x100000, 0x8000000);
        }
        self.sub(normal.scale(twice))
    }
}

/// Products of a `m`-bounded vector with a `k`-bounded scalar stay within
/// `m * k` componentwise.
pub open spec fn bounded_mul_ok(v: Vec3, k: int, m: int, kb: int) -> bool {
    &&& -m * kb <= v.x * k <= m * kb
    &&& -m * kb <= v.y * k <= m * kb
    &&& -m * kb <= v.z * k <= m * kb
}

/// What `unit_vector` returns.
pub open spec fn unit_spec(v: Vec3) -> Vec3 {
    let len = len_spec(v);
    if len == 0 {
        v
    } else {
        let u = Vec3 {
            x: (v.x * SCALE / len) as i64,
            y: (v.y * SCALE / len) as i64,
            z: (v.z * SCALE / len) as i64,
        };
        if bounded(u, 4 * SCALE) {
            u
        } else {
            Vec3 { x: SCALE, y: 0, z: 0 }
        }
    }
}

/// A positive argument has a positive floor square root.
pub proof fn lemma_sqrt_pos(n: int)
    requires
        n >= 1,
    ensures
        sqrt_floor(n) >= 1,
{
    let r = sqrt_floor(n);
    crate::fixed::lemma_sqrt_floor_exists(n);
    assert(r >= 1) by (nonlinear_arith)
        requires
            0 <= r,
            n < (r + 1) * (r + 1),
            n >= 1,
    {
    }
}

/// What `reflect` returns: `v - 2 (v . n) n`.
pub open spec fn reflect_spec(v: Vec3, n: Vec3) -> Vec3 {
    let d = dot_spec(v, n);
    Vec3 {
        x: (v.x - n.x * (2 * d) / (SCALE as int)) as i64,
        y: (v.y - n.y * (2 * d) / (SCALE as int)) as i64,
        z: (v.z - n.z * (2 * d) / (SCALE as int)) as i64,
    }
}

fn cross_term(p: i64, q: i64, s: i64, t: i64) -> (r: i64)
    requires
        -(DOT_MAX as int) <= p <= DOT_MAX as int,
        -(DOT_MAX as int) <= q <= DOT_MAX as int,
        -(DOT_MAX as int) <= s <= DOT_MAX as int,
        -(DOT_MAX as int) <= t <= DOT_MAX as int,
        in64((p * q - s * t) / (SCALE as int)),
    ensures
        r == (p * q - s * t) / (SCALE as int),
{
    assert(-0x2000000000000000000000000000000 <= p as int * q as int
        <= 0x2000000000000000000000000000000) by (nonlinear_arith)
        requires
            -(DOT_MAX as int) <= p <= DOT_MAX as int,
            -(DOT_MAX as int) <= q <= DOT_MAX as int,
    {
    }
    assert(-0x2000000000000000000000000000000 <= s as int * t as int
        <= 0x2000000000000000000000000000000) by (nonlinear_arith)
        requires
            -(DOT_MAX as int) <= s <= DOT_MAX as int,
            -(DOT_MAX as int) <= t <= DOT_MAX as int,
    {
    }
    let w: i128 = (p as i128) * (q as i128) - (s as i128) * (t as i128);
    let r128: i128 = div_floor_i128(w, SCALE as i128);
    r128 as i64
}

/// Fixed-point square root of a nonnegative fixed-point scalar.
pub fn sqrt_fixed(a: i64) -> (r: i64)
    requires
        a >= 0,
    ensures
        r == sqrt_floor(a * SCALE),
        r >= 0,
{
    let n: u128 = (a as u128) * 65536u128;
    let s: u128 = isqrt_u128(n);
    assert(s < 0x10000000000u128) by (nonlinear_arith)
        requires
            s * s <= n,
            n < 0x100000000000000000000u128,
    {
    }
    s as i64
}

/// One uniform draw per component in `[lo, hi)`, and the state after.
pub open spec fn range_sample_spec(s0: u64, lo: i64, hi: i64) -> (Vec3, u64) {
    let x = (lo + sm_word(s0) as int % (hi - lo)) as i64;
    let s1 = sm_next_state(s0);
    let y = (lo + sm_word(s1) as int % (hi - lo)) as i64;
    let s2 = sm_next_state(s1);
    let z = (lo + sm_word(s2) as int % (hi - lo)) as i64;
    let s3 = sm_next_state(s2);
    (Vec3 { x, y, z }, s3)
}

/// Rejection sampling for a point inside the unit sphere: keep drawing until
/// the square length is below one, falling back to a fixed interior point
/// when the attempt budget runs out.
pub open spec fn sphere_sample_spec(s0: u64, fuel: nat) -> (Vec3, u64)
    decreases fuel,
{
    if fuel == 0 {
        (Vec3 { x: 32768, y: 0, z: 0 }, s0)
    } else {
        let (p, s1) = range_sample_spec(s0, (-SCALE) as i64, SCALE);
        if dot_spec(p, p) < SCALE {
            (p, s1)
        } else {
            sphere_sample_spec(s1, (fuel - 1) as nat)
        }
    }
}

/// Rejection sampling for a point inside the unit disk of the x-y plane.
pub open spec fn disk_sample_spec(s0: u64, fuel: nat) -> (Vec3, u64)
    decreases fuel,
{
    if fuel == 0 {
        (Vec3 { x: 32768, y: 0, z: 0 }, s0)
    } else {
        let x = (-SCALE + sm_word(s0) as int % (2 * SCALE)) as i64;
        let s1 = sm_next_state(s0);
        let y = (-SCALE + sm_word(s1) as int % (2 * SCALE)) as i64;
        let s2 = sm_next_state(s1);
        let p = Vec3 { x, y, z: 0 };
        if dot_spec(p, p) < SCALE {
            (p, s2)
        } else {
            disk_sample_spec(s2, (fuel - 1) as nat)
        }
    }
}



/// Multiplication by a fixed-point scalar as a specification value.
pub open spec fn vscale(v: Vec3, k: i64) -> Vec3 {
    Vec3 {
        x: (v.x * k / (SCALE as int)) as i64,
        y: (v.y * k / (SCALE as int)) as i64,
        z: (v.z * k / (SCALE as int)) as i64,
    }
}

/// The cross product as a specification value.
pub open spec fn vcross(a: Vec3, b: Vec3) -> Vec3 {
    Vec3 {
        x: ((a.y * b.z - a.z * b.y) / (SCALE as int)) as i64,
        y: ((a.z * b.x - a.x * b.z) / (SCALE as int)) as i64,
        z: ((a.x * b.y - a.y * b.x) / (SCALE as int)) as i64,
    }
}

/// Componentwise sum as a specification value.
pub open spec fn vadd(a: Vec3, b: Vec3) -> Vec3 {
    Vec3 { x: (a.x + b.x) as i64, y: (a.y + b.y) as i64, z: (a.z + b.z) as i64 }
}

/// Componentwise difference as a specification value.
pub open spec fn vsub(a: Vec3, b: Vec3) -> Vec3 {
    Vec3 { x: (a.x - b.x) as i64, y: (a.y - b.y) as i64, z: (a.z - b.z) as i64 }
}

/// Componentwise negation as a specification value.
pub open spec fn neg_spec(v: Vec3) -> Vec3 {
    Vec3 { x: (-v.x) as i64, y: (-v.y) as i64, z: (-v.z) as i64 }
}

/// What `refract` returns: Snell refraction of `v` about `n` with the given
/// ratio of refractive indices, all in fixed point.
pub open spec fn refract_spec(v: Vec3, n: Vec3, etai_over_etat: i64) -> Vec3 {
    let d0 = imin(dot_spec(neg_spec(v), n), SCALE as int);
    let cos = if d0 < -(SCALE as int) {
        -(SCALE as int)
    } else {
        d0
    };
    let perp_in = Vec3 {
        x: (v.x + n.x * cos / (SCALE as int)) as i64,
        y: (v.y + n.y * cos / (SCALE as int)) as i64,
        z: (v.z + n.z * cos / (SCALE as int)) as i64,
    };
    let r_perp = Vec3 {
        x: (perp_in.x * etai_over_etat / (SCALE as int)) as i64,
        y: (perp_in.y * etai_over_etat / (SCALE as int)) as i64,
        z: (perp_in.z * etai_over_etat / (SCALE as int)) as i64,
    };
    let k = SCALE - dot_spec(r_perp, r_perp);
    let a = if k >= 0 { k } else { -k };
    let sq = sqrt_floor(a * SCALE);
    Vec3 {
        x: (r_perp.x + n.x * (-sq) / (SCALE as int)) as i64,
        y: (r_perp.y + n.y * (-sq) / (SCALE as int)) as i64,
        z: (r_perp.z + n.z * (-sq) / (SCALE as int)) as i64,
    }
}

/// One gamma-corrected 8-bit channel: scale, square-root, clamp, quantize.
pub open spec fn rgb_byte_spec(c: int, scale: int) -> u8 {
    (imin(sqrt_floor((c * scale / (SCALE as int)) * SCALE), CHANNEL_CLAMP as int) * 256 / (
    SCALE as int)) as u8
}

impl Vec3 {
    /// Create a new Vec3 with uniform random coordinates in `[lo, hi)`.
    pub fn new_random_range(rng: &mut Sampler, lo: i64, hi: i64) -> (r: Vec3)
        requires
            lo < hi,
            in64(hi - lo),
        ensures
            (r, final(rng).state) == range_sample_spec(old(rng).state, lo, hi),
            bounded(r, if -lo > hi { -(lo as int) } else { hi as int }),
    {
        let x: i64 = lo + rng.next_below(hi - lo);
        let y: i64 = lo + rng.next_below(hi - lo);
        let z: i64 = lo + rng.next_below(hi - lo);
        Vec3 { x, y, z }
    }

    /// Create a new Vec3 with uniform random coordinates in `[0, 1)`.
    pub fn new_random(rng: &mut Sampler) -> (r: Vec3)
        ensures
            (r, final(rng).state) == range_sample_spec(old(rng).state, 0, SCALE),
            bounded(r, SCALE as int),
            r.x >= 0,
            r.y >= 0,
            r.z >= 0,
    {
        Vec3::new_random_range(rng, 0, SCALE)
    }

    /// Create a new random Vec3 inside the unit sphere.
    #[verifier::rlimit(60)]
    #[verifier::loop_isolation(false)]
    pub fn new_random_in_unit_sphere(rng: &mut Sampler) -> (r: Vec3)
        ensures
            (r, final(rng).state) == sphere_sample_spec(old(rng).state, SAMPLE_ATTEMPTS as nat),
            dot_spec(r, r) < SCALE,
            bounded(r, SCALE as int),
    {
        let ghost s0: u64 = rng.state;
        let mut i: u32 = 0;
        while i < SAMPLE_ATTEMPTS
            invariant
                i <= SAMPLE_ATTEMPTS,
                sphere_sample_spec(s0, SAMPLE_ATTEMPTS as nat) == sphere_sample_spec(
                    rng.state,
                    (SAMPLE_ATTEMPTS - i) as nat,
                ),
            decreases SAMPLE_ATTEMPTS - i,
        {
            let p: Vec3 = Vec3::new_random_range(rng, -SCALE, SCALE);
            proof {
                lemma_dot_bound(p, p, SCALE as int, SCALE as int);
            }
            let lsq: i64 = p.length_squared();
            if lsq < SCALE {
                proof {
                    assert(sphere_sample_spec(s0, SAMPLE_ATTEMPTS as nat) == (p, rng.state));
                }
                return p;
            }
            i = i + 1;
        }
        proof {
            assert(sphere_sample_spec(rng.state, 0nat) == (Vec3 { x: 32768i64, y: 0i64, z: 0i64 },
            rng.state));
            assert(dot_wide(Vec3 { x: 32768i64, y: 0i64, z: 0i64 }, Vec3 { x: 32768i64, y: 0i64, z: 0i64 })
                == 0x40000000) by (nonlinear_arith) {}
            assert(0x40000000int / 65536int == 16384int);
        }
        Vec3 { x: 32768, y: 0, z: 0 }
    }

    /// Create a new random Vec3 inside the unit disk of the x-y plane.
    #[verifier::rlimit(60)]
    #[verifier::loop_isolation(false)]
    pub fn new_random_in_unit_disk(rng: &mut Sampler) -> (r: Vec3)
        ensures
            (r, final(rng).state) == disk_sample_spec(old(rng).state, SAMPLE_ATTEMPTS as nat),
            dot_spec(r, r) < SCALE,
            bounded(r, SCALE as int),
            r.z == 0,
    {
        let ghost s0: u64 = rng.state;
        let mut i: u32 = 0;
        while i < SAMPLE_ATTEMPTS
            invariant
                i <= SAMPLE_ATTEMPTS,
                disk_sample_spec(s0, SAMPLE_ATTEMPTS as nat) == disk_sample_spec(
                    rng.state,
                    (SAMPLE_ATTEMPTS - i) as nat,
                ),
            decreases SAMPLE_ATTEMPTS - i,
        {
            let x: i64 = -SCALE + rng.next_below(2 * SCALE);
            let y: i64 = -SCALE + rng.next_below(2 * SCALE);
            let p = Vec3 { x, y, z: 0 };
            proof {
                lemma_dot_bound(p, p, SCALE as int, SCALE as int);
            }
            let lsq: i64 = p.length_squared();
            if lsq < SCALE {
                proof {
                    assert(disk_sample_spec(s0, SAMPLE_ATTEMPTS as nat) == (p, rng.state));
                }
                return p;
            }
            i = i + 1;
        }
        proof {
            assert(disk_sample_spec(rng.state, 0nat) == (Vec3 { x: 32768i64, y: 0i64, z: 0i64 },
            rng.state));
            assert(dot_wide(Vec3 { x: 32768i64, y: 0i64, z: 0i64 }, Vec3 { x: 32768i64, y: 0i64, z: 0i64 })
                == 0x40000000) by (nonlinear_arith) {}
            assert(0x40000000int / 65536int == 16384int);
        }
        Vec3 { x: 32768, y: 0, z: 0 }
    }

    /// Create a new random unit vector.
    pub fn new_random_unit_vector(rng: &mut Sampler) -> (r: Vec3)
        ensures
            ({
                let (p, s) = sphere_sample_spec(old(rng).state, SAMPLE_ATTEMPTS as nat);
                r == unit_spec(p) && final(rng).state == s
            }),
            bounded(r, 4 * SCALE),
    {
        let p: Vec3 = Vec3::new_random_in_unit_sphere(rng);
        p.unit_vector()
    }

    /// Create a new random in-sphere sample on `normal`'s side of the surface.
    pub fn new_random_in_hemisphere(rng: &mut Sampler, normal: Vec3) -> (r: Vec3)
        requires
            bounded(normal, 4 * SCALE),
        ensures
            ({
                let (p, s) = sphere_sample_spec(old(rng).state, SAMPLE_ATTEMPTS as nat);
                final(rng).state == s && r == (if dot_spec(p, normal) > 0 {
                    p
                } else {
                    neg_spec(p)
                })
            }),
            bounded(r, SCALE as int),
    {
        let p: Vec3 = Vec3::new_random_in_unit_sphere(rng);
        proof {
            lemma_dot_bound(p, normal, SCALE as int, 4 * SCALE as int);
        }
        let d: i64 = p.dot(normal);
        if d > 0 {
            p
        } else {
            p.neg()
        }
    }

    /// Refraction of `self` about `normal` by Snell's law, for a ratio of
    /// refractive indices given as a fixed-point scalar.
    pub fn refract(self, normal: Vec3, etai_over_etat: i64) -> (r: Vec3)
        requires
            bounded(self, 4 * SCALE),
            bounded(normal, 4 * SCALE),
            0 < etai_over_etat <= 0x100000,
        ensures
            r == refract_spec(self, normal, etai_over_etat),
            bounded(r, 0x800000000),
    {
        let neg_self: Vec3 = self.neg();
        proof {
            assert(neg_self == neg_spec(self));
            lemma_dot_bound(neg_self, normal, 262144, 262144);
        }
        let mut cos: i64 = neg_self.dot(normal);
        if cos > SCALE {
            cos = SCALE;
        }
        if cos < -SCALE {
            cos = -SCALE;
        }
        proof {
            lemma_muldiv_bound(normal.x as int, cos as int, 262144, 65536);
            lemma_muldiv_bound(normal.y as int, cos as int, 262144, 65536);
            lemma_muldiv_bound(normal.z as int, cos as int, 262144, 65536);
        }
        let perp_in: Vec3 = self.add(normal.scale(cos));
        proof {
            assert(bounded(perp_in, 524288));
            lemma_muldiv_bound(perp_in.x as int, etai_over_etat as int, 524288, 1048576);
            lemma_muldiv_bound(perp_in.y as int, etai_over_etat as int, 524288, 1048576);
            lemma_muldiv_bound(perp_in.z as int, etai_over_etat as int, 524288, 1048576);
        }
        let r_perp: Vec3 = perp_in.scale(etai_over_etat);
        proof {
            assert(bounded(r_perp, 8388608));
            lemma_dot_bound(r_perp, r_perp, 8388608, 8388608);
        }
        let lsq: i64 = r_perp.length_squared();
        let k: i64 = if SCALE >= lsq {
            SCALE - lsq
        } else {
            lsq - SCALE
        };
        let sq: i64 = sqrt_fixed(k);
        proof {
            crate::fixed::lemma_sqrt_floor_exists(k * SCALE);
            assert(0 <= sq <= 4294967296) by (nonlinear_arith)
                requires
                    0 <= sq,
                    sq * sq <= k * SCALE,
                    0 <= k <= 281474976710656,
                    SCALE == 65536,
            {
            }
            lemma_muldiv_bound(normal.x as int, -(sq as int), 262144, 4294967296);
            lemma_muldiv_bound(normal.y as int, -(sq as int), 262144, 4294967296);
            lemma_muldiv_bound(normal.z as int, -(sq as int), 262144, 4294967296);
        }
        let r_par: Vec3 = normal.scale(-sq);
        r_perp.add(r_par)
    }

    /// Quantize a color to gamma-corrected 8-bit channels, scaling by the
    /// fixed-point factor `scale` first.
    pub fn to_rgb(&self, scale: i64) -> (r: [u8; 3])
        requires
            0 <= self.x <= 0x10000000000,
            0 <= self.y <= 0x10000000000,
            0 <= self.z <= 0x10000000000,
            0 <= scale <= SCALE,
        ensures
            r@ == seq![
                rgb_byte_spec(self.x as int, scale as int),
                rgb_byte_spec(self.y as int, scale as int),
                rgb_byte_spec(self.z as int, scale as int),
            ],
    {
        let bx: u8 = rgb_byte(self.x, scale);
        let by: u8 = rgb_byte(self.y, scale);
        let bz: u8 = rgb_byte(self.z, scale);
        let r: [u8; 3] = [bx, by, bz];
        proof {
            assert(r@ =~= seq![
                rgb_byte_spec(self.x as int, scale as int),
                rgb_byte_spec(self.y as int, scale as int),
                rgb_byte_spec(self.z as int, scale as int),
            ]);
        }
        r
    }

    /// Scale, gamma-correct, clamp and quantize this color in place: each
    /// component becomes its 8-bit channel value.
    pub fn correct_color(&mut self, scale: i64)
        requires
            0 <= old(self).x <= 0x10000000000,
            0 <= old(self).y <= 0x10000000000,
            0 <= old(self).z <= 0x10000000000,
            0 <= scale <= SCALE,
        ensures
            final(self).x == rgb_byte_spec(old(self).x as int, scale as int),
            final(self).y == rgb_byte_spec(old(self).y as int, scale as int),
            final(self).z == rgb_byte_spec(old(self).z as int, scale as int),
    {
        let bx: u8 = rgb_byte(self.x, scale);
        let by: u8 = rgb_byte(self.y, scale);
        let bz: u8 = rgb_byte(self.z, scale);
        self.x = bx as i64;
        self.y = by as i64;
        self.z = bz as i64;
    }

    /// The red channel of a quantized color.
    pub fn r(self) -> (r: u8)
        requires
            0 <= self.x <= 255,
        ensures
            r == self.x,
    {
        self.x as u8
    }

    /// The green channel of a quantized color.
    pub fn g(self) -> (r: u8)
        requires
            0 <= self.y <= 255,
        ensures
            r == self.y,
    {
        self.y as u8
    }

    /// The blue channel of a quantized color.
    pub fn b(self) -> (r: u8)
        requires
            0 <= self.z <= 255,
        ensures
            r == self.z,
    {
        self.z as u8
    }
}

/// One gamma-corrected channel, executable form of `rgb_byte_spec`.
pub fn rgb_byte(c: i64, scale: i64) -> (r: u8)
    requires
        0 <= c <= 0x10000000000,
        0 <= scale <= SCALE,
    ensures
        r == rgb_byte_spec(c as int, scale as int),
{
    proof {
        assert(0 <= c * scale <= 0x100000000000000) by (nonlinear_arith)
            requires
                0 <= c <= 0x10000000000,
                0 <= scale <= 65536,
        {
        }
        lemma_div_scale_bound(c * scale, SCALE as int, 0x100000000000000);
        vstd::arithmetic::div_mod::lemma_div_pos_is_pos(c * scale, SCALE as int);
    }
    let v: i64 = muldiv(c, scale, SCALE);
    let g: i64 = sqrt_fixed(v);
    let cl: i64 = if g > CHANNEL_CLAMP {
        CHANNEL_CLAMP
    } else {
        g
    };
    proof {
        lemma_div_scale_bound(cl * 256, SCALE as int, 16760320);
        vstd::arithmetic::div_mod::lemma_div_pos_is_pos(cl * 256, SCALE as int);
        vstd::arithmetic::div_mod::lemma_div_is_ordered(cl * 256, 16760320, SCALE as int);
    }
    let b: i64 = muldiv(cl, 256, SCALE);
    b as u8
}

/// A half line: origin plus nonnegative multiples of a direction.
#[derive(Clone, Copy, Debug, PartialEq, Eq, Structural)]
pub struct Ray {
    pub origin: Point,
    pub direction: Vec3,
}

/// What `Ray::at` returns: `origin + direction * t`.
pub open spec fn at_spec(ray: Ray, t: i64) -> Point {
    Vec3 {
        x: (ray.origin.x + ray.direction.x * t / (SCALE as int)) as i64,
        y: (ray.origin.y + ray.direction.y * t / (SCALE as int)) as i64,
        z: (ray.origin.z + ray.direction.z * t / (SCALE as int)) as i64,
    }
}

impl Ray {
    /// Create a ray from an origin and a direction.
    pub fn new(origin: Point, direction: Vec3) -> (r: Self)
        ensures
            r == (Ray { origin, direction }),
    {
        Ray { origin, direction }
    }

    /// Get the point along the ray at a certain param t.
    pub fn at(self, t: i64) -> (r: Point)
        requires
            bounded(self.origin, RAY_MAX as int),
            bounded(self.direction, RAY_MAX as int),
            0 <= t <= T_CAP,
        ensures
            r == at_spec(self, t),
            bounded(r, 0x4000000000000),
    {
        proof {
            assert(bounded_mul_ok(self.direction, t as int, RAY_MAX as int, T_CAP as int))
                by (nonlinear_arith)
                requires
                    bounded(self.direction, RAY_MAX as int),
                    0 <= t <= T_CAP,
                    RAY_MAX == 34359738368,
                    T_CAP == 1073741824,
            {
            }
            lemma_div_scale_bound(self.direction.x * t, SCALE as int, 0x800000000000000000);
            lemma_div_scale_bound(self.direction.y * t, SCALE as int, 0x800000000000000000);
            lemma_div_scale_bound(self.direction.z * t, SCALE as int, 0x800000000000000000);
            vstd::arithmetic::div_mod::lemma_div_is_ordered(self.direction.x * t,
                (0x20000000000000 * 0x10000) as int, SCALE as int);
            vstd::arithmetic::div_mod::lemma_div_is_ordered(-((0x20000000000000 * 0x10000) as int),
                self.direction.x * t, SCALE as int);
            vstd::arithmetic::div_mod::lemma_div_is_ordered(self.direction.y * t,
                (0x20000000000000 * 0x10000) as int, SCALE as int);
            vstd::arithmetic::div_mod::lemma_div_is_ordered(-((0x20000000000000 * 0x10000) as int),
                self.direction.y * t, SCALE as int);
            vstd::arithmetic::div_mod::lemma_div_is_ordered(self.direction.z * t,
                (0x20000000000000 * 0x10000) as int, SCALE as int);
            vstd::arithmetic::div_mod::lemma_div_is_ordered(-((0x20000000000000 * 0x10000) as int),
                self.direction.z * t, SCALE as int);
        }
        self.origin.add(self.direction.scale(t))
    }
}

/// A ray meeting a boundary with matched refractive indices passes through
/// unchanged: for a surface normal along the z axis and a downward unit
/// incoming direction whose tangential square length divides evenly by
/// `SCALE`, refraction at ratio one is the identity.
pub proof fn lemma_refract_matched(v: Vec3)
    requires
        bounded(v, SCALE as int),
        v.z < 0,
        (v.x * v.x + v.y * v.y) % (SCALE as int) == 0,
        v.x * v.x + v.y * v.y + v.z * v.z == SCALE * SCALE,
    ensures
        refract_spec(v, Vec3 { x: 0, y: 0, z: SCALE }, SCALE) == v,
{
    let n = Vec3 { x: 0int as i64, y: 0, z: SCALE };
    let nv = neg_spec(v);
    assert(dot_wide(nv, n) == (-v.z) * SCALE) by (nonlinear_arith)
        requires
            nv.x == -v.x && nv.y == -v.y && nv.z == -v.z,
            n.x == 0 && n.y == 0 && n.z == SCALE,
    {
    }
    vstd::arithmetic::div_mod::lemma_div_multiples_vanish(-(v.z as int), SCALE as int);
    assert(dot_spec(nv, n) == -v.z);
    let cos = -(v.z as int);
    assert(0 < cos <= SCALE);
    // the tangential part: adding `n * cos` cancels the z component exactly
    vstd::arithmetic::div_mod::lemma_div_multiples_vanish(cos, SCALE as int);
    assert(n.z * cos / (SCALE as int) == cos);
    assert(0int / 65536int == 0int);
    let perp_in = Vec3 {
        x: (v.x + n.x * cos / (SCALE as int)) as i64,
        y: (v.y + n.y * cos / (SCALE as int)) as i64,
        z: (v.z + n.z * cos / (SCALE as int)) as i64,
    };
    assert(perp_in == (Vec3 { x: v.x, y: v.y, z: 0i64 }));
    vstd::arithmetic::div_mod::lemma_div_multiples_vanish(v.x as int, SCALE as int);
    vstd::arithmetic::div_mod::lemma_div_multiples_vanish(v.y as int, SCALE as int);
    assert(perp_in.x * SCALE == SCALE * (v.x as int)) by (nonlinear_arith)
        requires
            perp_in.x == v.x,
    {
    }
    assert(perp_in.y * SCALE == SCALE * (v.y as int)) by (nonlinear_arith)
        requires
            perp_in.y == v.y,
    {
    }
    let r_perp = Vec3 {
        x: (perp_in.x * SCALE / (SCALE as int)) as i64,
        y: (perp_in.y * SCALE / (SCALE as int)) as i64,
        z: (perp_in.z * SCALE / (SCALE as int)) as i64,
    };
    assert(r_perp == (Vec3 { x: v.x, y: v.y, z: 0i64 }));
    // its square length is the tangential square length, which divides evenly
    assert(dot_wide(r_perp, r_perp) == v.x * v.x + v.y * v.y) by (nonlinear_arith)
        requires
            r_perp.x == v.x && r_perp.y == v.y && r_perp.z == 0,
    {
    }
    let tsq = v.x * v.x + v.y * v.y;
    vstd::arithmetic::div_mod::lemma_fundamental_div_mod(tsq, SCALE as int);
    let lsq = dot_spec(r_perp, r_perp);
    assert(tsq == (SCALE as int) * lsq);
    // k * SCALE is exactly the square of -v.z
    let k = SCALE - lsq;
    assert(k * SCALE == cos * cos) by (nonlinear_arith)
        requires
            tsq == (SCALE as int) * lsq,
            tsq + v.z * v.z == SCALE * SCALE,
            k == SCALE - lsq,
            cos == -(v.z as int),
            SCALE == 65536,
    {
    }
    assert(0 <= lsq) by {
        lemma_dot_self_nonneg(r_perp);
    }
    assert(k >= 0) by (nonlinear_arith)
        requires
            k * SCALE == cos * cos,
            SCALE == 65536,
    {
    }
    assert(cos * cos < (cos + 1) * (cos + 1)) by (nonlinear_arith)
        requires
            cos >= 0,
    {
    }
    crate::fixed::lemma_sqrt_floor_is(k * SCALE, cos);
    let sq = crate::fixed::sqrt_floor(k * SCALE);
    assert(sq == cos);
    vstd::arithmetic::div_mod::lemma_div_multiples_vanish(-cos, SCALE as int);
    assert(n.z * (-sq) == SCALE as int * (-cos)) by (nonlinear_arith)
        requires
            sq == cos,
            n.z == SCALE,
    {
    }
    assert(n.z * (-sq) / (SCALE as int) == -cos);
    assert(-cos == v.z);
}

} // verus!
