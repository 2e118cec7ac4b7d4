//! Integer plane geometry for positions, velocities and directions.
//!
//! Positions and velocities are whole world units; directions are scaled
//! by a thousand, so a unit vector has components in `[-1000, 1000]`.
//! Angles are whole hundredths of a degree in `[0, 36000)`. The sine is
//! a fixed-point rational approximation that is exact at every quarter
//! turn, which is all the gameplay rules ever rely on. Every division
//! here truncates toward zero, as the executable code does; the spec
//! functions say so explicitly instead of leaning on the default
//! floor-division of mathematical integers.

use vstd::arithmetic::div_mod::{
    lemma_div_is_ordered, lemma_div_multiples_vanish, lemma_div_nonincreasing,
    lemma_div_pos_is_pos,
};
use vstd::arithmetic::mul::lemma_mul_is_commutative;
use vstd::prelude::*;

verus! {

/// A point or vector of the 2D arena, in whole world units.
#[derive(Clone, Copy, Debug, PartialEq, Eq, Structural)]
pub struct Vec2i {
    pub x: i64,
    pub y: i64,
}

/// The arena half-extent: positions are clamped into
/// `[-POS_LIMIT, POS_LIMIT]` on both axes.
pub const POS_LIMIT: i64 = 1_000_000_000;

/// The speed cap: velocity components are clamped into
/// `[-VEL_LIMIT, VEL_LIMIT]`.
pub const VEL_LIMIT: i64 = 1_000_000;

/// `v` clamped into `[-lim, lim]`.
pub open spec fn spec_clamp(v: int, lim: int) -> int {
    if v < -lim {
        -lim
    } else if v > lim {
        lim
    } else {
        v
    }
}

/// Division truncating toward zero, on a positive divisor: what the
/// executable `/` computes on `i64`.
pub open spec fn spec_div_trunc(num: int, den: int) -> int {
    if num >= 0 {
        num / den
    } else {
        -((-num) / den)
    }
}

/// `a + b`, clamped into `[-lim, lim]`; how positions and velocities
/// absorb a delta without ever overflowing.
pub fn clamped_add(a: i64, b: i64, lim: i64) -> (r: i64)
    requires
        lim >= 0,
    ensures
        r == spec_clamp(a + b, lim as int),
{
    let s: i128 = a as i128 + b as i128;
    if s < -(lim as i128) {
        -lim
    } else if s > lim as i128 {
        lim
    } else {
        s as i64
    }
}

impl Vec2i {
    /// The origin.
    pub fn zero() -> (v: Vec2i)
        ensures
            v == (Vec2i { x: 0, y: 0 }),
    {
        Vec2i { x: 0, y: 0 }
    }

    pub fn new(x: i64, y: i64) -> (v: Vec2i)
        ensures
            v == (Vec2i { x, y }),
    {
        Vec2i { x, y }
    }

    /// Both components within `[-lim, lim]`.
    pub open spec fn bounded(self, lim: int) -> bool {
        &&& -lim <= self.x <= lim
        &&& -lim <= self.y <= lim
    }

    /// Componentwise difference, exact; the operands must be small enough
    /// that the difference cannot overflow.
    pub fn sub(self, other: Vec2i) -> (r: Vec2i)
        requires
            self.bounded(0x2000_0000_0000_0000),
            other.bounded(0x2000_0000_0000_0000),
        ensures
            r.x == self.x - other.x,
            r.y == self.y - other.y,
    {
        Vec2i { x: self.x - other.x, y: self.y - other.y }
    }

    /// Componentwise sum, clamped into `[-lim, lim]`.
    pub fn add_clamped(self, other: Vec2i, lim: i64) -> (r: Vec2i)
        requires
            lim >= 0,
        ensures
            r.x == spec_clamp(self.x + other.x, lim as int),
            r.y == spec_clamp(self.y + other.y, lim as int),
            r.bounded(lim as int),
    {
        Vec2i {
            x: clamped_add(self.x, other.x, lim),
            y: clamped_add(self.y, other.y, lim),
        }
    }
}

/// Nonnegative quotients are bounded by any multiple of the divisor that
/// bounds the dividend.
pub(crate) proof fn lemma_div_le(num: int, den: int, bound: int)
    requires
        0 <= num,
        0 < den,
        num <= bound * den,
    ensures
        0 <= num / den <= bound,
{
    lemma_div_pos_is_pos(num, den);
    lemma_div_is_ordered(num, bound * den, den);
    lemma_mul_is_commutative(bound, den);
    lemma_div_multiples_vanish(bound, den);
}

/// `trunc(a * b / den)`, computed without overflow. The factors are
/// bounded so that the result itself fits a machine word.
pub fn mul_div_trunc(a: i64, b: i64, den: u64) -> (r: i64)
    requires
        1 <= den,
        -3_000_000_000 <= a <= 3_000_000_000,
        -3_000_000_000 <= b <= 3_000_000_000,
    ensures
        r == spec_div_trunc(a as int * b as int, den as int),
{
    proof {
        lemma_product_small(a as int, b as int);
    }
    let num: i128 = a as i128 * b as i128;
    if num >= 0 {
        let q: u128 = (num as u128) / (den as u128);
        proof {
            lemma_div_pos_is_pos(num as int, den as int);
            lemma_div_nonincreasing(num as int, den as int);
        }
        q as i64
    } else {
        let mag: u128 = (-num) as u128;
        let q: u128 = mag / (den as u128);
        proof {
            lemma_div_pos_is_pos(mag as int, den as int);
            lemma_div_nonincreasing(mag as int, den as int);
        }
        -(q as i64)
    }
}

/// The product of two factors below three billion in magnitude fits a
/// machine word.
proof fn lemma_product_small(a: int, b: int)
    requires
        -3_000_000_000 <= a <= 3_000_000_000,
        -3_000_000_000 <= b <= 3_000_000_000,
    ensures
        -9_000_000_000_000_000_000 <= a * b <= 9_000_000_000_000_000_000,
{
    assert(-9_000_000_000_000_000_000 <= a * b <= 9_000_000_000_000_000_000)
        by (nonlinear_arith)
        requires
            -3_000_000_000 <= a <= 3_000_000_000,
            -3_000_000_000 <= b <= 3_000_000_000;
}

/// The truncated quotient of a product never exceeds the product itself
/// in magnitude.
pub proof fn lemma_div_trunc_bound(num: int, den: int, bound: int)
    requires
        0 < den,
        0 <= bound,
        -(bound * den) <= num <= bound * den,
    ensures
        -bound <= spec_div_trunc(num, den) <= bound,
{
    if num >= 0 {
        lemma_div_le(num, den, bound);
    } else {
        lemma_div_le(-num, den, bound);
    }
}

/// The integer square root, rounded down: the unique `r >= 0` with
/// `r * r <= n < (r + 1) * (r + 1)`.
pub open spec fn sqrt_floor(n: int) -> int
    decreases n,
{
    if n <= 0 {
        0
    } else if (sqrt_floor(n - 1) + 1) * (sqrt_floor(n - 1) + 1) <= n {
        sqrt_floor(n - 1) + 1
    } else {
        sqrt_floor(n - 1)
    }
}

/// `sqrt_floor` really is the rounded-down square root.
pub proof fn lemma_sqrt_floor(n: int)
    requires
        0 <= n,
    ensures
        0 <= sqrt_floor(n),
        sqrt_floor(n) * sqrt_floor(n) <= n,
        n < (sqrt_floor(n) + 1) * (sqrt_floor(n) + 1),
    decreases n,
{
    if n == 0 {
    } else {
        lemma_sqrt_floor(n - 1);
        let r = sqrt_floor(n - 1);
        if (r + 1) * (r + 1) <= n {
            assert(n - 1 < (r + 1) * (r + 1));
            assert(n == (r + 1) * (r + 1));
            assert((r + 1 + 1) * (r + 1 + 1) > n) by (nonlinear_arith)
                requires
                    0 <= r,
                    n == (r + 1) * (r + 1);
        }
    }
}

/// No other value satisfies the square-root characterization.
pub proof fn lemma_sqrt_floor_unique(n: int, r: int)
    requires
        0 <= n,
        0 <= r,
        r * r <= n,
        n < (r + 1) * (r + 1),
    ensures
        r == sqrt_floor(n),
{
    lemma_sqrt_floor(n);
    let s = sqrt_floor(n);
    if r < s {
        assert((r + 1) * (r + 1) <= s * s) by (nonlinear_arith)
            requires
                0 <= r + 1 <= s;
    }
    if s < r {
        assert((s + 1) * (s + 1) <= r * r) by (nonlinear_arith)
            requires
                0 <= s + 1 <= r;
    }
}

/// The integer square root, by bisection.
pub fn isqrt(n: u64) -> (r: u64)
    ensures
        r == sqrt_floor(n as int),
        r * r <= n,
        n < (r + 1) * (r + 1),
{
    let mut lo: u64 = 0;
    let mut hi: u64 = 4_294_967_296;
    proof {
        assert(4_294_967_296int * 4_294_967_296int > u64::MAX);
    }
    while lo + 1 < hi
        invariant
            lo < hi <= 4_294_967_296,
            lo * lo <= n,
            n < hi * hi,
        decreases hi - lo,
    {
        let mid: u64 = lo + (hi - lo) / 2;
        proof {
            lemma_sq_fits_u64(mid as int);
        }
        let sq: u128 = (mid as u128) * (mid as u128);
        if sq <= n as u128 {
            lo = mid;
        } else {
            hi = mid;
        }
    }
    proof {
        lemma_sqrt_floor_unique(n as int, lo as int);
    }
    lo
}

/// The square of a double-word-rooted value fits a double word.
proof fn lemma_sq_fits_u64(mid: int)
    requires
        0 <= mid < 0x1_0000_0000,
    ensures
        mid * mid < 0x1_0000_0000_0000_0000,
{
    assert(mid * mid < 0x1_0000_0000_0000_0000) by (nonlinear_arith)
        requires
            0 <= mid < 0x1_0000_0000;
}

/// The fixed-point sine over the first half turn, in thousandths: a
/// rational approximation of `sin` for an angle of `c` hundredths of a
/// degree, exact at `0`, `9000` and `18000`.
pub open spec fn spec_sin_arch(c: int) -> int {
    4000 * (c * (18000 - c)) / (405000000 - c * (18000 - c))
}

/// The fixed-point sine over the whole turn, in thousandths: the second
/// half turn mirrors the first below zero.
pub open spec fn spec_sin_cmil(c: int) -> int {
    if c < 18000 {
        spec_sin_arch(c)
    } else {
        -spec_sin_arch(c - 18000)
    }
}

/// The fixed-point cosine over the whole turn, in thousandths: the sine a
/// quarter turn ahead.
pub open spec fn spec_cos_cmil(c: int) -> int {
    spec_sin_cmil(if c + 9000 < 36000 {
        c + 9000
    } else {
        c + 9000 - 36000
    })
}

/// The half-turn parabola `c * (18000 - c)` is within `[0, 81000000]`.
proof fn lemma_parabola_bound(c: int)
    requires
        0 <= c <= 18000,
    ensures
        0 <= c * (18000 - c) <= 81_000_000,
{
    assert(0 <= c * (18000 - c) <= 81_000_000) by (nonlinear_arith)
        requires
            0 <= c <= 18000;
}

/// The sine of an angle in the first half turn, in thousandths.
fn sin_arch(c: u32) -> (r: u32)
    requires
        c <= 18000,
    ensures
        r == spec_sin_arch(c as int),
        r <= 1000,
{
    proof {
        lemma_parabola_bound(c as int);
    }
    let p: u64 = c as u64 * (18000 - c) as u64;
    let num: u64 = 4000 * p;
    let den: u64 = 405_000_000 - p;
    proof {
        lemma_div_le(num as int, den as int, 1000);
    }
    (num / den) as u32
}

/// The sine of `angle_cd` hundredths of a degree, in thousandths of a
/// unit; exact at every quarter turn.
pub fn sin_cmil(angle_cd: u32) -> (r: i64)
    requires
        angle_cd < 36000,
    ensures
        r == spec_sin_cmil(angle_cd as int),
        -1000 <= r <= 1000,
{
    if angle_cd < 18000 {
        sin_arch(angle_cd) as i64
    } else {
        -(sin_arch(angle_cd - 18000) as i64)
    }
}

/// The cosine of `angle_cd` hundredths of a degree, in thousandths of a
/// unit; exact at every quarter turn.
pub fn cos_cmil(angle_cd: u32) -> (r: i64)
    requires
        angle_cd < 36000,
    ensures
        r == spec_cos_cmil(angle_cd as int),
        -1000 <= r <= 1000,
{
    let shifted: u32 = if angle_cd + 9000 < 36000 {
        angle_cd + 9000
    } else {
        angle_cd + 9000 - 36000
    };
    sin_cmil(shifted)
}

/// The magnitude of a bounded component, as an unsigned word.
fn abs_i64(x: i64) -> (r: u64)
    requires
        -0x4000_0000_0000_0000 <= x <= 0x4000_0000_0000_0000,
    ensures
        r == (if x >= 0 {
            x as int
        } else {
            -(x as int)
        }),
{
    let w: i128 = x as i128;
    if w < 0 {
        (-w) as u64
    } else {
        w as u64
    }
}

/// The squared length of a vector.
pub open spec fn spec_len_sq(v: Vec2i) -> int {
    v.x * v.x + v.y * v.y
}

/// The horizontal component of a vector's direction in thousandths of a
/// unit: scaled by a thousand, divided by the rounded-down length,
/// truncating toward zero.
pub open spec fn spec_unit_milli_x(x: int, y: int) -> int {
    spec_div_trunc(x * 1000, sqrt_floor(x * x + y * y))
}

/// The vertical counterpart of `spec_unit_milli_x`.
pub open spec fn spec_unit_milli_y(x: int, y: int) -> int {
    spec_div_trunc(y * 1000, sqrt_floor(x * x + y * y))
}

impl Vec2i {
    /// The direction of this vector in thousandths of a unit vector:
    /// each component is scaled by a thousand and divided by the
    /// rounded-down length, so the result is a unit vector up to
    /// fixed-point truncation, exact along the axes.
    pub fn dir_milli(self) -> (u: Vec2i)
        requires
            self.bounded(2_000_000_000),
            self.x != 0 || self.y != 0,
        ensures
            u.x == spec_div_trunc(self.x * 1000, sqrt_floor(spec_len_sq(self))),
            u.y == spec_div_trunc(self.y * 1000, sqrt_floor(spec_len_sq(self))),
            u.bounded(1000),
            u.x != 0 || u.y != 0,
    {
        let ax: u64 = abs_i64(self.x);
        let ay: u64 = abs_i64(self.y);
        proof {
            lemma_sq_sum_fits(ax as int, ay as int);
        }
        let s: u64 = ax * ax + ay * ay;
        let len: u64 = isqrt(s);
        proof {
            lemma_abs_sq(self.x as int, ax as int);
            lemma_abs_sq(self.y as int, ay as int);
            assert(s as int == spec_len_sq(self));
            lemma_len_sq_pos(ax as int, ay as int, s as int);
            lemma_isqrt_pos(s as int, len as int);
            lemma_component_le_len(ax as int, ay as int, s as int, len as int);
            lemma_component_le_len(ay as int, ax as int, s as int, len as int);
            lemma_div_le(ax as int * 1000, len as int, 1000);
            lemma_div_le(ay as int * 1000, len as int, 1000);
            if ax >= ay {
                lemma_major_component_survives(ax as int, ay as int, s as int, len as int);
            } else {
                lemma_major_component_survives(ay as int, ax as int, s as int, len as int);
            }
        }
        let ux: u64 = (ax * 1000) / len;
        let uy: u64 = (ay * 1000) / len;
        Vec2i {
            x: if self.x >= 0 {
                ux as i64
            } else {
                -(ux as i64)
            },
            y: if self.y >= 0 {
                uy as i64
            } else {
                -(uy as i64)
            },
        }
    }
}

/// A magnitude squares to the same value as the signed number it came
/// from.
proof fn lemma_abs_sq(x: int, ax: int)
    requires
        ax == (if x >= 0 {
            x
        } else {
            -x
        }),
    ensures
        ax * ax == x * x,
{
    assert(ax * ax == x * x) by (nonlinear_arith)
        requires
            ax == x || ax == -x;
}

/// A vector with a nonzero component has a positive squared length.
proof fn lemma_len_sq_pos(ax: int, ay: int, s: int)
    requires
        0 <= ax,
        0 <= ay,
        ax >= 1 || ay >= 1,
        s == ax * ax + ay * ay,
    ensures
        s >= 1,
{
    assert(s >= 1) by (nonlinear_arith)
        requires
            0 <= ax,
            0 <= ay,
            ax >= 1 || ay >= 1,
            s == ax * ax + ay * ay;
}

/// The rounded-down square root of a positive number is positive.
proof fn lemma_isqrt_pos(s: int, len: int)
    requires
        1 <= s,
        len == sqrt_floor(s),
    ensures
        len >= 1,
{
    lemma_sqrt_floor(s);
    if len == 0 {
        assert(false) by (nonlinear_arith)
            requires
                s >= 1,
                len == 0,
                s < (len + 1) * (len + 1);
    }
}

/// The larger component of a nonzero vector survives normalization: its
/// thousandth-scaled quotient by the rounded-down length is at least one,
/// so the normalized vector is never the zero vector.
proof fn lemma_major_component_survives(a: int, b: int, s: int, len: int)
    requires
        0 <= b <= a,
        a >= 1 || b >= 1,
        s == a * a + b * b,
        len == sqrt_floor(s),
    ensures
        a * 1000 / len >= 1,
{
    lemma_len_sq_pos(a, b, s);
    lemma_isqrt_pos(s, len);
    lemma_sqrt_floor(s);
    assert(len <= 2 * a) by (nonlinear_arith)
        requires
            1 <= a,
            0 <= b <= a,
            0 <= len,
            len * len <= s,
            s == a * a + b * b;
    assert(len <= a * 1000);
    lemma_div_is_ordered(len, a * 1000, len);
    vstd::arithmetic::div_mod::lemma_div_by_self(len);
}

/// The squared components of a bounded vector sum without overflowing.
proof fn lemma_sq_sum_fits(ax: int, ay: int)
    requires
        0 <= ax <= 2_000_000_000,
        0 <= ay <= 2_000_000_000,
    ensures
        0 <= ax * ax + ay * ay <= 8_000_000_000_000_000_000,
{
    assert(0 <= ax * ax + ay * ay <= 8_000_000_000_000_000_000) by (nonlinear_arith)
        requires
            0 <= ax <= 2_000_000_000,
            0 <= ay <= 2_000_000_000;
}

/// A component is never longer than the whole vector: if `s` is the sum
/// of the squares of `a` and `b` and `len` is the rounded-down square
/// root of `s`, then `a <= len`, and so `a * 1000 <= 1000 * len`.
proof fn lemma_component_le_len(a: int, b: int, s: int, len: int)
    requires
        0 <= a,
        0 <= b,
        s == a * a + b * b,
        len == sqrt_floor(s),
    ensures
        0 <= len,
        a <= len,
        a * 1000 <= 1000 * len,
{
    assert(a * a <= s && 0 <= s) by (nonlinear_arith)
        requires
            0 <= a,
            0 <= b,
            s == a * a + b * b;
    lemma_sqrt_floor(s);
    assert(a <= len) by (nonlinear_arith)
        requires
            0 <= a,
            0 <= len,
            a * a <= s,
            s < (len + 1) * (len + 1);
}

} // verus!
