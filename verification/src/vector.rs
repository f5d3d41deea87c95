//! 2D vectors in fixed point: components are `i64` milli-units.

use vstd::prelude::*;
use crate::num::{div_trunc, i128_div_trunc, int_sqrt, isqrt_u128, lemma_int_sqrt,
    lemma_int_sqrt_unique, sat_i64};

verus! {

/// A 2D vector; `x` and `y` are milli-units.
#[derive(Clone, Copy, Debug, PartialEq, Eq, Structural)]
pub struct Vector2f {
    pub x: i64,
    pub y: i64,
}

/// Coordinates admitted by the direction computation; anything a client
/// can send through the wire codec lies well inside this bound.
pub const COORD_LIMIT: i64 = 2_000_000_000;

/// Both components within `COORD_LIMIT` in magnitude.
pub open spec fn in_coord_range(v: Vector2f) -> bool {
    -COORD_LIMIT <= v.x <= COORD_LIMIT && -COORD_LIMIT <= v.y <= COORD_LIMIT
}

/// The velocity of magnitude `s` aimed from `f` at `t`: the difference
/// scaled to length `s` with every division truncated toward zero.
/// Aiming at one's own position points along the positive x axis.
pub open spec fn spec_toward(f: Vector2f, t: Vector2f, s: int) -> (int, int) {
    let dx = t.x - f.x;
    let dy = t.y - f.y;
    if dx == 0 && dy == 0 {
        (s, 0)
    } else {
        let m = int_sqrt((dx * dx + dy * dy) as nat) as int;
        (div_trunc(dx * s, m), div_trunc(dy * s, m))
    }
}

impl Vector2f {
    /// A vector from its two components.
    pub fn new(x: i64, y: i64) -> (v: Vector2f)
        ensures
            v == (Vector2f { x, y }),
    {
        Vector2f { x, y }
    }

    /// Componentwise difference, saturated into `i64`.
    pub fn sub(self, other: Vector2f) -> (v: Vector2f)
        ensures
            v.x == sat_i64(self.x - other.x),
            v.y == sat_i64(self.y - other.y),
    {
        Vector2f { x: sub_sat(self.x, other.x), y: sub_sat(self.y, other.y) }
    }

    /// Scale by `k` milli-units (so `k == 1000` is the identity up to
    /// truncation), saturated into `i64`.
    pub fn mul(self, k: i64) -> (v: Vector2f)
        ensures
            v.x == sat_i64(div_trunc(self.x * k, 1000)),
            v.y == sat_i64(div_trunc(self.y * k, 1000)),
    {
        Vector2f { x: mul_milli(self.x, k), y: mul_milli(self.y, k) }
    }

    /// The velocity of magnitude `speed` aimed from `self` at `target`.
    /// Stands in for taking the angle of the difference and rebuilding a
    /// scaled unit vector from it.
    pub fn toward(self, target: Vector2f, speed: i64) -> (v: Vector2f)
        requires
            in_coord_range(self),
            in_coord_range(target),
            0 <= speed <= 1_000_000,
        ensures
            (v.x as int, v.y as int) == spec_toward(self, target, speed as int),
            -speed <= v.x <= speed,
            -speed <= v.y <= speed,
    {
        let dx: i128 = target.x as i128 - self.x as i128;
        let dy: i128 = target.y as i128 - self.y as i128;
        if dx == 0 && dy == 0 {
            return Vector2f { x: speed, y: 0 };
        }
        assert(dx * dx <= 16_000_000_000_000_000_000i128 && dx * dx >= 0) by (nonlinear_arith)
            requires
                -4_000_000_000 <= dx <= 4_000_000_000,
        ;
        assert(dy * dy <= 16_000_000_000_000_000_000i128 && dy * dy >= 0) by (nonlinear_arith)
            requires
                -4_000_000_000 <= dy <= 4_000_000_000,
        ;
        let d2: i128 = dx * dx + dy * dy;
        proof {
            if dx != 0 {
                assert(dx * dx >= 1) by (nonlinear_arith)
                    requires
                        dx != 0,
                ;
            } else {
                assert(dy * dy >= 1) by (nonlinear_arith)
                    requires
                        dy != 0,
                ;
            }
        }
        let m: u128 = isqrt_u128(d2 as u128);
        proof {
            lemma_int_sqrt(d2 as nat);
            assert(d2 >= 1);
            assert(m >= 1 && m <= 6_000_000_000) by (nonlinear_arith)
                requires
                    (m as int) * (m as int) <= d2 as int,
                    (d2 as int) < ((m as int) + 1) * ((m as int) + 1),
                    1 <= d2 <= 32_000_000_000_000_000_000i128,
            ;
            assert(-(m as int) <= dx as int <= m as int && -(m as int) <= (dy as int)
                <= m as int) by (nonlinear_arith)
                requires
                    (dx as int) * (dx as int) <= d2 as int,
                    (dy as int) * (dy as int) <= d2 as int,
                    (d2 as int) < ((m as int) + 1) * ((m as int) + 1),
                    m >= 0,
            ;
            assert(-4_000_000_000_000_000i128 <= (dx as int) * (speed as int)
                <= 4_000_000_000_000_000i128) by (nonlinear_arith)
                requires
                    -4_000_000_000 <= dx <= 4_000_000_000,
                    0 <= speed <= 1_000_000,
            ;
            assert(-4_000_000_000_000_000i128 <= (dy as int) * (speed as int)
                <= 4_000_000_000_000_000i128) by (nonlinear_arith)
                requires
                    -4_000_000_000 <= dy <= 4_000_000_000,
                    0 <= speed <= 1_000_000,
            ;
        }
        let mi: i128 = m as i128;
        let vx: i128 = i128_div_trunc(dx * speed as i128, mi);
        let vy: i128 = i128_div_trunc(dy * speed as i128, mi);
        proof {
            lemma_scaled_component_bound(dx as int, mi as int, speed as int);
            lemma_scaled_component_bound(dy as int, mi as int, speed as int);
        }
        Vector2f { x: vx as i64, y: vy as i64 }
    }
}

impl Default for Vector2f {
    /// The zero vector.
    fn default() -> (v: Vector2f)
        ensures
            v == (Vector2f { x: 0, y: 0 }),
    {
        Vector2f { x: 0, y: 0 }
    }
}


/// Aiming along the positive x axis gives exactly the full speed on x
/// and zero on y: the bullet's velocity magnitude is exactly `s` there.
pub proof fn lemma_toward_axis(f: Vector2f, t: Vector2f, s: int)
    requires
        t.y == f.y,
        t.x > f.x,
        s >= 0,
    ensures
        spec_toward(f, t, s) == (s, 0int),
{
    let dx = t.x - f.x;
    assert(dx * dx >= 0 && (dx * dx) < (dx + 1) * (dx + 1)) by (nonlinear_arith)
        requires
            dx > 0,
    ;
    lemma_int_sqrt_unique((dx * dx) as nat, dx as nat);
    let m = int_sqrt((dx * dx) as nat) as int;
    assert(m == dx);
    assert(div_trunc(dx * s, m) == s) by (nonlinear_arith)
        requires
            m == dx,
            dx > 0,
            s >= 0,
            div_trunc(dx * s, m) == (dx * s) / m,
    ;
    assert(div_trunc(0 * s, m) == 0) by {
        assert(0 * s == 0) by (nonlinear_arith);
        assert(0int / m == 0) by (nonlinear_arith)
            requires
                m > 0,
        ;
    }
}

/// `|d| <= m` forces the scaled, divided component back under `s`.
proof fn lemma_scaled_component_bound(d: int, m: int, s: int)
    requires
        m >= 1,
        s >= 0,
        -m <= d <= m,
    ensures
        -s <= div_trunc(d * s, m) <= s,
{
    let a = d * s;
    assert(-(m * s) <= a <= m * s) by (nonlinear_arith)
        requires
            s >= 0,
            -m <= d <= m,
            a == d * s,
    ;
    if a >= 0 {
        assert(div_trunc(a, m) == a / m);
        assert(0 <= a / m <= s) by (nonlinear_arith)
            requires
                m >= 1,
                s >= 0,
                0 <= a <= m * s,
        ;
    } else {
        assert(div_trunc(a, m) == -((-a) / m));
        assert(0 <= (-a) / m <= s) by (nonlinear_arith)
            requires
                m >= 1,
                s >= 0,
                0 < -a <= m * s,
        ;
    }
}

fn sub_sat(a: i64, b: i64) -> (r: i64)
    ensures
        r == sat_i64(a - b),
{
    let s: i128 = a as i128 - b as i128;
    if s < i64::MIN as i128 {
        i64::MIN
    } else if s > i64::MAX as i128 {
        i64::MAX
    } else {
        s as i64
    }
}

fn mul_milli(a: i64, k: i64) -> (r: i64)
    ensures
        r == sat_i64(div_trunc(a * k, 1000)),
{
    proof {
        crate::num::lemma_i64_mul_fits(a as int, k as int);
    }
    let prod: i128 = (a as i128) * (k as i128);
    let q: i128 = i128_div_trunc(prod, 1000);
    if q < i64::MIN as i128 {
        i64::MIN
    } else if q > i64::MAX as i128 {
        i64::MAX
    } else {
        q as i64
    }
}

} // verus!
