//! Saturating and truncating fixed-point arithmetic on milli-unit integers.
//!
//! Coordinates, velocities and health are carried as `i64` counts of
//! thousandths of a world unit.  Products and quotients are computed in
//! `i128`, so no intermediate step can overflow; results are saturated
//! back into `i64`.

use vstd::prelude::*;

verus! {

/// Clamp a mathematical integer into the `i64` range.
pub open spec fn sat_i64(x: int) -> int {
    if x < i64::MIN as int {
        i64::MIN as int
    } else if x > i64::MAX as int {
        i64::MAX as int
    } else {
        x
    }
}

/// Division truncating toward zero (the semantics of `/` on machine
/// integers), for a positive divisor.
pub open spec fn div_trunc(a: int, b: int) -> int
    recommends
        b > 0,
{
    if a >= 0 {
        a / b
    } else {
        -((-a) / b)
    }
}

/// Quotient of `a / b` truncated toward zero, exactly `div_trunc`.
pub fn i128_div_trunc(a: i128, b: i128) -> (r: i128)
    requires
        b > 0,
        a > i128::MIN,
    ensures
        r == div_trunc(a as int, b as int),
{
    if a >= 0 {
        let q: u128 = (a as u128) / (b as u128);
        assert(q <= a as u128) by (nonlinear_arith)
            requires
                q == (a as u128) / (b as u128),
                b >= 1,
        ;
        q as i128
    } else {
        let m: u128 = (-a) as u128;
        let q: u128 = m / (b as u128);
        assert(q <= m) by (nonlinear_arith)
            requires
                q == m / (b as u128),
                b >= 1,
        ;
        -(q as i128)
    }
}

/// `a + b` with the sum saturated into `i64`.
pub fn sat_add_i64(a: i64, b: i64) -> (r: i64)
    ensures
        r == sat_i64(a + b),
{
    let s: i128 = a as i128 + b as i128;
    if s < i64::MIN as i128 {
        i64::MIN
    } else if s > i64::MAX as i128 {
        i64::MAX
    } else {
        s as i64
    }
}

/// One kinematic step: the position reached from `p` after moving at
/// velocity `v` milli-units per second for `d` milliseconds.
pub open spec fn kin_step(p: int, v: int, d: int) -> int
    recommends
        d >= 0,
{
    sat_i64(p + div_trunc(v * d, 1000))
}

/// Advance position `p` by velocity `v` over `d` milliseconds.
pub fn pos_step(p: i64, v: i64, d: i64) -> (r: i64)
    requires
        d >= 0,
    ensures
        r == kin_step(p as int, v as int, d as int),
{
    proof {
        lemma_i64_mul_fits(v as int, d as int);
    }
    let prod: i128 = (v as i128) * (d as i128);
    let q: i128 = i128_div_trunc(prod, 1000);
    let s: i128 = p as i128 + q;
    assert(s == p + div_trunc(v * d, 1000)) by {
        assert(q == div_trunc(prod as int, 1000));
    }
    if s < i64::MIN as i128 {
        i64::MIN
    } else if s > i64::MAX as i128 {
        i64::MAX
    } else {
        s as i64
    }
}

/// Floor of the square root, as a recurrence usable in contracts.
pub open spec fn int_sqrt(n: nat) -> nat
    decreases n,
{
    if n == 0 {
        0
    } else {
        let r = int_sqrt((n - 1) as nat);
        if (r + 1) * (r + 1) <= n {
            r + 1
        } else {
            r
        }
    }
}

/// The product of two `i64` values fits in `i128`.
pub proof fn lemma_i64_mul_fits(a: int, b: int)
    requires
        i64::MIN <= a <= i64::MAX,
        i64::MIN <= b <= i64::MAX,
    ensures
        i128::MIN < a * b <= i128::MAX,
{
    assert(i128::MIN < a * b <= i128::MAX) by (nonlinear_arith)
        requires
            -0x8000_0000_0000_0000 <= a <= 0x7fff_ffff_ffff_ffff,
            -0x8000_0000_0000_0000 <= b <= 0x7fff_ffff_ffff_ffff,
    ;
}

/// `int_sqrt` is the floor of the real square root.
pub proof fn lemma_int_sqrt(n: nat)
    ensures
        int_sqrt(n) * int_sqrt(n) <= n,
        n < (int_sqrt(n) + 1) * (int_sqrt(n) + 1),
    decreases n,
{
    if n > 0 {
        lemma_int_sqrt((n - 1) as nat);
        let r = int_sqrt((n - 1) as nat);
        let s = int_sqrt(n);
        assert(s == if (r + 1) * (r + 1) <= n {
            r + 1
        } else {
            r
        });
        assert(s * s <= n && n < (s + 1) * (s + 1)) by (nonlinear_arith)
            requires
                n >= 1,
                r * r <= n - 1,
                n - 1 < (r + 1) * (r + 1),
                s == if (r + 1) * (r + 1) <= n {
                    r + 1
                } else {
                    r
                },
        ;
    } else {
        assert(int_sqrt(n) == 0);
        assert(n < (int_sqrt(n) + 1) * (int_sqrt(n) + 1)) by (nonlinear_arith)
            requires
                n == 0,
                int_sqrt(n) == 0,
        ;
    }
}

/// Any `r` with `r*r <= n < (r+1)*(r+1)` equals `int_sqrt(n)`.
pub proof fn lemma_int_sqrt_unique(n: nat, r: nat)
    requires
        r * r <= n,
        n < (r + 1) * (r + 1),
    ensures
        r == int_sqrt(n),
{
    lemma_int_sqrt(n);
    let s = int_sqrt(n);
    assert(r == s) by (nonlinear_arith)
        requires
            r * r <= n,
            n < (r + 1) * (r + 1),
            s * s <= n,
            n < (s + 1) * (s + 1),
    ;
}

/// Floor of the square root of `n`, by bisection.
pub fn isqrt_u128(n: u128) -> (r: u128)
    ensures
        r == int_sqrt(n as nat),
{
    let mut lo: u128 = 0;
    let mut hi: u128 = 0x1_0000_0000_0000_0000;
    if n == 0 {
        proof {
            assert(int_sqrt(0) == 0);
        }
        return 0;
    }
    assert((n as int) < (hi as int) * (hi as int)) by (nonlinear_arith)
        requires
            hi == 0x1_0000_0000_0000_0000u128,
            n <= u128::MAX,
    ;
    while lo + 1 < hi
        invariant
            lo < hi,
            hi <= 0x1_0000_0000_0000_0000u128,
            (lo as int) * (lo as int) <= n as int,
            (n as int) < (hi as int) * (hi as int),
        decreases hi - lo,
    {
        let mid: u128 = lo + (hi - lo) / 2;
        assert(lo < mid < hi);
        assert((mid as int) * (mid as int) <= u128::MAX as int) by (nonlinear_arith)
            requires
                mid < 0x1_0000_0000_0000_0000u128,
        ;
        if mid * mid <= n {
            lo = mid;
        } else {
            hi = mid;
        }
    }
    proof {
        lemma_int_sqrt_unique(n as nat, lo as nat);
    }
    lo
}

} // verus!
