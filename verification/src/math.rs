//! Fixed-point scalar arithmetic: the scale constant, floor division and
//! the integer square root that the vector and rendering code build on.

use vstd::prelude::*;

verus! {

use vstd::arithmetic::div_mod::lemma_fundamental_div_mod;
use vstd::arithmetic::div_mod::lemma_fundamental_div_mod_converse;

/// Raw fixed-point units per world unit: a coordinate of one world unit
/// is stored as `SCALE`.
pub const SCALE: i64 = 1_000_000;

/// The largest integer whose square is at most `n`.
pub open spec fn sqrt_floor(n: nat) -> nat
    decreases n,
{
    if n == 0 {
        0
    } else {
        let r = sqrt_floor((n - 1) as nat);
        if (r + 1) * (r + 1) <= n {
            r + 1
        } else {
            r
        }
    }
}

/// Whether `n` is a perfect square.
pub open spec fn is_square(n: nat) -> bool {
    sqrt_floor(n) * sqrt_floor(n) == n
}

pub proof fn lemma_sqrt_floor_bounds(n: nat)
    ensures
        sqrt_floor(n) * sqrt_floor(n) <= n,
        n < (sqrt_floor(n) + 1) * (sqrt_floor(n) + 1),
    decreases n,
{
    if n == 0 {
        assert(n < (sqrt_floor(n) + 1) * (sqrt_floor(n) + 1)) by (nonlinear_arith)
            requires
                n == 0,
                sqrt_floor(n) == 0,
        ;
    } else {
        lemma_sqrt_floor_bounds((n - 1) as nat);
        let r = sqrt_floor((n - 1) as nat);
        assert(sqrt_floor(n) == if (r + 1) * (r + 1) <= n {
            r + 1
        } else {
            r
        });
        if (r + 1) * (r + 1) <= n {
            assert(sqrt_floor(n) == r + 1);
            assert(n <= (r + 1) * (r + 1));
            assert(((r + 1) + 1) * ((r + 1) + 1) == (r + 1) * (r + 1) + 2 * r + 3)
                by (nonlinear_arith);
            assert(n < ((r + 1) + 1) * ((r + 1) + 1));
        } else {
            assert(sqrt_floor(n) == r);
            assert(n < (r + 1) * (r + 1));
        }
    }
}

pub proof fn lemma_sqrt_floor_unique(n: nat, r: nat)
    requires
        r * r <= n,
        n < (r + 1) * (r + 1),
    ensures
        r == sqrt_floor(n),
{
    lemma_sqrt_floor_bounds(n);
    let s = sqrt_floor(n);
    if r < s {
        assert((r + 1) * (r + 1) <= s * s) by (nonlinear_arith)
            requires
                r + 1 <= s,
        ;
    }
    if s < r {
        assert((s + 1) * (s + 1) <= r * r) by (nonlinear_arith)
            requires
                s + 1 <= r,
        ;
    }
}

/// The floor square root of a perfect square is its root.
pub proof fn lemma_sqrt_floor_square(s: nat)
    ensures
        sqrt_floor(s * s) == s,
{
    assert(s * s < (s + 1) * (s + 1)) by (nonlinear_arith);
    lemma_sqrt_floor_unique(s * s, s);
}

/// Floor square root of an arbitrary `u128`, by bisection.
pub fn isqrt(n: u128) -> (r: u64)
    ensures
        r == sqrt_floor(n as nat),
{
    let mut lo: u128 = 0;
    let mut hi: u128 = 0x1_0000_0000_0000_0000u128;
    proof {
        assert(0x1_0000_0000_0000_0000u128 as nat * 0x1_0000_0000_0000_0000u128 as nat
            > u128::MAX as nat) by (nonlinear_arith);
    }
    while lo + 1 < hi
        invariant
            lo < hi <= 0x1_0000_0000_0000_0000u128,
            lo as nat * lo as nat <= n as nat,
            hi as nat * hi as nat > n as nat,
        decreases hi - lo,
    {
        let mid: u128 = lo + (hi - lo) / 2;
        assert(lo < mid < hi);
        assert(mid as nat * mid as nat <= u128::MAX as nat) by (nonlinear_arith)
            requires
                mid <= 0xffff_ffff_ffff_ffffu128,
        ;
        if mid * mid <= n {
            lo = mid;
        } else {
            hi = mid;
        }
    }
    proof {
        lemma_sqrt_floor_unique(n as nat, lo as nat);
    }
    lo as u64
}

/// Floor division bounds: the quotient never grows past the dividend's
/// magnitude when the divisor is at least one.
pub proof fn lemma_div_floor_bounds(a: int, b: int, m: int)
    requires
        b >= 1,
        0 <= m,
        -m <= a <= m,
    ensures
        -m <= a / b <= m,
{
    lemma_fundamental_div_mod(a, b);
    let q = a / b;
    let r = a % b;
    assert(0 <= r < b);
    if q > m {
        assert(false) by (nonlinear_arith)
            requires
                b >= 1,
                0 <= m,
                q >= m + 1,
                a == b * q + r,
                0 <= r,
                a <= m,
        ;
    }
    if q < -m {
        assert(false) by (nonlinear_arith)
            requires
                b >= 1,
                0 <= m,
                q <= -m - 1,
                a == b * q + r,
                r < b,
                -m <= a,
        ;
    }
}

/// Floor division by `b` stays below `c` as long as the dividend is below `b * c`.
pub proof fn lemma_div_floor_below(a: int, b: int, c: int)
    requires
        b >= 1,
        0 <= a,
        a < b * c,
    ensures
        0 <= a / b < c,
{
    lemma_fundamental_div_mod(a, b);
    let q = a / b;
    assert(0 <= a % b < b);
    if q < 0 {
        assert(b * q <= q) by (nonlinear_arith)
            requires
                b >= 1,
                q <= 0,
        ;
    }
    if q >= c {
        assert(b * q >= b * c) by (nonlinear_arith)
            requires
                b >= 1,
                q >= c,
        ;
    }
}

/// A dividend within `l * c` of zero has its floor quotient by `l` within `c`.
pub proof fn lemma_div_floor_scaled(a: int, l: int, c: int)
    requires
        l >= 1,
        0 <= c,
        -(l * c) <= a <= l * c,
    ensures
        -c <= a / l <= c,
{
    lemma_fundamental_div_mod(a, l);
    let q = a / l;
    let r = a % l;
    assert(0 <= r < l);
    if q > c {
        assert(false) by (nonlinear_arith)
            requires
                l >= 1,
                0 <= c,
                q >= c + 1,
                a == l * q + r,
                0 <= r,
                a <= l * c,
        ;
    }
    if q < -c {
        assert(false) by (nonlinear_arith)
            requires
                l >= 1,
                0 <= c,
                q <= -c - 1,
                a == l * q + r,
                r < l,
                -(l * c) <= a,
        ;
    }
}

/// A square below `(b + 1)^2` pins its root's magnitude at or below `b`.
pub proof fn lemma_abs_le_of_sq(a: int, b: int) by (nonlinear_arith)
    requires
        0 <= b,
        a * a < (b + 1) * (b + 1),
    ensures
        -b <= a <= b,
{
}

/// Quotient of `a` by `b`, rounded toward negative infinity; this is the
/// rounding rule of every fixed-point operation in the crate.
pub fn div_floor(a: i128, b: i128) -> (r: i128)
    requires
        b > 0,
        a > i128::MIN,
    ensures
        r == a as int / b as int,
{
    if a >= 0 {
        let q: u128 = (a as u128) / (b as u128);
        proof {
            lemma_div_floor_bounds(a as int, b as int, i128::MAX as int);
        }
        q as i128
    } else {
        let m: u128 = (-a) as u128;
        let bu: u128 = b as u128;
        let q0: u128 = m / bu;
        let rem: u128 = m % bu;
        proof {
            lemma_fundamental_div_mod(m as int, b as int);
            lemma_div_floor_bounds(m as int, b as int, i128::MAX as int);
        }
        if rem == 0 {
            proof {
                assert(a as int == (-(q0 as int)) * b + 0) by (nonlinear_arith)
                    requires
                        m as int == b * (q0 as int),
                        a as int == -(m as int),
                ;
                lemma_fundamental_div_mod_converse(a as int, b as int, -(q0 as int), 0);
            }
            -(q0 as i128)
        } else {
            proof {
                assert(a as int == (-(q0 as int) - 1) * b + (b - rem)) by (nonlinear_arith)
                    requires
                        m as int == b * (q0 as int) + rem,
                        a as int == -(m as int),
                ;
                lemma_fundamental_div_mod_converse(a as int, b as int, -(q0 as int) - 1, b - rem);
            }
            -(q0 as i128) - 1
        }
    }
}

/// Floor division on `i64` values, by a positive divisor.
pub fn div_floor_i64(a: i64, b: i64) -> (r: i64)
    requires
        b >= 1,
    ensures
        r == a as int / b as int,
{
    proof {
        lemma_div_floor_bounds(a as int, b as int, 0x8000_0000_0000_0000);
        lemma_fundamental_div_mod(a as int, b as int);
        let q = a as int / b as int;
        let r = a as int % b as int;
        if a < 0 && q >= 1 {
            assert(false) by (nonlinear_arith)
                requires
                    a < 0,
                    q >= 1,
                    b >= 1,
                    a == b * q + r,
                    0 <= r,
            ;
        }
    }
    let q: i128 = div_floor(a as i128, b as i128);
    q as i64
}

} // verus!
