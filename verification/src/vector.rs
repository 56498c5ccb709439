//! Three-component fixed-point vectors and their mathematical model.
//!
//! A `Vec3D` stores each coordinate as an `i64` in raw units of
//! `math::SCALE` per world unit. Its view `V3` carries the same triple as
//! unbounded integers, and every operation's contract states the exact
//! integer result, with floor rounding wherever a fixed-point product or
//! quotient is rescaled.

use vstd::prelude::*;

verus! {

use crate::math::SCALE;
use crate::math::div_floor;
use crate::math::isqrt;
use crate::math::sqrt_floor;
use crate::math::lemma_sqrt_floor_bounds;
use crate::math::lemma_div_floor_scaled;
use crate::math::lemma_abs_le_of_sq;

/// Componentwise bound for plain sums and differences.
pub const OP_MAX: i64 = 4_000_000_000_000_000_000;

/// Componentwise bound for inputs of fixed-point products (`mul`, `dot`, `cross`).
pub const FP_MAX: i64 = 1_000_000_000_000;

/// Componentwise bound for inputs of `length` and `normalize`.
pub const LEN_MAX: i64 = 1_000_000_000_000_000_000;

/// Componentwise bound for inputs of `distance`.
pub const DIST_MAX: i64 = 500_000_000_000_000_000;

/// The mathematical value of a `Vec3D`: an unbounded integer triple.
pub ghost struct V3 {
    pub x: int,
    pub y: int,
    pub z: int,
}

#[derive(Clone, Copy, Debug, PartialEq, Eq, Structural)]
pub struct Vec3D {
    pub x: i64,
    pub y: i64,
    pub z: i64,
}

impl View for Vec3D {
    type V = V3;

    open spec fn view(&self) -> V3 {
        V3 { x: self.x as int, y: self.y as int, z: self.z as int }
    }
}

pub open spec fn bounded(v: V3, m: int) -> bool {
    &&& -m <= v.x <= m
    &&& -m <= v.y <= m
    &&& -m <= v.z <= m
}

pub open spec fn vadd(a: V3, b: V3) -> V3 {
    V3 { x: a.x + b.x, y: a.y + b.y, z: a.z + b.z }
}

pub open spec fn vsub(a: V3, b: V3) -> V3 {
    V3 { x: a.x - b.x, y: a.y - b.y, z: a.z - b.z }
}

pub open spec fn vneg(a: V3) -> V3 {
    V3 { x: -a.x, y: -a.y, z: -a.z }
}

pub open spec fn vabs(a: V3) -> V3 {
    V3 {
        x: if a.x < 0 { -a.x } else { a.x },
        y: if a.y < 0 { -a.y } else { a.y },
        z: if a.z < 0 { -a.z } else { a.z },
    }
}

pub open spec fn vmax(a: V3, b: V3) -> V3 {
    V3 {
        x: if a.x < b.x { b.x } else { a.x },
        y: if a.y < b.y { b.y } else { a.y },
        z: if a.z < b.z { b.z } else { a.z },
    }
}

pub open spec fn max3(a: V3) -> int {
    let xy = if a.x < a.y { a.y } else { a.x };
    if xy < a.z { a.z } else { xy }
}

/// Fixed-point scaling of `v` by the scalar `s`, floor-rounded.
pub open spec fn smul(v: V3, s: int) -> V3 {
    V3 { x: (v.x * s) / SCALE as int, y: (v.y * s) / SCALE as int, z: (v.z * s) / SCALE as int }
}

/// Floor of the real quotient `a / s`, for either sign of `s`.
pub open spec fn sdivq(a: int, s: int) -> int {
    if s < 0 {
        (-a) / (-s)
    } else {
        a / s
    }
}

/// Fixed-point division of `v` by the scalar `s`, floor-rounded.
pub open spec fn vdiv(v: V3, s: int) -> V3 {
    V3 {
        x: sdivq(v.x * SCALE as int, s),
        y: sdivq(v.y * SCALE as int, s),
        z: sdivq(v.z * SCALE as int, s),
    }
}

/// Fixed-point dot product, floor-rounded.
pub open spec fn dot3(a: V3, b: V3) -> int {
    (a.x * b.x + a.y * b.y + a.z * b.z) / SCALE as int
}

/// Fixed-point cross product, each component floor-rounded.
pub open spec fn cross3(a: V3, b: V3) -> V3 {
    V3 {
        x: (a.y * b.z - a.z * b.y) / SCALE as int,
        y: (a.z * b.x - a.x * b.z) / SCALE as int,
        z: (a.x * b.y - a.y * b.x) / SCALE as int,
    }
}

pub open spec fn norm2(v: V3) -> int {
    v.x * v.x + v.y * v.y + v.z * v.z
}

/// Fixed-point Euclidean length: the floor square root of the square sum.
pub open spec fn len3(v: V3) -> int {
    sqrt_floor(norm2(v) as nat) as int
}

pub open spec fn dist3(a: V3, b: V3) -> int {
    len3(vsub(a, b))
}

pub open spec fn zero3() -> V3 {
    V3 { x: 0, y: 0, z: 0 }
}

/// The unit vector of `v` at fixed-point scale, or nothing for the zero
/// vector — the one partial vector operation.
pub open spec fn normalize3(v: V3) -> Option<V3> {
    let l = len3(v);
    if l == 0 {
        None
    } else {
        Some(V3 { x: (v.x * SCALE as int) / l, y: (v.y * SCALE as int) / l, z: (v.z * SCALE as int) / l })
    }
}

/// The integer length is zero exactly on the zero vector.
pub proof fn lemma_len3_zero(v: V3)
    ensures
        len3(v) == 0 <==> v == zero3(),
{
    assert(v.x * v.x >= 0) by (nonlinear_arith);
    assert(v.y * v.y >= 0) by (nonlinear_arith);
    assert(v.z * v.z >= 0) by (nonlinear_arith);
    lemma_sqrt_floor_bounds(norm2(v) as nat);
    if v == zero3() {
        assert(norm2(v) == 0) by (nonlinear_arith)
            requires
                v.x == 0 && v.y == 0 && v.z == 0,
        ;
    } else {
        assert(norm2(v) >= 1) by (nonlinear_arith)
            requires
                v.x != 0 || v.y != 0 || v.z != 0,
        ;
        if len3(v) == 0 {
            assert((sqrt_floor(norm2(v) as nat) + 1) * (sqrt_floor(norm2(v) as nat) + 1) == 1)
                by (nonlinear_arith)
                requires
                    sqrt_floor(norm2(v) as nat) == 0,
            ;
        }
    }
}

/// A componentwise bound of `m` bounds the integer length by `2 * m`.
pub proof fn lemma_len3_upper(v: V3, m: int)
    requires
        0 <= m,
        bounded(v, m),
    ensures
        0 <= len3(v) <= 2 * m,
{
    lemma_sqrt_floor_bounds(norm2(v) as nat);
    assert(0 <= norm2(v) <= 3 * m * m) by (nonlinear_arith)
        requires
            bounded(v, m),
    ;
    let l = len3(v);
    assert(l * l <= norm2(v));
    if l > 2 * m {
        assert(false) by (nonlinear_arith)
            requires
                0 <= m,
                l >= 2 * m + 1,
                l * l <= norm2(v),
                norm2(v) <= 3 * m * m,
        ;
    }
}

/// A componentwise bound on the inputs of `smul` bounds its result.
pub proof fn lemma_smul_bounded(v: V3, s: int, mv: int, ms: int)
    requires
        0 <= mv,
        0 <= ms,
        bounded(v, mv),
        -ms <= s <= ms,
    ensures
        bounded(smul(v, s), (mv * ms) / SCALE as int + 1),
{
    let c = (mv * ms) / SCALE as int + 1;
    assert(0 <= mv * ms) by (nonlinear_arith)
        requires
            0 <= mv,
            0 <= ms,
    ;
    vstd::arithmetic::div_mod::lemma_fundamental_div_mod(mv * ms, SCALE as int);
    assert(SCALE as int * c >= mv * ms);
    assert(-(mv * ms) <= v.x * s <= mv * ms && -(mv * ms) <= v.y * s <= mv * ms && -(mv * ms)
        <= v.z * s <= mv * ms) by (nonlinear_arith)
        requires
            bounded(v, mv),
            -ms <= s <= ms,
            0 <= mv,
            0 <= ms,
    ;
    lemma_div_floor_scaled(v.x * s, SCALE as int, c);
    lemma_div_floor_scaled(v.y * s, SCALE as int, c);
    lemma_div_floor_scaled(v.z * s, SCALE as int, c);
}

/// Componentwise bounds on the inputs of `cross3` bound its result.
pub proof fn lemma_cross3_bounded(a: V3, b: V3, ma: int, mb: int)
    requires
        0 <= ma,
        0 <= mb,
        bounded(a, ma),
        bounded(b, mb),
    ensures
        bounded(cross3(a, b), (2 * (ma * mb)) / SCALE as int + 1),
{
    let p = 2 * (ma * mb);
    let c = p / SCALE as int + 1;
    assert(0 <= ma * mb) by (nonlinear_arith)
        requires
            0 <= ma,
            0 <= mb,
    ;
    vstd::arithmetic::div_mod::lemma_fundamental_div_mod(p, SCALE as int);
    assert(SCALE as int * c >= p);
    assert(-p <= a.y * b.z - a.z * b.y <= p && -p <= a.z * b.x - a.x * b.z <= p && -p <= a.x
        * b.y - a.y * b.x <= p) by (nonlinear_arith)
        requires
            bounded(a, ma),
            bounded(b, mb),
            0 <= ma,
            0 <= mb,
            p == 2 * (ma * mb),
    ;
    lemma_div_floor_scaled(a.y * b.z - a.z * b.y, SCALE as int, c);
    lemma_div_floor_scaled(a.z * b.x - a.x * b.z, SCALE as int, c);
    lemma_div_floor_scaled(a.x * b.y - a.y * b.x, SCALE as int, c);
}

/// Componentwise bounds on the inputs of `dot3` bound its result.
pub proof fn lemma_dot3_bounded(a: V3, b: V3, m: int)
    requires
        0 <= m,
        bounded(a, m),
        bounded(b, m),
    ensures
        -((3 * (m * m)) / SCALE as int + 1) <= dot3(a, b) <= (3 * (m * m)) / SCALE as int + 1,
{
    let p = 3 * (m * m);
    let c = p / SCALE as int + 1;
    assert(0 <= m * m) by (nonlinear_arith);
    vstd::arithmetic::div_mod::lemma_fundamental_div_mod(p, SCALE as int);
    assert(SCALE as int * c >= p);
    assert(-p <= a.x * b.x + a.y * b.y + a.z * b.z <= p) by (nonlinear_arith)
        requires
            bounded(a, m),
            bounded(b, m),
            0 <= m,
            p == 3 * (m * m),
    ;
    lemma_div_floor_scaled(a.x * b.x + a.y * b.y + a.z * b.z, SCALE as int, c);
}

/// Each component of a vector is bounded by the vector's length.
pub proof fn lemma_component_le_len(v: V3)
    ensures
        -len3(v) <= v.x <= len3(v),
        -len3(v) <= v.y <= len3(v),
        -len3(v) <= v.z <= len3(v),
{
    lemma_sqrt_floor_bounds(norm2(v) as nat);
    let l = len3(v);
    assert(v.x * v.x >= 0 && v.y * v.y >= 0 && v.z * v.z >= 0) by (nonlinear_arith);
    assert(v.x * v.x <= norm2(v) && v.y * v.y <= norm2(v) && v.z * v.z <= norm2(v));
    assert(norm2(v) < (l + 1) * (l + 1));
    lemma_abs_le_of_sq(v.x, l);
    lemma_abs_le_of_sq(v.y, l);
    lemma_abs_le_of_sq(v.z, l);
}

/// One floor-divided coordinate of a normalized vector, squared and
/// rescaled by `l * l`: within the rounding slack of its exact value.
proof fn lemma_norm_coord_sq_bounds(t: int, l: int, q: int, r: int, s: int) by (nonlinear_arith)
    requires
        l >= 1,
        s >= 1,
        t == l * q + r,
        0 <= r < l,
        -(l * s) <= t <= l * s,
    ensures
        t * t - 2 * ((l * l) * s) <= (l * l) * (q * q) <= t * t + 2 * ((l * l) * s) + l * l,
{
    assert((l * q) * (l * q) == (l * l) * (q * q));
    assert((l * q) * (l * q) == (t - r) * (t - r));
}

/// Normalizing a vector of at least one world unit's length yields a
/// vector whose length is one world unit, within five millionths.
pub proof fn lemma_normalize_unit_length(v: V3)
    requires
        len3(v) >= SCALE,
    ensures
        match normalize3(v) {
            Some(u) => SCALE - 4 <= len3(u) <= SCALE + 4,
            None => false,
        },
{
    let l = len3(v);
    let n = norm2(v);
    let s: int = SCALE as int;
    assert(v.x * v.x >= 0 && v.y * v.y >= 0 && v.z * v.z >= 0) by (nonlinear_arith);
    lemma_sqrt_floor_bounds(n as nat);
    assert(l * l <= n < (l + 1) * (l + 1));
    lemma_component_le_len(v);
    let u = match normalize3(v) {
        Some(u) => u,
        None => zero3(),
    };
    let tx = v.x * s;
    let ty = v.y * s;
    let tz = v.z * s;
    assert(-(l * s) <= tx <= l * s && -(l * s) <= ty <= l * s && -(l * s) <= tz <= l * s)
        by (nonlinear_arith)
        requires
            -l <= v.x <= l,
            -l <= v.y <= l,
            -l <= v.z <= l,
            s >= 1,
            tx == v.x * s,
            ty == v.y * s,
            tz == v.z * s,
    ;
    vstd::arithmetic::div_mod::lemma_fundamental_div_mod(tx, l);
    vstd::arithmetic::div_mod::lemma_fundamental_div_mod(ty, l);
    vstd::arithmetic::div_mod::lemma_fundamental_div_mod(tz, l);
    lemma_norm_coord_sq_bounds(tx, l, u.x, tx % l, s);
    lemma_norm_coord_sq_bounds(ty, l, u.y, ty % l, s);
    lemma_norm_coord_sq_bounds(tz, l, u.z, tz % l, s);
    let m = norm2(u);
    assert((l * l) * m == (l * l) * (u.x * u.x) + (l * l) * (u.y * u.y) + (l * l) * (u.z * u.z))
        by (nonlinear_arith)
        requires
            m == u.x * u.x + u.y * u.y + u.z * u.z,
    ;
    assert(tx * tx == (s * s) * (v.x * v.x)) by (nonlinear_arith)
        requires
            tx == v.x * s,
    ;
    assert(ty * ty == (s * s) * (v.y * v.y)) by (nonlinear_arith)
        requires
            ty == v.y * s,
    ;
    assert(tz * tz == (s * s) * (v.z * v.z)) by (nonlinear_arith)
        requires
            tz == v.z * s,
    ;
    assert((s * s) * n == (s * s) * (v.x * v.x) + (s * s) * (v.y * v.y) + (s * s) * (v.z
        * v.z)) by (nonlinear_arith)
        requires
            n == v.x * v.x + v.y * v.y + v.z * v.z,
    ;
    assert((s * s) * n - 6 * ((l * l) * s) <= (l * l) * m <= (s * s) * n + 6 * ((l * l) * s) + 3
        * (l * l));
    assert(m >= s * s - 6 * s) by (nonlinear_arith)
        requires
            l >= 1,
            (l * l) * m >= (s * s) * n - 6 * ((l * l) * s),
            n >= l * l,
    ;
    assert(m <= s * s + 8 * s + 3) by (nonlinear_arith)
        requires
            l >= s,
            s == 1_000_000,
            (l * l) * m <= (s * s) * n + 6 * ((l * l) * s) + 3 * (l * l),
            n <= (l + 1) * (l + 1) - 1,
    ;
    assert(m >= 0) by (nonlinear_arith)
        requires
            m == u.x * u.x + u.y * u.y + u.z * u.z,
    ;
    lemma_sqrt_floor_bounds(m as nat);
    let lu = len3(u);
    assert(lu * lu <= m < (lu + 1) * (lu + 1));
    if lu < s - 4 {
        assert(false) by (nonlinear_arith)
            requires
                s == 1_000_000,
                lu >= 0,
                lu + 1 <= s - 4,
                m < (lu + 1) * (lu + 1),
                m >= s * s - 6 * s,
        ;
    }
    if lu > s + 4 {
        assert(false) by (nonlinear_arith)
            requires
                s == 1_000_000,
                lu >= 0,
                lu >= s + 5,
                lu * lu <= m,
                m <= s * s + 8 * s + 3,
        ;
    }
}

impl Vec3D {
    pub fn new(x: i64, y: i64, z: i64) -> (r: Self)
        ensures
            r@ == (V3 { x: x as int, y: y as int, z: z as int }),
    {
        Vec3D { x, y, z }
    }

    pub fn add(&self, rhs: &Vec3D) -> (r: Vec3D)
        requires
            bounded(self@, OP_MAX as int),
            bounded(rhs@, OP_MAX as int),
        ensures
            r@ == vadd(self@, rhs@),
    {
        Vec3D { x: self.x + rhs.x, y: self.y + rhs.y, z: self.z + rhs.z }
    }

    pub fn add_assign(&mut self, rhs: &Vec3D)
        requires
            bounded(old(self)@, OP_MAX as int),
            bounded(rhs@, OP_MAX as int),
        ensures
            final(self)@ == vadd(old(self)@, rhs@),
    {
        self.x = self.x + rhs.x;
        self.y = self.y + rhs.y;
        self.z = self.z + rhs.z;
    }

    pub fn sub(&self, rhs: &Vec3D) -> (r: Vec3D)
        requires
            bounded(self@, OP_MAX as int),
            bounded(rhs@, OP_MAX as int),
        ensures
            r@ == vsub(self@, rhs@),
    {
        Vec3D { x: self.x - rhs.x, y: self.y - rhs.y, z: self.z - rhs.z }
    }

    pub fn neg(&self) -> (r: Vec3D)
        requires
            bounded(self@, OP_MAX as int),
        ensures
            r@ == vneg(self@),
    {
        Vec3D { x: -self.x, y: -self.y, z: -self.z }
    }

    pub fn abs(&self) -> (r: Vec3D)
        requires
            bounded(self@, OP_MAX as int),
        ensures
            r@ == vabs(self@),
    {
        Vec3D {
            x: if self.x < 0 { -self.x } else { self.x },
            y: if self.y < 0 { -self.y } else { self.y },
            z: if self.z < 0 { -self.z } else { self.z },
        }
    }

    pub fn max(&self, rhs: &Vec3D) -> (r: Vec3D)
        ensures
            r@ == vmax(self@, rhs@),
    {
        Vec3D {
            x: if self.x < rhs.x { rhs.x } else { self.x },
            y: if self.y < rhs.y { rhs.y } else { self.y },
            z: if self.z < rhs.z { rhs.z } else { self.z },
        }
    }

    pub fn max_component(&self) -> (r: i64)
        ensures
            r == max3(self@),
    {
        let xy: i64 = if self.x < self.y { self.y } else { self.x };
        if xy < self.z { self.z } else { xy }
    }

    /// Fixed-point scaling by `s` (the vector-by-scalar product).
    pub fn mul(&self, s: i64) -> (r: Vec3D)
        requires
            bounded(self@, FP_MAX as int),
            -FP_MAX <= s <= FP_MAX,
        ensures
            r@ == smul(self@, s as int),
    {
        Vec3D {
            x: Self::scale_coord(self.x, s),
            y: Self::scale_coord(self.y, s),
            z: Self::scale_coord(self.z, s),
        }
    }

    fn scale_coord(c: i64, s: i64) -> (r: i64)
        requires
            -FP_MAX <= c <= FP_MAX,
            -FP_MAX <= s <= FP_MAX,
        ensures
            r == (c as int * s as int) / SCALE as int,
    {
        proof {
            assert(-1000000000000000000000000 <= c as int * s as int
                <= 1000000000000000000000000) by (nonlinear_arith)
                requires
                    -FP_MAX <= c <= FP_MAX,
                    -FP_MAX <= s <= FP_MAX,
            ;
            lemma_div_floor_scaled(c as int * s as int, SCALE as int, 1_000_000_000_000_000_000);
        }
        let n: i128 = c as i128 * s as i128;
        let q: i128 = div_floor(n, SCALE as i128);
        q as i64
    }

    /// Fixed-point division by the scalar `s`, floor-rounded toward
    /// negative infinity of the real quotient.
    pub fn div(&self, s: i64) -> (r: Vec3D)
        requires
            bounded(self@, FP_MAX as int),
            s != 0,
            -FP_MAX <= s <= FP_MAX,
        ensures
            r@ == vdiv(self@, s as int),
    {
        Vec3D {
            x: Self::div_coord(self.x, s),
            y: Self::div_coord(self.y, s),
            z: Self::div_coord(self.z, s),
        }
    }

    fn div_coord(c: i64, s: i64) -> (r: i64)
        requires
            -FP_MAX <= c <= FP_MAX,
            s != 0,
            -FP_MAX <= s <= FP_MAX,
        ensures
            r == sdivq(c as int * SCALE as int, s as int),
    {
        proof {
            assert(-1000000000000000000 <= c as int * SCALE as int <= 1000000000000000000)
                by (nonlinear_arith)
                requires
                    -FP_MAX <= c <= FP_MAX,
            ;
        }
        let n: i128 = c as i128 * SCALE as i128;
        let (num, den): (i128, i128) = if s < 0 { (-n, -(s as i128)) } else { (n, s as i128) };
        proof {
            lemma_div_floor_scaled(
                num as int,
                den as int,
                1_000_000_000_000_000_000,
            );
            assert(num as int <= den as int * 1_000_000_000_000_000_000) by (nonlinear_arith)
                requires
                    den >= 1,
                    -1000000000000000000 <= num as int <= 1000000000000000000,
            ;
            assert(-(den as int * 1_000_000_000_000_000_000) <= num as int) by (nonlinear_arith)
                requires
                    den >= 1,
                    -1000000000000000000 <= num as int <= 1000000000000000000,
            ;
        }
        let q: i128 = div_floor(num, den);
        q as i64
    }

    /// Fixed-point dot product, floor-rounded.
    pub fn dot(&self, rhs: &Vec3D) -> (r: i64)
        requires
            bounded(self@, FP_MAX as int),
            bounded(rhs@, FP_MAX as int),
        ensures
            r == dot3(self@, rhs@),
    {
        proof {
            assert(-1000000000000000000000000 <= self@.x * rhs@.x <= 1000000000000000000000000
                && -1000000000000000000000000 <= self@.y * rhs@.y <= 1000000000000000000000000
                && -1000000000000000000000000 <= self@.z * rhs@.z <= 1000000000000000000000000)
                by (nonlinear_arith)
                requires
                    bounded(self@, FP_MAX as int),
                    bounded(rhs@, FP_MAX as int),
            ;
        }
        let n: i128 = self.x as i128 * rhs.x as i128 + self.y as i128 * rhs.y as i128
            + self.z as i128 * rhs.z as i128;
        proof {
            lemma_div_floor_scaled(n as int, SCALE as int, 3_000_000_000_000_000_000);
        }
        let q: i128 = div_floor(n, SCALE as i128);
        q as i64
    }

    /// Fixed-point cross product, each component floor-rounded.
    pub fn cross(&self, rhs: &Vec3D) -> (r: Vec3D)
        requires
            bounded(self@, FP_MAX as int),
            bounded(rhs@, FP_MAX as int),
        ensures
            r@ == cross3(self@, rhs@),
    {
        Vec3D {
            x: Self::cross_coord(self.y, rhs.z, self.z, rhs.y),
            y: Self::cross_coord(self.z, rhs.x, self.x, rhs.z),
            z: Self::cross_coord(self.x, rhs.y, self.y, rhs.x),
        }
    }

    fn cross_coord(a: i64, b: i64, c: i64, d: i64) -> (r: i64)
        requires
            -FP_MAX <= a <= FP_MAX,
            -FP_MAX <= b <= FP_MAX,
            -FP_MAX <= c <= FP_MAX,
            -FP_MAX <= d <= FP_MAX,
        ensures
            r == (a as int * b as int - c as int * d as int) / SCALE as int,
    {
        proof {
            assert(-1000000000000000000000000 <= a as int * b as int <= 1000000000000000000000000
                && -1000000000000000000000000 <= c as int * d as int
                <= 1000000000000000000000000) by (nonlinear_arith)
                requires
                    -FP_MAX <= a <= FP_MAX,
                    -FP_MAX <= b <= FP_MAX,
                    -FP_MAX <= c <= FP_MAX,
                    -FP_MAX <= d <= FP_MAX,
            ;
        }
        let n: i128 = a as i128 * b as i128 - c as i128 * d as i128;
        proof {
            lemma_div_floor_scaled(n as int, SCALE as int, 2_000_000_000_000_000_000);
        }
        let q: i128 = div_floor(n, SCALE as i128);
        q as i64
    }

    /// Fixed-point Euclidean length.
    pub fn length(&self) -> (r: i64)
        requires
            bounded(self@, LEN_MAX as int),
        ensures
            r == len3(self@),
    {
        proof {
            assert(0 <= self@.x * self@.x
                <= 1000000000000000000000000000000000000
                && 0 <= self@.y * self@.y
                <= 1000000000000000000000000000000000000
                && 0 <= self@.z * self@.z
                <= 1000000000000000000000000000000000000) by (nonlinear_arith)
                requires
                    bounded(self@, LEN_MAX as int),
            ;
        }
        let n: i128 = self.x as i128 * self.x as i128 + self.y as i128 * self.y as i128
            + self.z as i128 * self.z as i128;
        let r: u64 = isqrt(n as u128);
        proof {
            lemma_sqrt_floor_bounds(n as nat);
            if r > 2_000_000_000_000_000_000u64 {
                assert(false) by (nonlinear_arith)
                    requires
                        r as nat * r as nat <= n as nat,
                        n as nat <= 3000000000000000000000000000000000000,
                        r as nat > 2000000000000000000,
                ;
            }
        }
        r as i64
    }

    /// Fixed-point distance between two points.
    pub fn distance(&self, rhs: &Vec3D) -> (r: i64)
        requires
            bounded(self@, DIST_MAX as int),
            bounded(rhs@, DIST_MAX as int),
        ensures
            r == dist3(self@, rhs@),
    {
        let d = self.sub(rhs);
        d.length()
    }

    /// The unit vector of `self` at fixed-point scale, or `None` exactly
    /// when `self` is the zero vector (checked exactly, no tolerance).
    /// Each component of the result lies within `SCALE` of zero.
    pub fn normalize(&self) -> (r: Option<Vec3D>)
        requires
            bounded(self@, LEN_MAX as int),
        ensures
            match r {
                Some(u) => normalize3(self@) == Some(u@) && bounded(u@, SCALE as int),
                None => normalize3(self@) is None && self@ == zero3(),
            },
    {
        let l: i64 = self.length();
        if l == 0 {
            proof {
                lemma_len3_zero(self@);
            }
            None
        } else {
            proof {
                lemma_component_le_len(self@);
            }
            Some(Vec3D {
                x: Self::norm_coord(self.x, l),
                y: Self::norm_coord(self.y, l),
                z: Self::norm_coord(self.z, l),
            })
        }
    }

    fn norm_coord(c: i64, l: i64) -> (r: i64)
        requires
            l >= 1,
            -l <= c <= l,
        ensures
            r == (c as int * SCALE as int) / l as int,
            -SCALE <= r <= SCALE,
    {
        proof {
            assert(-(l as int * SCALE as int) <= c as int * SCALE as int
                <= l as int * SCALE as int) by (nonlinear_arith)
                requires
                    -l <= c <= l,
                    SCALE >= 1,
            ;
            lemma_div_floor_scaled(c as int * SCALE as int, l as int, SCALE as int);
        }
        let n: i128 = c as i128 * SCALE as i128;
        let q: i128 = div_floor(n, l as i128);
        q as i64
    }
}

} // verus!
