//! Fixed-point plane geometry: positions in milli-units, integer square
//! root, and the sign-magnitude scaled division that motion integration
//! and collision avoidance share.

use vstd::prelude::*;

verus! {

/// Positions and displacements live in `[-MAX_COORD, MAX_COORD]` milli-units.
pub const MAX_COORD: i64 = 1_000_000_000;

/// A point or vector in world space, in milli-units (1000 per world unit).
#[derive(Clone, Copy, Debug, PartialEq, Eq, Structural)]
pub struct Vec2i {
    pub x: i64,
    pub y: i64,
}

impl Vec2i {
    pub open spec fn in_world(self) -> bool {
        -MAX_COORD <= self.x <= MAX_COORD && -MAX_COORD <= self.y <= MAX_COORD
    }

    pub fn new(x: i64, y: i64) -> (r: Vec2i)
        ensures
            r.x == x,
            r.y == y,
    {
        Vec2i { x, y }
    }
}

/// The floor of the square root of `n`, defined by counting up.
pub open spec fn sqrt_floor(n: nat) -> nat
    decreases n,
{
    if n == 0 {
        0
    } else {
        let s = sqrt_floor((n - 1) as nat);
        if (s + 1) * (s + 1) <= n {
            s + 1
        } else {
            s
        }
    }
}

/// `sqrt_floor(n)` is the unique `r` with `r * r <= n < (r + 1) * (r + 1)`.
pub proof fn lemma_sqrt_floor_bounds(n: nat)
    ensures
        sqrt_floor(n) * sqrt_floor(n) <= n,
        n < (sqrt_floor(n) + 1) * (sqrt_floor(n) + 1),
    decreases n,
{
    if n == 0 {
        assert(sqrt_floor(0) == 0);
        assert((sqrt_floor(n) + 1) * (sqrt_floor(n) + 1) == 1) by (nonlinear_arith)
            requires
                sqrt_floor(n) == 0,
        ;
    } else {
        lemma_sqrt_floor_bounds((n - 1) as nat);
        let s = sqrt_floor((n - 1) as nat);
        if (s + 1) * (s + 1) <= n {
            assert(sqrt_floor(n) == s + 1);
            assert(n < (s + 1 + 1) * (s + 1 + 1)) by (nonlinear_arith)
                requires
                    n <= (s + 1) * (s + 1),
            ;
            assert(n < (sqrt_floor(n) + 1) * (sqrt_floor(n) + 1));
        } else {
            assert(sqrt_floor(n) == s);
            assert(n < (s + 1) * (s + 1));
            assert(n < (sqrt_floor(n) + 1) * (sqrt_floor(n) + 1));
        }
    }
}


/// Any `r` within the square-root bracket of `n` equals `sqrt_floor(n)`.
pub proof fn lemma_sqrt_floor_unique(n: nat, r: nat)
    requires
        r * r <= n,
        n < (r + 1) * (r + 1),
    ensures
        r == sqrt_floor(n),
{
    lemma_sqrt_floor_bounds(n);
    let s = sqrt_floor(n);
    assert(r == s) by (nonlinear_arith)
        requires
            r * r <= n,
            n < (r + 1) * (r + 1),
            s * s <= n,
            n < (s + 1) * (s + 1),
    ;
}

/// Floor of the square root of `n`, by binary search.
pub fn isqrt64(n: u64) -> (r: u64)
    ensures
        r == sqrt_floor(n as nat),
{
    let mut lo: u64 = 0;
    let mut hi: u64 = 4_294_967_295;
    if n < hi {
        hi = n;
    }
    assert(n < (hi + 1) * (hi + 1)) by (nonlinear_arith)
        requires
            n <= hi || hi == 4_294_967_295,
            n <= u64::MAX,
    ;
    while lo < hi
        invariant
            lo <= hi <= 4_294_967_295,
            lo * lo <= n,
            n < (hi + 1) * (hi + 1),
        decreases hi - lo,
    {
        let mid = lo + (hi - lo + 1) / 2;
        assert(mid * mid <= u64::MAX) by (nonlinear_arith)
            requires
                mid <= 4_294_967_295,
        ;
        if mid * mid <= n {
            lo = mid;
        } else {
            hi = mid - 1;
        }
    }
    proof {
        lemma_sqrt_floor_unique(n as nat, lo as nat);
    }
    lo
}

pub open spec fn abs_i(a: int) -> int {
    if a >= 0 {
        a
    } else {
        -a
    }
}

/// `a` scaled by `m / d`, rounding the magnitude toward zero: the exact
/// value of one axis of a normalized, scaled displacement.
pub open spec fn mul_div(a: int, m: int, d: int) -> int {
    if a >= 0 {
        (a * m) / d
    } else {
        -((-a * m) / d)
    }
}

/// `mul_div` never grows past `c` once the numerator is below `d * c`.
pub proof fn lemma_mul_div_bound(a: int, m: int, d: int, c: int)
    requires
        m >= 0,
        d >= 1,
        c >= 0,
        abs_i(a) * m <= d * c,
    ensures
        abs_i(mul_div(a, m, d)) <= c,
{
    let q = (abs_i(a) * m) / d;
    assert(q <= c && q >= 0) by (nonlinear_arith)
        requires
            d >= 1,
            c >= 0,
            abs_i(a) * m >= 0,
            abs_i(a) * m <= d * c,
            q == (abs_i(a) * m) / d,
    ;
}

/// The scaled displacement keeps the sign of its input.
pub proof fn lemma_mul_div_sign(a: int, m: int, d: int)
    requires
        m >= 0,
        d >= 1,
    ensures
        a >= 0 ==> mul_div(a, m, d) >= 0,
        a <= 0 ==> mul_div(a, m, d) <= 0,
{
    if a >= 0 {
        assert((a * m) / d >= 0) by (nonlinear_arith)
            requires
                a >= 0,
                m >= 0,
                d >= 1,
        ;
    }
    if a <= 0 {
        assert((-a * m) / d >= 0) by (nonlinear_arith)
            requires
                a <= 0,
                m >= 0,
                d >= 1,
        ;
    }
}

/// Computes `mul_div(a, m, d)` exactly in machine integers.
pub fn scale_toward(a: i64, m: i64, d: i64) -> (r: i64)
    requires
        -i64::MAX <= a,
        m >= 0,
        d >= 1,
        abs_i(a as int) * m <= i64::MAX,
    ensures
        r == mul_div(a as int, m as int, d as int),
        abs_i(r as int) <= abs_i(a as int) * (m as int) / (d as int),
        a >= 0 ==> r >= 0,
        a <= 0 ==> r <= 0,
{
    let mag = if a >= 0 { a } else { -a };
    assert(mag as int * m as int <= i64::MAX && mag as int * m as int >= 0) by (nonlinear_arith)
        requires
            mag >= 0,
            m >= 0,
            mag as int == abs_i(a as int),
            abs_i(a as int) * (m as int) <= i64::MAX,
    ;
    let q = (mag * m) / d;
    assert(0 <= q as int <= mag as int * m as int) by (nonlinear_arith)
        requires
            mag as int * m as int >= 0,
            d >= 1,
            q as int == (mag as int * m as int) / (d as int),
    ;
    proof {
        if a == 0 {
            assert(mag as int * m as int == 0) by (nonlinear_arith)
                requires
                    mag == 0,
            ;
        }
    }
    if a >= 0 {
        q
    } else {
        -q
    }
}

/// Clamps a coordinate back into the world range.
pub open spec fn clamp_coord(v: int) -> int {
    if v < -MAX_COORD {
        -MAX_COORD as int
    } else if v > MAX_COORD {
        MAX_COORD as int
    } else {
        v
    }
}

pub fn clamp_to_world(v: i64) -> (r: i64)
    ensures
        r == clamp_coord(v as int),
{
    if v < -MAX_COORD {
        -MAX_COORD
    } else if v > MAX_COORD {
        MAX_COORD
    } else {
        v
    }
}

/// Squared Euclidean separation of two points, in squared milli-units.
pub open spec fn dist_sq(a: Vec2i, b: Vec2i) -> int {
    (b.x - a.x) * (b.x - a.x) + (b.y - a.y) * (b.y - a.y)
}

/// Euclidean separation of two points in milli-units, rounded down.
pub open spec fn dist_milli(a: Vec2i, b: Vec2i) -> int {
    sqrt_floor(dist_sq(a, b) as nat) as int
}

/// Each axis component of a separation never exceeds the rounded
/// Euclidean separation itself.
pub proof fn lemma_component_le_dist(a: Vec2i, b: Vec2i)
    ensures
        abs_i(b.x - a.x) <= dist_milli(a, b),
        abs_i(b.y - a.y) <= dist_milli(a, b),
{
    let dx = b.x - a.x;
    let dy = b.y - a.y;
    let sq = dist_sq(a, b);
    assert(abs_i(dx) * abs_i(dx) <= sq && abs_i(dy) * abs_i(dy) <= sq && sq >= 0)
        by (nonlinear_arith)
        requires
            sq == dx * dx + dy * dy,
    ;
    lemma_sqrt_floor_bounds(sq as nat);
    let d = sqrt_floor(sq as nat) as int;
    assert(abs_i(dx) <= d) by (nonlinear_arith)
        requires
            abs_i(dx) >= 0,
            d >= 0,
            abs_i(dx) * abs_i(dx) <= sq,
            sq < (d + 1) * (d + 1),
    ;
    assert(abs_i(dy) <= d) by (nonlinear_arith)
        requires
            abs_i(dy) >= 0,
            d >= 0,
            abs_i(dy) * abs_i(dy) <= sq,
            sq < (d + 1) * (d + 1),
    ;
}

/// Separation is symmetric.
pub proof fn lemma_dist_symmetric(a: Vec2i, b: Vec2i)
    ensures
        dist_milli(a, b) == dist_milli(b, a),
{
    assert(dist_sq(a, b) == dist_sq(b, a)) by (nonlinear_arith);
}

/// Computes `dist_milli` exactly.
pub fn distance(a: Vec2i, b: Vec2i) -> (r: i64)
    requires
        a.in_world(),
        b.in_world(),
    ensures
        r == dist_milli(a, b),
        0 <= r <= 2_900_000_000,
{
    let dx = b.x - a.x;
    let dy = b.y - a.y;
    assert(0 <= dx * dx && 0 <= dy * dy && dx * dx + dy * dy <= 8_000_000_000_000_000_000)
        by (nonlinear_arith)
        requires
            -2 * MAX_COORD <= dx <= 2 * MAX_COORD,
            -2 * MAX_COORD <= dy <= 2 * MAX_COORD,
    ;
    let sq = (dx * dx + dy * dy) as u64;
    let r = isqrt64(sq);
    proof {
        lemma_sqrt_floor_bounds(sq as nat);
        assert(r <= 2_900_000_000) by (nonlinear_arith)
            requires
                r as int * r as int <= sq as int,
                sq <= 8_000_000_000_000_000_000u64,
        ;
    }
    r as i64
}

} // verus!
