//! Fixed-point planar vector arithmetic: integer square roots, truncating
//! scaled multiplication/division, and distances between points.
//!
//! All world-space quantities are whole integers. Directions are given
//! scaled by `DIR_SCALE`, so the unit vector (1, 0) is written (1000, 0).

use vstd::prelude::*;

verus! {

/// Largest magnitude allowed for a position component.
pub const POS_LIMIT: i64 = 1_000_000;

/// Largest magnitude allowed for a velocity component.
pub const VEL_LIMIT: i64 = 100_000_000;

/// Scale of direction vectors: a unit direction has length `DIR_SCALE`.
pub const DIR_SCALE: i64 = 1000;

/// Largest distance between two in-range positions
/// (the integer square root of `2 * (2 * POS_LIMIT)^2`, rounded down).
pub const DIST_LIMIT: i64 = 2_828_427;

/// A planar vector with integer components.
#[derive(Clone, Copy, PartialEq, Eq, Structural, Debug)]
pub struct Vec2 {
    pub x: i64,
    pub y: i64,
}

impl Vec2 {
    /// True when both components are within `lim` in magnitude.
    pub open spec fn bounded(self, lim: i64) -> bool {
        -lim <= self.x <= lim && -lim <= self.y <= lim
    }
}

/// The square of an integer.
pub open spec fn sq(x: int) -> int {
    x * x
}

/// Magnitude of an integer.
pub open spec fn absi(x: int) -> int {
    if x >= 0 {
        x
    } else {
        -x
    }
}

/// `r` is the integer square root of `n`, rounded down.
pub open spec fn is_isqrt(n: int, r: int) -> bool {
    0 <= r && sq(r) <= n < sq(r + 1)
}

/// The integer square root of `n`, rounded down, as a recursive definition.
pub open spec fn sqrt_floor(n: nat) -> nat
    decreases n,
{
    if n == 0 {
        0
    } else {
        let r = sqrt_floor((n - 1) as nat);
        if sq(r as int + 1) <= n {
            r + 1
        } else {
            r
        }
    }
}

/// `sqrt_floor` meets the two-sided square-root bound.
pub proof fn lemma_sqrt_floor_is_isqrt(n: nat)
    ensures
        is_isqrt(n as int, sqrt_floor(n) as int),
    decreases n,
{
    if n > 0 {
        lemma_sqrt_floor_is_isqrt((n - 1) as nat);
        let r = sqrt_floor((n - 1) as nat);
        assert(sq(r as int + 1) < sq(r as int + 2)) by (nonlinear_arith)
            requires
                r >= 0,
        ;
    }
}

/// The two-sided square-root bound pins its witness down.
pub proof fn lemma_isqrt_unique(n: int, r: int, s: int)
    requires
        is_isqrt(n, r),
        is_isqrt(n, s),
    ensures
        r == s,
{
    if r < s {
        assert(sq(r + 1) <= sq(s)) by (nonlinear_arith)
            requires
                0 <= r,
                0 <= s,
                r + 1 <= s,
        ;
    }
    if s < r {
        assert(sq(s + 1) <= sq(r)) by (nonlinear_arith)
            requires
                0 <= r,
                0 <= s,
                s + 1 <= r,
        ;
    }
}

/// A square root is at least the root of any smaller perfect square.
pub proof fn lemma_sqrt_ge_root(n: int, r: int, c: int)
    requires
        is_isqrt(n, r),
        0 <= c,
        sq(c) <= n,
    ensures
        c <= r,
{
    if r < c {
        assert(sq(r + 1) <= sq(c)) by (nonlinear_arith)
            requires
                0 <= r,
                0 <= c,
                r + 1 <= c,
        ;
    }
}

/// Truncating division of a product: `a * b / d` rounded toward zero.
pub open spec fn tdiv(n: int, d: int) -> int {
    if n >= 0 {
        n / d
    } else {
        -((-n) / d)
    }
}

/// Truncating scaled division stays within the scale bound: when the
/// numerator factor is within `d`, the quotient is within the other factor.
pub proof fn lemma_tdiv_scale_bound(a: int, m: int, d: int)
    requires
        0 < d,
        -d <= a <= d,
    ensures
        -absi(m) <= tdiv(a * m, d) <= absi(m),
{
    let p = a * m;
    let am = absi(m);
    assert(-(d * am) <= p <= d * am) by (nonlinear_arith)
        requires
            0 < d,
            -d <= a <= d,
            -am <= m <= am,
            0 <= am,
            p == a * m,
        ;
    if p >= 0 {
        assert(p / d <= am) by (nonlinear_arith)
            requires
                0 < d,
                0 <= p,
                p <= d * am,
        ;
        assert(p / d >= 0) by (nonlinear_arith)
            requires
                0 < d,
                0 <= p,
        ;
    } else {
        assert((-p) / d <= am) by (nonlinear_arith)
            requires
                0 < d,
                0 <= -p,
                -p <= d * am,
        ;
        assert((-p) / d >= 0) by (nonlinear_arith)
            requires
                0 < d,
                0 <= -p,
        ;
    }
}

/// Integer square root, rounded down.
pub fn isqrt(n: u64) -> (r: u64)
    ensures
        r == sqrt_floor(n as nat),
        is_isqrt(n as int, r as int),
{
    proof {
        lemma_sqrt_floor_is_isqrt(n as nat);
    }
    let mut lo: u64 = 0;
    let mut hi: u64 = 4_294_967_295;
    proof {
        assert(sq(hi as int + 1) > n as int) by (nonlinear_arith)
            requires
                hi == 4_294_967_295u64,
                n <= u64::MAX,
        ;
    }
    while lo < hi
        invariant
            lo <= hi,
            hi <= 4_294_967_295,
            sq(lo as int) <= n as int,
            (n as int) < sq(hi as int + 1),
        decreases hi - lo,
    {
        let mid: u64 = lo + (hi - lo + 1) / 2;
        proof {
            assert((mid as int) * (mid as int) <= u128::MAX) by (nonlinear_arith)
                requires
                    mid <= 4_294_967_295u64,
            ;
        }
        let midsq: u128 = (mid as u128) * (mid as u128);
        if midsq <= n as u128 {
            lo = mid;
        } else {
            hi = mid - 1;
        }
    }
    proof {
        lemma_isqrt_unique(n as int, lo as int, sqrt_floor(n as nat) as int);
    }
    lo
}

/// Truncating `a * b / d` with 128-bit intermediates.
pub fn muldiv(a: i64, b: i64, d: i64) -> (r: i64)
    requires
        0 < d,
        i64::MIN <= tdiv(a as int * b as int, d as int) <= i64::MAX,
    ensures
        r == tdiv(a as int * b as int, d as int),
{
    proof {
        assert(-0x4000_0000_0000_0000_0000_0000_0000_0000 <= (a as int) * (b as int)
            <= 0x4000_0000_0000_0000_0000_0000_0000_0000) by (nonlinear_arith)
            requires
                i64::MIN <= a <= i64::MAX,
                i64::MIN <= b <= i64::MAX,
        ;
    }
    let p: i128 = (a as i128) * (b as i128);
    if p >= 0 {
        let q: u128 = (p as u128) / (d as u128);
        proof {
            assert(q == tdiv(a as int * b as int, d as int));
        }
        q as i64
    } else {
        let q: u128 = ((-p) as u128) / (d as u128);
        proof {
            assert(q == -tdiv(a as int * b as int, d as int));
        }
        -(q as i128) as i64
    }
}


/// The squared Euclidean distance between two points.
pub open spec fn dist_sq(a: Vec2, b: Vec2) -> int {
    sq(b.x - a.x) + sq(b.y - a.y)
}

/// The Euclidean distance between two points, rounded down.
pub open spec fn dist_s(a: Vec2, b: Vec2) -> int {
    sqrt_floor(dist_sq(a, b) as nat) as int
}

/// A square is never negative.
pub proof fn lemma_sq_nonneg(x: int)
    ensures
        sq(x) >= 0,
{
    assert(sq(x) >= 0) by (nonlinear_arith);
}

/// An integer square root is below any larger root's square.
pub proof fn lemma_isqrt_below(n: int, r: int, c: int)
    requires
        is_isqrt(n, r),
        0 <= c,
        n < sq(c),
    ensures
        r < c,
{
    if c <= r {
        assert(sq(c) <= sq(r)) by (nonlinear_arith)
            requires
                0 <= c <= r,
        ;
    }
}

/// Squares grow with magnitude: `|a| <= b` gives `a^2 <= b^2`.
pub proof fn lemma_sq_le(a: int, b: int)
    requires
        -b <= a <= b,
    ensures
        sq(a) <= sq(b),
{
    assert(sq(a) <= sq(b)) by (nonlinear_arith)
        requires
            -b <= a <= b,
    ;
}

/// The distance between two points dominates each coordinate difference.
pub proof fn lemma_dist_dominates_components(a: Vec2, b: Vec2, r: int)
    requires
        is_isqrt(dist_sq(a, b), r),
    ensures
        -r <= b.x - a.x <= r,
        -r <= b.y - a.y <= r,
{
    let dx = b.x - a.x;
    let dy = b.y - a.y;
    lemma_sq_nonneg(dx);
    lemma_sq_nonneg(dy);
    assert(sq(absi(dx)) == sq(dx)) by (nonlinear_arith);
    assert(sq(absi(dy)) == sq(dy)) by (nonlinear_arith);
    lemma_sqrt_ge_root(dist_sq(a, b), r, absi(dx));
    lemma_sqrt_ge_root(dist_sq(a, b), r, absi(dy));
}

/// The Euclidean distance between two points, rounded down.
///
/// The component bound admits both positions and velocities.
pub fn dist(a: Vec2, b: Vec2) -> (r: i64)
    requires
        a.bounded(1_000_000_000),
        b.bounded(1_000_000_000),
    ensures
        r == dist_s(a, b),
        is_isqrt(dist_sq(a, b), r as int),
        0 <= r <= 3_000_000_000,
        a.bounded(POS_LIMIT) && b.bounded(POS_LIMIT) ==> r <= DIST_LIMIT,
{
    let dx: i64 = b.x - a.x;
    let dy: i64 = b.y - a.y;
    proof {
        lemma_sq_le(dx as int, 2_000_000_000);
        lemma_sq_le(dy as int, 2_000_000_000);
        lemma_sq_nonneg(dx as int);
        lemma_sq_nonneg(dy as int);
    }
    let sqsum: u64 = (dx * dx) as u64 + (dy * dy) as u64;
    let r: u64 = isqrt(sqsum);
    proof {
        lemma_isqrt_below(sqsum as int, r as int, 3_000_000_001);
        assert(sq(3_000_000_001int) > sqsum as int) by (nonlinear_arith)
            requires
                sqsum <= 8_000_000_000_000_000_000u64,
        ;
        if a.bounded(POS_LIMIT) && b.bounded(POS_LIMIT) {
            lemma_sq_le(dx as int, 2_000_000);
            lemma_sq_le(dy as int, 2_000_000);
            assert(sq(DIST_LIMIT as int + 1) > sqsum as int) by (nonlinear_arith)
                requires
                    sqsum <= 8_000_000_000_000u64,
            ;
            lemma_isqrt_below(sqsum as int, r as int, DIST_LIMIT as int + 1);
        }
        lemma_isqrt_unique(sqsum as int, r as int, sqrt_floor(sqsum as nat) as int);
        lemma_sqrt_floor_is_isqrt(sqsum as nat);
    }
    r as i64
}

/// Scales `delta` by the signed magnitude `m` of a vector of length `d`:
/// each component becomes `delta_c * m / d`, truncated toward zero. Both
/// results stay within `|m|`.
pub fn scale_toward(delta: Vec2, m: i64, d: i64) -> (r: Vec2)
    requires
        0 < d,
        -i64::MAX <= m,
        -d <= delta.x <= d,
        -d <= delta.y <= d,
    ensures
        r.x == tdiv(delta.x * m, d as int),
        r.y == tdiv(delta.y * m, d as int),
        -absi(m as int) <= r.x <= absi(m as int),
        -absi(m as int) <= r.y <= absi(m as int),
{
    proof {
        lemma_tdiv_scale_bound(delta.x as int, m as int, d as int);
        lemma_tdiv_scale_bound(delta.y as int, m as int, d as int);
    }
    let x = muldiv(delta.x, m, d);
    let y = muldiv(delta.y, m, d);
    Vec2 { x, y }
}

}
