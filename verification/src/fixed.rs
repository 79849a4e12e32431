//! Fixed-point scalar model: constants, truncating division, clamping,
//! and the integer square root used for distances.

use vstd::prelude::*;

verus! {

/// Number of fixed-point sub-units per world or pixel unit.
pub const SCALE: i64 = 1000;

/// Tolerance, in sub-units, under which two coordinates count as coincident.
pub const EPSILON: i64 = 1;

/// Slack, in sub-units, subtracted from a ray's length before an occlusion
/// hit counts; keeps a sample from being blocked by its own facet.
pub const VISIBILITY_EPSILON: i64 = 10;

/// Facet-normal dot product (scaled by `SCALE * SCALE`) below which an edge
/// is a sharp corner that is always drawn.
pub const SHARP_EDGE_DOT: i64 = 800000;

/// Largest magnitude accepted for a coordinate, a matrix entry, or a
/// screen-space value; results are clamped into this range.
pub const MAX_UNIT: i64 = 1000000000;

/// Largest canvas width or height, in whole pixels.
pub const MAX_DIM: i64 = 1000000;

/// Largest magnitude kept for an entry of the inverted combined transform;
/// a combined transform whose inverse leaves this range counts as singular.
pub const INV_LIMIT: i64 = 1000000000000;

/// Truncating division (quotient rounded toward zero), the meaning of the
/// machine's signed `/` for a positive divisor.
pub open spec fn div_tz(a: int, b: int) -> int
    recommends
        b > 0,
{
    if a >= 0 {
        a / b
    } else {
        -((-a) / b)
    }
}

/// Total truncating division: a zero divisor yields 0, a negative divisor
/// negates the quotient of the magnitudes.
pub open spec fn div_any(a: int, b: int) -> int {
    if b == 0 {
        0
    } else if b > 0 {
        div_tz(a, b)
    } else {
        -div_tz(a, -b)
    }
}

/// `v` clamped into `[-limit, limit]`.
pub open spec fn clamped(v: int, limit: int) -> int {
    if v > limit {
        limit
    } else if v < -limit {
        -limit
    } else {
        v
    }
}

/// Magnitude of an integer.
pub open spec fn mag(v: int) -> int {
    if v >= 0 {
        v
    } else {
        -v
    }
}

/// A product is bounded by the product of the factors' bounds.
pub proof fn lemma_mul_bound(a: int, b: int, x: int, y: int)
    requires
        mag(a) <= x,
        mag(b) <= y,
    ensures
        mag(a * b) <= x * y,
{
    assert(mag(a * b) <= x * y) by (nonlinear_arith)
        requires
            mag(a) <= x,
            mag(b) <= y,
    ;
}

pub proof fn lemma_div_tz_mag(a: int, b: int)
    requires
        b > 0,
    ensures
        mag(div_tz(a, b)) <= mag(a),
        b * mag(div_tz(a, b)) <= mag(a),
{
    if a >= 0 {
        assert(0 <= a / b <= a && b * (a / b) <= a) by (nonlinear_arith)
            requires
                b > 0,
                a >= 0,
        ;
    } else {
        assert(0 <= (-a) / b <= -a && b * ((-a) / b) <= -a) by (nonlinear_arith)
            requires
                b > 0,
                a < 0,
        ;
    }
}

/// A quotient is bounded by any bound on the dividend divided out:
/// if `mag(a) <= c * b` then `mag(div_tz(a, b)) <= c`.
pub proof fn lemma_div_tz_bound(a: int, b: int, c: int)
    requires
        b > 0,
        0 <= c,
        mag(a) <= c * b,
    ensures
        mag(div_tz(a, b)) <= c,
{
    if a >= 0 {
        assert(a / b <= c) by (nonlinear_arith)
            requires
                b > 0,
                0 <= a <= c * b,
        ;
    } else {
        assert((-a) / b <= c) by (nonlinear_arith)
            requires
                b > 0,
                a < 0,
                -a <= c * b,
        ;
    }
}

/// Clamp a wide intermediate into `[-limit, limit]` as an `i64`.
pub fn clamp_i128(v: i128, limit: i64) -> (r: i64)
    requires
        0 < limit,
    ensures
        r == clamped(v as int, limit as int),
        mag(r as int) <= limit,
{
    if v > limit as i128 {
        limit
    } else if v < -(limit as i128) {
        -limit
    } else {
        v as i64
    }
}

/// Truncating division of wide intermediates; total: a zero divisor gives 0.
/// Matches `div_tz` whenever the divisor is positive.
pub fn div_i128(a: i128, b: i128) -> (r: i128)
    requires
        mag(a as int) < 0x40000000000000000000000000000000,
        mag(b as int) < 0x40000000000000000000000000000000,
    ensures
        r == div_any(a as int, b as int),
        mag(r as int) <= mag(a as int),
    {
    if b == 0 {
        0
    } else if b < 0 {
        proof {
            lemma_div_tz_mag(a as int, -(b as int));
        }
        let q = if a >= 0 {
            a / (-b)
        } else {
            -((-a) / (-b))
        };
        -q
    } else {
        proof {
            lemma_div_tz_mag(a as int, b as int);
        }
        if a >= 0 {
            a / b
        } else {
            -((-a) / b)
        }
    }
}

/// The integer square root of a non-negative value: the greatest `r` with
/// `r * r <= x`.
pub open spec fn sqrt_floor(x: int) -> int {
    choose|r: int| 0 <= r && #[trigger] (r * r) <= x && x < (r + 1) * (r + 1)
}

/// A witness of the square-root property pins `sqrt_floor` down.
pub proof fn lemma_sqrt_floor_unique(x: int, r: int)
    requires
        0 <= r,
        r * r <= x,
        x < (r + 1) * (r + 1),
    ensures
        sqrt_floor(x) == r,
{
    assert(exists|c: int| 0 <= c && #[trigger] (c * c) <= x && x < (c + 1) * (c + 1)) by {
        assert(0 <= r && r * r <= x && x < (r + 1) * (r + 1));
    }
    let c = choose|c: int| 0 <= c && #[trigger] (c * c) <= x && x < (c + 1) * (c + 1);
    if c < r {
        assert((c + 1) * (c + 1) <= r * r) by (nonlinear_arith)
            requires
                0 <= c < r,
        ;
        assert(false);
    }
    if c > r {
        assert((r + 1) * (r + 1) <= c * c) by (nonlinear_arith)
            requires
                0 <= r < c,
        ;
        assert(false);
    }
}

/// A component of a sum of squares is bounded by the root of the sum.
pub proof fn lemma_component_le_sqrt(dx: int, s: int, r: int)
    requires
        dx * dx <= s,
        s < (r + 1) * (r + 1),
        0 <= r,
    ensures
        mag(dx) <= r,
{
    if mag(dx) > r {
        assert((r + 1) * (r + 1) <= dx * dx) by (nonlinear_arith)
            requires
                0 <= r,
                mag(dx) >= r + 1,
        ;
        assert(false);
    }
}

/// Integer square root: the greatest `r` with `r * r <= x`.
pub fn isqrt_u128(x: u128) -> (r: u64)
    requires
        x < 0x1000000000000000000000000000000,
    ensures
        (r as int) * (r as int) <= x as int,
        x < ((r as int) + 1) * ((r as int) + 1),
{
    let mut lo: u128 = 0;
    let mut hi: u128 = 0x1000000000000000;
    assert(hi * hi > x) by (nonlinear_arith)
        requires
            hi == 0x1000000000000000,
            x < 0x1000000000000000000000000000000,
    ;
    while lo + 1 < hi
        invariant
            lo < hi,
            hi <= 0x1000000000000000,
            (lo as int) * (lo as int) <= x as int,
            (hi as int) * (hi as int) > x as int,
        decreases hi - lo,
    {
        let mid: u128 = lo + (hi - lo) / 2;
        assert(lo < mid < hi);
        assert(mid * mid < 0x100000000000000000000000000000000) by (nonlinear_arith)
            requires
                mid < 0x1000000000000000,
        ;
        if mid * mid <= x {
            lo = mid;
        } else {
            hi = mid;
        }
    }
    assert(lo < 0x10000000000000000);
    lo as u64
}

} // verus!
