//! Camera state: the view, projection and world matrices, their combined
//! transform and its inverse, projection of 3D points to screen space, and
//! the ray cast used by the visibility tester.

use crate::fixed::{
    clamp_i128, clamped, div_any, div_i128, lemma_mul_bound, mag, INV_LIMIT, MAX_DIM, MAX_UNIT,
    SCALE, VISIBILITY_EPSILON,
};
use crate::lines::{dedupe_lines, in_unit_range, spec_dedupe};
use crate::mesh::{facet_wf, lemma_facet_wf, Facet, Mesh};
use crate::types::{LineSegment2, LineSegment3, Point2, Point3, ProjectedLine, RenderError};
use vstd::prelude::*;

verus! {

/// A 4x4 fixed-point matrix, row-major: entry `(r, c)` is `e[4 * r + c]`.
#[derive(Clone, Debug)]
pub struct Mat4 {
    pub e: Vec<i64>,
}

impl Mat4 {
    pub open spec fn wf(self) -> bool {
        self.e@.len() == 16
    }

    /// Every entry has magnitude at most `limit`.
    pub open spec fn in_range(self, limit: int) -> bool {
        self.wf() && forall|k: int| 0 <= k < 16 ==> mag(#[trigger] self.e@[k] as int) <= limit
    }
}

/// Row `k / 4` of `a` dotted with column `k % 4` of `b`, exact.
pub open spec fn dot4k(a: Seq<i64>, b: Seq<i64>, k: int) -> int {
    let r = k / 4;
    let c = k % 4;
    (a[4 * r] as int) * (b[c] as int) + (a[4 * r + 1] as int) * (b[4 + c] as int) + (a[4 * r
        + 2] as int) * (b[8 + c] as int) + (a[4 * r + 3] as int) * (b[12 + c] as int)
}

/// The fixed-point matrix product: each entry is the exact dot product
/// scaled back down and clamped into the working range.
pub open spec fn spec_mat_mul(a: Seq<i64>, b: Seq<i64>) -> Seq<i64> {
    Seq::new(16, |k: int| clamped(div_any(dot4k(a, b, k), SCALE as int), MAX_UNIT as int) as i64)
}

/// Fixed-point product of two matrices whose entries are in the working
/// range; the result is clamped back into that range.
pub fn mat_mul(a: &Mat4, b: &Mat4) -> (r: Mat4)
    requires
        a.in_range(MAX_UNIT as int),
        b.in_range(MAX_UNIT as int),
    ensures
        r.e@ == spec_mat_mul(a.e@, b.e@),
        r.in_range(MAX_UNIT as int),
{
    let mut e: Vec<i64> = Vec::new();
    let mut k: usize = 0;
    while k < 16
        invariant
            k <= 16,
            a.in_range(MAX_UNIT as int),
            b.in_range(MAX_UNIT as int),
            e@.len() == k,
            forall|q: int| 0 <= q < k ==> e@[q] == spec_mat_mul(a.e@, b.e@)[q],
        decreases 16 - k,
    {
        let r_idx = k / 4;
        let c_idx = k % 4;
        proof {
            assert(0 <= 4 * (k as int / 4) + 3 < 16);
            assert(0 <= 12 + (k as int % 4) < 16);
        }
        proof {
            let u = MAX_UNIT as int;
            lemma_mul_bound(a.e@[4 * (k as int / 4)] as int, b.e@[k as int % 4] as int, u, u);
            lemma_mul_bound(a.e@[4 * (k as int / 4) + 1] as int, b.e@[4 + k as int % 4] as int, u, u);
            lemma_mul_bound(a.e@[4 * (k as int / 4) + 2] as int, b.e@[8 + k as int % 4] as int, u, u);
            lemma_mul_bound(a.e@[4 * (k as int / 4) + 3] as int, b.e@[12 + k as int % 4] as int, u, u);
        }
        let p0: i128 = a.e[4 * r_idx] as i128 * b.e[c_idx] as i128;
        let p1: i128 = a.e[4 * r_idx + 1] as i128 * b.e[4 + c_idx] as i128;
        let p2: i128 = a.e[4 * r_idx + 2] as i128 * b.e[8 + c_idx] as i128;
        let p3: i128 = a.e[4 * r_idx + 3] as i128 * b.e[12 + c_idx] as i128;
        let sum: i128 = p0 + p1 + p2 + p3;
        let q = div_i128(sum, SCALE as i128);
        e.push(clamp_i128(q, MAX_UNIT));
        proof {
            assert(sum as int == dot4k(a.e@, b.e@, k as int));
            assert(e@[k as int] == spec_mat_mul(a.e@, b.e@)[k as int]);
        }
        k = k + 1;
    }
    let m = Mat4 { e };
    proof {
        assert(m.e@ =~= spec_mat_mul(a.e@, b.e@));
        assert forall|q: int| 0 <= q < 16 implies mag(#[trigger] m.e@[q] as int)
            <= MAX_UNIT as int by {
            assert(m.e@[q] == spec_mat_mul(a.e@, b.e@)[q]);
        }
    }
    m
}

/// Determinant of a 3x3 matrix given its nine entries in row order.
pub open spec fn det3(
    a: int,
    b: int,
    c: int,
    d: int,
    e: int,
    f: int,
    g: int,
    h: int,
    i: int,
) -> int {
    a * (e * i - f * h) - b * (d * i - f * g) + c * (d * h - e * g)
}

/// The three row or column indices left when one is removed.
pub open spec fn other3(s: int) -> (int, int, int) {
    if s == 0 {
        (1, 2, 3)
    } else if s == 1 {
        (0, 2, 3)
    } else if s == 2 {
        (0, 1, 3)
    } else {
        (0, 1, 2)
    }
}

/// Entry `(r, c)` of a 16-scalar row-major matrix.
pub open spec fn entry(m: Seq<i64>, r: int, c: int) -> int {
    m[4 * r + c] as int
}

/// The 3x3 minor of a 4x4 matrix with row `sr` and column `sc` removed.
pub open spec fn minor3(m: Seq<i64>, sr: int, sc: int) -> int {
    let rows = other3(sr);
    let cols = other3(sc);
    det3(
        entry(m, rows.0, cols.0),
        entry(m, rows.0, cols.1),
        entry(m, rows.0, cols.2),
        entry(m, rows.1, cols.0),
        entry(m, rows.1, cols.1),
        entry(m, rows.1, cols.2),
        entry(m, rows.2, cols.0),
        entry(m, rows.2, cols.1),
        entry(m, rows.2, cols.2),
    )
}

/// The cofactor sign `(-1)^(r + c)`.
pub open spec fn cof_sign(s: int) -> int {
    if s % 2 == 0 {
        1
    } else {
        -1
    }
}

/// Determinant of a 4x4 matrix, by cofactor expansion along the first row.
pub open spec fn det4(m: Seq<i64>) -> int {
    entry(m, 0, 0) * minor3(m, 0, 0) - entry(m, 0, 1) * minor3(m, 0, 1) + entry(m, 0, 2) * minor3(
        m,
        0,
        2,
    ) - entry(m, 0, 3) * minor3(m, 0, 3)
}

/// Entry `k` of the adjugate (transposed cofactor matrix).
pub open spec fn adj4(m: Seq<i64>, k: int) -> int {
    let r = k / 4;
    let c = k % 4;
    cof_sign(r + c) * minor3(m, c, r)
}

/// Entry `k` of the fixed-point inverse: the adjugate over the determinant,
/// carrying the fixed-point scale.
pub open spec fn inv_entry(m: Seq<i64>, k: int) -> int {
    div_any((SCALE as int) * (SCALE as int) * adj4(m, k), det4(m))
}

/// The matrix has a representable fixed-point inverse: nonzero determinant
/// and every inverse entry within the inverse working range.
pub open spec fn spec_invertible(m: Seq<i64>) -> bool {
    det4(m) != 0 && forall|k: int| 0 <= k < 16 ==> mag(#[trigger] inv_entry(m, k)) <= INV_LIMIT as int
}

/// The fixed-point inverse matrix.
pub open spec fn spec_inverse(m: Seq<i64>) -> Seq<i64> {
    Seq::new(16, |k: int| inv_entry(m, k) as i64)
}

/// Magnitude bound of a 3x3 minor of a matrix in the working range.
pub proof fn lemma_det3_bound(a: int, b: int, c: int, d: int, e: int, f: int, g: int, h: int, i: int)
    requires
        mag(a) <= MAX_UNIT as int,
        mag(b) <= MAX_UNIT as int,
        mag(c) <= MAX_UNIT as int,
        mag(d) <= MAX_UNIT as int,
        mag(e) <= MAX_UNIT as int,
        mag(f) <= MAX_UNIT as int,
        mag(g) <= MAX_UNIT as int,
        mag(h) <= MAX_UNIT as int,
        mag(i) <= MAX_UNIT as int,
    ensures
        mag(det3(a, b, c, d, e, f, g, h, i)) <= 6000000000000000000000000000,
{
    let u = MAX_UNIT as int;
    lemma_mul_bound(e, i, u, u);
    lemma_mul_bound(f, h, u, u);
    lemma_mul_bound(d, i, u, u);
    lemma_mul_bound(f, g, u, u);
    lemma_mul_bound(d, h, u, u);
    lemma_mul_bound(e, g, u, u);
    lemma_mul_bound(a, e * i - f * h, u, 2 * u * u);
    lemma_mul_bound(b, d * i - f * g, u, 2 * u * u);
    lemma_mul_bound(c, d * h - e * g, u, 2 * u * u);
}

/// Exec determinant of a 3x3 matrix of bounded entries.
fn det3_exec(a: i64, b: i64, c: i64, d: i64, e: i64, f: i64, g: i64, h: i64, i: i64) -> (r: i128)
    requires
        mag(a as int) <= MAX_UNIT as int,
        mag(b as int) <= MAX_UNIT as int,
        mag(c as int) <= MAX_UNIT as int,
        mag(d as int) <= MAX_UNIT as int,
        mag(e as int) <= MAX_UNIT as int,
        mag(f as int) <= MAX_UNIT as int,
        mag(g as int) <= MAX_UNIT as int,
        mag(h as int) <= MAX_UNIT as int,
        mag(i as int) <= MAX_UNIT as int,
    ensures
        r as int == det3(a as int, b as int, c as int, d as int, e as int, f as int, g as int,
            h as int, i as int),
        mag(r as int) <= 6000000000000000000000000000,
{
    proof {
        lemma_det3_bound(a as int, b as int, c as int, d as int, e as int, f as int, g as int,
            h as int, i as int);
        let u = MAX_UNIT as int;
        lemma_mul_bound(e as int, i as int, u, u);
        lemma_mul_bound(f as int, h as int, u, u);
        lemma_mul_bound(d as int, i as int, u, u);
        lemma_mul_bound(f as int, g as int, u, u);
        lemma_mul_bound(d as int, h as int, u, u);
        lemma_mul_bound(e as int, g as int, u, u);
        lemma_mul_bound(a as int, (e as int) * (i as int) - (f as int) * (h as int), u, 2 * u * u);
        lemma_mul_bound(b as int, (d as int) * (i as int) - (f as int) * (g as int), u, 2 * u * u);
        lemma_mul_bound(c as int, (d as int) * (h as int) - (e as int) * (g as int), u, 2 * u * u);
    }
    let m0: i128 = e as i128 * i as i128 - f as i128 * h as i128;
    let m1: i128 = d as i128 * i as i128 - f as i128 * g as i128;
    let m2: i128 = d as i128 * h as i128 - e as i128 * g as i128;
    a as i128 * m0 - b as i128 * m1 + c as i128 * m2
}

/// The indices left when one of four is removed.
fn other3_exec(s: usize) -> (r: (usize, usize, usize))
    requires
        s < 4,
    ensures
        (r.0 as int, r.1 as int, r.2 as int) == other3(s as int),
        r.0 < 4 && r.1 < 4 && r.2 < 4,
{
    if s == 0 {
        (1, 2, 3)
    } else if s == 1 {
        (0, 2, 3)
    } else if s == 2 {
        (0, 1, 3)
    } else {
        (0, 1, 2)
    }
}

/// Bounded read of a matrix entry.
fn entry_exec(m: &Mat4, r: usize, c: usize) -> (v: i64)
    requires
        m.in_range(MAX_UNIT as int),
        r < 4,
        c < 4,
    ensures
        v as int == entry(m.e@, r as int, c as int),
        mag(v as int) <= MAX_UNIT as int,
{
    m.e[4 * r + c]
}

/// Exec 3x3 minor of a bounded 4x4 matrix.
fn minor3_exec(m: &Mat4, sr: usize, sc: usize) -> (r: i128)
    requires
        m.in_range(MAX_UNIT as int),
        sr < 4,
        sc < 4,
    ensures
        r as int == minor3(m.e@, sr as int, sc as int),
        mag(r as int) <= 6000000000000000000000000000,
{
    let rows = other3_exec(sr);
    let cols = other3_exec(sc);
    det3_exec(
        entry_exec(m, rows.0, cols.0),
        entry_exec(m, rows.0, cols.1),
        entry_exec(m, rows.0, cols.2),
        entry_exec(m, rows.1, cols.0),
        entry_exec(m, rows.1, cols.1),
        entry_exec(m, rows.1, cols.2),
        entry_exec(m, rows.2, cols.0),
        entry_exec(m, rows.2, cols.1),
        entry_exec(m, rows.2, cols.2),
    )
}

/// Exec determinant of a bounded 4x4 matrix.
fn det4_exec(m: &Mat4) -> (r: i128)
    requires
        m.in_range(MAX_UNIT as int),
    ensures
        r as int == det4(m.e@),
        mag(r as int) <= 24000000000000000000000000000000000000,
{
    let c0 = minor3_exec(m, 0, 0);
    let c1 = minor3_exec(m, 0, 1);
    let c2 = minor3_exec(m, 0, 2);
    let c3 = minor3_exec(m, 0, 3);
    let a0 = entry_exec(m, 0, 0);
    let a1 = entry_exec(m, 0, 1);
    let a2 = entry_exec(m, 0, 2);
    let a3 = entry_exec(m, 0, 3);
    proof {
        let u = MAX_UNIT as int;
        let cb = 6000000000000000000000000000int;
        lemma_mul_bound(a0 as int, c0 as int, u, cb);
        lemma_mul_bound(a1 as int, c1 as int, u, cb);
        lemma_mul_bound(a2 as int, c2 as int, u, cb);
        lemma_mul_bound(a3 as int, c3 as int, u, cb);
    }
    a0 as i128 * c0 - a1 as i128 * c1 + a2 as i128 * c2 - a3 as i128 * c3
}

/// Fixed-point inverse of a bounded matrix via the adjugate.  `None` exactly
/// when the determinant is zero or some inverse entry leaves the inverse
/// working range; either case is treated as a singular transform.
pub fn mat_inverse(m: &Mat4) -> (r: Option<Mat4>)
    requires
        m.in_range(MAX_UNIT as int),
    ensures
        match r {
            Some(inv) => spec_invertible(m.e@) && inv.e@ == spec_inverse(m.e@) && inv.in_range(
                INV_LIMIT as int,
            ),
            None => !spec_invertible(m.e@),
        },
{
    let det = det4_exec(m);
    if det == 0 {
        return None;
    }
    let mut e: Vec<i64> = Vec::new();
    let mut k: usize = 0;
    while k < 16
        invariant
            k <= 16,
            m.in_range(MAX_UNIT as int),
            det as int == det4(m.e@),
            det != 0,
            mag(det as int) <= 24000000000000000000000000000000000000,
            e@.len() == k,
            forall|q: int|
                0 <= q < k ==> e@[q] as int == inv_entry(m.e@, q) && mag(
                    #[trigger] inv_entry(m.e@, q),
                ) <= INV_LIMIT as int,
        decreases 16 - k,
    {
        let r_idx = k / 4;
        let c_idx = k % 4;
        let minor = minor3_exec(m, c_idx, r_idx);
        let cof: i128 = if (r_idx + c_idx) % 2 == 0 {
            minor
        } else {
            -minor
        };
        proof {
            let ki = k as int;
            assert(r_idx as int == ki / 4 && c_idx as int == ki % 4);
            assert((r_idx + c_idx) as int == ki / 4 + ki % 4);
            assert(((r_idx + c_idx) % 2) as int == (ki / 4 + ki % 4) % 2);
            assert(minor as int == minor3(m.e@, ki % 4, ki / 4));
            assert(cof as int == cof_sign(ki / 4 + ki % 4) * minor3(m.e@, ki % 4, ki / 4));
            assert(cof as int == adj4(m.e@, k as int));
            lemma_mul_bound(
                (SCALE as int) * (SCALE as int),
                cof as int,
                (SCALE as int) * (SCALE as int),
                6000000000000000000000000000,
            );
        }
        let num: i128 = (SCALE as i128) * (SCALE as i128) * cof;
        let q = div_i128(num, det);
        proof {
            assert(q as int == inv_entry(m.e@, k as int));
        }
        if q > INV_LIMIT as i128 || q < -(INV_LIMIT as i128) {
            return None;
        }
        e.push(q as i64);
        k = k + 1;
    }
    let inv = Mat4 { e };
    proof {
        assert(inv.e@ =~= spec_inverse(m.e@));
        assert forall|q: int| 0 <= q < 16 implies mag(#[trigger] inv.e@[q] as int)
            <= INV_LIMIT as int by {
            assert(inv.e@[q] as int == inv_entry(m.e@, q));
        }
    }
    Some(inv)
}

/// Reinterpret a 16-scalar column-major buffer as a row-major matrix.
pub open spec fn spec_from_column_major(data: Seq<i64>) -> Seq<i64> {
    Seq::new(16, |k: int| data[4 * (k % 4) + k / 4])
}

/// Build a matrix from a 16-scalar column-major buffer, as the caller's
/// matrix stacks supply them.
pub fn mat_from_column_major(data: &Vec<i64>) -> (r: Mat4)
    requires
        data@.len() == 16,
    ensures
        r.e@ == spec_from_column_major(data@),
        r.wf(),
{
    let mut e: Vec<i64> = Vec::new();
    let mut k: usize = 0;
    while k < 16
        invariant
            k <= 16,
            data@.len() == 16,
            e@.len() == k,
            forall|q: int| 0 <= q < k ==> e@[q] == spec_from_column_major(data@)[q],
        decreases 16 - k,
    {
        proof {
            assert(0 <= 4 * (k as int % 4) + k as int / 4 < 16);
        }
        e.push(data[4 * (k % 4) + k / 4]);
        k = k + 1;
    }
    let m = Mat4 { e };
    proof {
        assert(m.e@ =~= spec_from_column_major(data@));
    }
    m
}

/// Homogeneous application of row `r` of a matrix to a 3D point with an
/// implicit fourth coordinate of one, exact.
pub open spec fn row_h(m: Seq<i64>, x: int, y: int, z: int, r: int) -> int {
    (m[4 * r] as int) * x + (m[4 * r + 1] as int) * y + (m[4 * r + 2] as int) * z + (m[4 * r
        + 3] as int) * (SCALE as int)
}

/// Linear application of row `r` of a matrix to a direction (no
/// translation), exact.
pub open spec fn row_v(m: Seq<i64>, x: int, y: int, z: int, r: int) -> int {
    (m[4 * r] as int) * x + (m[4 * r + 1] as int) * y + (m[4 * r + 2] as int) * z
}

/// Transform a point and perform the perspective divide; a zero homogeneous
/// coordinate maps every component to zero, and each component is clamped
/// into the working range.
pub open spec fn spec_transform_point(m: Seq<i64>, p: Point3) -> Point3 {
    let hw = row_h(m, p.x as int, p.y as int, p.z as int, 3);
    Point3 {
        x: clamped(
            div_any(row_h(m, p.x as int, p.y as int, p.z as int, 0) * (SCALE as int), hw),
            MAX_UNIT as int,
        ) as i64,
        y: clamped(
            div_any(row_h(m, p.x as int, p.y as int, p.z as int, 1) * (SCALE as int), hw),
            MAX_UNIT as int,
        ) as i64,
        z: clamped(
            div_any(row_h(m, p.x as int, p.y as int, p.z as int, 2) * (SCALE as int), hw),
            MAX_UNIT as int,
        ) as i64,
    }
}

/// Transform a direction by the linear part of a matrix (no translation,
/// no divide), scaled back down and clamped into the working range.
pub open spec fn spec_transform_vector(m: Seq<i64>, v: Point3) -> Point3 {
    Point3 {
        x: clamped(
            div_any(row_v(m, v.x as int, v.y as int, v.z as int, 0), SCALE as int),
            MAX_UNIT as int,
        ) as i64,
        y: clamped(
            div_any(row_v(m, v.x as int, v.y as int, v.z as int, 1), SCALE as int),
            MAX_UNIT as int,
        ) as i64,
        z: clamped(
            div_any(row_v(m, v.x as int, v.y as int, v.z as int, 2), SCALE as int),
            MAX_UNIT as int,
        ) as i64,
    }
}

/// One homogeneous row application, exec, for bounded matrices and inputs.
fn row_h_exec(m: &Mat4, x: i64, y: i64, z: i64, r: usize, Ghost(mlimit): Ghost<int>, Ghost(vlimit): Ghost<int>) -> (h: i128)
    requires
        m.wf(),
        r < 4,
        0 <= mlimit <= INV_LIMIT as int,
        0 <= vlimit <= 4 * MAX_UNIT as int,
        m.in_range(mlimit),
        mag(x as int) <= vlimit,
        mag(y as int) <= vlimit,
        mag(z as int) <= vlimit,
    ensures
        h as int == row_h(m.e@, x as int, y as int, z as int, r as int),
        mag(h as int) <= 3 * mlimit * vlimit + mlimit * SCALE as int,
{
    proof {
        assert(0 <= 4 * (r as int) + 3 < 16);
        lemma_mul_bound(m.e@[4 * (r as int)] as int, x as int, mlimit, vlimit);
        lemma_mul_bound(m.e@[4 * (r as int) + 1] as int, y as int, mlimit, vlimit);
        lemma_mul_bound(m.e@[4 * (r as int) + 2] as int, z as int, mlimit, vlimit);
        lemma_mul_bound(m.e@[4 * (r as int) + 3] as int, SCALE as int, mlimit, SCALE as int);
        lemma_mul_bound(mlimit, vlimit, INV_LIMIT as int, 4 * MAX_UNIT as int);
        lemma_mul_bound(mlimit, SCALE as int, INV_LIMIT as int, SCALE as int);
    }
    let p0: i128 = m.e[4 * r] as i128 * x as i128;
    let p1: i128 = m.e[4 * r + 1] as i128 * y as i128;
    let p2: i128 = m.e[4 * r + 2] as i128 * z as i128;
    let p3: i128 = m.e[4 * r + 3] as i128 * SCALE as i128;
    proof {
        assert(mag(p0 as int) <= mlimit * vlimit);
        assert(mag(p1 as int) <= mlimit * vlimit);
        assert(mag(p2 as int) <= mlimit * vlimit);
        assert(mag(p3 as int) <= mlimit * SCALE as int);
        assert(mag(p0 as int + p1 as int + p2 as int + p3 as int) <= 3 * (mlimit * vlimit) + mlimit
            * SCALE as int);
        assert(3 * (mlimit * vlimit) == 3 * mlimit * vlimit) by (nonlinear_arith);
    }
    p0 + p1 + p2 + p3
}

/// The camera state: input matrices, the combined transform
/// `projection * view * world`, its fixed-point inverse when one exists,
/// the canvas size, and the camera-forward direction.
pub struct Scene {
    pub width: i64,
    pub height: i64,
    pub view_matrix: Mat4,
    pub projection_matrix: Mat4,
    pub mesh_world_matrix: Mat4,
    pub camera_forward_vector: Point3,
    pub transformation_matrix: Mat4,
    pub inverse_matrix: Option<Mat4>,
}

impl Scene {
    /// The combined transform is derived from the three input matrices and
    /// the inverse field reflects exactly whether it is invertible.
    pub open spec fn wf(self) -> bool {
        &&& 0 < self.width <= MAX_DIM
        &&& 0 < self.height <= MAX_DIM
        &&& self.view_matrix.in_range(MAX_UNIT as int)
        &&& self.projection_matrix.in_range(MAX_UNIT as int)
        &&& self.mesh_world_matrix.in_range(MAX_UNIT as int)
        &&& self.camera_forward_vector.wf()
        &&& self.transformation_matrix.e@ == spec_mat_mul(
            spec_mat_mul(self.projection_matrix.e@, self.view_matrix.e@),
            self.mesh_world_matrix.e@,
        )
        &&& self.transformation_matrix.in_range(MAX_UNIT as int)
        &&& match self.inverse_matrix {
            Some(inv) => spec_invertible(self.transformation_matrix.e@) && inv.e@ == spec_inverse(
                self.transformation_matrix.e@,
            ) && inv.in_range(INV_LIMIT as int),
            None => !spec_invertible(self.transformation_matrix.e@),
        }
    }

    /// Build the camera state from column-major 16-scalar buffers and a
    /// 3-scalar camera-forward vector, combining the matrices as
    /// `projection * view * world` and inverting the result once.
    pub fn new(
        width: i64,
        height: i64,
        view: Vec<i64>,
        projection: Vec<i64>,
        mesh_world: Vec<i64>,
        camera: Vec<i64>,
    ) -> (s: Scene)
        requires
            0 < width <= MAX_DIM,
            0 < height <= MAX_DIM,
            view@.len() == 16,
            projection@.len() == 16,
            mesh_world@.len() == 16,
            camera@.len() == 3,
            crate::mesh::flat_in_range(view@),
            crate::mesh::flat_in_range(projection@),
            crate::mesh::flat_in_range(mesh_world@),
            crate::mesh::flat_in_range(camera@),
        ensures
            s.wf(),
            s.width == width,
            s.height == height,
            s.view_matrix.e@ == spec_from_column_major(view@),
            s.projection_matrix.e@ == spec_from_column_major(projection@),
            s.mesh_world_matrix.e@ == spec_from_column_major(mesh_world@),
            s.camera_forward_vector == (Point3 { x: camera@[0], y: camera@[1], z: camera@[2] }),
    {
        let view_matrix = mat_from_column_major(&view);
        let projection_matrix = mat_from_column_major(&projection);
        let mesh_world_matrix = mat_from_column_major(&mesh_world);
        proof {
            assert forall|k: int| 0 <= k < 16 implies mag(#[trigger] view_matrix.e@[k] as int)
                <= MAX_UNIT as int by {
                assert(view_matrix.e@[k] == view@[4 * (k % 4) + k / 4]);
            }
            assert forall|k: int| 0 <= k < 16 implies mag(#[trigger] projection_matrix.e@[k] as int)
                <= MAX_UNIT as int by {
                assert(projection_matrix.e@[k] == projection@[4 * (k % 4) + k / 4]);
            }
            assert forall|k: int| 0 <= k < 16 implies mag(#[trigger] mesh_world_matrix.e@[k] as int)
                <= MAX_UNIT as int by {
                assert(mesh_world_matrix.e@[k] == mesh_world@[4 * (k % 4) + k / 4]);
            }
        }
        let pv = mat_mul(&projection_matrix, &view_matrix);
        let transformation_matrix = mat_mul(&pv, &mesh_world_matrix);
        let inverse_matrix = mat_inverse(&transformation_matrix);
        Scene {
            width,
            height,
            view_matrix,
            projection_matrix,
            mesh_world_matrix,
            camera_forward_vector: Point3 { x: camera[0], y: camera[1], z: camera[2] },
            transformation_matrix,
            inverse_matrix,
        }
    }
}

/// Projection of a view-space point to screen space: apply the combined
/// transform, then map normalized device coordinates to pixels, flipping Y
/// for a top-left origin.
pub open spec fn spec_project_point(s: Scene, p: Point3) -> Point2 {
    let ndc = spec_transform_point(s.transformation_matrix.e@, p);
    Point2 {
        x: clamped(
            div_any((ndc.x as int + SCALE as int) * s.width as int, 2),
            MAX_UNIT as int,
        ) as i64,
        y: clamped(
            div_any((ndc.y as int - SCALE as int) * (-(s.height as int)), 2),
            MAX_UNIT as int,
        ) as i64,
    }
}

/// The projection of each 3D segment, paired with its source segment.
pub open spec fn spec_project_lines(s: Scene, lines: Seq<LineSegment3>) -> Seq<ProjectedLine> {
    Seq::new(
        lines.len(),
        |k: int|
            ProjectedLine {
                screen_space: LineSegment2 {
                    from: spec_project_point(s, lines[k].from),
                    to: spec_project_point(s, lines[k].to),
                },
                view_space: lines[k],
            },
    )
}

/// Unprojection of a screen-space point back to a view-space point on the
/// near plane (`z = -1`), through the inverse of the combined transform.
pub open spec fn spec_unproject_point(s: Scene, inv: Seq<i64>, p: Point2) -> Point3 {
    let nx = div_any(2 * p.x as int, s.width as int) - SCALE as int;
    let ny = -(div_any(2 * p.y as int, s.height as int) - SCALE as int);
    let nz = -(SCALE as int);
    let hx = row_h(inv, nx, ny, nz, 0);
    let hy = row_h(inv, nx, ny, nz, 1);
    let hz = row_h(inv, nx, ny, nz, 2);
    let hw = row_h(inv, nx, ny, nz, 3);
    Point3 {
        x: clamped(div_any(hx * SCALE as int, hw), MAX_UNIT as int) as i64,
        y: clamped(div_any(hy * SCALE as int, hw), MAX_UNIT as int) as i64,
        z: clamped(div_any(hz * SCALE as int, hw), MAX_UNIT as int) as i64,
    }
}

impl Scene {
    /// Project a view-space point to screen space.
    #[verifier::rlimit(50)]
    pub fn project_point(&self, point: &Point3) -> (r: Point2)
        requires
            self.wf(),
            point.wf(),
        ensures
            r == spec_project_point(*self, *point),
            r.wf(),
    {
        let m = &self.transformation_matrix;
        let hx = row_h_exec(m, point.x, point.y, point.z, 0, Ghost(MAX_UNIT as int), Ghost(MAX_UNIT as int));
        let hy = row_h_exec(m, point.x, point.y, point.z, 1, Ghost(MAX_UNIT as int), Ghost(MAX_UNIT as int));
        let hw = row_h_exec(m, point.x, point.y, point.z, 3, Ghost(MAX_UNIT as int), Ghost(MAX_UNIT as int));
        proof {
            let hb = 3 * (MAX_UNIT as int) * (MAX_UNIT as int) + (MAX_UNIT as int) * (SCALE as int);
            lemma_mul_bound(hx as int, SCALE as int, hb, SCALE as int);
            lemma_mul_bound(hy as int, SCALE as int, hb, SCALE as int);
        }
        let ndc_x = clamp_i128(div_i128(hx * SCALE as i128, hw), MAX_UNIT);
        let ndc_y = clamp_i128(div_i128(hy * SCALE as i128, hw), MAX_UNIT);
        proof {
            lemma_mul_bound(
                ndc_x as int + SCALE as int,
                self.width as int,
                MAX_UNIT as int + SCALE as int,
                MAX_DIM as int,
            );
            lemma_mul_bound(
                ndc_y as int - SCALE as int,
                -(self.height as int),
                MAX_UNIT as int + SCALE as int,
                MAX_DIM as int,
            );
        }
        let px = clamp_i128(
            div_i128((ndc_x as i128 + SCALE as i128) * self.width as i128, 2),
            MAX_UNIT,
        );
        let py = clamp_i128(
            div_i128((ndc_y as i128 - SCALE as i128) * (-(self.height as i128)), 2),
            MAX_UNIT,
        );
        Point2 { x: px, y: py }
    }

    /// Unproject a screen-space point to the near plane.  Fails with
    /// `SingularTransform` exactly when the combined transform has no
    /// representable inverse.
    pub fn unproject_point(&self, point: &Point2) -> (r: Result<Point3, RenderError>)
        requires
            self.wf(),
            point.wf(),
        ensures
            match r {
                Ok(q) => spec_invertible(self.transformation_matrix.e@) && q
                    == spec_unproject_point(
                    *self,
                    spec_inverse(self.transformation_matrix.e@),
                    *point,
                ) && q.wf(),
                Err(e) => e == RenderError::SingularTransform && !spec_invertible(
                    self.transformation_matrix.e@,
                ),
            },
    {
        let inv = match &self.inverse_matrix {
            None => {
                return Err(RenderError::SingularTransform);
            },
            Some(inv) => inv,
        };
        let nx = clamp_i128(div_i128(2 * point.x as i128, self.width as i128), 2 * MAX_UNIT)
            - SCALE;
        let ny = -(clamp_i128(div_i128(2 * point.y as i128, self.height as i128), 2 * MAX_UNIT)
            - SCALE);
        let nz = -SCALE;
        proof {
            assert(nx as int == div_any(2 * point.x as int, self.width as int) - SCALE as int);
            assert(ny as int == -(div_any(2 * point.y as int, self.height as int) - SCALE as int));
        }
        let hx = row_h_exec(inv, nx, ny, nz, 0, Ghost(INV_LIMIT as int), Ghost(3 * MAX_UNIT as int));
        let hy = row_h_exec(inv, nx, ny, nz, 1, Ghost(INV_LIMIT as int), Ghost(3 * MAX_UNIT as int));
        let hz = row_h_exec(inv, nx, ny, nz, 2, Ghost(INV_LIMIT as int), Ghost(3 * MAX_UNIT as int));
        let hw = row_h_exec(inv, nx, ny, nz, 3, Ghost(INV_LIMIT as int), Ghost(3 * MAX_UNIT as int));
        proof {
            let hb = 3 * (INV_LIMIT as int) * (3 * MAX_UNIT as int) + (INV_LIMIT as int) * (
            SCALE as int);
            lemma_mul_bound(hx as int, SCALE as int, hb, SCALE as int);
            lemma_mul_bound(hy as int, SCALE as int, hb, SCALE as int);
            lemma_mul_bound(hz as int, SCALE as int, hb, SCALE as int);
        }
        let x = clamp_i128(div_i128(hx * SCALE as i128, hw), MAX_UNIT);
        let y = clamp_i128(div_i128(hy * SCALE as i128, hw), MAX_UNIT);
        let z = clamp_i128(div_i128(hz * SCALE as i128, hw), MAX_UNIT);
        Ok(Point3 { x, y, z })
    }

    /// Project every 3D segment to a screen-space segment paired with its
    /// source, then remove duplicate edges.
    pub fn project_lines(&self, lines: &Vec<LineSegment3>) -> (r: Vec<ProjectedLine>)
        requires
            self.wf(),
            forall|k: int| 0 <= k < lines@.len() ==> (#[trigger] lines@[k]).wf(),
        ensures
            r@ == spec_dedupe(spec_project_lines(*self, lines@)),
            forall|k: int| 0 <= k < r@.len() ==> (#[trigger] r@[k]).wf(),
    {
        let len = lines.len();
        let mut projected: Vec<ProjectedLine> = Vec::new();
        let mut k: usize = 0;
        while k < len
            invariant
                k <= len,
                len == lines@.len(),
                self.wf(),
                forall|q: int| 0 <= q < lines@.len() ==> (#[trigger] lines@[q]).wf(),
                projected@.len() == k,
                forall|q: int|
                    0 <= q < k ==> projected@[q] == spec_project_lines(*self, lines@)[q],
                forall|q: int| 0 <= q < k ==> (#[trigger] projected@[q]).wf(),
            decreases len - k,
        {
            let screen_space = self.project_line(&lines[k]);
            projected.push(ProjectedLine { screen_space, view_space: lines[k] });
            k = k + 1;
        }
        proof {
            assert(projected@ =~= spec_project_lines(*self, lines@));
            crate::lines::lemma_dedupe_prefix_wf(projected@, projected@.len() as int);
        }
        dedupe_lines(projected)
    }

    /// Project both endpoints of a 3D segment.
    pub fn project_line(&self, line: &LineSegment3) -> (r: LineSegment2)
        requires
            self.wf(),
            line.wf(),
        ensures
            r.from == spec_project_point(*self, line.from),
            r.to == spec_project_point(*self, line.to),
            r.wf(),
    {
        LineSegment2 {
            from: self.project_point(&line.from),
            to: self.project_point(&line.to),
        }
    }
}

/// The dot products and cross products of the ray-facet test, over exact
/// integers.  `None` marks a miss.  The ray direction carries the
/// fixed-point scale of a unit vector; the returned distance is along the
/// ray in fixed-point units.
pub open spec fn spec_intersects_facet(ray: Ray, f: Facet) -> Option<int> {
    let e1x = f.points.1.x - f.points.0.x;
    let e1y = f.points.1.y - f.points.0.y;
    let e1z = f.points.1.z - f.points.0.z;
    let e2x = f.points.2.x - f.points.0.x;
    let e2y = f.points.2.y - f.points.0.y;
    let e2z = f.points.2.z - f.points.0.z;
    let pvx = ray.direction.y * e2z - ray.direction.z * e2y;
    let pvy = ray.direction.z * e2x - ray.direction.x * e2z;
    let pvz = ray.direction.x * e2y - ray.direction.y * e2x;
    let det = e1x * pvx + e1y * pvy + e1z * pvz;
    if det == 0 {
        None
    } else {
        let tvx = ray.origin.x - f.points.0.x;
        let tvy = ray.origin.y - f.points.0.y;
        let tvz = ray.origin.z - f.points.0.z;
        let bv_num = tvx * pvx + tvy * pvy + tvz * pvz;
        if !in_unit_range(bv_num, det) {
            None
        } else {
            let qvx = tvy * e1z - tvz * e1y;
            let qvy = tvz * e1x - tvx * e1z;
            let qvz = tvx * e1y - tvy * e1x;
            let bw_num = ray.direction.x * qvx + ray.direction.y * qvy + ray.direction.z * qvz;
            let bw_nonneg = if det > 0 {
                bw_num >= 0
            } else {
                bw_num <= 0
            };
            let sum_ok = if det > 0 {
                bv_num + bw_num <= det
            } else {
                bv_num + bw_num >= det
            };
            if !bw_nonneg || !sum_ok {
                None
            } else {
                let t_num = e2x * qvx + e2y * qvy + e2z * qvz;
                let distance = div_any(t_num * SCALE, det);
                if distance > ray.length {
                    None
                } else {
                    Some(distance)
                }
            }
        }
    }
}

/// The facet blocks the ray: it is hit strictly nearer than the ray's
/// length, by more than the visibility slack.
pub open spec fn spec_facet_blocks(ray: Ray, f: Facet) -> bool {
    match spec_intersects_facet(ray, f) {
        Some(d) => ray.length - d > VISIBILITY_EPSILON,
        None => false,
    }
}

/// Some facet of the sequence blocks the ray.
pub open spec fn spec_ray_blocked(ray: Ray, facets: Seq<Facet>) -> bool {
    exists|k: int| 0 <= k < facets.len() && spec_facet_blocks(ray, #[trigger] facets[k])
}

/// A ray sample: origin on the near plane, a direction carrying the
/// fixed-point scale of a unit vector, and the distance to the target.
/// One value is reused across all visibility tests of a run.
pub struct Ray {
    pub origin: Point3,
    pub direction: Point3,
    pub length: i64,
}

impl Ray {
    /// Origin and direction are bounded and the length is a distance.
    pub open spec fn wf(self) -> bool {
        &&& self.origin.wf()
        &&& mag(self.direction.x as int) <= SCALE
        &&& mag(self.direction.y as int) <= SCALE
        &&& mag(self.direction.z as int) <= SCALE
        &&& 0 <= self.length <= 4 * MAX_UNIT
    }

    /// A fresh ray, to be positioned before each test.
    pub fn new() -> (r: Ray)
        ensures
            r.wf(),
            r.origin == (Point3 { x: 0i64, y: 0i64, z: 0i64 }),
            r.direction == (Point3 { x: 0i64, y: 0i64, z: 0i64 }),
            r.length == 0,
    {
        Ray {
            origin: Point3 { x: 0, y: 0, z: 0 },
            direction: Point3 { x: 0, y: 0, z: 0 },
            length: 0,
        }
    }

    /// The Möller-Trumbore ray-facet test, single-sided: a zero determinant
    /// (ray parallel to the facet plane) is a miss, as is a hit beyond the
    /// ray's length.
    pub fn intersects_facet(&self, facet: &Facet) -> (r: Option<i128>)
        requires
            self.wf(),
            facet_wf(*facet),
        ensures
            match r {
                Some(d) => spec_intersects_facet(*self, *facet) == Some(d as int) && mag(d as int)
                    <= 48000000000000000000000000000000,
                None => spec_intersects_facet(*self, *facet) is None,
            },
    {
        proof {
            let u = MAX_UNIT as int;
            let d2 = 2 * u;
            let s = SCALE as int;
            lemma_mul_bound(self.direction.y as int, (facet.points.2.z - facet.points.0.z) as int, s, d2);
            lemma_mul_bound(self.direction.z as int, (facet.points.2.y - facet.points.0.y) as int, s, d2);
            lemma_mul_bound(self.direction.z as int, (facet.points.2.x - facet.points.0.x) as int, s, d2);
            lemma_mul_bound(self.direction.x as int, (facet.points.2.z - facet.points.0.z) as int, s, d2);
            lemma_mul_bound(self.direction.x as int, (facet.points.2.y - facet.points.0.y) as int, s, d2);
            lemma_mul_bound(self.direction.y as int, (facet.points.2.x - facet.points.0.x) as int, s, d2);
        }
        let e1x: i128 = facet.points.1.x as i128 - facet.points.0.x as i128;
        let e1y: i128 = facet.points.1.y as i128 - facet.points.0.y as i128;
        let e1z: i128 = facet.points.1.z as i128 - facet.points.0.z as i128;
        let e2x: i128 = facet.points.2.x as i128 - facet.points.0.x as i128;
        let e2y: i128 = facet.points.2.y as i128 - facet.points.0.y as i128;
        let e2z: i128 = facet.points.2.z as i128 - facet.points.0.z as i128;
        let dirx: i128 = self.direction.x as i128;
        let diry: i128 = self.direction.y as i128;
        let dirz: i128 = self.direction.z as i128;
        let pvx: i128 = diry * e2z - dirz * e2y;
        let pvy: i128 = dirz * e2x - dirx * e2z;
        let pvz: i128 = dirx * e2y - diry * e2x;
        proof {
            lemma_mul_bound(e1x as int, pvx as int, 2000000000, 4000000000000);
            lemma_mul_bound(e1y as int, pvy as int, 2000000000, 4000000000000);
            lemma_mul_bound(e1z as int, pvz as int, 2000000000, 4000000000000);
        }
        let det: i128 = e1x * pvx + e1y * pvy + e1z * pvz;
        if det == 0 {
            return None;
        }
        let tvx: i128 = self.origin.x as i128 - facet.points.0.x as i128;
        let tvy: i128 = self.origin.y as i128 - facet.points.0.y as i128;
        let tvz: i128 = self.origin.z as i128 - facet.points.0.z as i128;
        proof {
            lemma_mul_bound(tvx as int, pvx as int, 2000000000, 4000000000000);
            lemma_mul_bound(tvy as int, pvy as int, 2000000000, 4000000000000);
            lemma_mul_bound(tvz as int, pvz as int, 2000000000, 4000000000000);
        }
        let bv_num: i128 = tvx * pvx + tvy * pvy + tvz * pvz;
        let bv_ok = if det > 0 {
            0 <= bv_num && bv_num <= det
        } else {
            det <= bv_num && bv_num <= 0
        };
        if !bv_ok {
            return None;
        }
        proof {
            lemma_mul_bound(tvy as int, e1z as int, 2000000000, 2000000000);
            lemma_mul_bound(tvz as int, e1y as int, 2000000000, 2000000000);
            lemma_mul_bound(tvz as int, e1x as int, 2000000000, 2000000000);
            lemma_mul_bound(tvx as int, e1z as int, 2000000000, 2000000000);
            lemma_mul_bound(tvx as int, e1y as int, 2000000000, 2000000000);
            lemma_mul_bound(tvy as int, e1x as int, 2000000000, 2000000000);
        }
        let qvx: i128 = tvy * e1z - tvz * e1y;
        let qvy: i128 = tvz * e1x - tvx * e1z;
        let qvz: i128 = tvx * e1y - tvy * e1x;
        proof {
            lemma_mul_bound(dirx as int, qvx as int, 1000, 8000000000000000000);
            lemma_mul_bound(diry as int, qvy as int, 1000, 8000000000000000000);
            lemma_mul_bound(dirz as int, qvz as int, 1000, 8000000000000000000);
        }
        let bw_num: i128 = dirx * qvx + diry * qvy + dirz * qvz;
        let bw_nonneg = if det > 0 {
            bw_num >= 0
        } else {
            bw_num <= 0
        };
        let sum_ok = if det > 0 {
            bv_num + bw_num <= det
        } else {
            bv_num + bw_num >= det
        };
        if !bw_nonneg || !sum_ok {
            return None;
        }
        proof {
            lemma_mul_bound(e2x as int, qvx as int, 2000000000, 8000000000000000000);
            lemma_mul_bound(e2y as int, qvy as int, 2000000000, 8000000000000000000);
            lemma_mul_bound(e2z as int, qvz as int, 2000000000, 8000000000000000000);
            lemma_mul_bound(
                (e2x as int) * (qvx as int) + (e2y as int) * (qvy as int) + (e2z as int) * (
                qvz as int),
                SCALE as int,
                48000000000000000000000000000,
                1000,
            );
        }
        let t_num: i128 = e2x * qvx + e2y * qvy + e2z * qvz;
        let distance: i128 = div_i128(t_num * SCALE as i128, det);
        if distance > self.length as i128 {
            return None;
        }
        Some(distance)
    }

    /// Whether any facet of the mesh blocks the ray: a hit strictly nearer
    /// than the ray's length by more than the visibility slack, with a
    /// short-circuit on the first such hit.
    pub fn intersects_mesh(&self, mesh: &Mesh) -> (r: bool)
        requires
            self.wf(),
            mesh.wf(),
        ensures
            r == spec_ray_blocked(*self, mesh.facets@),
    {
        proof {
            assert forall|t: int| 0 <= t < mesh.facets@.len() implies facet_wf(
                #[trigger] mesh.facets@[t],
            ) by {
                assert(mesh.facets@[t] == crate::mesh::spec_facet(
                    mesh.indices@,
                    mesh.points@,
                    mesh.normals@,
                    t,
                ));
                lemma_facet_wf(mesh.indices@, mesh.points@, mesh.normals@, t);
            }
        }
        let count = mesh.facets.len();
        let mut k: usize = 0;
        while k < count
            invariant
                k <= count,
                count == mesh.facets@.len(),
                self.wf(),
                forall|t: int| 0 <= t < mesh.facets@.len() ==> facet_wf(#[trigger] mesh.facets@[t]),
                forall|t: int| 0 <= t < k ==> !spec_facet_blocks(*self, #[trigger] mesh.facets@[t]),
            decreases count - k,
        {
            if let Some(distance) = self.intersects_facet(&mesh.facets[k]) {
                if self.length as i128 - distance > VISIBILITY_EPSILON as i128 {
                    proof {
                        assert(spec_facet_blocks(*self, mesh.facets@[k as int]));
                    }
                    return true;
                }
            }
            k = k + 1;
        }
        false
    }
}

/// Transform a direction by the linear part of a bounded matrix.
pub fn transform_vector(m: &Mat4, v: &Point3) -> (r: Point3)
    requires
        m.in_range(MAX_UNIT as int),
        v.wf(),
    ensures
        r == spec_transform_vector(m.e@, *v),
        r.wf(),
{
    proof {
        assert(0 <= 4 * 0 + 3 < 16);
        let u = MAX_UNIT as int;
        assert forall|r_idx: int, c_idx: int| 0 <= r_idx < 4 && 0 <= c_idx < 4 implies mag(
            #[trigger] m.e@[4 * r_idx + c_idx] as int,
        ) <= u by {
            assert(0 <= 4 * r_idx + c_idx < 16);
        }
        lemma_mul_bound(m.e@[0] as int, v.x as int, u, u);
        lemma_mul_bound(m.e@[1] as int, v.y as int, u, u);
        lemma_mul_bound(m.e@[2] as int, v.z as int, u, u);
        lemma_mul_bound(m.e@[4] as int, v.x as int, u, u);
        lemma_mul_bound(m.e@[5] as int, v.y as int, u, u);
        lemma_mul_bound(m.e@[6] as int, v.z as int, u, u);
        lemma_mul_bound(m.e@[8] as int, v.x as int, u, u);
        lemma_mul_bound(m.e@[9] as int, v.y as int, u, u);
        lemma_mul_bound(m.e@[10] as int, v.z as int, u, u);
    }
    let rx: i128 = m.e[0] as i128 * v.x as i128 + m.e[1] as i128 * v.y as i128 + m.e[2] as i128
        * v.z as i128;
    let ry: i128 = m.e[4] as i128 * v.x as i128 + m.e[5] as i128 * v.y as i128 + m.e[6] as i128
        * v.z as i128;
    let rz: i128 = m.e[8] as i128 * v.x as i128 + m.e[9] as i128 * v.y as i128 + m.e[10] as i128
        * v.z as i128;
    Point3 {
        x: clamp_i128(div_i128(rx, SCALE as i128), MAX_UNIT),
        y: clamp_i128(div_i128(ry, SCALE as i128), MAX_UNIT),
        z: clamp_i128(div_i128(rz, SCALE as i128), MAX_UNIT),
    }
}

} // verus!
