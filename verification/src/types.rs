//! Geometry data types shared across the pipeline, and the tolerance-based
//! point comparisons they are measured with.

use crate::fixed::{
    isqrt_u128, lemma_mul_bound, lemma_sqrt_floor_unique, mag, sqrt_floor, EPSILON, MAX_UNIT,
};
use vstd::prelude::*;

verus! {

/// The three terminal outcomes of a pipeline run.  `InvalidMesh` and
/// `SingularTransform` are fatal; `DegenerateViewport` is recovered from by
/// skipping the fitting step.
#[derive(Copy, Clone, Debug, PartialEq, Eq, Structural)]
pub enum RenderError {
    InvalidMesh,
    SingularTransform,
    DegenerateViewport,
}

/// Visibility class of one screen-space sub-segment.
#[derive(Copy, Clone, Debug, PartialEq, Eq, Structural)]
#[allow(non_camel_case_types)]
pub enum LineVisibility {
    VISIBLE,
    OBSCURED,
}

/// A screen-space point, in fixed-point sub-pixels.
#[derive(Copy, Clone, Debug, PartialEq, Eq, Structural)]
pub struct Point2 {
    pub x: i64,
    pub y: i64,
}

/// A 3D point or direction, in fixed-point sub-units.
#[derive(Copy, Clone, Debug, PartialEq, Eq, Structural)]
pub struct Point3 {
    pub x: i64,
    pub y: i64,
    pub z: i64,
}

/// A screen-space segment; direction matters for the splitting math but a
/// segment and its reverse are the same edge visually.
#[derive(Copy, Clone, Debug, PartialEq, Eq, Structural)]
pub struct LineSegment2 {
    pub from: Point2,
    pub to: Point2,
}

/// A 3D segment.
#[derive(Copy, Clone, Debug, PartialEq, Eq, Structural)]
pub struct LineSegment3 {
    pub from: Point3,
    pub to: Point3,
}

/// A screen-space sub-segment together with its visibility class.
#[derive(Copy, Clone, Debug, PartialEq, Eq, Structural)]
pub struct LineSegmentCulled {
    pub line_segment: LineSegment2,
    pub visibility: LineVisibility,
}

/// One mesh-interior edge shared by two adjacent facets, with both facets'
/// averaged normals.
#[derive(Copy, Clone, Debug, PartialEq, Eq, Structural)]
pub struct EdgeCandidate {
    pub edge: LineSegment3,
    pub adjacent_triangle_a_normal: Point3,
    pub adjacent_triangle_b_normal: Point3,
}

/// A projected screen-space segment paired with its source view-space
/// segment, kept so 3D positions can be interpolated along the 2D segment.
#[derive(Copy, Clone, Debug, PartialEq, Eq, Structural)]
pub struct ProjectedLine {
    pub screen_space: LineSegment2,
    pub view_space: LineSegment3,
}

/// A projected line plus the ordered sub-segments that partition it at every
/// detected intersection with other projected lines.
#[derive(Clone, Debug)]
pub struct ProjectedSplitLine {
    pub projected_line: ProjectedLine,
    pub split_screen_space_lines: Vec<LineSegment2>,
}

impl Point2 {
    /// The point's coordinates are within the fixed-point working range.
    pub open spec fn wf(self) -> bool {
        mag(self.x as int) <= MAX_UNIT && mag(self.y as int) <= MAX_UNIT
    }
}

impl Point3 {
    /// The point's coordinates are within the fixed-point working range.
    pub open spec fn wf(self) -> bool {
        mag(self.x as int) <= MAX_UNIT && mag(self.y as int) <= MAX_UNIT && mag(self.z as int)
            <= MAX_UNIT
    }
}

impl LineSegment2 {
    pub open spec fn wf(self) -> bool {
        self.from.wf() && self.to.wf()
    }
}

impl LineSegment3 {
    pub open spec fn wf(self) -> bool {
        self.from.wf() && self.to.wf()
    }
}

impl ProjectedLine {
    pub open spec fn wf(self) -> bool {
        self.screen_space.wf() && self.view_space.wf()
    }
}

/// Two screen-space points coincide within the fixed tolerance.
pub open spec fn eq2(a: Point2, b: Point2) -> bool {
    mag(a.x - b.x) <= EPSILON && mag(a.y - b.y) <= EPSILON
}

/// Two 3D points coincide within the fixed tolerance.
pub open spec fn eq3(a: Point3, b: Point3) -> bool {
    mag(a.x - b.x) <= EPSILON && mag(a.y - b.y) <= EPSILON && mag(a.z - b.z) <= EPSILON
}

/// Squared screen-space distance, exact.
pub open spec fn dist_sq2(a: Point2, b: Point2) -> int {
    (a.x - b.x) * (a.x - b.x) + (a.y - b.y) * (a.y - b.y)
}

/// Squared 3D distance, exact.
pub open spec fn dist_sq3(a: Point3, b: Point3) -> int {
    (a.x - b.x) * (a.x - b.x) + (a.y - b.y) * (a.y - b.y) + (a.z - b.z) * (a.z - b.z)
}

/// Dot product of two 3D fixed-point vectors, exact.
pub open spec fn dot3(a: Point3, b: Point3) -> int {
    (a.x as int) * (b.x as int) + (a.y as int) * (b.y as int) + (a.z as int) * (b.z as int)
}

/// Exec dot product of two bounded 3D vectors.
pub fn dot3_exec(a: &Point3, b: &Point3) -> (r: i128)
    requires
        a.wf(),
        b.wf(),
    ensures
        r as int == dot3(*a, *b),
        mag(r as int) <= 3 * (MAX_UNIT as int) * (MAX_UNIT as int),
{
    proof {
        let u = MAX_UNIT as int;
        lemma_mul_bound(a.x as int, b.x as int, u, u);
        lemma_mul_bound(a.y as int, b.y as int, u, u);
        lemma_mul_bound(a.z as int, b.z as int, u, u);
        assert(3 * ((MAX_UNIT as int) * (MAX_UNIT as int)) == 3 * (MAX_UNIT as int) * (
        MAX_UNIT as int)) by (nonlinear_arith);
    }
    a.x as i128 * b.x as i128 + a.y as i128 * b.y as i128 + a.z as i128 * b.z as i128
}

/// Screen-space distance of two bounded points, rounded down.
pub fn dist2_exec(a: &Point2, b: &Point2) -> (r: i64)
    requires
        a.wf(),
        b.wf(),
    ensures
        r == sqrt_floor(dist_sq2(*a, *b)),
        (r as int) * (r as int) <= dist_sq2(*a, *b) < ((r as int) + 1) * ((r as int) + 1),
        0 <= r <= 3 * MAX_UNIT,
{
    let dx: i128 = a.x as i128 - b.x as i128;
    let dy: i128 = a.y as i128 - b.y as i128;
    proof {
        let d = 2 * MAX_UNIT as int;
        lemma_mul_bound(dx as int, dx as int, d, d);
        lemma_mul_bound(dy as int, dy as int, d, d);
        assert(dx as int * dx as int >= 0) by (nonlinear_arith);
        assert(dy as int * dy as int >= 0) by (nonlinear_arith);
    }
    let sq: u128 = (dx * dx + dy * dy) as u128;
    let root = isqrt_u128(sq);
    proof {
        lemma_sqrt_floor_unique(sq as int, root as int);
        assert(root as int <= 3 * MAX_UNIT as int) by (nonlinear_arith)
            requires
                (root as int) * (root as int) <= sq as int,
                sq as int <= 2 * (2 * MAX_UNIT as int) * (2 * MAX_UNIT as int),
                0 <= root as int,
                MAX_UNIT == 1000000000,
        ;
    }
    root as i64
}

/// 3D distance of two bounded points, rounded down.
pub fn dist3_exec(a: &Point3, b: &Point3) -> (r: i64)
    requires
        a.wf(),
        b.wf(),
    ensures
        r == sqrt_floor(dist_sq3(*a, *b)),
        (r as int) * (r as int) <= dist_sq3(*a, *b) < ((r as int) + 1) * ((r as int) + 1),
        0 <= r <= 4 * MAX_UNIT,
{
    let dx: i128 = a.x as i128 - b.x as i128;
    let dy: i128 = a.y as i128 - b.y as i128;
    let dz: i128 = a.z as i128 - b.z as i128;
    proof {
        let d = 2 * MAX_UNIT as int;
        lemma_mul_bound(dx as int, dx as int, d, d);
        lemma_mul_bound(dy as int, dy as int, d, d);
        lemma_mul_bound(dz as int, dz as int, d, d);
        assert(dx as int * dx as int >= 0) by (nonlinear_arith);
        assert(dy as int * dy as int >= 0) by (nonlinear_arith);
        assert(dz as int * dz as int >= 0) by (nonlinear_arith);
    }
    let sq: u128 = (dx * dx + dy * dy + dz * dz) as u128;
    let root = isqrt_u128(sq);
    proof {
        lemma_sqrt_floor_unique(sq as int, root as int);
        assert(root as int <= 4 * MAX_UNIT as int) by (nonlinear_arith)
            requires
                (root as int) * (root as int) <= sq as int,
                sq as int <= 3 * (2 * MAX_UNIT as int) * (2 * MAX_UNIT as int),
                0 <= root as int,
                MAX_UNIT == 1000000000,
        ;
    }
    root as i64
}

/// Magnitude of the difference of two fixed-point scalars, widened so no
/// bound on the inputs is needed.
pub fn mag_diff(a: i64, b: i64) -> (r: i128)
    ensures
        r == mag(a - b),
{
    let d: i128 = a as i128 - b as i128;
    if d >= 0 {
        d
    } else {
        -d
    }
}

/// Tolerance comparison of two screen-space points.
pub fn approx_eq2(a: &Point2, b: &Point2) -> (r: bool)
    ensures
        r == eq2(*a, *b),
{
    mag_diff(a.x, b.x) <= EPSILON as i128 && mag_diff(a.y, b.y) <= EPSILON as i128
}

/// Tolerance comparison of two 3D points.
pub fn approx_eq3(a: &Point3, b: &Point3) -> (r: bool)
    ensures
        r == eq3(*a, *b),
{
    mag_diff(a.x, b.x) <= EPSILON as i128 && mag_diff(a.y, b.y) <= EPSILON as i128 && mag_diff(
        a.z,
        b.z,
    ) <= EPSILON as i128
}

} // verus!
