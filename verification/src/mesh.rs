//! Mesh and wireframe geometry: construction from flat buffers, per-triangle
//! facets, half-edge adjacency, and candidate silhouette edges.

use crate::fixed::{div_tz, lemma_div_tz_bound, mag, MAX_UNIT, SHARP_EDGE_DOT};
use crate::scene::{spec_transform_vector, transform_vector, Scene};
use crate::types::{dot3, dot3_exec, eq3, EdgeCandidate, LineSegment3, Point3, RenderError};
use vstd::arithmetic::div_mod::lemma_fundamental_div_mod;
use vstd::prelude::*;

verus! {

/// One triangle of the mesh: its three corner points and the average of its
/// three vertex normals.
#[derive(Copy, Clone, Debug)]
pub struct Facet {
    pub normal: Point3,
    pub points: (Point3, Point3, Point3),
}

/// A triangulated mesh: vertex positions, per-vertex normals, triangle index
/// triples, and the facets derived from them.
pub struct Mesh {
    pub indices: Vec<usize>,
    pub points: Vec<Point3>,
    pub normals: Vec<Point3>,
    pub facets: Vec<Facet>,
}

/// An explicit wireframe: vertex positions and indices in consecutive pairs,
/// each pair one segment.
pub struct Wireframe {
    pub indices: Vec<usize>,
    pub points: Vec<Point3>,
}

/// The 3D point packed at position `i` of a flat coordinate buffer.
pub open spec fn point_at(flat: Seq<i64>, i: int) -> Point3 {
    Point3 { x: flat[3 * i], y: flat[3 * i + 1], z: flat[3 * i + 2] }
}

/// All 3D points packed in a flat coordinate buffer, three scalars each;
/// a trailing partial triple is ignored.
pub open spec fn spec_points(flat: Seq<i64>) -> Seq<Point3> {
    Seq::new(flat.len() / 3, |i: int| point_at(flat, i))
}

/// Every scalar of a flat buffer is within the fixed-point working range.
pub open spec fn flat_in_range(flat: Seq<i64>) -> bool {
    forall|k: int| 0 <= k < flat.len() ==> mag(#[trigger] flat[k] as int) <= MAX_UNIT
}

/// The component-wise average of three vertex normals, truncated toward
/// zero as the fixed-point division does.
pub open spec fn avg3(a: int, b: int, c: int) -> int {
    div_tz(a + b + c, 3)
}

/// The facet of triangle `t`: its corner points in index order and the
/// average of its three vertex normals.
pub open spec fn spec_facet(
    indices: Seq<usize>,
    points: Seq<Point3>,
    normals: Seq<Point3>,
    t: int,
) -> Facet {
    let pa = indices[3 * t] as int;
    let pb = indices[3 * t + 1] as int;
    let pc = indices[3 * t + 2] as int;
    Facet {
        normal: Point3 {
            x: avg3(normals[pa].x as int, normals[pb].x as int, normals[pc].x as int) as i64,
            y: avg3(normals[pa].y as int, normals[pb].y as int, normals[pc].y as int) as i64,
            z: avg3(normals[pa].z as int, normals[pb].z as int, normals[pc].z as int) as i64,
        },
        points: (points[pa], points[pb], points[pc]),
    }
}

/// One facet per triangle.
pub open spec fn spec_facets(
    indices: Seq<usize>,
    points: Seq<Point3>,
    normals: Seq<Point3>,
) -> Seq<Facet> {
    Seq::new(indices.len() / 3, |t: int| spec_facet(indices, points, normals, t))
}

/// Index triples are whole and every index addresses a position and a normal.
pub open spec fn indices_valid(indices: Seq<usize>, n_points: int, n_normals: int) -> bool {
    indices.len() % 3 == 0 && forall|k: int|
        0 <= k < indices.len() ==> (#[trigger] indices[k] as int) < n_points && (
        indices[k] as int) < n_normals
}

/// Every point of a sequence is within the fixed-point working range.
pub open spec fn points_in_range(points: Seq<Point3>) -> bool {
    forall|k: int| 0 <= k < points.len() ==> (#[trigger] points[k]).wf()
}

impl Mesh {
    /// Construction succeeded on buffers whose triples are whole and whose
    /// indices are all in range; the facets are the derived ones.
    pub open spec fn wf(self) -> bool {
        &&& indices_valid(self.indices@, self.points@.len() as int, self.normals@.len() as int)
        &&& points_in_range(self.points@)
        &&& points_in_range(self.normals@)
        &&& self.facets@ == spec_facets(self.indices@, self.points@, self.normals@)
    }
}

/// Unpack a flat coordinate buffer into its 3D points.
fn unpack_points(flat: &Vec<i64>) -> (r: Vec<Point3>)
    ensures
        r@ == spec_points(flat@),
{
    let total = flat.len();
    let n = total / 3;
    let mut out: Vec<Point3> = Vec::new();
    let mut i: usize = 0;
    let mut base: usize = 0;
    while i < n
        invariant
            i <= n,
            total == flat@.len(),
            n == flat@.len() / 3,
            base == 3 * i,
            out@.len() == i,
            forall|k: int| 0 <= k < i ==> out@[k] == point_at(flat@, k),
        decreases n - i,
    {
        proof {
            lemma_fundamental_div_mod(flat@.len() as int, 3);
            assert(base + 2 < flat@.len());
        }
        out.push(Point3 { x: flat[base], y: flat[base + 1], z: flat[base + 2] });
        i = i + 1;
        base = base + 3;
    }
    proof {
        assert(out@ =~= spec_points(flat@));
    }
    out
}

/// One facet per index triple: the three corner points, and the truncated
/// average of the three vertex normals.
pub fn get_facets(indices: &Vec<usize>, points: &Vec<Point3>, normals: &Vec<Point3>) -> (r: Vec<
    Facet,
>)
    requires
        indices_valid(indices@, points@.len() as int, normals@.len() as int),
        points_in_range(normals@),
    ensures
        r@ == spec_facets(indices@, points@, normals@),
{
    let total = indices.len();
    let n = total / 3;
    let mut out: Vec<Facet> = Vec::new();
    let mut t: usize = 0;
    let mut base: usize = 0;
    while t < n
        invariant
            t <= n,
            total == indices@.len(),
            n == indices@.len() / 3,
            base == 3 * t,
            indices_valid(indices@, points@.len() as int, normals@.len() as int),
            points_in_range(normals@),
            out@.len() == t,
            forall|k: int| 0 <= k < t ==> out@[k] == spec_facet(indices@, points@, normals@, k),
        decreases n - t,
    {
        proof {
            lemma_fundamental_div_mod(indices@.len() as int, 3);
            assert(base + 2 < indices@.len());
        }
        let pa = indices[base];
        let pb = indices[base + 1];
        let pc = indices[base + 2];
        let na = points_in_range_at(normals, pa);
        let nb = points_in_range_at(normals, pb);
        let nc = points_in_range_at(normals, pc);
        let normal = Point3 {
            x: avg3_exec(na.x, nb.x, nc.x),
            y: avg3_exec(na.y, nb.y, nc.y),
            z: avg3_exec(na.z, nb.z, nc.z),
        };
        out.push(Facet { normal, points: (points[pa], points[pb], points[pc]) });
        t = t + 1;
        base = base + 3;
    }
    proof {
        assert(out@ =~= spec_facets(indices@, points@, normals@));
    }
    out
}

/// Bounded read of a normal, packaging the range fact for the averaging.
fn points_in_range_at(points: &Vec<Point3>, k: usize) -> (r: Point3)
    requires
        points_in_range(points@),
        (k as int) < points@.len(),
    ensures
        r == points@[k as int],
        r.wf(),
{
    points[k]
}

/// Truncated average of three bounded scalars.
fn avg3_exec(a: i64, b: i64, c: i64) -> (r: i64)
    requires
        mag(a as int) <= MAX_UNIT,
        mag(b as int) <= MAX_UNIT,
        mag(c as int) <= MAX_UNIT,
    ensures
        r as int == avg3(a as int, b as int, c as int),
        mag(r as int) <= MAX_UNIT,
{
    let s: i128 = a as i128 + b as i128 + c as i128;
    proof {
        lemma_div_tz_bound(s as int, 3, MAX_UNIT as int);
    }
    let q: i128 = if s >= 0 {
        s / 3
    } else {
        -((-s) / 3)
    };
    q as i64
}

impl Mesh {
    /// Build a mesh from flat buffers.  Fails with `InvalidMesh` exactly when
    /// the index count is not a multiple of three or some index is out of
    /// range for the positions or the normals.
    pub fn new(indices: Vec<usize>, vertices: Vec<i64>, normals: Vec<i64>) -> (r: Result<
        Mesh,
        RenderError,
    >)
        requires
            flat_in_range(vertices@),
            flat_in_range(normals@),
        ensures
            match r {
                Ok(m) => {
                    &&& indices_valid(
                        indices@,
                        vertices@.len() as int / 3,
                        normals@.len() as int / 3,
                    )
                    &&& m.wf()
                    &&& m.indices@ == indices@
                    &&& m.points@ == spec_points(vertices@)
                    &&& m.normals@ == spec_points(normals@)
                    &&& m.facets@ == spec_facets(m.indices@, m.points@, m.normals@)
                },
                Err(e) => {
                    &&& e == RenderError::InvalidMesh
                    &&& !indices_valid(
                        indices@,
                        vertices@.len() as int / 3,
                        normals@.len() as int / 3,
                    )
                },
            },
    {
        let n_points = vertices.len() / 3;
        let n_normals = normals.len() / 3;
        if indices.len() % 3 != 0 {
            return Err(RenderError::InvalidMesh);
        }
        let mut k: usize = 0;
        while k < indices.len()
            invariant
                k <= indices@.len(),
                forall|q: int|
                    0 <= q < k ==> (#[trigger] indices@[q] as int) < vertices@.len() as int / 3 && (
                    indices@[q] as int) < normals@.len() as int / 3,
                n_points == vertices@.len() as int / 3,
                n_normals == normals@.len() as int / 3,
            decreases indices@.len() - k,
        {
            if indices[k] >= n_points || indices[k] >= n_normals {
                return Err(RenderError::InvalidMesh);
            }
            k = k + 1;
        }
        let points = unpack_points(&vertices);
        let normal_points = unpack_points(&normals);
        proof {
            assert(points@.len() == vertices@.len() / 3);
            assert(normal_points@.len() == normals@.len() / 3);
            assert forall|q: int| 0 <= q < points@.len() implies (#[trigger] points@[q]).wf() by {
                assert(points@[q] == point_at(vertices@, q));
            }
            assert forall|q: int|
                0 <= q < normal_points@.len() implies (#[trigger] normal_points@[q]).wf() by {
                assert(normal_points@[q] == point_at(normals@, q));
            }
        }
        let facets = get_facets(&indices, &points, &normal_points);
        Ok(Mesh { indices, points, normals: normal_points, facets })
    }
}

/// The slot after `i`, wrapping within `i`'s triangle.
pub open spec fn slot_next(i: int) -> int {
    if i % 3 == 2 {
        i - 2
    } else {
        i + 1
    }
}

/// The slot before `j`, wrapping within `j`'s triangle.
pub open spec fn slot_prev(j: int) -> int {
    if j % 3 == 0 {
        j + 2
    } else {
        j - 1
    }
}

/// The matching test of one pass: exact index equality, or approximate
/// position equality of the indexed vertices.
pub open spec fn slots_eq(points: Seq<Point3>, a: usize, b: usize, exact: bool) -> bool {
    if exact {
        a == b
    } else {
        eq3(points[a as int], points[b as int])
    }
}

/// Slot `j` closes the half-edge starting at slot `i`: the half-edge
/// `(indices[i], indices[slot_next(i)])` matches the reverse half-edge
/// `(indices[slot_prev(j)], indices[j])` of a slot in a different triangle.
pub open spec fn match_at(
    indices: Seq<usize>,
    points: Seq<Point3>,
    i: int,
    j: int,
    exact: bool,
) -> bool {
    j / 3 != i / 3 && slots_eq(points, indices[i], indices[j], exact) && slots_eq(
        points,
        indices[slot_next(i)],
        indices[slot_prev(j)],
        exact,
    )
}

/// The first slot at or after `j` matching slot `i`, as a triangle index.
pub open spec fn find_match_from(
    indices: Seq<usize>,
    points: Seq<Point3>,
    i: int,
    j: int,
    exact: bool,
) -> Option<usize>
    decreases indices.len() - j,
{
    if j < 0 || j >= indices.len() {
        None
    } else if match_at(indices, points, i, j, exact) {
        Some((j / 3) as usize)
    } else {
        find_match_from(indices, points, i, j + 1, exact)
    }
}

/// The triangle of the first slot (in index order) matching slot `i`.
pub open spec fn spec_find_match(
    indices: Seq<usize>,
    points: Seq<Point3>,
    i: int,
    exact: bool,
) -> Option<usize> {
    find_match_from(indices, points, i, 0, exact)
}

/// The adjacency entry for slot `i`: the exact pass first, then the
/// approximate pass as a fallback.
pub open spec fn spec_adjacency_at(indices: Seq<usize>, points: Seq<Point3>, i: int) -> Option<
    usize,
> {
    match spec_find_match(indices, points, i, true) {
        Some(t) => Some(t),
        None => spec_find_match(indices, points, i, false),
    }
}

/// Find the first slot `j` (in index order) in another triangle whose
/// half-edge is the reverse of slot `i`'s, and return `j`'s triangle.
/// `exact` selects index equality; otherwise vertex positions are compared
/// within tolerance.
pub fn find_match(indices: &Vec<usize>, points: &Vec<Point3>, i: usize, exact: bool) -> (r: Option<
    usize,
>)
    requires
        indices@.len() % 3 == 0,
        (i as int) < indices@.len(),
        forall|k: int| 0 <= k < indices@.len() ==> (#[trigger] indices@[k] as int) < points@.len(),
    ensures
        r == spec_find_match(indices@, points@, i as int, exact),
{
    let len = indices.len();
    let i_next: usize = if i % 3 == 2 {
        i - 2
    } else {
        i + 1
    };
    proof {
        lemma_fundamental_div_mod(indices@.len() as int, 3);
        assert(i_next as int == slot_next(i as int));
        assert((i_next as int) < indices@.len());
    }
    let mut j: usize = 0;
    while j < len
        invariant
            j <= len,
            len == indices@.len(),
            indices@.len() % 3 == 0,
            (i as int) < indices@.len(),
            i_next as int == slot_next(i as int),
            (i_next as int) < indices@.len(),
            forall|k: int|
                0 <= k < indices@.len() ==> (#[trigger] indices@[k] as int) < points@.len(),
            spec_find_match(indices@, points@, i as int, exact) == find_match_from(
                indices@,
                points@,
                i as int,
                j as int,
                exact,
            ),
        decreases len - j,
    {
        if j / 3 != i / 3 && slots_eq_exec(points, indices[i], indices[j], exact) {
            let j_prev: usize = if j % 3 == 0 {
                j + 2
            } else {
                j - 1
            };
            proof {
                lemma_fundamental_div_mod(indices@.len() as int, 3);
                assert(j_prev as int == slot_prev(j as int));
                assert((j_prev as int) < indices@.len());
            }
            if slots_eq_exec(points, indices[i_next], indices[j_prev], exact) {
                proof {
                    assert(match_at(indices@, points@, i as int, j as int, exact));
                }
                return Some(j / 3);
            }
        }
        j = j + 1;
    }
    None
}

/// Exec form of `slots_eq`.
fn slots_eq_exec(points: &Vec<Point3>, a: usize, b: usize, exact: bool) -> (r: bool)
    requires
        (a as int) < points@.len(),
        (b as int) < points@.len(),
    ensures
        r == slots_eq(points@, a, b, exact),
{
    if exact {
        a == b
    } else {
        crate::types::approx_eq3(&points[a], &points[b])
    }
}

impl Mesh {
    /// One adjacency entry per index slot: the neighbouring triangle found by
    /// exact index matching, falling back to approximate position matching.
    pub fn compute_adjacency(&self) -> (r: Vec<Option<usize>>)
        requires
            self.wf(),
        ensures
            r@.len() == self.indices@.len(),
            forall|i: int|
                0 <= i < r@.len() ==> r@[i] == spec_adjacency_at(self.indices@, self.points@, i),
    {
        let len = self.indices.len();
        let mut data: Vec<Option<usize>> = Vec::new();
        let mut i: usize = 0;
        while i < len
            invariant
                i <= len,
                len == self.indices@.len(),
                self.wf(),
                data@.len() == i,
                forall|k: int|
                    0 <= k < i ==> data@[k] == spec_adjacency_at(self.indices@, self.points@, k),
            decreases len - i,
        {
            let entry = match find_match(&self.indices, &self.points, i, true) {
                Some(x) => Some(x),
                None => find_match(&self.indices, &self.points, i, false),
            };
            data.push(entry);
            i = i + 1;
        }
        data
    }
}

impl Wireframe {
    /// Index pairs are whole and every index addresses a position.
    pub open spec fn wf(self) -> bool {
        &&& self.indices@.len() % 2 == 0
        &&& forall|k: int|
            0 <= k < self.indices@.len() ==> (#[trigger] self.indices@[k] as int)
                < self.points@.len()
        &&& points_in_range(self.points@)
    }

    /// Build a wireframe from flat buffers.  Fails with `InvalidMesh` exactly
    /// when the index count is odd or some index is out of range.
    pub fn new(indices: Vec<usize>, vertices: Vec<i64>) -> (r: Result<Wireframe, RenderError>)
        requires
            flat_in_range(vertices@),
        ensures
            match r {
                Ok(w) => {
                    &&& indices@.len() % 2 == 0
                    &&& forall|k: int|
                        0 <= k < indices@.len() ==> (#[trigger] indices@[k] as int)
                            < vertices@.len() as int / 3
                    &&& w.wf()
                    &&& w.indices@ == indices@
                    &&& w.points@ == spec_points(vertices@)
                },
                Err(e) => {
                    &&& e == RenderError::InvalidMesh
                    &&& !(indices@.len() % 2 == 0 && forall|k: int|
                        0 <= k < indices@.len() ==> (#[trigger] indices@[k] as int)
                            < vertices@.len() as int / 3)
                },
            },
    {
        let n_points = vertices.len() / 3;
        if indices.len() % 2 != 0 {
            return Err(RenderError::InvalidMesh);
        }
        let mut k: usize = 0;
        while k < indices.len()
            invariant
                k <= indices@.len(),
                n_points == vertices@.len() as int / 3,
                forall|q: int|
                    0 <= q < k ==> (#[trigger] indices@[q] as int) < vertices@.len() as int / 3,
            decreases indices@.len() - k,
        {
            if indices[k] >= n_points {
                return Err(RenderError::InvalidMesh);
            }
            k = k + 1;
        }
        let points = unpack_points(&vertices);
        proof {
            assert forall|q: int| 0 <= q < points@.len() implies (#[trigger] points@[q]).wf() by {
                assert(points@[q] == point_at(vertices@, q));
            }
        }
        Ok(Wireframe { indices, points })
    }

    /// The explicit segments: one per consecutive index pair.
    pub fn edges(&self) -> (r: Vec<LineSegment3>)
        requires
            self.wf(),
        ensures
            r@ == spec_wire_edges(self.indices@, self.points@),
    {
        let total = self.indices.len();
        let n = total / 2;
        let mut out: Vec<LineSegment3> = Vec::new();
        let mut k: usize = 0;
        let mut base: usize = 0;
        while k < n
            invariant
                k <= n,
                total == self.indices@.len(),
                n == self.indices@.len() / 2,
                base == 2 * k,
                self.wf(),
                out@.len() == k,
                forall|q: int|
                    0 <= q < k ==> out@[q] == spec_wire_edges(self.indices@, self.points@)[q],
            decreases n - k,
        {
            proof {
                lemma_fundamental_div_mod(self.indices@.len() as int, 2);
                assert(base + 1 < self.indices@.len());
            }
            let a = self.indices[base];
            let b = self.indices[base + 1];
            out.push(LineSegment3 { from: self.points[a], to: self.points[b] });
            k = k + 1;
            base = base + 2;
        }
        proof {
            assert(out@ =~= spec_wire_edges(self.indices@, self.points@));
        }
        out
    }
}

/// One segment per consecutive index pair of a wireframe.
pub open spec fn spec_wire_edges(indices: Seq<usize>, points: Seq<Point3>) -> Seq<LineSegment3> {
    Seq::new(
        indices.len() / 2,
        |k: int|
            LineSegment3 {
                from: points[indices[2 * k] as int],
                to: points[indices[2 * k + 1] as int],
            },
    )
}

/// Some corner of `f` coincides with `p` within tolerance.
pub open spec fn facet_has_point(f: Facet, p: Point3) -> bool {
    eq3(f.points.0, p) || eq3(f.points.1, p) || eq3(f.points.2, p)
}

/// The corners of `cur` that also appear among the corners of `adj`,
/// in corner order, as presence flags.
pub open spec fn shared_flags(cur: Facet, adj: Facet) -> (bool, bool, bool) {
    (facet_has_point(adj, cur.points.0), facet_has_point(adj, cur.points.1), facet_has_point(
        adj,
        cur.points.2,
    ))
}

pub open spec fn count_true(f: (bool, bool, bool)) -> int {
    (if f.0 {
        1int
    } else {
        0int
    }) + (if f.1 {
        1int
    } else {
        0int
    }) + (if f.2 {
        1int
    } else {
        0int
    })
}

/// The two shared corners in corner order, meaningful when exactly two of
/// the flags are set.
pub open spec fn shared_pair(cur: Facet, adj: Facet) -> (Point3, Point3) {
    let f = shared_flags(cur, adj);
    if f.0 && f.1 {
        (cur.points.0, cur.points.1)
    } else if f.0 {
        (cur.points.0, cur.points.2)
    } else {
        (cur.points.1, cur.points.2)
    }
}

/// The edge candidate discovered from slot `i`, if any: the slot must have
/// an adjacent triangle and the two facets must share exactly two corner
/// points within tolerance.
pub open spec fn spec_candidate_at(
    indices: Seq<usize>,
    points: Seq<Point3>,
    facets: Seq<Facet>,
    i: int,
) -> Option<EdgeCandidate> {
    match spec_adjacency_at(indices, points, i) {
        None => None,
        Some(t_adj) => {
            let cur = facets[i / 3];
            let adj = facets[t_adj as int];
            if count_true(shared_flags(cur, adj)) == 2 {
                let pair = shared_pair(cur, adj);
                Some(
                    EdgeCandidate {
                        edge: LineSegment3 { from: pair.0, to: pair.1 },
                        adjacent_triangle_a_normal: adj.normal,
                        adjacent_triangle_b_normal: cur.normal,
                    },
                )
            } else {
                None
            }
        },
    }
}

/// The edge candidates of the slots before `n`, in slot order.
pub open spec fn candidates_prefix(
    indices: Seq<usize>,
    points: Seq<Point3>,
    facets: Seq<Facet>,
    n: int,
) -> Seq<EdgeCandidate>
    decreases n,
{
    if n <= 0 {
        Seq::empty()
    } else {
        candidates_prefix(indices, points, facets, n - 1) + match spec_candidate_at(
            indices,
            points,
            facets,
            n - 1,
        ) {
            Some(c) => seq![c],
            None => Seq::empty(),
        }
    }
}

/// All edge candidates of a mesh, one per qualifying slot.
pub open spec fn spec_silhouette_candidates(
    indices: Seq<usize>,
    points: Seq<Point3>,
    facets: Seq<Facet>,
) -> Seq<EdgeCandidate> {
    candidates_prefix(indices, points, facets, indices.len() as int)
}

/// A found match names a triangle of the mesh.
proof fn lemma_find_match_from_bound(
    indices: Seq<usize>,
    points: Seq<Point3>,
    i: int,
    j: int,
    exact: bool,
)
    requires
        indices.len() % 3 == 0,
        find_match_from(indices, points, i, j, exact) is Some,
    ensures
        (find_match_from(indices, points, i, j, exact)->Some_0 as int) < indices.len() / 3,
    decreases indices.len() - j,
{
    if 0 <= j < indices.len() {
        if match_at(indices, points, i, j, exact) {
            lemma_fundamental_div_mod(indices.len() as int, 3);
            lemma_fundamental_div_mod(j, 3);
            assert(j / 3 < indices.len() / 3) by (nonlinear_arith)
                requires
                    0 <= j < indices.len(),
                    indices.len() % 3 == 0,
            ;
        } else {
            lemma_find_match_from_bound(indices, points, i, j + 1, exact);
        }
    }
}

/// An adjacency entry names a triangle of the mesh.
pub proof fn lemma_adjacency_bound(indices: Seq<usize>, points: Seq<Point3>, i: int)
    requires
        indices.len() % 3 == 0,
        spec_adjacency_at(indices, points, i) is Some,
    ensures
        (spec_adjacency_at(indices, points, i)->Some_0 as int) < indices.len() / 3,
{
    if spec_find_match(indices, points, i, true) is Some {
        lemma_find_match_from_bound(indices, points, i, 0, true);
    } else {
        lemma_find_match_from_bound(indices, points, i, 0, false);
    }
}

/// Exec form of `facet_has_point`.
fn facet_has_point_exec(f: &Facet, p: &Point3) -> (r: bool)
    ensures
        r == facet_has_point(*f, *p),
{
    crate::types::approx_eq3(&f.points.0, p) || crate::types::approx_eq3(&f.points.1, p)
        || crate::types::approx_eq3(&f.points.2, p)
}

impl Mesh {
    /// For every slot with an adjacent triangle, emit the shared edge and the
    /// two facets' normals; slots whose facets do not share exactly two
    /// corner points (non-manifold or degenerate) are skipped.  Each true
    /// mesh edge is discovered from both of its triangles; deduplication
    /// happens after projection.
    pub fn get_silhouette_candidates(&self) -> (r: Vec<EdgeCandidate>)
        requires
            self.wf(),
        ensures
            r@ == spec_silhouette_candidates(self.indices@, self.points@, self.facets@),
    {
        let adjacency = self.compute_adjacency();
        let len = adjacency.len();
        let mut out: Vec<EdgeCandidate> = Vec::new();
        let mut i: usize = 0;
        while i < len
            invariant
                i <= len,
                len == self.indices@.len(),
                adjacency@.len() == self.indices@.len(),
                forall|k: int|
                    0 <= k < adjacency@.len() ==> adjacency@[k] == spec_adjacency_at(
                        self.indices@,
                        self.points@,
                        k,
                    ),
                self.wf(),
                out@ == candidates_prefix(self.indices@, self.points@, self.facets@, i as int),
            decreases len - i,
        {
            match adjacency[i] {
                None => {},
                Some(adjacent_triangle_index) => {
                    proof {
                        lemma_adjacency_bound(self.indices@, self.points@, i as int);
                        lemma_fundamental_div_mod(self.indices@.len() as int, 3);
                        lemma_fundamental_div_mod(i as int, 3);
                        assert((i as int) / 3 < self.indices@.len() / 3) by (nonlinear_arith)
                            requires
                                0 <= (i as int) < self.indices@.len(),
                                self.indices@.len() % 3 == 0,
                        ;
                    }
                    let current_triangle_index = i / 3;
                    let adjacent_facet = self.facets[adjacent_triangle_index];
                    let current_facet = self.facets[current_triangle_index];
                    let m0 = facet_has_point_exec(&adjacent_facet, &current_facet.points.0);
                    let m1 = facet_has_point_exec(&adjacent_facet, &current_facet.points.1);
                    let m2 = facet_has_point_exec(&adjacent_facet, &current_facet.points.2);
                    let count = (if m0 {
                        1u32
                    } else {
                        0u32
                    }) + (if m1 {
                        1u32
                    } else {
                        0u32
                    }) + (if m2 {
                        1u32
                    } else {
                        0u32
                    });
                    if count == 2 {
                        let (first, second) = if m0 && m1 {
                            (current_facet.points.0, current_facet.points.1)
                        } else if m0 {
                            (current_facet.points.0, current_facet.points.2)
                        } else {
                            (current_facet.points.1, current_facet.points.2)
                        };
                        out.push(
                            EdgeCandidate {
                                edge: LineSegment3 { from: first, to: second },
                                adjacent_triangle_a_normal: adjacent_facet.normal,
                                adjacent_triangle_b_normal: current_facet.normal,
                            },
                        );
                    }
                },
            }
            i = i + 1;
        }
        out
    }
}

/// All four geometric fields of a facet are within the working range.
pub open spec fn facet_wf(f: Facet) -> bool {
    f.normal.wf() && f.points.0.wf() && f.points.1.wf() && f.points.2.wf()
}

/// The facets of valid, bounded buffers are themselves bounded.
pub proof fn lemma_facet_wf(indices: Seq<usize>, points: Seq<Point3>, normals: Seq<Point3>, t: int)
    requires
        indices_valid(indices, points.len() as int, normals.len() as int),
        points_in_range(points),
        points_in_range(normals),
        0 <= t < indices.len() / 3,
    ensures
        facet_wf(spec_facet(indices, points, normals, t)),
{
    lemma_fundamental_div_mod(indices.len() as int, 3);
    assert(3 * t + 2 < indices.len()) by (nonlinear_arith)
        requires
            0 <= t < indices.len() / 3,
            indices.len() % 3 == 0,
            indices.len() == 3 * (indices.len() / 3) + indices.len() % 3,
    ;
    let pa = indices[3 * t] as int;
    let pb = indices[3 * t + 1] as int;
    let pc = indices[3 * t + 2] as int;
    let u = MAX_UNIT as int;
    lemma_div_tz_bound(
        normals[pa].x as int + normals[pb].x as int + normals[pc].x as int,
        3,
        u,
    );
    lemma_div_tz_bound(
        normals[pa].y as int + normals[pb].y as int + normals[pc].y as int,
        3,
        u,
    );
    lemma_div_tz_bound(
        normals[pa].z as int + normals[pb].z as int + normals[pc].z as int,
        3,
        u,
    );
}

/// Every edge candidate of a well-formed mesh carries bounded points and
/// normals.
pub proof fn lemma_candidates_prefix_wf(
    indices: Seq<usize>,
    points: Seq<Point3>,
    facets: Seq<Facet>,
    n: int,
)
    requires
        indices.len() % 3 == 0,
        facets.len() == indices.len() / 3,
        forall|t: int| 0 <= t < facets.len() ==> facet_wf(#[trigger] facets[t]),
        0 <= n <= indices.len(),
    ensures
        forall|k: int|
            0 <= k < candidates_prefix(indices, points, facets, n).len() ==> {
                let c = #[trigger] candidates_prefix(indices, points, facets, n)[k];
                c.edge.from.wf() && c.edge.to.wf() && c.adjacent_triangle_a_normal.wf()
                    && c.adjacent_triangle_b_normal.wf()
            },
    decreases n,
{
    if n > 0 {
        lemma_candidates_prefix_wf(indices, points, facets, n - 1);
        let pre = candidates_prefix(indices, points, facets, n - 1);
        let full = candidates_prefix(indices, points, facets, n);
        match spec_candidate_at(indices, points, facets, n - 1) {
            None => {
                assert(full =~= pre);
            },
            Some(c) => {
                let t_adj = spec_adjacency_at(indices, points, n - 1)->Some_0;
                lemma_adjacency_bound(indices, points, n - 1);
                lemma_fundamental_div_mod(indices.len() as int, 3);
                assert((n - 1) / 3 < indices.len() / 3) by (nonlinear_arith)
                    requires
                        0 <= n - 1 < indices.len(),
                        indices.len() % 3 == 0,
                        indices.len() == 3 * (indices.len() / 3) + indices.len() % 3,
                ;
                assert(facet_wf(facets[(n - 1) / 3]));
                assert(facet_wf(facets[t_adj as int]));
                assert(c.edge.from.wf() && c.edge.to.wf() && c.adjacent_triangle_a_normal.wf()
                    && c.adjacent_triangle_b_normal.wf());
                assert forall|k: int| 0 <= k < full.len() implies {
                    let e = #[trigger] full[k];
                    e.edge.from.wf() && e.edge.to.wf() && e.adjacent_triangle_a_normal.wf()
                        && e.adjacent_triangle_b_normal.wf()
                } by {
                    if k < pre.len() {
                        assert(full[k] == pre[k]);
                    } else {
                        assert(full[k] == c);
                    }
                }
            },
        }
    }
}

/// A matching slot anywhere at or after `m` makes the search succeed.
proof fn lemma_find_match_from_some(
    indices: Seq<usize>,
    points: Seq<Point3>,
    i: int,
    m: int,
    k: int,
    exact: bool,
)
    requires
        0 <= m <= k < indices.len(),
        match_at(indices, points, i, k, exact),
    ensures
        find_match_from(indices, points, i, m, exact) is Some,
    decreases k - m,
{
    if m < k && !match_at(indices, points, i, m, exact) {
        lemma_find_match_from_some(indices, points, i, m + 1, k, exact);
    }
}

/// A successful search names the triangle of some matching slot.
proof fn lemma_find_match_from_witness(
    indices: Seq<usize>,
    points: Seq<Point3>,
    i: int,
    m: int,
    exact: bool,
)
    requires
        0 <= m,
        find_match_from(indices, points, i, m, exact) is Some,
    ensures
        exists|j0: int|
            m <= j0 < indices.len() && #[trigger] match_at(indices, points, i, j0, exact)
                && find_match_from(indices, points, i, m, exact) == Some(((j0 / 3) as usize)),
    decreases indices.len() - m,
{
    if m < indices.len() {
        if match_at(indices, points, i, m, exact) {
            assert(m <= m < indices.len() && match_at(indices, points, i, m, exact)
                && find_match_from(indices, points, i, m, exact) == Some(((m / 3) as usize)));
        } else {
            lemma_find_match_from_witness(indices, points, i, m + 1, exact);
            let j0 = choose|j0: int|
                m + 1 <= j0 < indices.len() && #[trigger] match_at(indices, points, i, j0, exact)
                    && find_match_from(indices, points, i, m + 1, exact) == Some(
                    ((j0 / 3) as usize),
                );
            assert(m <= j0 < indices.len() && match_at(indices, points, i, j0, exact)
                && find_match_from(indices, points, i, m, exact) == Some(((j0 / 3) as usize)));
        }
    }
}

/// Adjacency is symmetric up to ordering on manifold data: when slot `i`'s
/// half-edge is closed by slot `j` of another triangle, and every slot that
/// closes the reverse half-edge lies in `i`'s triangle (the mesh is
/// manifold there), the slot before `j` resolves back to `i`'s triangle.
pub proof fn lemma_adjacency_symmetric(
    indices: Seq<usize>,
    points: Seq<Point3>,
    i: int,
    j: int,
    exact: bool,
)
    requires
        indices.len() % 3 == 0,
        0 <= i < indices.len(),
        0 <= j < indices.len(),
        match_at(indices, points, i, j, exact),
        forall|k: int|
            0 <= k < indices.len() && #[trigger] match_at(
                indices,
                points,
                slot_prev(j),
                k,
                exact,
            ) ==> k / 3 == i / 3,
    ensures
        spec_find_match(indices, points, slot_prev(j), exact) == Some(((i / 3) as usize)),
{
    lemma_fundamental_div_mod(indices.len() as int, 3);
    lemma_fundamental_div_mod(i, 3);
    lemma_fundamental_div_mod(j, 3);
    let back = slot_prev(j);
    let fwd = slot_next(i);
    assert(0 <= back < indices.len());
    assert(0 <= fwd < indices.len());
    assert(slot_next(back) == j);
    assert(slot_prev(fwd) == i);
    assert(back / 3 == j / 3 && fwd / 3 == i / 3) by (nonlinear_arith)
        requires
            0 <= i < indices.len(),
            0 <= j < indices.len(),
            back == slot_prev(j),
            fwd == slot_next(i),
            i == 3 * (i / 3) + i % 3,
            j == 3 * (j / 3) + j % 3,
            0 <= i % 3 < 3,
            0 <= j % 3 < 3,
    ;
    assert(fwd != back);
    assert(match_at(indices, points, back, fwd, exact));
    lemma_find_match_from_some(indices, points, back, 0, fwd, exact);
    lemma_find_match_from_witness(indices, points, back, 0, exact);
    let j0 = choose|j0: int|
        0 <= j0 < indices.len() && #[trigger] match_at(indices, points, back, j0, exact)
            && find_match_from(indices, points, back, 0, exact) == Some(((j0 / 3) as usize));
    assert(j0 / 3 == i / 3);
}

/// An exact index match is in particular a positional match: equal indices
/// address the same point, which coincides with itself.
proof fn lemma_match_exact_implies_approx(indices: Seq<usize>, points: Seq<Point3>, i: int, k: int)
    requires
        match_at(indices, points, i, k, true),
    ensures
        match_at(indices, points, i, k, false),
{
}

/// Two-pass adjacency is symmetric up to ordering on manifold data: when
/// the adjacency entry of slot `i` was found through slot `j`, and every
/// slot that positionally closes the reverse half-edge lies in `i`'s
/// triangle (the mesh is manifold there), the adjacency entry of the slot
/// before `j` names `i`'s triangle — whichever pass each side used.
pub proof fn lemma_adjacency_entry_symmetric(
    indices: Seq<usize>,
    points: Seq<Point3>,
    i: int,
    j: int,
    exact: bool,
)
    requires
        indices.len() % 3 == 0,
        0 <= i < indices.len(),
        0 <= j < indices.len(),
        match_at(indices, points, i, j, exact),
        forall|k: int|
            0 <= k < indices.len() && #[trigger] match_at(
                indices,
                points,
                slot_prev(j),
                k,
                false,
            ) ==> k / 3 == i / 3,
    ensures
        spec_adjacency_at(indices, points, slot_prev(j)) == Some(((i / 3) as usize)),
{
    let back = slot_prev(j);
    assert forall|k: int|
        0 <= k < indices.len() && #[trigger] match_at(indices, points, back, k, exact) implies k
        / 3 == i / 3 by {
        if exact {
            lemma_match_exact_implies_approx(indices, points, back, k);
        }
    }
    lemma_adjacency_symmetric(indices, points, i, j, exact);
    if spec_find_match(indices, points, back, true) is Some {
        lemma_find_match_from_witness(indices, points, back, 0, true);
        let k0 = choose|k0: int|
            0 <= k0 < indices.len() && #[trigger] match_at(indices, points, back, k0, true)
                && find_match_from(indices, points, back, 0, true) == Some(((k0 / 3) as usize));
        lemma_match_exact_implies_approx(indices, points, back, k0);
        assert(k0 / 3 == i / 3);
    } else {
        if exact {
            assert(spec_find_match(indices, points, back, true) == Some(((i / 3) as usize)));
            assert(false);
        }
        assert(spec_find_match(indices, points, back, false) == Some(((i / 3) as usize)));
    }
}

/// At most one candidate is discovered per slot.
pub proof fn lemma_candidates_prefix_len(
    indices: Seq<usize>,
    points: Seq<Point3>,
    facets: Seq<Facet>,
    n: int,
)
    requires
        0 <= n,
    ensures
        candidates_prefix(indices, points, facets, n).len() <= n,
    decreases n,
{
    if n > 0 {
        lemma_candidates_prefix_len(indices, points, facets, n - 1);
    }
}

/// At most one edge is kept per candidate.
pub proof fn lemma_kept_edges_prefix_len(
    cands: Seq<EdgeCandidate>,
    world: Seq<i64>,
    camera_forward: Point3,
    silhouettes_only: bool,
    n: int,
)
    requires
        0 <= n,
    ensures
        kept_edges_prefix(cands, world, camera_forward, silhouettes_only, n).len() <= n,
    decreases n,
{
    if n > 0 {
        lemma_kept_edges_prefix_len(cands, world, camera_forward, silhouettes_only, n - 1);
    }
}

/// The filter of one candidate: a sharp corner (unless only silhouettes are
/// wanted), or a true silhouette boundary, where the two world-space facet
/// normals disagree in sign against the camera-forward direction.
pub open spec fn spec_keep_candidate(
    c: EdgeCandidate,
    world: Seq<i64>,
    camera_forward: Point3,
    silhouettes_only: bool,
) -> bool {
    let sharp = !silhouettes_only && dot3(c.adjacent_triangle_a_normal, c.adjacent_triangle_b_normal)
        < SHARP_EDGE_DOT as int;
    let normal_a_world = spec_transform_vector(world, c.adjacent_triangle_a_normal);
    let normal_b_world = spec_transform_vector(world, c.adjacent_triangle_b_normal);
    let a_facing = dot3(camera_forward, normal_a_world) > 0;
    let b_facing = dot3(camera_forward, normal_b_world) > 0;
    sharp || (a_facing != b_facing)
}

/// The edges of the kept candidates among the first `n`, in order.
pub open spec fn kept_edges_prefix(
    cands: Seq<EdgeCandidate>,
    world: Seq<i64>,
    camera_forward: Point3,
    silhouettes_only: bool,
    n: int,
) -> Seq<LineSegment3>
    decreases n,
{
    if n <= 0 {
        Seq::empty()
    } else {
        kept_edges_prefix(cands, world, camera_forward, silhouettes_only, n - 1) + if
        spec_keep_candidate(cands[n - 1], world, camera_forward, silhouettes_only) {
            seq![cands[n - 1].edge]
        } else {
            Seq::empty()
        }
    }
}

/// The edge lines a mesh contributes to the drawing.
pub open spec fn spec_find_edge_lines(m: Mesh, s: Scene, silhouettes_only: bool) -> Seq<
    LineSegment3,
> {
    let cands = spec_silhouette_candidates(m.indices@, m.points@, m.facets@);
    kept_edges_prefix(
        cands,
        s.mesh_world_matrix.e@,
        s.camera_forward_vector,
        silhouettes_only,
        cands.len() as int,
    )
}

/// Earlier kept edges keep their places as the filter walks on.
proof fn lemma_kept_edges_prefix_extends(
    cands: Seq<EdgeCandidate>,
    world: Seq<i64>,
    camera_forward: Point3,
    silhouettes_only: bool,
    m: int,
    n: int,
)
    requires
        0 <= m <= n,
    ensures
        kept_edges_prefix(cands, world, camera_forward, silhouettes_only, m).len()
            <= kept_edges_prefix(cands, world, camera_forward, silhouettes_only, n).len(),
        forall|k: int|
            0 <= k < kept_edges_prefix(cands, world, camera_forward, silhouettes_only, m).len()
                ==> #[trigger] kept_edges_prefix(cands, world, camera_forward, silhouettes_only, n)[k]
                == kept_edges_prefix(cands, world, camera_forward, silhouettes_only, m)[k],
    decreases n - m,
{
    if m < n {
        lemma_kept_edges_prefix_extends(cands, world, camera_forward, silhouettes_only, m, n - 1);
    }
}

/// A sharp corner is always drawn: when silhouettes are not the only edges
/// wanted, every candidate whose adjacent facet normals' dot product is
/// below the sharpness threshold contributes its edge, whatever the camera.
pub proof fn lemma_sharp_edge_always_kept(
    cands: Seq<EdgeCandidate>,
    world: Seq<i64>,
    camera_forward: Point3,
    i: int,
)
    requires
        0 <= i < cands.len(),
        dot3(cands[i].adjacent_triangle_a_normal, cands[i].adjacent_triangle_b_normal)
            < SHARP_EDGE_DOT as int,
    ensures
        kept_edges_prefix(cands, world, camera_forward, false, cands.len() as int).contains(
            cands[i].edge,
        ),
{
    assert(spec_keep_candidate(cands[i], world, camera_forward, false));
    let pre = kept_edges_prefix(cands, world, camera_forward, false, i);
    let with_i = kept_edges_prefix(cands, world, camera_forward, false, i + 1);
    assert(with_i[pre.len() as int] == cands[i].edge);
    lemma_kept_edges_prefix_extends(cands, world, camera_forward, false, i + 1, cands.len() as int);
    let full = kept_edges_prefix(cands, world, camera_forward, false, cands.len() as int);
    assert(full[pre.len() as int] == cands[i].edge);
    assert(full.contains(cands[i].edge));
}

impl Mesh {
    /// Filter the silhouette candidates against the camera: keep sharp
    /// corners (when `silhouettes_only` is false) and silhouette boundaries,
    /// and return their 3D edges.
    #[verifier::rlimit(50)]
    pub fn find_edge_lines(&self, scene: &Scene, silhouettes_only: bool) -> (r: Vec<LineSegment3>)
        requires
            self.wf(),
            scene.wf(),
        ensures
            r@ == spec_find_edge_lines(*self, *scene, silhouettes_only),
            forall|k: int| 0 <= k < r@.len() ==> (#[trigger] r@[k]).wf(),
    {
        let candidates = self.get_silhouette_candidates();
        proof {
            assert forall|t: int| 0 <= t < self.facets@.len() implies facet_wf(
                #[trigger] self.facets@[t],
            ) by {
                assert(self.facets@[t] == spec_facet(self.indices@, self.points@, self.normals@, t));
                lemma_facet_wf(self.indices@, self.points@, self.normals@, t);
            }
            lemma_candidates_prefix_wf(
                self.indices@,
                self.points@,
                self.facets@,
                self.indices@.len() as int,
            );
        }
        let ghost cands = spec_silhouette_candidates(self.indices@, self.points@, self.facets@);
        let mut out: Vec<LineSegment3> = Vec::new();
        let mut i: usize = 0;
        let len = candidates.len();
        while i < len
            invariant
                i <= len,
                len == cands.len(),
                candidates@ == cands,
                self.wf(),
                scene.wf(),
                forall|k: int|
                    0 <= k < cands.len() ==> {
                        let c = #[trigger] cands[k];
                        c.edge.from.wf() && c.edge.to.wf() && c.adjacent_triangle_a_normal.wf()
                            && c.adjacent_triangle_b_normal.wf()
                    },
                out@ == kept_edges_prefix(
                    cands,
                    scene.mesh_world_matrix.e@,
                    scene.camera_forward_vector,
                    silhouettes_only,
                    i as int,
                ),
                forall|k: int| 0 <= k < out@.len() ==> (#[trigger] out@[k]).wf(),
            decreases len - i,
        {
            let candidate = &candidates[i];
            let mut keep = false;
            if !silhouettes_only {
                let normal_dot_product = dot3_exec(
                    &candidate.adjacent_triangle_a_normal,
                    &candidate.adjacent_triangle_b_normal,
                );
                if normal_dot_product < SHARP_EDGE_DOT as i128 {
                    keep = true;
                }
            }
            if !keep {
                let normal_a_world = transform_vector(
                    &scene.mesh_world_matrix,
                    &candidate.adjacent_triangle_a_normal,
                );
                let normal_b_world = transform_vector(
                    &scene.mesh_world_matrix,
                    &candidate.adjacent_triangle_b_normal,
                );
                let a_facing = dot3_exec(&scene.camera_forward_vector, &normal_a_world) > 0;
                let b_facing = dot3_exec(&scene.camera_forward_vector, &normal_b_world) > 0;
                keep = a_facing != b_facing;
            }
            proof {
                assert(keep == spec_keep_candidate(
                    cands[i as int],
                    scene.mesh_world_matrix.e@,
                    scene.camera_forward_vector,
                    silhouettes_only,
                ));
            }
            if keep {
                out.push(candidate.edge);
            }
            i = i + 1;
        }
        out
    }
}

} // verus!
