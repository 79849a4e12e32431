//! The line processor: screen-space deduplication of projected edges,
//! robust pairwise segment intersection, and splitting of every projected
//! line at its detected intersections.

use crate::fixed::{
    clamp_i128, clamped, div_any, div_i128, div_tz, lemma_component_le_sqrt, lemma_div_tz_bound,
    lemma_mul_bound, mag, sqrt_floor, EPSILON, MAX_UNIT, SCALE,
};
use crate::mesh::Mesh;
use crate::scene::{spec_ray_blocked, spec_unproject_point, spec_inverse, spec_invertible, Ray, Scene};
use crate::types::{
    approx_eq2, dist2_exec, dist3_exec, dist_sq2, dist_sq3, eq2, LineSegment2, LineSegment3,
    LineVisibility, Point2, Point3, ProjectedLine, ProjectedSplitLine, RenderError,
};
use vstd::prelude::*;

verus! {

/// The numerator over the denominator lies in the unit interval `[0, 1]`.
pub open spec fn in_unit_range(num: int, den: int) -> bool {
    if den > 0 {
        0 <= num <= den
    } else {
        den <= num <= 0
    }
}

/// Parametric segment-segment intersection.  Segments sharing an endpoint
/// (within tolerance) never intersect, parallel segments (zero denominator)
/// never intersect, and otherwise the crossing point is returned exactly
/// when both parameters lie in the unit interval.
pub open spec fn spec_find_intersection(a: LineSegment2, b: LineSegment2) -> Option<Point2> {
    if eq2(a.from, b.from) || eq2(a.from, b.to) || eq2(a.to, b.from) || eq2(a.to, b.to) {
        None
    } else {
        let s1x = a.to.x - a.from.x;
        let s1y = a.to.y - a.from.y;
        let s2x = b.to.x - b.from.x;
        let s2y = b.to.y - b.from.y;
        let den = -s2x * s1y + s1x * s2y;
        let s_num = -s1y * (a.from.x - b.from.x) + s1x * (a.from.y - b.from.y);
        let t_num = s2x * (a.from.y - b.from.y) - s2y * (a.from.x - b.from.x);
        if den == 0 {
            None
        } else if in_unit_range(s_num, den) && in_unit_range(t_num, den) {
            Some(
                Point2 {
                    x: clamped(a.from.x + div_any(t_num * s1x, den), MAX_UNIT as int) as i64,
                    y: clamped(a.from.y + div_any(t_num * s1y, den), MAX_UNIT as int) as i64,
                },
            )
        } else {
            None
        }
    }
}

/// Segments that share an endpoint, in any orientation, are never reported
/// as crossing.
pub proof fn lemma_shared_endpoint_never_intersects(a: LineSegment2, b: LineSegment2)
    requires
        eq2(a.from, b.from) || eq2(a.from, b.to) || eq2(a.to, b.from) || eq2(a.to, b.to),
    ensures
        spec_find_intersection(a, b) is None,
{
}

/// Compute the intersection of two screen-space segments, if any.
pub fn find_intersection(a: &LineSegment2, b: &LineSegment2) -> (r: Option<Point2>)
    requires
        a.wf(),
        b.wf(),
    ensures
        r == spec_find_intersection(*a, *b),
        r is Some ==> r->Some_0.wf(),
{
    if approx_eq2(&a.from, &b.from) || approx_eq2(&a.from, &b.to) || approx_eq2(&a.to, &b.from)
        || approx_eq2(&a.to, &b.to) {
        return None;
    }
    let s1x: i128 = a.to.x as i128 - a.from.x as i128;
    let s1y: i128 = a.to.y as i128 - a.from.y as i128;
    let s2x: i128 = b.to.x as i128 - b.from.x as i128;
    let s2y: i128 = b.to.y as i128 - b.from.y as i128;
    let dx: i128 = a.from.x as i128 - b.from.x as i128;
    let dy: i128 = a.from.y as i128 - b.from.y as i128;
    proof {
        let d = 2 * MAX_UNIT as int;
        lemma_mul_bound(s2x as int, s1y as int, d, d);
        lemma_mul_bound(-(s2x as int), s1y as int, d, d);
        lemma_mul_bound(s1x as int, s2y as int, d, d);
        lemma_mul_bound(s1y as int, dx as int, d, d);
        lemma_mul_bound(-(s1y as int), dx as int, d, d);
        lemma_mul_bound(s1x as int, dy as int, d, d);
        lemma_mul_bound(s2x as int, dy as int, d, d);
        lemma_mul_bound(s2y as int, dx as int, d, d);
    }
    let den: i128 = -s2x * s1y + s1x * s2y;
    let s_num: i128 = -s1y * dx + s1x * dy;
    let t_num: i128 = s2x * dy - s2y * dx;
    if den == 0 {
        return None;
    }
    let s_ok = if den > 0 {
        0 <= s_num && s_num <= den
    } else {
        den <= s_num && s_num <= 0
    };
    let t_ok = if den > 0 {
        0 <= t_num && t_num <= den
    } else {
        den <= t_num && t_num <= 0
    };
    if s_ok && t_ok {
        proof {
            let d = 2 * MAX_UNIT as int;
            let db = 8 * (MAX_UNIT as int) * (MAX_UNIT as int);
            lemma_mul_bound(t_num as int, s1x as int, db, d);
            lemma_mul_bound(t_num as int, s1y as int, db, d);
        }
        let qx = div_i128(t_num * s1x, den);
        let qy = div_i128(t_num * s1y, den);
        Some(
            Point2 {
                x: clamp_i128(a.from.x as i128 + qx, MAX_UNIT),
                y: clamp_i128(a.from.y as i128 + qy, MAX_UNIT),
            },
        )
    } else {
        None
    }
}

/// Two screen-space segments are the same edge: equal endpoints in the same
/// or in reversed order, within tolerance.
pub open spec fn matches_either_order(a: LineSegment2, b: LineSegment2) -> bool {
    (eq2(a.to, b.to) && eq2(a.from, b.from)) || (eq2(a.to, b.from) && eq2(a.from, b.to))
}

/// Some line after position `k` covers the same screen-space edge.
pub open spec fn has_later_duplicate(lines: Seq<ProjectedLine>, k: int) -> bool {
    exists|j: int|
        k < j < lines.len() && matches_either_order(
            lines[k].screen_space,
            (#[trigger] lines[j]).screen_space,
        )
}

/// The lines among the first `n` that have no later duplicate, in order.
pub open spec fn dedupe_prefix(lines: Seq<ProjectedLine>, n: int) -> Seq<ProjectedLine>
    decreases n,
{
    if n <= 0 {
        Seq::empty()
    } else {
        dedupe_prefix(lines, n - 1) + if has_later_duplicate(lines, n - 1) {
            Seq::empty()
        } else {
            seq![lines[n - 1]]
        }
    }
}

/// The deduplicated projected lines: a line is dropped exactly when a later
/// line covers the same screen-space edge in either orientation.
pub open spec fn spec_dedupe(lines: Seq<ProjectedLine>) -> Seq<ProjectedLine> {
    dedupe_prefix(lines, lines.len() as int)
}

/// Every survivor of deduplication is an input line with no later
/// duplicate, and no two survivors cover the same edge.
proof fn lemma_dedupe_prefix_distinct(lines: Seq<ProjectedLine>, n: int)
    requires
        0 <= n <= lines.len(),
    ensures
        forall|a: int|
            0 <= a < dedupe_prefix(lines, n).len() ==> exists|i: int|
                0 <= i < n && #[trigger] dedupe_prefix(lines, n)[a] == lines[i]
                    && !has_later_duplicate(lines, i),
        forall|a: int, b: int|
            0 <= a < b < dedupe_prefix(lines, n).len() ==> !matches_either_order(
                (#[trigger] dedupe_prefix(lines, n)[a]).screen_space,
                (#[trigger] dedupe_prefix(lines, n)[b]).screen_space,
            ),
    decreases n,
{
    if n > 0 {
        lemma_dedupe_prefix_distinct(lines, n - 1);
        let pre = dedupe_prefix(lines, n - 1);
        let full = dedupe_prefix(lines, n);
        if !has_later_duplicate(lines, n - 1) {
            assert(full[pre.len() as int] == lines[n - 1]);
            assert forall|a: int|
                0 <= a < full.len() implies exists|i: int|
                0 <= i < n && #[trigger] full[a] == lines[i] && !has_later_duplicate(
                    lines,
                    i,
                ) by {
                if a < pre.len() {
                    assert(full[a] == pre[a]);
                    let i = choose|i: int|
                        0 <= i < n - 1 && pre[a] == lines[i] && !has_later_duplicate(lines, i);
                    assert(0 <= i < n && full[a] == lines[i] && !has_later_duplicate(lines, i));
                } else {
                    assert(0 <= n - 1 < n && full[a] == lines[n - 1] && !has_later_duplicate(
                        lines,
                        n - 1,
                    ));
                }
            }
            assert forall|a: int, b: int|
                0 <= a < b < full.len() implies !matches_either_order(
                (#[trigger] full[a]).screen_space,
                (#[trigger] full[b]).screen_space,
            ) by {
                if b < pre.len() {
                    assert(full[a] == pre[a] && full[b] == pre[b]);
                } else {
                    assert(full[a] == pre[a] && full[b] == lines[n - 1]);
                    let i = choose|i: int|
                        0 <= i < n - 1 && pre[a] == lines[i] && !has_later_duplicate(lines, i);
                    if matches_either_order(lines[i].screen_space, lines[n - 1].screen_space) {
                        assert(has_later_duplicate(lines, i));
                        assert(false);
                    }
                }
            }
        } else {
            assert(full =~= pre);
        }
    }
}

/// After deduplication no two remaining lines cover the same screen-space
/// edge, in either orientation.
pub proof fn lemma_dedupe_no_duplicates(lines: Seq<ProjectedLine>, a: int, b: int)
    requires
        0 <= a < b < spec_dedupe(lines).len(),
    ensures
        !matches_either_order(
            spec_dedupe(lines)[a].screen_space,
            spec_dedupe(lines)[b].screen_space,
        ),
{
    lemma_dedupe_prefix_distinct(lines, lines.len() as int);
}

/// Deduplication keeps only lines of the input.
pub proof fn lemma_dedupe_prefix_wf(lines: Seq<ProjectedLine>, n: int)
    requires
        0 <= n <= lines.len(),
        forall|k: int| 0 <= k < lines.len() ==> (#[trigger] lines[k]).wf(),
    ensures
        forall|k: int|
            0 <= k < dedupe_prefix(lines, n).len() ==> (#[trigger] dedupe_prefix(lines, n)[k]).wf(),
    decreases n,
{
    if n > 0 {
        lemma_dedupe_prefix_wf(lines, n - 1);
        let pre = dedupe_prefix(lines, n - 1);
        let full = dedupe_prefix(lines, n);
        assert forall|k: int| 0 <= k < full.len() implies (#[trigger] full[k]).wf() by {
            if k < pre.len() {
                assert(full[k] == pre[k]);
            } else {
                assert(full[k] == lines[n - 1]);
            }
        }
    }
}

/// Deduplication never grows the sequence.
pub proof fn lemma_dedupe_prefix_len(lines: Seq<ProjectedLine>, n: int)
    requires
        0 <= n,
    ensures
        dedupe_prefix(lines, n).len() <= n,
    decreases n,
{
    if n > 0 {
        lemma_dedupe_prefix_len(lines, n - 1);
    }
}

/// Remove every projected line whose screen-space endpoints match a later
/// line's, in either order, within tolerance.  This collapses the double
/// discovery of each interior mesh edge into one instance.
pub fn dedupe_lines(lines: Vec<ProjectedLine>) -> (r: Vec<ProjectedLine>)
    ensures
        r@ == spec_dedupe(lines@),
{
    let len = lines.len();
    let mut out: Vec<ProjectedLine> = Vec::new();
    let mut k: usize = 0;
    while k < len
        invariant
            k <= len,
            len == lines@.len(),
            out@ == dedupe_prefix(lines@, k as int),
        decreases len - k,
    {
        let mut dup = false;
        let mut j: usize = k + 1;
        while j < len
            invariant
                k < j <= len || (j == k + 1 && len <= k + 1),
                len == lines@.len(),
                (k as int) < len,
                dup == exists|q: int|
                    k < q < j && matches_either_order(
                        lines@[k as int].screen_space,
                        (#[trigger] lines@[q]).screen_space,
                    ),
            decreases len - j,
        {
            let same = approx_eq2(&lines[k].screen_space.to, &lines[j].screen_space.to)
                && approx_eq2(&lines[k].screen_space.from, &lines[j].screen_space.from);
            let reversed = approx_eq2(&lines[k].screen_space.to, &lines[j].screen_space.from)
                && approx_eq2(&lines[k].screen_space.from, &lines[j].screen_space.to);
            if same || reversed {
                proof {
                    assert(matches_either_order(
                        lines@[k as int].screen_space,
                        lines@[j as int].screen_space,
                    ));
                }
                dup = true;
            }
            j = j + 1;
        }
        if !dup {
            out.push(lines[k]);
        }
        k = k + 1;
    }
    out
}

/// Exec squared screen-space distance, widened.
pub fn dist_sq2_exec(a: &Point2, b: &Point2) -> (r: i128)
    requires
        a.wf(),
        b.wf(),
    ensures
        r as int == dist_sq2(*a, *b),
{
    let dx: i128 = a.x as i128 - b.x as i128;
    let dy: i128 = a.y as i128 - b.y as i128;
    proof {
        let d = 2 * MAX_UNIT as int;
        lemma_mul_bound(dx as int, dx as int, d, d);
        lemma_mul_bound(dy as int, dy as int, d, d);
    }
    dx * dx + dy * dy
}

/// The points are in non-decreasing order of squared distance from `origin`.
pub open spec fn sorted_by_dist(pts: Seq<Point2>, origin: Point2) -> bool {
    forall|k: int, l: int|
        0 <= k < l < pts.len() ==> dist_sq2(#[trigger] pts[k], origin) <= dist_sq2(
            #[trigger] pts[l],
            origin,
        )
}

/// Sort points by squared distance from `origin` (selection sort); the
/// result is a permutation of the input in non-decreasing distance order.
fn sort_points_by_distance(pts: Vec<Point2>, origin: &Point2) -> (r: Vec<Point2>)
    requires
        forall|k: int| 0 <= k < pts@.len() ==> (#[trigger] pts@[k]).wf(),
        origin.wf(),
    ensures
        r@.to_multiset() == pts@.to_multiset(),
        r@.len() == pts@.len(),
        sorted_by_dist(r@, *origin),
        forall|k: int| 0 <= k < r@.len() ==> (#[trigger] r@[k]).wf(),
{
    broadcast use vstd::seq_lib::group_to_multiset_ensures;

    let mut rest = pts;
    let mut out: Vec<Point2> = Vec::new();
    while rest.len() > 0
        invariant
            forall|k: int| 0 <= k < rest@.len() ==> (#[trigger] rest@[k]).wf(),
            forall|k: int| 0 <= k < out@.len() ==> (#[trigger] out@[k]).wf(),
            origin.wf(),
            out@.to_multiset().add(rest@.to_multiset()) =~= pts@.to_multiset(),
            out@.len() + rest@.len() == pts@.len(),
            sorted_by_dist(out@, *origin),
            forall|a: int, b: int|
                0 <= a < out@.len() && 0 <= b < rest@.len() ==> dist_sq2(
                    #[trigger] out@[a],
                    *origin,
                ) <= dist_sq2(#[trigger] rest@[b], *origin),
        decreases rest@.len(),
    {
        let mut m: usize = 0;
        let mut best = dist_sq2_exec(&rest[0], origin);
        let mut q: usize = 1;
        while q < rest.len()
            invariant
                forall|k: int| 0 <= k < rest@.len() ==> (#[trigger] rest@[k]).wf(),
                origin.wf(),
                0 < rest@.len(),
                (m as int) < q as int || (m == 0 && q <= 1),
                q <= rest@.len(),
                (m as int) < rest@.len(),
                best == dist_sq2(rest@[m as int], *origin),
                forall|k: int|
                    0 <= k < q ==> best <= dist_sq2(#[trigger] rest@[k], *origin),
            decreases rest@.len() - q,
        {
            let d = dist_sq2_exec(&rest[q], origin);
            if d < best {
                m = q;
                best = d;
            }
            q = q + 1;
        }
        let ghost rest0 = rest@;
        let ghost out0 = out@;
        let p = rest.remove(m);
        out.push(p);
        proof {
            rest0.to_multiset_ensures();
            out0.to_multiset_ensures();
            assert(rest@ == rest0.remove(m as int));
            assert((rest0.remove(m as int)).to_multiset() =~= rest0.to_multiset().remove(
                rest0[m as int],
            ));
            assert(out@ == out0.push(p));
            assert((out0.push(p)).to_multiset() =~= out0.to_multiset().insert(p));
            assert(rest0.contains(rest0[m as int]));
            assert(rest0.to_multiset().count(rest0[m as int]) > 0);
            assert(out@.to_multiset().add(rest@.to_multiset()) =~= pts@.to_multiset());
        }
    }
    proof {
        assert(out@.to_multiset().add(rest@.to_multiset()) =~= out@.to_multiset());
    }
    out
}

/// The intersection point of an unordered pair of projected lines: the
/// lower-indexed line is always the first argument, so both lines see the
/// same point.
pub open spec fn spec_pair_intersection(lines: Seq<ProjectedLine>, i: int, j: int) -> Option<
    Point2,
> {
    if i <= j {
        spec_find_intersection(lines[i].screen_space, lines[j].screen_space)
    } else {
        spec_find_intersection(lines[j].screen_space, lines[i].screen_space)
    }
}

/// The split points found for line `i` against the lines before `j`, in
/// discovery order.
pub open spec fn split_points_prefix(lines: Seq<ProjectedLine>, i: int, j: int) -> Seq<Point2>
    decreases j,
{
    if j <= 0 {
        Seq::empty()
    } else {
        split_points_prefix(lines, i, j - 1) + if j - 1 == i {
            Seq::empty()
        } else {
            match spec_pair_intersection(lines, i, j - 1) {
                Some(p) => seq![p],
                None => Seq::empty(),
            }
        }
    }
}

/// All split points of line `i`: its intersections with every other line.
pub open spec fn spec_split_points(lines: Seq<ProjectedLine>, i: int) -> Seq<Point2> {
    split_points_prefix(lines, i, lines.len() as int)
}

/// The interior chain points of a split: the `to` endpoint of every
/// sub-segment but the last.
pub open spec fn interior_points(segs: Seq<LineSegment2>) -> Seq<Point2> {
    Seq::new((segs.len() - 1) as nat, |m: int| segs[m].to)
}

/// The sub-segments of `entry` partition line `i` of `lines` at exactly its
/// split points: they chain from the line's `from` to its `to`, their
/// interior chain points are the split points, and they come in
/// non-decreasing distance order from the line's `from` endpoint.
pub open spec fn valid_split(
    entry: ProjectedSplitLine,
    lines: Seq<ProjectedLine>,
    i: int,
) -> bool {
    let line = lines[i].screen_space;
    let pts = spec_split_points(lines, i);
    let segs = entry.split_screen_space_lines@;
    &&& entry.projected_line == lines[i]
    &&& segs.len() == pts.len() + 1
    &&& segs[0].from == line.from
    &&& segs[segs.len() - 1].to == line.to
    &&& forall|m: int| 0 <= m < segs.len() - 1 ==> (#[trigger] segs[m]).to == segs[m + 1].from
    &&& interior_points(segs).to_multiset() == pts.to_multiset()
    &&& sorted_by_dist(interior_points(segs), line.from)
}

/// A split entry's parent line and sub-segments are within the working
/// range.
pub open spec fn split_wf(entry: ProjectedSplitLine) -> bool {
    entry.projected_line.wf() && forall|j: int|
        0 <= j < entry.split_screen_space_lines@.len() ==> (
        #[trigger] entry.split_screen_space_lines@[j]).wf()
}

/// The cache cell for `(row, col)` is either untested or agrees with the
/// pair's intersection.
pub open spec fn cache_cell_ok(
    v: IntersectionVisited,
    lines: Seq<ProjectedLine>,
    r: int,
    c: int,
) -> bool {
    match v {
        IntersectionVisited::Untested => true,
        IntersectionVisited::NoIntersection => spec_pair_intersection(lines, r, c) is None,
        IntersectionVisited::FoundIntersection(p) => spec_pair_intersection(lines, r, c) == Some(
            p,
        ),
    }
}

/// Memo of one ordered pair of lines in the intersection cache.
#[derive(Copy, Clone, Debug)]
pub enum IntersectionVisited {
    Untested,
    NoIntersection,
    FoundIntersection(Point2),
}

/// For every ordered pair of distinct lines, find their intersection (with
/// a symmetric cache so each unordered pair is tested once) and split each
/// line at all its intersection points, ordered by distance from its `from`
/// endpoint.
pub fn split_lines_by_intersection(lines: Vec<ProjectedLine>) -> (r: Vec<ProjectedSplitLine>)
    requires
        lines@.len() < 65536,
        forall|k: int| 0 <= k < lines@.len() ==> (#[trigger] lines@[k]).wf(),
    ensures
        r@.len() == lines@.len(),
        forall|i: int| 0 <= i < r@.len() ==> valid_split(#[trigger] r@[i], lines@, i),
        forall|i: int| 0 <= i < r@.len() ==> split_wf(#[trigger] r@[i]),
{
    broadcast use vstd::seq_lib::group_to_multiset_ensures;

    let n = lines.len();
    let mut cache: Vec<IntersectionVisited> = Vec::new();
    let mut c: usize = 0;
    proof {
        assert((n as int) * (n as int) < 65536 * 65536) by (nonlinear_arith)
            requires
                (n as int) < 65536,
                0 <= n as int,
        ;
    }
    let cache_len = n * n;
    while c < cache_len
        invariant
            c <= cache_len,
            cache_len == (n as int) * (n as int),
            cache@.len() == c,
            forall|q: int| 0 <= q < c ==> cache@[q] is Untested,
        decreases cache_len - c,
    {
        cache.push(IntersectionVisited::Untested);
        c = c + 1;
    }
    proof {
        assert forall|rr: int, cc: int| 0 <= rr < n && 0 <= cc < n implies cache_cell_ok(
            #[trigger] cache@[rr * (n as int) + cc],
            lines@,
            rr,
            cc,
        ) by {
            assert(0 <= rr * (n as int) + cc < (n as int) * (n as int)) by (nonlinear_arith)
                requires
                    0 <= rr < n as int,
                    0 <= cc < n as int,
            ;
        }
        assert forall|rr: int, cc: int| 0 <= rr < cc < n implies (#[trigger] cache@[rr * (
        n as int) + cc]) is Untested by {
            assert(0 <= rr * (n as int) + cc < (n as int) * (n as int)) by (nonlinear_arith)
                requires
                    0 <= rr < n as int,
                    0 <= cc < n as int,
            ;
        }
    }
    let mut out: Vec<ProjectedSplitLine> = Vec::new();
    let mut i: usize = 0;
    while i < n
        invariant
            i <= n,
            n == lines@.len(),
            n < 65536,
            (n as int) * (n as int) < 4294967296,
            forall|k: int| 0 <= k < lines@.len() ==> (#[trigger] lines@[k]).wf(),
            cache@.len() == (n as int) * (n as int),
            forall|rr: int, cc: int|
                0 <= rr < n && 0 <= cc < n ==> cache_cell_ok(
                    #[trigger] cache@[rr * (n as int) + cc],
                    lines@,
                    rr,
                    cc,
                ),
            forall|p: int, q: int|
                0 <= p < i && p < q < n ==> !((#[trigger] cache@[q * (n as int) + p])
                    is Untested),
            forall|rr: int, cc: int|
                0 <= rr < cc < n ==> (#[trigger] cache@[rr * (n as int) + cc]) is Untested,
            out@.len() == i,
            forall|k: int| 0 <= k < i ==> valid_split(#[trigger] out@[k], lines@, k),
            forall|k: int| 0 <= k < i ==> split_wf(#[trigger] out@[k]),
        decreases n - i,
    {
        let line = lines[i].screen_space;
        let mut split_points: Vec<Point2> = Vec::new();
        let mut j: usize = 0;
        while j < n
            invariant
                j <= n,
                i < n,
                n == lines@.len(),
                n < 65536,
                (n as int) * (n as int) < 4294967296,
                forall|k: int| 0 <= k < lines@.len() ==> (#[trigger] lines@[k]).wf(),
                line == lines@[i as int].screen_space,
                cache@.len() == (n as int) * (n as int),
                forall|rr: int, cc: int|
                    0 <= rr < n && 0 <= cc < n ==> cache_cell_ok(
                        #[trigger] cache@[rr * (n as int) + cc],
                        lines@,
                        rr,
                        cc,
                    ),
                forall|p: int, q: int|
                    0 <= p < i && p < q < n ==> !((#[trigger] cache@[q * (n as int) + p])
                        is Untested),
                forall|q: int|
                    (i as int) < q < j ==> !((#[trigger] cache@[q * (n as int) + i as int])
                        is Untested),
                forall|rr: int, cc: int|
                    0 <= rr < cc < n ==> (#[trigger] cache@[rr * (n as int) + cc]) is Untested,
                split_points@ == split_points_prefix(lines@, i as int, j as int),
                forall|k: int|
                    0 <= k < split_points@.len() ==> (#[trigger] split_points@[k]).wf(),
            decreases n - j,
        {
            if i != j {
                proof {
                    assert((i as int) * (n as int) + (j as int) < (n as int) * (n as int))
                        by (nonlinear_arith)
                        requires
                            0 <= (i as int) < n as int,
                            0 <= (j as int) < n as int,
                    ;
                    assert((j as int) * (n as int) + (i as int) < (n as int) * (n as int))
                        by (nonlinear_arith)
                        requires
                            0 <= (i as int) < n as int,
                            0 <= (j as int) < n as int,
                    ;
                }
                let cell = cache[i * n + j];
                let intersection: Option<Point2> = match cell {
                    IntersectionVisited::Untested => {
                        proof {
                            if j < i {
                                assert(!(cache@[(i as int) * (n as int) + (j as int)]
                                    is Untested));
                                assert(false);
                            }
                        }
                        let test_intersection = find_intersection(
                            &line,
                            &lines[j].screen_space,
                        );
                        let ghost cache0 = cache@;
                        let ghost target = (j as int) * (n as int) + (i as int);
                        let new_cell = match &test_intersection {
                            None => IntersectionVisited::NoIntersection,
                            Some(p) => IntersectionVisited::FoundIntersection(*p),
                        };
                        cache[j * n + i] = new_cell;
                        proof {
                            assert(i < j);
                            assert(test_intersection == spec_pair_intersection(
                                lines@,
                                i as int,
                                j as int,
                            ));
                            assert(spec_pair_intersection(lines@, j as int, i as int)
                                == spec_pair_intersection(lines@, i as int, j as int));
                            assert(cache@ == cache0.update(target, new_cell));
                            assert(cache_cell_ok(new_cell, lines@, j as int, i as int));
                            assert forall|rr: int, cc: int|
                                0 <= rr < n && 0 <= cc < n implies cache_cell_ok(
                                #[trigger] cache@[rr * (n as int) + cc],
                                lines@,
                                rr,
                                cc,
                            ) by {
                                let idx = rr * (n as int) + cc;
                                assert(0 <= rr * (n as int) + cc < (n as int) * (n as int))
                                    by (nonlinear_arith)
                                    requires
                                        0 <= rr < n as int,
                                        0 <= cc < n as int,
                                ;
                                if idx == target {
                                    assert(rr == j as int && cc == i as int)
                                        by (nonlinear_arith)
                                        requires
                                            0 <= rr < n as int,
                                            0 <= cc < n as int,
                                            0 <= (i as int) < n as int,
                                            0 <= (j as int) < n as int,
                                            rr * (n as int) + cc == (j as int) * (n as int) + (
                                            i as int),
                                    ;
                                } else {
                                    assert(cache@[idx] == cache0[idx]);
                                }
                            }
                            assert forall|p: int, q: int|
                                0 <= p < i && p < q < n implies !((
                            #[trigger] cache@[q * (n as int) + p]) is Untested) by {
                                let idx = q * (n as int) + p;
                                assert(0 <= q * (n as int) + p < (n as int) * (n as int))
                                    by (nonlinear_arith)
                                    requires
                                        0 <= p < n as int,
                                        0 <= q < n as int,
                                ;
                                if idx != target {
                                    assert(cache@[idx] == cache0[idx]);
                                }
                            }
                            assert forall|rr: int, cc: int|
                                0 <= rr < cc < n implies (#[trigger] cache@[rr * (n as int)
                                + cc]) is Untested by {
                                let idx = rr * (n as int) + cc;
                                assert(0 <= rr * (n as int) + cc < (n as int) * (n as int))
                                    by (nonlinear_arith)
                                    requires
                                        0 <= rr < n as int,
                                        0 <= cc < n as int,
                                ;
                                if idx == target {
                                    assert(rr == j as int && cc == i as int)
                                        by (nonlinear_arith)
                                        requires
                                            0 <= rr < n as int,
                                            0 <= cc < n as int,
                                            0 <= (i as int) < n as int,
                                            0 <= (j as int) < n as int,
                                            rr * (n as int) + cc == (j as int) * (n as int) + (
                                            i as int),
                                    ;
                                    assert(false);
                                } else {
                                    assert(cache@[idx] == cache0[idx]);
                                }
                            }
                            assert forall|q: int|
                                (i as int) < q < j as int + 1 implies !((
                            #[trigger] cache@[q * (n as int) + i as int]) is Untested) by {
                                let idx = q * (n as int) + i as int;
                                assert(0 <= q * (n as int) + (i as int) < (n as int) * (n as int))
                                    by (nonlinear_arith)
                                    requires
                                        0 <= (i as int) < n as int,
                                        0 <= q < n as int,
                                ;
                                if idx != target {
                                    assert(cache@[idx] == cache0[idx]);
                                } else {
                                    assert(cache@[idx] == new_cell);
                                }
                            }
                        }
                        test_intersection
                    },
                    IntersectionVisited::NoIntersection => {
                        proof {
                            if i < j {
                                assert(cache@[(i as int) * (n as int) + (j as int)] is Untested);
                                assert(false);
                            }
                        }
                        None
                    },
                    IntersectionVisited::FoundIntersection(p) => {
                        proof {
                            if i < j {
                                assert(cache@[(i as int) * (n as int) + (j as int)] is Untested);
                                assert(false);
                            }
                        }
                        Some(p)
                    },
                };
                proof {
                    assert(intersection == spec_pair_intersection(lines@, i as int, j as int));
                    if intersection is Some {
                        assert(intersection->Some_0.wf());
                    }
                }
                if let Some(found) = intersection {
                    split_points.push(found);
                }
            }
            j = j + 1;
        }
        let ghost pts = spec_split_points(lines@, i as int);
        proof {
            assert(split_points@ == pts);
        }
        let split_screen_space_lines: Vec<LineSegment2> = if split_points.len() == 0 {
            let mut v: Vec<LineSegment2> = Vec::new();
            v.push(line);
            v
        } else {
            let sorted = sort_points_by_distance(split_points, &line.from);
            let mut v: Vec<LineSegment2> = Vec::new();
            let count = sorted.len();
            let mut m: usize = 0;
            while m < count
                invariant
                    m <= count,
                    count == sorted@.len(),
                    0 < count,
                    forall|k: int| 0 <= k < sorted@.len() ==> (#[trigger] sorted@[k]).wf(),
                    v@.len() == m,
                    m > 0 ==> v@[0].from == line.from,
                    line.wf(),
                    forall|q: int| 0 <= q < m ==> (#[trigger] v@[q]).to == sorted@[q],
                    forall|q: int| 0 < q < m ==> (#[trigger] v@[q]).from == sorted@[q - 1],
                    forall|q: int| 0 <= q < m ==> (#[trigger] v@[q]).wf(),
                decreases count - m,
            {
                let seg_from = if m == 0 {
                    line.from
                } else {
                    sorted[m - 1]
                };
                v.push(LineSegment2 { from: seg_from, to: sorted[m] });
                m = m + 1;
            }
            let last_point = sorted[count - 1];
            v.push(LineSegment2 { from: last_point, to: line.to });
            proof {
                assert(interior_points(v@) =~= sorted@);
            }
            v
        };
        let entry = ProjectedSplitLine {
            projected_line: lines[i],
            split_screen_space_lines,
        };
        proof {
            if pts.len() == 0 {
                assert(interior_points(entry.split_screen_space_lines@) =~= pts);
            }
            assert(valid_split(entry, lines@, i as int));
            assert(split_wf(entry));
        }
        out.push(entry);
        i = i + 1;
    }
    out
}

/// The fractional position (scaled by `SCALE`) of a sub-segment's midpoint
/// along its parent line, measured by the distances of the sub-segment's
/// endpoints from the parent's `from` point.  A zero-length parent gives 0.
pub open spec fn spec_sample_scale(seg: LineSegment2, parent: LineSegment2) -> int {
    let len = sqrt_floor(dist_sq2(parent.from, parent.to));
    let start_scale = div_any(sqrt_floor(dist_sq2(parent.from, seg.from)) * (SCALE as int), len);
    let end_scale = div_any(sqrt_floor(dist_sq2(parent.from, seg.to)) * (SCALE as int), len);
    start_scale + div_tz(end_scale - start_scale, 2)
}

/// Linear interpolation between two screen-space points at parameter `t`
/// (scaled by `SCALE`), clamped into the working range.
pub open spec fn spec_lerp2(a: Point2, b: Point2, t: int) -> Point2 {
    Point2 {
        x: clamped(a.x + div_any((b.x - a.x) * t, SCALE as int), MAX_UNIT as int) as i64,
        y: clamped(a.y + div_any((b.y - a.y) * t, SCALE as int), MAX_UNIT as int) as i64,
    }
}

/// Linear interpolation between two 3D points at parameter `t` (scaled by
/// `SCALE`), clamped into the working range.
pub open spec fn spec_lerp3(a: Point3, b: Point3, t: int) -> Point3 {
    Point3 {
        x: clamped(a.x + div_any((b.x - a.x) * t, SCALE as int), MAX_UNIT as int) as i64,
        y: clamped(a.y + div_any((b.y - a.y) * t, SCALE as int), MAX_UNIT as int) as i64,
        z: clamped(a.z + div_any((b.z - a.z) * t, SCALE as int), MAX_UNIT as int) as i64,
    }
}

/// The ray cast for one sub-segment: origin on the near plane under the
/// sample point, direction toward the interpolated view-space target
/// carrying the fixed-point scale of a unit vector, length the distance to
/// the target.
pub open spec fn spec_test_ray(seg: LineSegment2, parent: ProjectedLine, s: Scene) -> Ray {
    let scale = spec_sample_scale(seg, parent.screen_space);
    let test_screen = spec_lerp2(parent.screen_space.from, parent.screen_space.to, scale);
    let target = spec_lerp3(parent.view_space.from, parent.view_space.to, scale);
    let origin = spec_unproject_point(s, spec_inverse(s.transformation_matrix.e@), test_screen);
    let len = sqrt_floor(dist_sq3(origin, target));
    Ray {
        origin,
        direction: Point3 {
            x: div_any((target.x - origin.x) * (SCALE as int), len) as i64,
            y: div_any((target.y - origin.y) * (SCALE as int), len) as i64,
            z: div_any((target.z - origin.z) * (SCALE as int), len) as i64,
        },
        length: len as i64,
    }
}

/// Exec interpolation of one coordinate pair at parameter `t`.
fn lerp_coord(a: i64, b: i64, t: i64) -> (r: i64)
    requires
        mag(a as int) <= MAX_UNIT,
        mag(b as int) <= MAX_UNIT,
        mag(t as int) <= 8 * (1000000000000int),
    ensures
        r as int == clamped(a + div_any((b - a) * (t as int), SCALE as int), MAX_UNIT as int),
        mag(r as int) <= MAX_UNIT,
{
    proof {
        lemma_mul_bound((b - a) as int, t as int, 2000000000, 8000000000000);
    }
    let num: i128 = (b as i128 - a as i128) * t as i128;
    let q = div_i128(num, SCALE as i128);
    clamp_i128(a as i128 + q, MAX_UNIT)
}

/// One normalized ray-direction component: the difference scaled into unit
/// length.
fn direction_coord(target: i64, origin: i64, len: i64, Ghost(sq): Ghost<int>) -> (r: i64)
    requires
        mag(target as int) <= MAX_UNIT,
        mag(origin as int) <= MAX_UNIT,
        0 <= len <= 4 * MAX_UNIT,
        (target - origin) * (target - origin) <= sq,
        sq < ((len as int) + 1) * ((len as int) + 1),
    ensures
        r as int == div_any((target - origin) * (SCALE as int), len as int),
        mag(r as int) <= SCALE,
{
    proof {
        lemma_component_le_sqrt((target - origin) as int, sq, len as int);
        lemma_mul_bound((target - origin) as int, SCALE as int, 4000000000, 1000);
        if len > 0 {
            lemma_mul_bound((target - origin) as int, SCALE as int, len as int, SCALE as int);
            assert((len as int) * (SCALE as int) == (SCALE as int) * (len as int))
                by (nonlinear_arith);
            lemma_div_tz_bound((target - origin) * (SCALE as int), len as int, SCALE as int);
        }
    }
    let num: i128 = (target as i128 - origin as i128) * SCALE as i128;
    div_i128(num, len as i128) as i64
}

/// Classify one sub-segment of a projected line: locate its midpoint along
/// the parent, build the sample ray from the near plane toward the
/// interpolated view-space point, and test it against the mesh.  Fails with
/// `SingularTransform` exactly when the combined transform has no
/// representable inverse; the reused `ray` is then left unchanged.
pub fn get_visibility(
    line_segment: &LineSegment2,
    projected_line: &ProjectedLine,
    scene: &Scene,
    mesh: &Mesh,
    ray: &mut Ray,
) -> (r: Result<LineVisibility, RenderError>)
    requires
        line_segment.wf(),
        projected_line.wf(),
        scene.wf(),
        mesh.wf(),
    ensures
        match r {
            Ok(v) => {
                &&& spec_invertible(scene.transformation_matrix.e@)
                &&& *final(ray) == spec_test_ray(*line_segment, *projected_line, *scene)
                &&& final(ray).wf()
                &&& v == (if spec_ray_blocked(*final(ray), mesh.facets@) {
                    LineVisibility::OBSCURED
                } else {
                    LineVisibility::VISIBLE
                })
            },
            Err(e) => {
                &&& e == RenderError::SingularTransform
                &&& !spec_invertible(scene.transformation_matrix.e@)
                &&& *final(ray) == *old(ray)
            },
        },
{
    let screen_space_length = dist2_exec(
        &projected_line.screen_space.from,
        &projected_line.screen_space.to,
    );
    let start_distance = dist2_exec(&projected_line.screen_space.from, &line_segment.from);
    let end_distance = dist2_exec(&projected_line.screen_space.from, &line_segment.to);
    proof {
        lemma_mul_bound(start_distance as int, SCALE as int, 3000000000, 1000);
        lemma_mul_bound(end_distance as int, SCALE as int, 3000000000, 1000);
    }
    let start_scale = div_i128(
        start_distance as i128 * SCALE as i128,
        screen_space_length as i128,
    ) as i64;
    let end_scale = div_i128(
        end_distance as i128 * SCALE as i128,
        screen_space_length as i128,
    ) as i64;
    let scale = start_scale + (end_scale - start_scale) / 2;
    proof {
        assert(scale as int == spec_sample_scale(*line_segment, projected_line.screen_space));
        assert(mag(scale as int) <= 8 * (1000000000000int));
    }
    let test_screen_space_point = Point2 {
        x: lerp_coord(
            projected_line.screen_space.from.x,
            projected_line.screen_space.to.x,
            scale,
        ),
        y: lerp_coord(
            projected_line.screen_space.from.y,
            projected_line.screen_space.to.y,
            scale,
        ),
    };
    let ray_target = Point3 {
        x: lerp_coord(projected_line.view_space.from.x, projected_line.view_space.to.x, scale),
        y: lerp_coord(projected_line.view_space.from.y, projected_line.view_space.to.y, scale),
        z: lerp_coord(projected_line.view_space.from.z, projected_line.view_space.to.z, scale),
    };
    let ray_origin = match scene.unproject_point(&test_screen_space_point) {
        Ok(p) => p,
        Err(e) => {
            return Err(e);
        },
    };
    let ray_length = dist3_exec(&ray_origin, &ray_target);
    let ghost sq = dist_sq3(ray_origin, ray_target);
    proof {
        assert((ray_target.x - ray_origin.x) * (ray_target.x - ray_origin.x) == (ray_origin.x
            - ray_target.x) * (ray_origin.x - ray_target.x)) by (nonlinear_arith);
        assert((ray_target.y - ray_origin.y) * (ray_target.y - ray_origin.y) == (ray_origin.y
            - ray_target.y) * (ray_origin.y - ray_target.y)) by (nonlinear_arith);
        assert((ray_target.z - ray_origin.z) * (ray_target.z - ray_origin.z) == (ray_origin.z
            - ray_target.z) * (ray_origin.z - ray_target.z)) by (nonlinear_arith);
        assert((ray_target.y - ray_origin.y) * (ray_target.y - ray_origin.y) >= 0)
            by (nonlinear_arith);
        assert((ray_target.z - ray_origin.z) * (ray_target.z - ray_origin.z) >= 0)
            by (nonlinear_arith);
        assert((ray_target.x - ray_origin.x) * (ray_target.x - ray_origin.x) >= 0)
            by (nonlinear_arith);
        assert((ray_length as int) * (ray_length as int) <= sq && sq < ((ray_length as int) + 1)
            * ((ray_length as int) + 1));
    }
    let ray_direction = Point3 {
        x: direction_coord(ray_target.x, ray_origin.x, ray_length, Ghost(sq)),
        y: direction_coord(ray_target.y, ray_origin.y, ray_length, Ghost(sq)),
        z: direction_coord(ray_target.z, ray_origin.z, ray_length, Ghost(sq)),
    };
    ray.origin = ray_origin;
    ray.direction = ray_direction;
    ray.length = ray_length;
    proof {
        assert(*ray == spec_test_ray(*line_segment, *projected_line, *scene));
    }
    match ray.intersects_mesh(mesh) {
        false => Ok(LineVisibility::VISIBLE),
        true => Ok(LineVisibility::OBSCURED),
    }
}

} // verus!
