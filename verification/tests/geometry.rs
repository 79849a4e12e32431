use mesh_to_svg::lines::{dedupe_lines, find_intersection, split_lines_by_intersection};
use mesh_to_svg::mesh::{find_match, Mesh};
use mesh_to_svg::types::{
    dist2_exec, LineSegment2, LineSegment3, LineVisibility, Point2, Point3, ProjectedLine,
};

fn p2(x: i64, y: i64) -> Point2 {
    Point2 { x, y }
}

fn p3(x: i64, y: i64, z: i64) -> Point3 {
    Point3 { x, y, z }
}

fn seg2(ax: i64, ay: i64, bx: i64, by: i64) -> LineSegment2 {
    LineSegment2 {
        from: p2(ax, ay),
        to: p2(bx, by),
    }
}

fn proj(ax: i64, ay: i64, bx: i64, by: i64) -> ProjectedLine {
    ProjectedLine {
        screen_space: seg2(ax, ay, bx, by),
        view_space: LineSegment3 {
            from: p3(ax, ay, 0),
            to: p3(bx, by, 0),
        },
    }
}

#[test]
fn intersection_of_crossing_segments_is_midpoint() {
    let a = seg2(0, 0, 2000, 2000);
    let b = seg2(0, 2000, 2000, 0);
    let hit = find_intersection(&a, &b).expect("segments cross");
    assert_eq!(hit, p2(1000, 1000));
}

#[test]
fn intersection_of_segments_sharing_endpoint_is_none() {
    let a = seg2(0, 0, 1000, 1000);
    let b = seg2(1000, 1000, 2000, 0);
    assert!(find_intersection(&a, &b).is_none());
    let c = seg2(2000, 0, 1000, 1000);
    assert!(find_intersection(&a, &c).is_none());
}

#[test]
fn intersection_of_parallel_segments_is_none() {
    let a = seg2(0, 0, 1000, 0);
    let b = seg2(0, 500, 1000, 500);
    assert!(find_intersection(&a, &b).is_none());
}

#[test]
fn intersection_outside_parameter_range_is_none() {
    let a = seg2(0, 0, 1000, 0);
    let b = seg2(5000, -1000, 5000, 1000);
    assert!(find_intersection(&a, &b).is_none());
}

#[test]
fn dedupe_collapses_reversed_duplicate() {
    let lines = vec![proj(0, 0, 1000, 1000), proj(1000, 1000, 0, 0)];
    let deduped = dedupe_lines(lines);
    assert_eq!(deduped.len(), 1);
    assert_eq!(deduped[0].screen_space.from, p2(1000, 1000));
    assert_eq!(deduped[0].screen_space.to, p2(0, 0));
}

#[test]
fn dedupe_collapses_same_order_duplicate_and_keeps_distinct() {
    let lines = vec![
        proj(0, 0, 1000, 0),
        proj(0, 0, 1000, 0),
        proj(0, 0, 0, 1000),
    ];
    let deduped = dedupe_lines(lines);
    assert_eq!(deduped.len(), 2);
    assert_eq!(deduped[0].screen_space.to, p2(1000, 0));
    assert_eq!(deduped[1].screen_space.to, p2(0, 1000));
}

#[test]
fn split_uncrossed_line_is_unchanged() {
    let lines = vec![proj(0, 0, 1000, 0), proj(0, 500, 1000, 500)];
    let split = split_lines_by_intersection(lines);
    assert_eq!(split.len(), 2);
    assert_eq!(split[0].split_screen_space_lines.len(), 1);
    assert_eq!(split[0].split_screen_space_lines[0], seg2(0, 0, 1000, 0));
}

#[test]
fn split_single_crossing_makes_two_sub_segments() {
    let lines = vec![proj(0, 0, 2000, 2000), proj(0, 2000, 2000, 0)];
    let split = split_lines_by_intersection(lines);
    assert_eq!(split.len(), 2);
    let subs = &split[0].split_screen_space_lines;
    assert_eq!(subs.len(), 2);
    assert_eq!(subs[0], seg2(0, 0, 1000, 1000));
    assert_eq!(subs[1], seg2(1000, 1000, 2000, 2000));
    let subs_b = &split[1].split_screen_space_lines;
    assert_eq!(subs_b.len(), 2);
    assert_eq!(subs_b[0], seg2(0, 2000, 1000, 1000));
    assert_eq!(subs_b[1], seg2(1000, 1000, 2000, 0));
}

#[test]
fn split_orders_sub_segments_by_distance_from_start() {
    let lines = vec![
        proj(0, 0, 10000, 0),
        proj(7000, -1000, 7000, 1000),
        proj(2000, -1000, 2000, 1000),
    ];
    let split = split_lines_by_intersection(lines);
    let subs = &split[0].split_screen_space_lines;
    assert_eq!(subs.len(), 3);
    assert_eq!(subs[0], seg2(0, 0, 2000, 0));
    assert_eq!(subs[1], seg2(2000, 0, 7000, 0));
    assert_eq!(subs[2], seg2(7000, 0, 10000, 0));
}

#[test]
fn screen_distance_is_rounded_euclidean() {
    assert_eq!(dist2_exec(&p2(0, 0), &p2(3000, 4000)), 5000);
    assert_eq!(dist2_exec(&p2(0, 0), &p2(1, 1)), 1);
    assert_eq!(dist2_exec(&p2(5, 7), &p2(5, 7)), 0);
}

fn tetrahedron() -> Mesh {
    let vertices: Vec<i64> = vec![
        0, 0, 0, //
        1000, 0, 0, //
        0, 1000, 0, //
        0, 0, 1000,
    ];
    let normals = vertices.clone();
    let indices: Vec<usize> = vec![0, 1, 2, 0, 3, 1, 0, 2, 3, 1, 3, 2];
    Mesh::new(indices, vertices, normals).expect("tetrahedron is a valid mesh")
}

#[test]
fn adjacency_of_closed_tetrahedron_is_symmetric() {
    let mesh = tetrahedron();
    let adjacency = mesh.compute_adjacency();
    assert_eq!(adjacency.len(), 12);
    for i in 0..adjacency.len() {
        let t = adjacency[i].expect("every half-edge of a closed mesh has a neighbour");
        let own_triangle = i / 3;
        let back = (0..3).any(|s| adjacency[t * 3 + s] == Some(own_triangle));
        assert!(back, "slot {} resolved to triangle {} with no back edge", i, t);
    }
}

#[test]
fn find_match_locates_reverse_half_edge() {
    // Two triangles sharing the edge (1, 2): (0,1,2) and (2,1,3).
    let points: Vec<Point3> = vec![
        p3(0, 0, 0),
        p3(1000, 0, 0),
        p3(0, 1000, 0),
        p3(1000, 1000, 0),
    ];
    let indices: Vec<usize> = vec![0, 1, 2, 2, 1, 3];
    // Slot 1 starts the half-edge (1, 2); its reverse (2, 1) is in triangle 1.
    assert_eq!(find_match(&indices, &points, 1, true), Some(1));
    // Slot 0 starts (0, 1), which no other triangle closes.
    assert_eq!(find_match(&indices, &points, 0, true), None);
}

#[test]
fn adjacency_falls_back_to_positions_for_duplicated_vertices() {
    // The same two triangles, but the shared edge uses duplicated vertices
    // at identical positions, so only the approximate pass can match.
    let vertices: Vec<i64> = vec![
        0, 0, 0, //
        1000, 0, 0, //
        0, 1000, 0, //
        0, 1000, 0, //
        1000, 0, 0, //
        1000, 1000, 0,
    ];
    let normals = vertices.clone();
    let indices: Vec<usize> = vec![0, 1, 2, 3, 4, 5];
    let mesh = Mesh::new(indices, vertices, normals).expect("valid mesh");
    let adjacency = mesh.compute_adjacency();
    assert_eq!(adjacency[1], Some(1));
    assert_eq!(adjacency[3], Some(0));
}

#[test]
fn single_triangle_has_no_adjacency() {
    let vertices: Vec<i64> = vec![0, 0, 0, 1000, 0, 0, 0, 1000, 0];
    let normals = vertices.clone();
    let mesh = Mesh::new(vec![0, 1, 2], vertices, normals).expect("valid mesh");
    let adjacency = mesh.compute_adjacency();
    assert_eq!(adjacency, vec![None, None, None]);
}

#[test]
fn degenerate_triangle_does_not_match_itself() {
    // All three slots reference the same vertex; a slot of the triangle's
    // own half-edges must not count as a neighbour.
    let vertices: Vec<i64> = vec![0, 0, 0];
    let normals = vertices.clone();
    let mesh = Mesh::new(vec![0, 0, 0], vertices, normals).expect("valid mesh");
    let adjacency = mesh.compute_adjacency();
    assert_eq!(adjacency, vec![None, None, None]);
}

#[test]
fn visibility_enum_distinguishes_classes() {
    assert!(LineVisibility::VISIBLE != LineVisibility::OBSCURED);
}
