use mesh_to_svg::lines::{get_visibility, split_lines_by_intersection};
use mesh_to_svg::types::LineVisibility;
use mesh_to_svg::mesh::{Mesh, Wireframe};
use mesh_to_svg::scene::{Ray, Scene};
use mesh_to_svg::svg_renderer::build_svg_config;
use mesh_to_svg::types::{LineSegment3, Point2, Point3, RenderError};
use mesh_to_svg::mesh_to_svg_lines;

fn identity() -> Vec<i64> {
    let mut m = vec![0i64; 16];
    m[0] = 1000;
    m[5] = 1000;
    m[10] = 1000;
    m[15] = 1000;
    m
}

/// Column-major rotation about the Y axis by roughly 25 degrees.
fn rotation_y() -> Vec<i64> {
    let c: i64 = 906;
    let s: i64 = 423;
    let mut m = vec![0i64; 16];
    // column 0
    m[0] = c;
    m[2] = -s;
    // column 1
    m[5] = 1000;
    // column 2
    m[8] = s;
    m[10] = c;
    // column 3
    m[15] = 1000;
    m
}

fn camera_forward() -> Vec<i64> {
    vec![0, 0, -1000]
}

/// A unit-ish cube (corners at +/-0.5) with four vertices per face so every
/// facet carries its exact face normal; adjacency across faces relies on
/// the positional fallback.
fn cube() -> (Vec<usize>, Vec<i64>, Vec<i64>) {
    let h: i64 = 500;
    let faces: [([i64; 3], [[i64; 3]; 4]); 6] = [
        ([0, 0, -1000], [[-h, -h, -h], [h, -h, -h], [h, h, -h], [-h, h, -h]]),
        ([0, 0, 1000], [[h, -h, h], [-h, -h, h], [-h, h, h], [h, h, h]]),
        ([-1000, 0, 0], [[-h, -h, h], [-h, -h, -h], [-h, h, -h], [-h, h, h]]),
        ([1000, 0, 0], [[h, -h, -h], [h, -h, h], [h, h, h], [h, h, -h]]),
        ([0, -1000, 0], [[-h, -h, h], [h, -h, h], [h, -h, -h], [-h, -h, -h]]),
        ([0, 1000, 0], [[-h, h, -h], [h, h, -h], [h, h, h], [-h, h, h]]),
    ];
    let mut vertices: Vec<i64> = Vec::new();
    let mut normals: Vec<i64> = Vec::new();
    let mut indices: Vec<usize> = Vec::new();
    for (f, (normal, corners)) in faces.iter().enumerate() {
        for corner in corners.iter() {
            vertices.extend_from_slice(corner);
            normals.extend_from_slice(normal);
        }
        let base = f * 4;
        indices.extend_from_slice(&[base, base + 1, base + 2, base, base + 2, base + 3]);
    }
    (indices, vertices, normals)
}

fn cube_mesh() -> Mesh {
    let (indices, vertices, normals) = cube();
    Mesh::new(indices, vertices, normals).expect("cube is a valid mesh")
}

fn scene_with_world(world: Vec<i64>) -> Scene {
    Scene::new(800, 600, identity(), identity(), world, camera_forward())
}

fn contains_edge(edges: &[LineSegment3], a: Point3, b: Point3) -> bool {
    edges.iter().any(|e| (e.from == a && e.to == b) || (e.from == b && e.to == a))
}

#[test]
fn cube_sharp_edges_are_all_found_regardless_of_camera() {
    let mesh = cube_mesh();
    let h: i64 = 500;
    for world in [identity(), rotation_y()] {
        let scene = scene_with_world(world);
        let edges = mesh.find_edge_lines(&scene, false);
        // The 12 cube edges connect corners that differ in exactly one axis.
        let mut count = 0;
        for x in [-h, h] {
            for y in [-h, h] {
                let a = Point3 { x, y, z: -h };
                let b = Point3 { x, y, z: h };
                assert!(contains_edge(&edges, a, b));
                count += 1;
            }
        }
        for x in [-h, h] {
            for z in [-h, h] {
                let a = Point3 { x, y: -h, z };
                let b = Point3 { x, y: h, z };
                assert!(contains_edge(&edges, a, b));
                count += 1;
            }
        }
        for y in [-h, h] {
            for z in [-h, h] {
                let a = Point3 { x: -h, y, z };
                let b = Point3 { x: h, y, z };
                assert!(contains_edge(&edges, a, b));
                count += 1;
            }
        }
        assert_eq!(count, 12);
    }
}

#[test]
fn cube_face_diagonals_are_not_drawn() {
    let mesh = cube_mesh();
    let scene = scene_with_world(identity());
    let edges = mesh.find_edge_lines(&scene, false);
    let h: i64 = 500;
    // The diagonal of the front face runs between opposite corners.
    let a = Point3 { x: -h, y: -h, z: -h };
    let b = Point3 { x: h, y: h, z: -h };
    assert!(!contains_edge(&edges, a, b));
}

fn classify_all(mesh: &Mesh, scene: &Scene) -> (usize, usize) {
    let edges = mesh.find_edge_lines(scene, false);
    let projected = scene.project_lines(&edges);
    let split = split_lines_by_intersection(projected);
    let mut ray = Ray::new();
    let mut visible = 0;
    let mut obscured = 0;
    for entry in &split {
        for sub in &entry.split_screen_space_lines {
            match get_visibility(sub, &entry.projected_line, scene, mesh, &mut ray)
                .expect("transform is invertible")
            {
                LineVisibility::VISIBLE => visible += 1,
                LineVisibility::OBSCURED => obscured += 1,
            }
        }
    }
    (visible, obscured)
}

#[test]
fn rotated_cube_has_visible_and_obscured_segments() {
    let mesh = cube_mesh();
    let scene = scene_with_world(rotation_y());
    let (visible, obscured) = classify_all(&mesh, &scene);
    assert!(visible >= 1, "expected visible segments, got none");
    assert!(obscured >= 1, "expected at least one obscured far edge");
}

#[test]
fn far_edge_of_rotated_cube_is_obscured() {
    // With the cube turned about Y, the vertical edge at model coordinates
    // (x, z) = (-0.5, 0.5) sits diagonally behind the two camera-facing
    // faces, so every one of its sub-segments must be blocked.
    let mesh = cube_mesh();
    let scene = scene_with_world(rotation_y());
    let edges = mesh.find_edge_lines(&scene, false);
    let projected = scene.project_lines(&edges);
    let split = split_lines_by_intersection(projected);
    let mut ray = Ray::new();
    let mut found = false;
    for entry in &split {
        let v = &entry.projected_line.view_space;
        let on_far_edge = v.from.x == -500 && v.from.z == 500 && v.to.x == -500 && v.to.z == 500;
        if !on_far_edge {
            continue;
        }
        found = true;
        for seg in &entry.split_screen_space_lines {
            let vis = get_visibility(seg, &entry.projected_line, &scene, &mesh, &mut ray)
                .expect("transform is invertible");
            assert!(vis == LineVisibility::OBSCURED, "far edge sub-segment was visible");
        }
    }
    assert!(found, "the far vertical edge must survive projection");
}

#[test]
fn unobstructed_wireframe_segment_is_visible() {
    // A single triangle well behind a wireframe segment cannot obscure it.
    let vertices: Vec<i64> = vec![
        -500, -500, 900, //
        500, -500, 900, //
        0, 500, 900,
    ];
    let normals: Vec<i64> = vec![0, 0, -1000, 0, 0, -1000, 0, 0, -1000];
    let mesh = Mesh::new(vec![0, 1, 2], vertices, normals).expect("valid mesh");
    let scene = scene_with_world(identity());
    let wire = Wireframe::new(
        vec![0, 1],
        vec![-400, 0, -500, 400, 0, -500],
    )
    .expect("valid wireframe");
    let edges = wire.edges();
    let projected = scene.project_lines(&edges);
    let split = split_lines_by_intersection(projected);
    let mut ray = Ray::new();
    for entry in &split {
        for sub in &entry.split_screen_space_lines {
            let v = get_visibility(sub, &entry.projected_line, &scene, &mesh, &mut ray)
                .expect("transform is invertible");
            assert!(v == LineVisibility::VISIBLE);
        }
    }
}

#[test]
fn projection_round_trip_recovers_near_plane_point() {
    let scene = Scene::new(1000, 1000, identity(), identity(), identity(), camera_forward());
    let p = Point3 { x: 600, y: 800, z: -1000 };
    let screen = scene.project_point(&p);
    assert_eq!(screen, Point2 { x: 800000, y: 100000 });
    let back = scene.unproject_point(&screen).expect("identity is invertible");
    assert!((back.x - p.x).abs() <= 2);
    assert!((back.y - p.y).abs() <= 2);
    assert!((back.z - p.z).abs() <= 2);
}

fn default_config() -> mesh_to_svg::svg_renderer::SvgConfig {
    build_svg_config(800, 600, None, None, None, None, None, None, None, None, None)
}

#[test]
fn end_to_end_cube_renders_both_classes() {
    let (indices, vertices, normals) = cube();
    let svg = mesh_to_svg_lines(
        800,
        600,
        indices,
        vertices,
        normals,
        Vec::new(),
        Vec::new(),
        identity(),
        identity(),
        rotation_y(),
        camera_forward(),
        default_config(),
    )
    .expect("cube renders");
    assert!(svg.starts_with("<svg viewBox=\"0 0 800 600\""));
    assert_eq!(svg.matches("<path").count(), 2);
    assert!(svg.contains("stroke=\"black\""));
    assert!(svg.contains("stroke=\"grey\""));
    assert!(svg.ends_with("</svg>"));
}

#[test]
fn end_to_end_hide_obscured_emits_one_path() {
    let (indices, vertices, normals) = cube();
    let config = build_svg_config(
        800,
        600,
        None,
        None,
        None,
        None,
        None,
        Some(true),
        None,
        None,
        None,
    );
    let svg = mesh_to_svg_lines(
        800,
        600,
        indices,
        vertices,
        normals,
        Vec::new(),
        Vec::new(),
        identity(),
        identity(),
        rotation_y(),
        camera_forward(),
        config,
    )
    .expect("cube renders");
    assert_eq!(svg.matches("<path").count(), 1);
    assert!(!svg.contains("grey"));
}

#[test]
fn ragged_index_count_is_invalid_mesh() {
    let r = Mesh::new(vec![0, 1], vec![0, 0, 0, 1000, 0, 0, 0, 1000, 0], vec![
        0, 0, 1000, 0, 0, 1000, 0, 0, 1000,
    ]);
    assert_eq!(r.err(), Some(RenderError::InvalidMesh));
}

#[test]
fn out_of_range_index_is_invalid_mesh() {
    let r = Mesh::new(vec![0, 1, 5], vec![0, 0, 0, 1000, 0, 0, 0, 1000, 0], vec![
        0, 0, 1000, 0, 0, 1000, 0, 0, 1000,
    ]);
    assert_eq!(r.err(), Some(RenderError::InvalidMesh));
}

#[test]
fn odd_wireframe_index_count_is_invalid_mesh() {
    let r = Wireframe::new(vec![0], vec![0, 0, 0]);
    assert_eq!(r.err(), Some(RenderError::InvalidMesh));
}

#[test]
fn end_to_end_invalid_mesh_is_reported() {
    let svg = mesh_to_svg_lines(
        800,
        600,
        vec![0, 1],
        vec![0, 0, 0, 1000, 0, 0, 0, 1000, 0],
        vec![0, 0, 1000, 0, 0, 1000, 0, 0, 1000],
        Vec::new(),
        Vec::new(),
        identity(),
        identity(),
        identity(),
        camera_forward(),
        default_config(),
    );
    assert_eq!(svg.err(), Some(RenderError::InvalidMesh));
}

#[test]
fn singular_transform_is_reported() {
    let (indices, vertices, normals) = cube();
    let zero = vec![0i64; 16];
    let svg = mesh_to_svg_lines(
        800,
        600,
        indices,
        vertices,
        normals,
        Vec::new(),
        Vec::new(),
        identity(),
        zero,
        identity(),
        camera_forward(),
        default_config(),
    );
    assert_eq!(svg.err(), Some(RenderError::SingularTransform));
}

#[test]
fn unproject_with_singular_transform_fails() {
    let zero = vec![0i64; 16];
    let scene = Scene::new(800, 600, identity(), zero, identity(), camera_forward());
    let r = scene.unproject_point(&Point2 { x: 0, y: 0 });
    assert_eq!(r.err(), Some(RenderError::SingularTransform));
}

#[test]
fn wireframe_edges_pair_consecutive_indices() {
    let wire = Wireframe::new(
        vec![0, 1, 1, 2],
        vec![0, 0, 0, 1000, 0, 0, 2000, 0, 0],
    )
    .expect("valid wireframe");
    let edges = wire.edges();
    assert_eq!(edges.len(), 2);
    assert_eq!(edges[0].from, Point3 { x: 0, y: 0, z: 0 });
    assert_eq!(edges[0].to, Point3 { x: 1000, y: 0, z: 0 });
    assert_eq!(edges[1].from, Point3 { x: 1000, y: 0, z: 0 });
    assert_eq!(edges[1].to, Point3 { x: 2000, y: 0, z: 0 });
}
