//! Hidden-line-removal renderer: turns a triangulated mesh (plus an optional
//! explicit wireframe) into a 2D vector line drawing, classifying every edge
//! segment as visible or obscured by the mesh itself, and emits the result as
//! styled SVG path markup.
//!
//! All geometry is carried in fixed-point arithmetic: a coordinate holds
//! `fixed::SCALE` sub-units per world (or pixel) unit.  Callers working in
//! floating point convert on the way in and out.

pub mod fixed;
pub mod lines;
pub mod mesh;
pub mod scene;
pub mod svg_renderer;
pub mod types;

use crate::lines::{
    get_visibility, split_lines_by_intersection, spec_dedupe, spec_test_ray, split_wf, valid_split,
};
use crate::mesh::{
    flat_in_range, indices_valid, spec_facets, spec_find_edge_lines, spec_points, spec_wire_edges,
    Mesh, Wireframe,
};
use crate::scene::{
    spec_from_column_major, spec_invertible, spec_mat_mul, spec_project_lines, spec_ray_blocked,
    Ray, Scene,
};
use crate::svg_renderer::{spec_fitted_svg, SvgConfig};
use crate::types::{
    LineSegment3, LineSegmentCulled, LineVisibility, Point3, ProjectedLine, ProjectedSplitLine,
    RenderError,
};
use vstd::prelude::*;

verus! {

/// The combined transform of the three column-major matrix buffers, as the
/// scene builds it: `projection * view * world`.
pub open spec fn spec_combined(view: Seq<i64>, projection: Seq<i64>, world: Seq<i64>) -> Seq<i64> {
    spec_mat_mul(
        spec_mat_mul(spec_from_column_major(projection), spec_from_column_major(view)),
        spec_from_column_major(world),
    )
}

/// The mesh value that `Mesh::new` builds from these buffers.
pub open spec fn mesh_built(
    m: Mesh,
    indices: Seq<usize>,
    vertices: Seq<i64>,
    normals: Seq<i64>,
) -> bool {
    &&& m.wf()
    &&& m.indices@ == indices
    &&& m.points@ == spec_points(vertices)
    &&& m.normals@ == spec_points(normals)
    &&& m.facets@ == spec_facets(m.indices@, m.points@, m.normals@)
}

/// The wireframe value that `Wireframe::new` builds from these buffers.
pub open spec fn wireframe_built(w: Wireframe, indices: Seq<usize>, vertices: Seq<i64>) -> bool {
    &&& w.wf()
    &&& w.indices@ == indices
    &&& w.points@ == spec_points(vertices)
}

/// The scene value that `Scene::new` builds from these buffers.
pub open spec fn scene_built(
    s: Scene,
    width: i64,
    height: i64,
    view: Seq<i64>,
    projection: Seq<i64>,
    world: Seq<i64>,
    camera: Seq<i64>,
) -> bool {
    &&& s.wf()
    &&& s.width == width
    &&& s.height == height
    &&& s.view_matrix.e@ == spec_from_column_major(view)
    &&& s.projection_matrix.e@ == spec_from_column_major(projection)
    &&& s.mesh_world_matrix.e@ == spec_from_column_major(world)
    &&& s.camera_forward_vector == (Point3 { x: camera[0], y: camera[1], z: camera[2] })
}

/// The visibility class of one sub-segment: obscured exactly when its
/// sample ray is blocked by the mesh.
pub open spec fn spec_visibility(
    seg: crate::types::LineSegment2,
    parent: ProjectedLine,
    s: Scene,
    m: Mesh,
) -> LineVisibility {
    if spec_ray_blocked(spec_test_ray(seg, parent, s), m.facets@) {
        LineVisibility::OBSCURED
    } else {
        LineVisibility::VISIBLE
    }
}

/// The classified sub-segments of one split line, in order.
pub open spec fn spec_classify_one(entry: ProjectedSplitLine, s: Scene, m: Mesh) -> Seq<
    LineSegmentCulled,
> {
    Seq::new(
        entry.split_screen_space_lines@.len(),
        |j: int|
            LineSegmentCulled {
                line_segment: entry.split_screen_space_lines@[j],
                visibility: spec_visibility(
                    entry.split_screen_space_lines@[j],
                    entry.projected_line,
                    s,
                    m,
                ),
            },
    )
}

/// The classified sub-segments of the first `n` split lines, flattened in
/// order.
pub open spec fn spec_classify_prefix(
    sl: Seq<ProjectedSplitLine>,
    s: Scene,
    m: Mesh,
    n: int,
) -> Seq<LineSegmentCulled>
    decreases n,
{
    if n <= 0 {
        Seq::empty()
    } else {
        spec_classify_prefix(sl, s, m, n - 1) + spec_classify_one(sl[n - 1], s, m)
    }
}

/// Some edges survive projection and deduplication, so a visibility test
/// (and hence an invertible combined transform) is needed.
pub open spec fn pipeline_has_lines(
    mesh_indices: Seq<usize>,
    mesh_vertices: Seq<i64>,
    mesh_normals: Seq<i64>,
    wireframe_indices: Seq<usize>,
    wireframe_vertices: Seq<i64>,
    width: i64,
    height: i64,
    view: Seq<i64>,
    projection: Seq<i64>,
    world: Seq<i64>,
    camera: Seq<i64>,
) -> bool {
    exists|m: Mesh, w: Wireframe, s: Scene|
        {
            &&& #[trigger] mesh_built(m, mesh_indices, mesh_vertices, mesh_normals)
            &&& #[trigger] wireframe_built(w, wireframe_indices, wireframe_vertices)
            &&& #[trigger] scene_built(s, width, height, view, projection, world, camera)
            &&& spec_dedupe(
                spec_project_lines(
                    s,
                    spec_find_edge_lines(m, s, false) + spec_wire_edges(w.indices@, w.points@),
                ),
            ).len() > 0
        }
}

/// The whole pipeline produced this document: some split of the projected
/// lines (ties in the intersection ordering leave the split unique only up
/// to equal-distance points), classified against the mesh, fitted and
/// serialized.
pub open spec fn pipeline_document(
    out: Seq<char>,
    mesh_indices: Seq<usize>,
    mesh_vertices: Seq<i64>,
    mesh_normals: Seq<i64>,
    wireframe_indices: Seq<usize>,
    wireframe_vertices: Seq<i64>,
    width: i64,
    height: i64,
    view: Seq<i64>,
    projection: Seq<i64>,
    world: Seq<i64>,
    camera: Seq<i64>,
    config: SvgConfig,
) -> bool {
    exists|m: Mesh, w: Wireframe, s: Scene, sl: Seq<ProjectedSplitLine>|
        #![trigger mesh_built(m, mesh_indices, mesh_vertices, mesh_normals),
            wireframe_built(w, wireframe_indices, wireframe_vertices),
            scene_built(s, width, height, view, projection, world, camera),
            sl.len()]
        {
            &&& mesh_built(m, mesh_indices, mesh_vertices, mesh_normals)
            &&& wireframe_built(w, wireframe_indices, wireframe_vertices)
            &&& scene_built(s, width, height, view, projection, world, camera)
            &&& {
                let edges = spec_find_edge_lines(m, s, false) + spec_wire_edges(
                    w.indices@,
                    w.points@,
                );
                let projected = spec_dedupe(spec_project_lines(s, edges));
                &&& sl.len() == projected.len()
                &&& forall|i: int| 0 <= i < sl.len() ==> valid_split(#[trigger] sl[i], projected, i)
                &&& (projected.len() > 0 ==> spec_invertible(s.transformation_matrix.e@))
                &&& out == spec_fitted_svg(
                    spec_classify_prefix(sl, s, m, sl.len() as int),
                    config,
                )
            }
        }
}

/// Render a mesh, and optionally an explicit wireframe, to an SVG line
/// drawing: derive candidate edges, project and deduplicate them, split
/// them at their screen-space intersections, classify every sub-segment by
/// casting a ray against the mesh, and emit styled path markup.
///
/// Fails with `InvalidMesh` exactly when the mesh or wireframe buffers are
/// malformed, and with `SingularTransform` exactly when edges survive
/// projection but the combined camera transform has no representable
/// inverse.
#[verifier::rlimit(100)]
pub fn mesh_to_svg_lines(
    canvas_width: i64,
    canvas_height: i64,
    mesh_indices: Vec<usize>,
    mesh_vertices: Vec<i64>,
    mesh_normals: Vec<i64>,
    wireframe_indices: Vec<usize>,
    wireframe_vertices: Vec<i64>,
    view_matrix: Vec<i64>,
    projection_matrix: Vec<i64>,
    mesh_world_matrix: Vec<i64>,
    camera_forward_vector: Vec<i64>,
    svg_config: SvgConfig,
) -> (r: Result<String, RenderError>)
    requires
        0 < canvas_width <= crate::fixed::MAX_DIM,
        0 < canvas_height <= crate::fixed::MAX_DIM,
        view_matrix@.len() == 16,
        projection_matrix@.len() == 16,
        mesh_world_matrix@.len() == 16,
        camera_forward_vector@.len() == 3,
        flat_in_range(mesh_vertices@),
        flat_in_range(mesh_normals@),
        flat_in_range(wireframe_vertices@),
        flat_in_range(view_matrix@),
        flat_in_range(projection_matrix@),
        flat_in_range(mesh_world_matrix@),
        flat_in_range(camera_forward_vector@),
        mesh_indices@.len() + wireframe_indices@.len() < 65536,
        svg_config.wf(),
    ensures
        match r {
            Ok(out) => {
                &&& indices_valid(
                    mesh_indices@,
                    mesh_vertices@.len() as int / 3,
                    mesh_normals@.len() as int / 3,
                )
                &&& wireframe_indices@.len() % 2 == 0
                &&& pipeline_document(
                    out@,
                    mesh_indices@,
                    mesh_vertices@,
                    mesh_normals@,
                    wireframe_indices@,
                    wireframe_vertices@,
                    canvas_width,
                    canvas_height,
                    view_matrix@,
                    projection_matrix@,
                    mesh_world_matrix@,
                    camera_forward_vector@,
                    svg_config,
                )
            },
            Err(RenderError::InvalidMesh) => !(indices_valid(
                mesh_indices@,
                mesh_vertices@.len() as int / 3,
                mesh_normals@.len() as int / 3,
            ) && wireframe_indices@.len() % 2 == 0 && forall|k: int|
                0 <= k < wireframe_indices@.len() ==> (#[trigger] wireframe_indices@[k] as int)
                    < wireframe_vertices@.len() as int / 3),
            Err(RenderError::SingularTransform) => {
                &&& !spec_invertible(
                    spec_combined(view_matrix@, projection_matrix@, mesh_world_matrix@),
                )
                &&& indices_valid(
                    mesh_indices@,
                    mesh_vertices@.len() as int / 3,
                    mesh_normals@.len() as int / 3,
                )
                &&& pipeline_has_lines(
                    mesh_indices@,
                    mesh_vertices@,
                    mesh_normals@,
                    wireframe_indices@,
                    wireframe_vertices@,
                    canvas_width,
                    canvas_height,
                    view_matrix@,
                    projection_matrix@,
                    mesh_world_matrix@,
                    camera_forward_vector@,
                )
            },
            Err(RenderError::DegenerateViewport) => false,
        },
{
    let mesh = match Mesh::new(mesh_indices, mesh_vertices, mesh_normals) {
        Ok(m) => m,
        Err(e) => {
            return Err(e);
        },
    };
    let wireframe = match Wireframe::new(wireframe_indices, wireframe_vertices) {
        Ok(w) => w,
        Err(e) => {
            return Err(e);
        },
    };
    let scene = Scene::new(
        canvas_width,
        canvas_height,
        view_matrix,
        projection_matrix,
        mesh_world_matrix,
        camera_forward_vector,
    );
    let mut edges = mesh.find_edge_lines(&scene, false);
    let wire_edges = wireframe.edges();
    let ghost edges0 = edges@;
    let mut k: usize = 0;
    while k < wire_edges.len()
        invariant
            k <= wire_edges@.len(),
            edges@ == edges0 + wire_edges@.subrange(0, k as int),
            forall|q: int| 0 <= q < edges@.len() ==> (#[trigger] edges@[q]).wf(),
            forall|q: int| 0 <= q < wire_edges@.len() ==> (#[trigger] wire_edges@[q]).wf(),
        decreases wire_edges@.len() - k,
    {
        edges.push(wire_edges[k]);
        proof {
            assert(edges@ =~= edges0 + wire_edges@.subrange(0, k as int + 1));
        }
        k = k + 1;
    }
    proof {
        assert(edges@ =~= edges0 + wire_edges@);
        crate::mesh::lemma_candidates_prefix_len(
            mesh.indices@,
            mesh.points@,
            mesh.facets@,
            mesh.indices@.len() as int,
        );
        crate::mesh::lemma_kept_edges_prefix_len(
            crate::mesh::spec_silhouette_candidates(mesh.indices@, mesh.points@, mesh.facets@),
            scene.mesh_world_matrix.e@,
            scene.camera_forward_vector,
            false,
            crate::mesh::spec_silhouette_candidates(
                mesh.indices@,
                mesh.points@,
                mesh.facets@,
            ).len() as int,
        );
    }
    let projected = scene.project_lines(&edges);
    proof {
        crate::lines::lemma_dedupe_prefix_len(
            spec_project_lines(scene, edges@),
            spec_project_lines(scene, edges@).len() as int,
        );
    }
    let split_lines = split_lines_by_intersection(projected);
    let mut ray = Ray::new();
    let mut segments: Vec<LineSegmentCulled> = Vec::new();
    let ghost proj_seq = spec_dedupe(spec_project_lines(scene, edges@));
    let mut i: usize = 0;
    while i < split_lines.len()
        invariant
            i <= split_lines@.len(),
            mesh_built(mesh, mesh_indices@, mesh_vertices@, mesh_normals@),
            wireframe_built(wireframe, wireframe_indices@, wireframe_vertices@),
            scene_built(
                scene,
                canvas_width,
                canvas_height,
                view_matrix@,
                projection_matrix@,
                mesh_world_matrix@,
                camera_forward_vector@,
            ),
            edges@ == spec_find_edge_lines(mesh, scene, false) + spec_wire_edges(
                wireframe.indices@,
                wireframe.points@,
            ),
            proj_seq == spec_dedupe(spec_project_lines(scene, edges@)),
            split_lines@.len() == proj_seq.len(),
            forall|q: int|
                0 <= q < split_lines@.len() ==> valid_split(
                    #[trigger] split_lines@[q],
                    proj_seq,
                    q,
                ),
            forall|q: int| 0 <= q < split_lines@.len() ==> split_wf(#[trigger] split_lines@[q]),
            scene.wf(),
            mesh.wf(),
            i > 0 ==> spec_invertible(scene.transformation_matrix.e@),
            segments@ == spec_classify_prefix(split_lines@, scene, mesh, i as int),
            forall|q: int| 0 <= q < segments@.len() ==> (#[trigger] segments@[q]).line_segment.wf(),
        decreases split_lines@.len() - i,
    {
        let entry = &split_lines[i];
        let sub_count = entry.split_screen_space_lines.len();
        let mut j: usize = 0;
        while j < sub_count
            invariant
                j <= sub_count,
                i < split_lines@.len(),
                sub_count == split_lines@[i as int].split_screen_space_lines@.len(),
                *entry == split_lines@[i as int],
                split_wf(split_lines@[i as int]),
                mesh_built(mesh, mesh_indices@, mesh_vertices@, mesh_normals@),
                wireframe_built(wireframe, wireframe_indices@, wireframe_vertices@),
                edges@ == spec_find_edge_lines(mesh, scene, false) + spec_wire_edges(
                    wireframe.indices@,
                    wireframe.points@,
                ),
                proj_seq == spec_dedupe(spec_project_lines(scene, edges@)),
                split_lines@.len() == proj_seq.len(),
                scene_built(
                    scene,
                    canvas_width,
                    canvas_height,
                    view_matrix@,
                    projection_matrix@,
                    mesh_world_matrix@,
                    camera_forward_vector@,
                ),
                scene.wf(),
                mesh.wf(),
                j > 0 ==> spec_invertible(scene.transformation_matrix.e@),
                i > 0 ==> spec_invertible(scene.transformation_matrix.e@),
                segments@ == spec_classify_prefix(split_lines@, scene, mesh, i as int)
                    + spec_classify_one(split_lines@[i as int], scene, mesh).subrange(0, j as int),
                forall|q: int|
                    0 <= q < segments@.len() ==> (#[trigger] segments@[q]).line_segment.wf(),
            decreases sub_count - j,
        {
            let sub = entry.split_screen_space_lines[j];
            let visibility = match get_visibility(
                &sub,
                &entry.projected_line,
                &scene,
                &mesh,
                &mut ray,
            ) {
                Ok(v) => v,
                Err(e) => {
                    proof {
                        assert(scene.transformation_matrix.e@ == spec_combined(
                            view_matrix@,
                            projection_matrix@,
                            mesh_world_matrix@,
                        ));
                        assert(proj_seq.len() > 0);
                        assert(pipeline_has_lines(
                            mesh_indices@,
                            mesh_vertices@,
                            mesh_normals@,
                            wireframe_indices@,
                            wireframe_vertices@,
                            canvas_width,
                            canvas_height,
                            view_matrix@,
                            projection_matrix@,
                            mesh_world_matrix@,
                            camera_forward_vector@,
                        )) by {
                            assert(mesh_built(mesh, mesh_indices@, mesh_vertices@, mesh_normals@)
                                && wireframe_built(
                                wireframe,
                                wireframe_indices@,
                                wireframe_vertices@,
                            ) && scene_built(
                                scene,
                                canvas_width,
                                canvas_height,
                                view_matrix@,
                                projection_matrix@,
                                mesh_world_matrix@,
                                camera_forward_vector@,
                            ));
                        }
                    }
                    return Err(e);
                },
            };
            segments.push(LineSegmentCulled { line_segment: sub, visibility });
            proof {
                assert(segments@ =~= spec_classify_prefix(split_lines@, scene, mesh, i as int)
                    + spec_classify_one(split_lines@[i as int], scene, mesh).subrange(
                    0,
                    j as int + 1,
                ));
            }
            j = j + 1;
        }
        proof {
            assert(spec_classify_one(split_lines@[i as int], scene, mesh).subrange(
                0,
                sub_count as int,
            ) =~= spec_classify_one(split_lines@[i as int], scene, mesh));
            assert(segments@ =~= spec_classify_prefix(split_lines@, scene, mesh, i as int + 1));
            if sub_count > 0 {
                assert(spec_invertible(scene.transformation_matrix.e@));
            } else {
                assert(split_lines@[i as int].split_screen_space_lines@.len() > 0);
            }
        }
        i = i + 1;
    }
    let out = crate::svg_renderer::screen_space_lines_to_fitted_svg(&segments, &svg_config);
    proof {
        if proj_seq.len() > 0 {
            assert(i > 0);
            assert(spec_invertible(scene.transformation_matrix.e@));
        }
        assert(out@ == spec_fitted_svg(
            spec_classify_prefix(split_lines@, scene, mesh, split_lines@.len() as int),
            svg_config,
        ));
        assert(pipeline_document(
            out@,
            mesh_indices@,
            mesh_vertices@,
            mesh_normals@,
            wireframe_indices@,
            wireframe_vertices@,
            canvas_width,
            canvas_height,
            view_matrix@,
            projection_matrix@,
            mesh_world_matrix@,
            camera_forward_vector@,
            svg_config,
        )) by {
            assert(mesh_built(mesh, mesh_indices@, mesh_vertices@, mesh_normals@)
                && wireframe_built(wireframe, wireframe_indices@, wireframe_vertices@)
                && scene_built(
                scene,
                canvas_width,
                canvas_height,
                view_matrix@,
                projection_matrix@,
                mesh_world_matrix@,
                camera_forward_vector@,
            ));
        }
    }
    Ok(out)
}

} // verus!
