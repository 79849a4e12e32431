use mesh_to_svg::svg_renderer::{
    build_svg_config, create_path_element, fixed_to_string, int_to_string, line_segments_to_svg,
    scale_screen_space_lines, screen_space_lines_to_fitted_svg, SvgConfig, SvgLineConfig,
};
use mesh_to_svg::types::{LineSegment2, LineSegmentCulled, LineVisibility, Point2, RenderError};

fn seg(ax: i64, ay: i64, bx: i64, by: i64, visibility: LineVisibility) -> LineSegmentCulled {
    LineSegmentCulled {
        line_segment: LineSegment2 {
            from: Point2 { x: ax, y: ay },
            to: Point2 { x: bx, y: by },
        },
        visibility,
    }
}

fn plain_config(fit_lines: bool) -> SvgConfig {
    SvgConfig {
        width: 800,
        height: 600,
        margin: 100,
        visible: SvgLineConfig {
            stroke_width: 4,
            stroke: String::from("black"),
        },
        obscured: Some(SvgLineConfig {
            stroke_width: 2,
            stroke: String::from("grey"),
        }),
        fit_lines,
    }
}

#[test]
fn fixed_point_scalars_format_with_three_decimals() {
    assert_eq!(fixed_to_string(1500), "1.500");
    assert_eq!(fixed_to_string(-250), "-0.250");
    assert_eq!(fixed_to_string(0), "0.000");
    assert_eq!(fixed_to_string(123456789), "123456.789");
    assert_eq!(fixed_to_string(-1000000000), "-1000000.000");
}

#[test]
fn whole_numbers_format_in_decimal() {
    assert_eq!(int_to_string(0), "0");
    assert_eq!(int_to_string(800), "800");
    assert_eq!(int_to_string(-3), "-3");
}

#[test]
fn chained_segments_share_one_subpath() {
    let lines = vec![
        seg(0, 0, 1000, 0, LineVisibility::VISIBLE),
        seg(1000, 0, 2000, 500, LineVisibility::VISIBLE),
    ];
    let config = SvgLineConfig {
        stroke_width: 4,
        stroke: String::from("black"),
    };
    let element = create_path_element(&lines, &config);
    assert!(element.contains("d=\"M 0.000 0.000 1.000 0.000L 2.000 0.500\""));
    assert!(element.contains("stroke=\"black\""));
    assert!(element.contains("stroke-width=\"4\""));
}

#[test]
fn disjoint_segments_start_new_subpaths() {
    let lines = vec![
        seg(0, 0, 1000, 0, LineVisibility::VISIBLE),
        seg(5000, 0, 6000, 0, LineVisibility::VISIBLE),
    ];
    let config = SvgLineConfig {
        stroke_width: 1,
        stroke: String::from("red"),
    };
    let element = create_path_element(&lines, &config);
    assert!(element.contains("d=\"M 0.000 0.000 1.000 0.000M 5.000 0.000 6.000 0.000\""));
}

#[test]
fn document_partitions_classes_with_obscured_first() {
    let lines = vec![
        seg(0, 0, 1000, 0, LineVisibility::VISIBLE),
        seg(0, 500, 1000, 500, LineVisibility::OBSCURED),
    ];
    let svg = line_segments_to_svg(&lines, &plain_config(false));
    assert!(svg.starts_with("<svg viewBox=\"0 0 800 600\" xmlns=\"http://www.w3.org/2000/svg\">"));
    let grey = svg.find("stroke=\"grey\"").expect("obscured path present");
    let black = svg.find("stroke=\"black\"").expect("visible path present");
    assert!(grey < black, "obscured path must come before the visible path");
}

#[test]
fn fit_scales_and_centres_the_bounding_box() {
    let lines = vec![seg(0, 0, 1000, 1000, LineVisibility::VISIBLE)];
    let fitted = scale_screen_space_lines(&lines, &plain_config(true)).expect("fits");
    assert_eq!(fitted.len(), 1);
    assert_eq!(fitted[0].line_segment.from, Point2 { x: 150000, y: 50000 });
    assert_eq!(fitted[0].line_segment.to, Point2 { x: 650000, y: 550000 });
}

#[test]
fn fit_of_empty_list_is_degenerate() {
    let lines: Vec<LineSegmentCulled> = Vec::new();
    let r = scale_screen_space_lines(&lines, &plain_config(true));
    assert_eq!(r.err(), Some(RenderError::DegenerateViewport));
}

#[test]
fn fit_of_collinear_points_is_degenerate() {
    let lines = vec![
        seg(0, 0, 1000, 0, LineVisibility::VISIBLE),
        seg(1000, 0, 3000, 0, LineVisibility::VISIBLE),
    ];
    let r = scale_screen_space_lines(&lines, &plain_config(true));
    assert_eq!(r.err(), Some(RenderError::DegenerateViewport));
}

#[test]
fn degenerate_viewport_falls_back_to_native_coordinates() {
    let lines = vec![seg(0, 0, 1000, 0, LineVisibility::VISIBLE)];
    let svg = screen_space_lines_to_fitted_svg(&lines, &plain_config(true));
    assert!(svg.contains("M 0.000 0.000 1.000 0.000"));
}

#[test]
fn fitting_disabled_keeps_native_coordinates() {
    let lines = vec![seg(0, 0, 1000, 1000, LineVisibility::VISIBLE)];
    let svg = screen_space_lines_to_fitted_svg(&lines, &plain_config(false));
    assert!(svg.contains("M 0.000 0.000 1.000 1.000"));
}

#[test]
fn config_defaults_match_the_canvas() {
    let c = build_svg_config(800, 600, None, None, None, None, None, None, None, None, None);
    assert_eq!(c.width, 800);
    assert_eq!(c.height, 600);
    assert_eq!(c.margin, 100);
    assert_eq!(c.visible.stroke_width, 4);
    assert_eq!(c.visible.stroke, "black");
    let obscured = c.obscured.expect("obscured drawn by default");
    assert_eq!(obscured.stroke_width, 2);
    assert_eq!(obscured.stroke, "grey");
    assert!(c.fit_lines);
}

#[test]
fn config_overrides_are_taken() {
    let c = build_svg_config(
        800,
        600,
        Some(1024),
        Some(768),
        Some(10),
        Some(7),
        Some(String::from("navy")),
        Some(false),
        Some(1),
        Some(String::from("silver")),
        Some(false),
    );
    assert_eq!(c.width, 1024);
    assert_eq!(c.height, 768);
    assert_eq!(c.margin, 10);
    assert_eq!(c.visible.stroke_width, 7);
    assert_eq!(c.visible.stroke, "navy");
    let obscured = c.obscured.expect("hide_obscured false keeps the class");
    assert_eq!(obscured.stroke_width, 1);
    assert_eq!(obscured.stroke, "silver");
    assert!(!c.fit_lines);
}
