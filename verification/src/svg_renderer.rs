//! The path renderer: viewport fitting and SVG path emission, with exact
//! decimal formatting of the fixed-point coordinates.

use crate::fixed::{
    clamp_i128, clamped, div_any, div_i128, div_tz, lemma_mul_bound, mag, MAX_DIM, MAX_UNIT, SCALE,
};
use crate::types::{eq2, LineSegment2, LineSegmentCulled, LineVisibility, Point2, RenderError};
use vstd::prelude::*;

verus! {

/// Stroke styling of one visibility class.
pub struct SvgLineConfig {
    pub stroke_width: i64,
    pub stroke: String,
}

/// Output configuration: canvas size in pixels, margin when fitting,
/// styling for the visible class, optional styling for the obscured class
/// (absent: obscured segments are omitted), and whether to fit.
pub struct SvgConfig {
    pub width: i64,
    pub height: i64,
    pub margin: i64,
    pub visible: SvgLineConfig,
    pub obscured: Option<SvgLineConfig>,
    pub fit_lines: bool,
}

impl SvgConfig {
    /// Canvas dimensions and margin are positive pixel counts in range.
    pub open spec fn wf(self) -> bool {
        &&& 0 < self.width <= MAX_DIM
        &&& 0 < self.height <= MAX_DIM
        &&& 0 <= self.margin <= MAX_DIM
    }
}

/// Assemble the output configuration from the caller's options: anything
/// absent falls back to the canvas size, a margin of 100 pixels, black
/// 4-wide visible strokes, grey 2-wide obscured strokes, and fitting on;
/// `hide_obscured` drops the obscured class entirely.
pub fn build_svg_config(
    canvas_width: i64,
    canvas_height: i64,
    width: Option<i64>,
    height: Option<i64>,
    margin: Option<i64>,
    visible_stroke_width: Option<i64>,
    visible_stroke: Option<String>,
    hide_obscured: Option<bool>,
    obscured_stroke_width: Option<i64>,
    obscured_stroke: Option<String>,
    fit_lines: Option<bool>,
) -> (r: SvgConfig)
    requires
        0 < canvas_width <= MAX_DIM,
        0 < canvas_height <= MAX_DIM,
        width is Some ==> 0 < width->Some_0 <= MAX_DIM,
        height is Some ==> 0 < height->Some_0 <= MAX_DIM,
        margin is Some ==> 0 <= margin->Some_0 <= MAX_DIM,
    ensures
        r.wf(),
        r.width == (if width is Some {
            width->Some_0
        } else {
            canvas_width
        }),
        r.height == (if height is Some {
            height->Some_0
        } else {
            canvas_height
        }),
        r.margin == (if margin is Some {
            margin->Some_0
        } else {
            100i64
        }),
        r.visible.stroke_width == (if visible_stroke_width is Some {
            visible_stroke_width->Some_0
        } else {
            4i64
        }),
        r.visible.stroke@ == (if visible_stroke is Some {
            visible_stroke->Some_0@
        } else {
            "black"@
        }),
        r.fit_lines == (if fit_lines is Some {
            fit_lines->Some_0
        } else {
            true
        }),
        hide_obscured == Some(true) ==> r.obscured is None,
        hide_obscured != Some(true) ==> r.obscured is Some && r.obscured->0.stroke_width == (
        if obscured_stroke_width is Some {
            obscured_stroke_width->Some_0
        } else {
            2i64
        }) && r.obscured->0.stroke@ == (if obscured_stroke is Some {
            obscured_stroke->Some_0@
        } else {
            "grey"@
        }),
{
    let obscured = match hide_obscured {
        Some(true) => None,
        _ => Some(
            SvgLineConfig {
                stroke_width: match obscured_stroke_width {
                    Some(w) => w,
                    None => 2,
                },
                stroke: match obscured_stroke {
                    Some(s) => s,
                    None => String::from_str("grey"),
                },
            },
        ),
    };
    SvgConfig {
        width: match width {
            Some(w) => w,
            None => canvas_width,
        },
        height: match height {
            Some(h) => h,
            None => canvas_height,
        },
        margin: match margin {
            Some(m) => m,
            None => 100,
        },
        visible: SvgLineConfig {
            stroke_width: match visible_stroke_width {
                Some(w) => w,
                None => 4,
            },
            stroke: match visible_stroke {
                Some(s) => s,
                None => String::from_str("black"),
            },
        },
        obscured,
        fit_lines: match fit_lines {
            Some(f) => f,
            None => true,
        },
    }
}

/// The decimal digit character for one digit value.
pub open spec fn dec_digit(d: int) -> char {
    if d == 0 {
        '0'
    } else if d == 1 {
        '1'
    } else if d == 2 {
        '2'
    } else if d == 3 {
        '3'
    } else if d == 4 {
        '4'
    } else if d == 5 {
        '5'
    } else if d == 6 {
        '6'
    } else if d == 7 {
        '7'
    } else if d == 8 {
        '8'
    } else {
        '9'
    }
}

/// The decimal digits of a non-negative integer, most significant first.
pub open spec fn dec_str(n: int) -> Seq<char>
    recommends
        n >= 0,
    decreases n,
{
    if n < 10 {
        seq![dec_digit(n)]
    } else {
        dec_str(n / 10) + seq![dec_digit(n % 10)]
    }
}

/// The decimal form of a signed whole number.
pub open spec fn int_str(v: int) -> Seq<char> {
    if v < 0 {
        seq!['-'] + dec_str(-v)
    } else {
        dec_str(v)
    }
}

/// The decimal form of a fixed-point scalar: the whole part, a point, and
/// three fractional digits.
pub open spec fn fixed_str(v: int) -> Seq<char> {
    let m = mag(v);
    let sign: Seq<char> = if v < 0 {
        seq!['-']
    } else {
        Seq::empty()
    };
    sign + dec_str(m / 1000) + seq!['.'] + seq![
        dec_digit(m % 1000 / 100),
        dec_digit(m % 100 / 10),
        dec_digit(m % 10),
    ]
}

/// The digit character of one digit value, as a string slice.
fn digit_str(d: u64) -> (s: &'static str)
    requires
        d < 10,
    ensures
        s@ == seq![dec_digit(d as int)],
{
    proof {
        reveal_strlit("0");
        reveal_strlit("1");
        reveal_strlit("2");
        reveal_strlit("3");
        reveal_strlit("4");
        reveal_strlit("5");
        reveal_strlit("6");
        reveal_strlit("7");
        reveal_strlit("8");
        reveal_strlit("9");
    }
    if d == 0 {
        "0"
    } else if d == 1 {
        "1"
    } else if d == 2 {
        "2"
    } else if d == 3 {
        "3"
    } else if d == 4 {
        "4"
    } else if d == 5 {
        "5"
    } else if d == 6 {
        "6"
    } else if d == 7 {
        "7"
    } else if d == 8 {
        "8"
    } else {
        "9"
    }
}

/// The decimal digits of a non-negative integer.
fn u64_to_string(n: u64) -> (s: String)
    ensures
        s@ == dec_str(n as int),
    decreases n,
{
    if n < 10 {
        String::from_str(digit_str(n))
    } else {
        let mut s = u64_to_string(n / 10);
        s.append(digit_str(n % 10));
        s
    }
}

/// The decimal form of a signed whole number.
pub fn int_to_string(v: i64) -> (s: String)
    ensures
        s@ == int_str(v as int),
{
    let m: i128 = if v < 0 {
        -(v as i128)
    } else {
        v as i128
    };
    if v < 0 {
        proof {
            reveal_strlit("-");
        }
        let mut s = String::from_str("-");
        let d = u64_to_string(m as u64);
        s.append(d.as_str());
        proof {
            assert(s@ =~= int_str(v as int));
        }
        s
    } else {
        u64_to_string(m as u64)
    }
}

/// The decimal form of a fixed-point scalar, with three fractional digits.
pub fn fixed_to_string(v: i64) -> (s: String)
    ensures
        s@ == fixed_str(v as int),
{
    let m: i128 = if v < 0 {
        -(v as i128)
    } else {
        v as i128
    };
    proof {
        assert(0 <= m < 0x10000000000000000);
    }
    let m64: u64 = m as u64;
    let mut s = if v < 0 {
        proof {
            reveal_strlit("-");
        }
        String::from_str("-")
    } else {
        proof {
            reveal_strlit("");
        }
        String::from_str("")
    };
    let whole = u64_to_string(m64 / 1000);
    s.append(whole.as_str());
    proof {
        reveal_strlit(".");
    }
    s.append(".");
    s.append(digit_str(m64 % 1000 / 100));
    s.append(digit_str(m64 % 100 / 10));
    s.append(digit_str(m64 % 10));
    proof {
        assert(s@ =~= fixed_str(v as int));
    }
    s
}

/// The path data of the first `n` segments: a move when a segment does not
/// continue from the previous segment's end, a line-to otherwise.
pub open spec fn path_def_prefix(lines: Seq<LineSegmentCulled>, n: int) -> Seq<char>
    decreases n,
{
    if n <= 0 {
        Seq::empty()
    } else {
        let start = lines[n - 1].line_segment.from;
        let end = lines[n - 1].line_segment.to;
        let continued = n - 1 > 0 && eq2(lines[n - 2].line_segment.to, start);
        path_def_prefix(lines, n - 1) + (if continued {
            "L "@
        } else {
            "M "@ + fixed_str(start.x as int) + " "@ + fixed_str(start.y as int) + " "@
        }) + fixed_str(end.x as int) + " "@ + fixed_str(end.y as int)
    }
}

/// One SVG path element holding all the segments of one visibility class.
pub open spec fn spec_path_element(lines: Seq<LineSegmentCulled>, config: SvgLineConfig) -> Seq<
    char,
> {
    "<path d=\""@ + path_def_prefix(lines, lines.len() as int) + "\" stroke=\""@ + config.stroke@
        + "\" fill=\"none\" stroke-width=\""@ + int_str(config.stroke_width as int)
        + "\" stroke-linecap=\"round\" stroke-linejoin=\"round\" />"@
}

/// Emit one path element: segments chain into one subpath while each starts
/// where the previous ended (within tolerance), and a new subpath starts
/// otherwise.
pub fn create_path_element(lines: &Vec<LineSegmentCulled>, line_config: &SvgLineConfig) -> (r:
    String)
    ensures
        r@ == spec_path_element(lines@, *line_config),
{
    let mut path_def = String::from_str("");
    proof {
        reveal_strlit("");
        assert(path_def@ =~= path_def_prefix(lines@, 0));
    }
    let len = lines.len();
    let mut i: usize = 0;
    while i < len
        invariant
            i <= len,
            len == lines@.len(),
            path_def@ == path_def_prefix(lines@, i as int),
        decreases len - i,
    {
        let start = lines[i].line_segment.from;
        let end = lines[i].line_segment.to;
        let continued = if i == 0 {
            false
        } else {
            crate::types::approx_eq2(&lines[i - 1].line_segment.to, &start)
        };
        if continued {
            path_def.append("L ");
        } else {
            path_def.append("M ");
            let sx = fixed_to_string(start.x);
            path_def.append(sx.as_str());
            path_def.append(" ");
            let sy = fixed_to_string(start.y);
            path_def.append(sy.as_str());
            path_def.append(" ");
        }
        let ex = fixed_to_string(end.x);
        path_def.append(ex.as_str());
        path_def.append(" ");
        let ey = fixed_to_string(end.y);
        path_def.append(ey.as_str());
        proof {
            assert(path_def@ =~= path_def_prefix(lines@, i as int + 1));
        }
        i = i + 1;
    }
    let mut r = String::from_str("<path d=\"");
    r.append(path_def.as_str());
    r.append("\" stroke=\"");
    r.append(line_config.stroke.as_str());
    r.append("\" fill=\"none\" stroke-width=\"");
    let sw = int_to_string(line_config.stroke_width);
    r.append(sw.as_str());
    r.append("\" stroke-linecap=\"round\" stroke-linejoin=\"round\" />");
    proof {
        assert(r@ =~= spec_path_element(lines@, *line_config));
    }
    r
}

/// The segments of one visibility class among the first `n`, in order.
pub open spec fn class_prefix(
    segs: Seq<LineSegmentCulled>,
    vis: LineVisibility,
    n: int,
) -> Seq<LineSegmentCulled>
    decreases n,
{
    if n <= 0 {
        Seq::empty()
    } else {
        class_prefix(segs, vis, n - 1) + if segs[n - 1].visibility == vis {
            seq![segs[n - 1]]
        } else {
            Seq::empty()
        }
    }
}

/// The whole SVG document: a view box of the canvas size, the obscured path
/// (when enabled) before the visible path so visible strokes draw on top.
pub open spec fn spec_svg_document(segs: Seq<LineSegmentCulled>, config: SvgConfig) -> Seq<char> {
    let visible = class_prefix(segs, LineVisibility::VISIBLE, segs.len() as int);
    let obscured = class_prefix(segs, LineVisibility::OBSCURED, segs.len() as int);
    let obscured_part = match config.obscured {
        Some(conf) => spec_path_element(obscured, conf),
        None => Seq::empty(),
    };
    "<svg viewBox=\"0 0 "@ + int_str(config.width as int) + " "@ + int_str(config.height as int)
        + "\" xmlns=\"http://www.w3.org/2000/svg\">\n"@ + obscured_part + "\n"@
        + spec_path_element(visible, config.visible) + "\n</svg>"@
}

/// Partition the segments by visibility class and emit the document.
pub fn line_segments_to_svg(segments: &Vec<LineSegmentCulled>, config: &SvgConfig) -> (r: String)
    ensures
        r@ == spec_svg_document(segments@, *config),
{
    let len = segments.len();
    let mut visible: Vec<LineSegmentCulled> = Vec::new();
    let mut obscured: Vec<LineSegmentCulled> = Vec::new();
    let mut i: usize = 0;
    while i < len
        invariant
            i <= len,
            len == segments@.len(),
            visible@ == class_prefix(segments@, LineVisibility::VISIBLE, i as int),
            obscured@ == class_prefix(segments@, LineVisibility::OBSCURED, i as int),
        decreases len - i,
    {
        let seg = segments[i];
        match seg.visibility {
            LineVisibility::VISIBLE => visible.push(seg),
            LineVisibility::OBSCURED => obscured.push(seg),
        }
        i = i + 1;
    }
    let mut r = String::from_str("<svg viewBox=\"0 0 ");
    let w = int_to_string(config.width);
    r.append(w.as_str());
    r.append(" ");
    let h = int_to_string(config.height);
    r.append(h.as_str());
    r.append("\" xmlns=\"http://www.w3.org/2000/svg\">\n");
    match &config.obscured {
        Some(conf) => {
            let p = create_path_element(&obscured, conf);
            r.append(p.as_str());
        },
        None => {},
    }
    r.append("\n");
    let vp = create_path_element(&visible, &config.visible);
    r.append(vp.as_str());
    r.append("\n</svg>");
    proof {
        assert(r@ =~= spec_svg_document(segments@, *config));
    }
    r
}

/// The lesser of two integers.
pub open spec fn lo(a: int, b: int) -> int {
    if a <= b {
        a
    } else {
        b
    }
}

/// The greater of two integers.
pub open spec fn hi(a: int, b: int) -> int {
    if a >= b {
        a
    } else {
        b
    }
}

/// The bounding box of the endpoints of the first `n` segments, as
/// `(min_x, max_x, min_y, max_y)`.
pub open spec fn bounds_prefix(segs: Seq<LineSegmentCulled>, n: int) -> (int, int, int, int)
    recommends
        n >= 1,
    decreases n,
{
    let f = segs[n - 1].line_segment.from;
    let t = segs[n - 1].line_segment.to;
    if n <= 1 {
        (lo(f.x as int, t.x as int), hi(f.x as int, t.x as int), lo(f.y as int, t.y as int), hi(
            f.y as int,
            t.y as int,
        ))
    } else {
        let b = bounds_prefix(segs, n - 1);
        (
            lo(b.0, lo(f.x as int, t.x as int)),
            hi(b.1, hi(f.x as int, t.x as int)),
            lo(b.2, lo(f.y as int, t.y as int)),
            hi(b.3, hi(f.y as int, t.y as int)),
        )
    }
}

/// The fitting is degenerate: no segments, or a bounding box of zero width
/// or height.
pub open spec fn spec_fit_degenerate(segs: Seq<LineSegmentCulled>) -> bool {
    ||| segs.len() == 0
    ||| {
        let b = bounds_prefix(segs, segs.len() as int);
        b.1 == b.0 || b.3 == b.2
    }
}

/// One endpoint moved by the fitting: translated about the bounding-box
/// centre, scaled uniformly, and recentred on the canvas.
pub open spec fn spec_fit_point(p: Point2, segs: Seq<LineSegmentCulled>, config: SvgConfig) -> Point2 {
    let b = bounds_prefix(segs, segs.len() as int);
    let margin_f = config.margin as int * SCALE as int;
    let canvas_w = config.width as int * SCALE as int - margin_f;
    let canvas_h = config.height as int * SCALE as int - margin_f;
    let half_viewport_x = b.0 + div_tz(b.1 - b.0, 2);
    let half_viewport_y = b.2 + div_tz(b.3 - b.2, 2);
    let half_canvas_x = div_tz(canvas_w, 2) + div_tz(margin_f, 2);
    let half_canvas_y = div_tz(canvas_h, 2) + div_tz(margin_f, 2);
    let x_scale = div_any(canvas_w * SCALE as int, b.1 - b.0);
    let y_scale = div_any(canvas_h * SCALE as int, b.3 - b.2);
    let scale = lo(x_scale, y_scale);
    Point2 {
        x: clamped(
            half_canvas_x + div_any((p.x as int - half_viewport_x) * scale, SCALE as int),
            MAX_UNIT as int,
        ) as i64,
        y: clamped(
            half_canvas_y + div_any((p.y as int - half_viewport_y) * scale, SCALE as int),
            MAX_UNIT as int,
        ) as i64,
    }
}

/// The fitted segments, visibility classes unchanged.
pub open spec fn spec_scale_lines(segs: Seq<LineSegmentCulled>, config: SvgConfig) -> Seq<
    LineSegmentCulled,
> {
    Seq::new(
        segs.len(),
        |k: int|
            LineSegmentCulled {
                visibility: segs[k].visibility,
                line_segment: LineSegment2 {
                    from: spec_fit_point(segs[k].line_segment.from, segs, config),
                    to: spec_fit_point(segs[k].line_segment.to, segs, config),
                },
            },
    )
}

/// A bounding box is ordered: the minima are at most the maxima.
proof fn lemma_bounds_ordered(segs: Seq<LineSegmentCulled>, n: int)
    requires
        1 <= n <= segs.len(),
    ensures
        bounds_prefix(segs, n).0 <= bounds_prefix(segs, n).1,
        bounds_prefix(segs, n).2 <= bounds_prefix(segs, n).3,
    decreases n,
{
    if n > 1 {
        lemma_bounds_ordered(segs, n - 1);
    }
}

/// Every segment's endpoints are within the working range.
pub open spec fn segs_in_range(segs: Seq<LineSegmentCulled>) -> bool {
    forall|k: int| 0 <= k < segs.len() ==> (#[trigger] segs[k]).line_segment.wf()
}

/// A bounding box of bounded segments is bounded.
proof fn lemma_bounds_in_range(segs: Seq<LineSegmentCulled>, n: int)
    requires
        segs_in_range(segs),
        1 <= n <= segs.len(),
    ensures
        mag(bounds_prefix(segs, n).0) <= MAX_UNIT as int,
        mag(bounds_prefix(segs, n).1) <= MAX_UNIT as int,
        mag(bounds_prefix(segs, n).2) <= MAX_UNIT as int,
        mag(bounds_prefix(segs, n).3) <= MAX_UNIT as int,
    decreases n,
{
    assert(segs[n - 1].line_segment.wf());
    if n > 1 {
        lemma_bounds_in_range(segs, n - 1);
    }
}

/// Move one endpoint by the fitting, exec.
fn fit_point(
    px: i64,
    py: i64,
    half_viewport_x: i64,
    half_viewport_y: i64,
    half_canvas_x: i64,
    half_canvas_y: i64,
    scale: i64,
) -> (r: Point2)
    requires
        mag(px as int) <= MAX_UNIT,
        mag(py as int) <= MAX_UNIT,
        mag(half_viewport_x as int) <= MAX_UNIT,
        mag(half_viewport_y as int) <= MAX_UNIT,
        mag(half_canvas_x as int) <= 2000000000000,
        mag(half_canvas_y as int) <= 2000000000000,
        mag(scale as int) <= 1000000000000,
    ensures
        r.x as int == clamped(
            half_canvas_x + div_any((px as int - half_viewport_x) * (scale as int), SCALE as int),
            MAX_UNIT as int,
        ),
        r.y as int == clamped(
            half_canvas_y + div_any((py as int - half_viewport_y) * (scale as int), SCALE as int),
            MAX_UNIT as int,
        ),
        r.wf(),
{
    proof {
        lemma_mul_bound((px - half_viewport_x) as int, scale as int, 2000000000, 1000000000000);
        lemma_mul_bound((py - half_viewport_y) as int, scale as int, 2000000000, 1000000000000);
    }
    let qx = div_i128(
        (px as i128 - half_viewport_x as i128) * scale as i128,
        SCALE as i128,
    );
    let qy = div_i128(
        (py as i128 - half_viewport_y as i128) * scale as i128,
        SCALE as i128,
    );
    Point2 {
        x: clamp_i128(half_canvas_x as i128 + qx, MAX_UNIT),
        y: clamp_i128(half_canvas_y as i128 + qy, MAX_UNIT),
    }
}

/// Fit all segments into the canvas: translate and uniformly scale the
/// bounding box of their endpoints into the canvas minus its margin.  Fails
/// with `DegenerateViewport` exactly when there are no segments or the
/// bounding box has zero width or height.
pub fn scale_screen_space_lines(
    screen_space_lines: &Vec<LineSegmentCulled>,
    svg_config: &SvgConfig,
) -> (r: Result<Vec<LineSegmentCulled>, RenderError>)
    requires
        svg_config.wf(),
        segs_in_range(screen_space_lines@),
    ensures
        match r {
            Ok(v) => !spec_fit_degenerate(screen_space_lines@) && v@ == spec_scale_lines(
                screen_space_lines@,
                *svg_config,
            ) && segs_in_range(v@),
            Err(e) => e == RenderError::DegenerateViewport && spec_fit_degenerate(
                screen_space_lines@,
            ),
        },
{
    let len = screen_space_lines.len();
    if len == 0 {
        return Err(RenderError::DegenerateViewport);
    }
    let first = &screen_space_lines[0].line_segment;
    let mut min_x: i64 = if first.from.x <= first.to.x {
        first.from.x
    } else {
        first.to.x
    };
    let mut max_x: i64 = if first.from.x >= first.to.x {
        first.from.x
    } else {
        first.to.x
    };
    let mut min_y: i64 = if first.from.y <= first.to.y {
        first.from.y
    } else {
        first.to.y
    };
    let mut max_y: i64 = if first.from.y >= first.to.y {
        first.from.y
    } else {
        first.to.y
    };
    let mut i: usize = 1;
    while i < len
        invariant
            1 <= i <= len,
            len == screen_space_lines@.len(),
            segs_in_range(screen_space_lines@),
            min_x as int == bounds_prefix(screen_space_lines@, i as int).0,
            max_x as int == bounds_prefix(screen_space_lines@, i as int).1,
            min_y as int == bounds_prefix(screen_space_lines@, i as int).2,
            max_y as int == bounds_prefix(screen_space_lines@, i as int).3,
        decreases len - i,
    {
        let seg = &screen_space_lines[i].line_segment;
        if seg.from.x < min_x {
            min_x = seg.from.x;
        }
        if seg.to.x < min_x {
            min_x = seg.to.x;
        }
        if seg.from.x > max_x {
            max_x = seg.from.x;
        }
        if seg.to.x > max_x {
            max_x = seg.to.x;
        }
        if seg.from.y < min_y {
            min_y = seg.from.y;
        }
        if seg.to.y < min_y {
            min_y = seg.to.y;
        }
        if seg.from.y > max_y {
            max_y = seg.from.y;
        }
        if seg.to.y > max_y {
            max_y = seg.to.y;
        }
        i = i + 1;
    }
    if max_x == min_x || max_y == min_y {
        return Err(RenderError::DegenerateViewport);
    }
    proof {
        lemma_bounds_ordered(screen_space_lines@, len as int);
        lemma_bounds_in_range(screen_space_lines@, len as int);
    }
    let margin_f: i64 = svg_config.margin * SCALE;
    let canvas_w: i64 = svg_config.width * SCALE - margin_f;
    let canvas_h: i64 = svg_config.height * SCALE - margin_f;
    let half_viewport_x: i64 = min_x + (max_x - min_x) / 2;
    let half_viewport_y: i64 = min_y + (max_y - min_y) / 2;
    let half_canvas_x: i64 = canvas_w / 2 + margin_f / 2;
    let half_canvas_y: i64 = canvas_h / 2 + margin_f / 2;
    let x_scale: i64 = div_i128(canvas_w as i128 * SCALE as i128, max_x as i128 - min_x as i128)
        as i64;
    let y_scale: i64 = div_i128(canvas_h as i128 * SCALE as i128, max_y as i128 - min_y as i128)
        as i64;
    let scale: i64 = if x_scale <= y_scale {
        x_scale
    } else {
        y_scale
    };
    let mut out: Vec<LineSegmentCulled> = Vec::new();
    let mut k: usize = 0;
    while k < len
        invariant
            k <= len,
            len == screen_space_lines@.len(),
            1 <= len,
            segs_in_range(screen_space_lines@),
            out@.len() == k,
            forall|q: int|
                0 <= q < k ==> out@[q] == spec_scale_lines(screen_space_lines@, *svg_config)[q],
            forall|q: int| 0 <= q < k ==> (#[trigger] out@[q]).line_segment.wf(),
            mag(half_viewport_x as int) <= MAX_UNIT,
            mag(half_viewport_y as int) <= MAX_UNIT,
            mag(half_canvas_x as int) <= 2000000000000,
            mag(half_canvas_y as int) <= 2000000000000,
            mag(scale as int) <= 1000000000000,
            half_viewport_x as int == bounds_prefix(screen_space_lines@, len as int).0 + div_tz(
                bounds_prefix(screen_space_lines@, len as int).1 - bounds_prefix(
                    screen_space_lines@,
                    len as int,
                ).0,
                2,
            ),
            half_viewport_y as int == bounds_prefix(screen_space_lines@, len as int).2 + div_tz(
                bounds_prefix(screen_space_lines@, len as int).3 - bounds_prefix(
                    screen_space_lines@,
                    len as int,
                ).2,
                2,
            ),
            half_canvas_x as int == div_tz(
                svg_config.width as int * SCALE as int - svg_config.margin as int * SCALE as int,
                2,
            ) + div_tz(svg_config.margin as int * SCALE as int, 2),
            half_canvas_y as int == div_tz(
                svg_config.height as int * SCALE as int - svg_config.margin as int * SCALE as int,
                2,
            ) + div_tz(svg_config.margin as int * SCALE as int, 2),
            scale as int == lo(
                div_any(
                    (svg_config.width as int * SCALE as int - svg_config.margin as int
                        * SCALE as int) * SCALE as int,
                    bounds_prefix(screen_space_lines@, len as int).1 - bounds_prefix(
                        screen_space_lines@,
                        len as int,
                    ).0,
                ),
                div_any(
                    (svg_config.height as int * SCALE as int - svg_config.margin as int
                        * SCALE as int) * SCALE as int,
                    bounds_prefix(screen_space_lines@, len as int).3 - bounds_prefix(
                        screen_space_lines@,
                        len as int,
                    ).2,
                ),
            ),
        decreases len - k,
    {
        let seg = screen_space_lines[k];
        let from = fit_point(
            seg.line_segment.from.x,
            seg.line_segment.from.y,
            half_viewport_x,
            half_viewport_y,
            half_canvas_x,
            half_canvas_y,
            scale,
        );
        let to = fit_point(
            seg.line_segment.to.x,
            seg.line_segment.to.y,
            half_viewport_x,
            half_viewport_y,
            half_canvas_x,
            half_canvas_y,
            scale,
        );
        out.push(
            LineSegmentCulled {
                visibility: seg.visibility,
                line_segment: LineSegment2 { from, to },
            },
        );
        k = k + 1;
    }
    proof {
        assert(out@ =~= spec_scale_lines(screen_space_lines@, *svg_config));
    }
    Ok(out)
}

/// The document emitted after fitting; a degenerate viewport falls back to
/// the unfitted segments.
pub open spec fn spec_fitted_svg(segs: Seq<LineSegmentCulled>, config: SvgConfig) -> Seq<char> {
    if !config.fit_lines || spec_fit_degenerate(segs) {
        spec_svg_document(segs, config)
    } else {
        spec_svg_document(spec_scale_lines(segs, config), config)
    }
}

/// Emit the SVG document, fitting the segments to the canvas first when
/// configured; a degenerate viewport is recovered from by rendering the
/// segments at their native coordinates.
pub fn screen_space_lines_to_fitted_svg(
    screen_space_lines: &Vec<LineSegmentCulled>,
    svg_config: &SvgConfig,
) -> (r: String)
    requires
        svg_config.wf(),
        segs_in_range(screen_space_lines@),
    ensures
        r@ == spec_fitted_svg(screen_space_lines@, *svg_config),
{
    if !svg_config.fit_lines {
        return line_segments_to_svg(screen_space_lines, svg_config);
    }
    match scale_screen_space_lines(screen_space_lines, svg_config) {
        Ok(scaled) => line_segments_to_svg(&scaled, svg_config),
        Err(_) => line_segments_to_svg(screen_space_lines, svg_config),
    }
}

} // verus!
