//! Layers, box records, dirty regions and scissors.

use byard_core::encoder::dirty::{
    AA_MARGIN, ScissorInputs, compute_scissor, decorated_paint_bounds, dirty_box_bounds,
    dirty_text_bounds, dirty_texture_bounds, inflate, needs_full_redraw_this_frame,
    text_line_bounds, text_line_bounds_wrapped,
};
use byard_core::encoder::descriptor::{VertexFormat, VertexStepMode};
use byard_core::encoder::instance_arena::InstanceArena;
use byard_core::encoder::scissor::logical_rect_to_physical_scissor;
use byard_core::encoder::segments::{compute_segments, sub_slice, text_ranges};
use byard_core::encoder::solid_box::{quad_vertices, stage};
use byard_core::frame::{
    BoxInstance, DecoratedBox, ImageFit, LayerMark, Rect, TextLine, TextureSampler, Transform,
    rect_of,
};
use byard_core::wide::Wide;

fn f(x: f32) -> u32 {
    x.to_bits()
}

fn f4(v: [f32; 4]) -> [u32; 4] {
    v.map(f32::to_bits)
}

/// An exact number of units as logical pixels.
fn px(units: Wide) -> f32 {
    let (hi, mid, lo) = units.parts();
    let digit = 2f64.powi(128);
    (((hi as f64 * digit + mid as f64) * digit + lo as f64) / 2f64.powi(151)) as f32
}

fn width(r: &Rect) -> f32 {
    px(r.right) - px(r.left)
}

fn height(r: &Rect) -> f32 {
    px(r.bottom) - px(r.top)
}

fn rect(x: f32, y: f32, w: f32, h: f32) -> Rect {
    Rect::new(f(x), f(y), f(w), f(h))
}

/// A mark whose pool cursors are all `n`.
fn mark(n: u32) -> LayerMark {
    LayerMark {
        solid: n,
        decorated: n,
        texture: n,
        vector: n,
        text: n,
        canvas: n,
        ripple: n,
        backdrop: n,
    }
}

/// A mark with every cursor at `n` except the backdrop's, which sits at `b`.
fn mark_b(n: u32, b: u32) -> LayerMark {
    LayerMark {
        backdrop: b,
        ..mark(n)
    }
}

fn line(x: f32, y: f32, text: &str, font_size: f32, dirty: bool) -> TextLine {
    TextLine {
        x: f(x),
        y: f(y),
        text: text.to_string(),
        font_size: f(font_size),
        weight: 400,
        family: None,
        color: f4([0.0, 0.0, 0.0, 1.0]),
        dirty,
    }
}

fn box_at(x: f32, y: f32, w: f32, h: f32) -> BoxInstance {
    BoxInstance {
        rect: f4([x, y, w, h]),
        color: [0; 4],
        radii: [0; 4],
        transform: Transform::identity(),
        smooth: 0,
    }
}

fn decorated_at(x: f32, y: f32, w: f32, h: f32, dirty: bool) -> DecoratedBox {
    DecoratedBox {
        base: box_at(x, y, w, h),
        border_color: [0; 4],
        border_width: 0,
        shadow_color: [0; 4],
        shadow_dx: 0,
        shadow_dy: 0,
        shadow_blur: 0,
        shadow_spread: 0,
        opacity: f(1.0),
        gradient: None,
        dirty,
    }
}

fn texture_at(x: f32, y: f32, w: f32, h: f32, dirty: bool) -> TextureSampler {
    TextureSampler {
        rect: f4([x, y, w, h]),
        src: String::new(),
        fit: ImageFit::Fill,
        radii: [0; 4],
        opacity: f(1.0),
        smooth: 0,
        dirty,
    }
}

fn text_only<'a>(texts: &'a [TextLine], previous: &'a [Rect]) -> ScissorInputs<'a> {
    ScissorInputs {
        texts,
        text_wrap: &[],
        prev_texts: previous,
        instances: &[],
        instances_dirty: &[],
        prev_boxes: &[],
        decorated: &[],
        prev_decorated: &[],
        textures: &[],
        prev_textures: &[],
        canvas_shapes: &[],
        prev_canvas: &[],
        ripples: &[],
        prev_ripples: &[],
        backdrops: &[],
        prev_backdrops: &[],
    }
}

fn assert_f32_eq(actual: f32, expected: f32) {
    let diff = (actual - expected).abs();
    assert!(
        diff < 0.001,
        "expected {expected}, got {actual} (diff = {diff})"
    );
}

/// The bytes a batch of boxes is uploaded as.
fn uploaded(boxes: &[BoxInstance]) -> Vec<u8> {
    let mut arena = InstanceArena::new(256);
    arena.begin_frame();
    let (instances, _) = stage(&mut arena, boxes, &[]);
    let from = instances.offset as usize;
    let to = from + instances.len as usize;
    arena.staged()[from..to].to_vec()
}

/// The lanes of those bytes.
fn lanes(bytes: &[u8]) -> Vec<u32> {
    bytes
        .chunks(4)
        .map(|c| u32::from_ne_bytes([c[0], c[1], c[2], c[3]]))
        .collect()
}

/// The shared quad's corners.
fn quad() -> Vec<(f32, f32)> {
    quad_vertices()
        .chunks(2)
        .map(|c| (f32::from_bits(c[0]), f32::from_bits(c[1])))
        .collect()
}

// Layers.

#[test]
fn tests_no_marks_is_one_full_range() {
    let none: &[LayerMark] = &[];
    assert_eq!(
        text_ranges(&compute_segments(none, &[], &mark(5))),
        vec![0..5]
    );
    assert_eq!(
        text_ranges(&compute_segments(none, &[], &mark(0))),
        vec![0..0]
    );
}

#[test]
fn tests_marks_split_the_pool_into_contiguous_layers() {
    let marks = [mark(2), mark(2), mark(4)];
    // Two marks at the same cursor leave an empty layer between them.
    assert_eq!(
        text_ranges(&compute_segments(&marks, &[], &mark(6))),
        vec![0..2, 2..2, 2..4, 4..6]
    );
}

#[test]
fn tests_malformed_marks_clamp_instead_of_panicking() {
    // An overshooting cursor is held to the pool, a decreasing one to its
    // predecessor.
    let marks = [mark(9), mark(1)];
    assert_eq!(
        text_ranges(&compute_segments(&marks, &[], &mark(4))),
        vec![0..4, 4..4, 4..4]
    );
}

// Barriers.

#[test]
fn tests_a_backdrop_barrier_splits_the_single_layer_into_two_segments() {
    let segs = compute_segments(&[], &[mark_b(4, 0)], &mark_b(6, 1));
    assert_eq!(segs.len(), 2);
    assert_eq!(segs[0].text, 0..4);
    assert_eq!(segs[0].backdrop_after, Some(0));
    assert_eq!(segs[1].text, 4..6);
    assert_eq!(segs[1].backdrop_after, None);
}

#[test]
fn tests_two_backdrops_in_one_layer_stack_in_painter_order() {
    let segs = compute_segments(&[], &[mark_b(2, 0), mark_b(5, 1)], &mark_b(8, 2));
    assert_eq!(text_ranges(&segs), vec![0..2, 2..5, 5..8]);
    assert_eq!(segs[0].backdrop_after, Some(0));
    assert_eq!(segs[1].backdrop_after, Some(1));
    assert_eq!(segs[2].backdrop_after, None);
}

#[test]
fn tests_a_backdrop_inside_an_overlay_layer_splits_only_that_layer() {
    let layers = [mark_b(3, 0)];
    let segs = compute_segments(&layers, &[mark_b(5, 0)], &mark_b(8, 1));
    assert_eq!(text_ranges(&segs), vec![0..3, 3..5, 5..8]);
    assert_eq!(segs[0].backdrop_after, None, "main layer intact");
    assert_eq!(segs[1].backdrop_after, Some(0));
    assert_eq!(segs[2].backdrop_after, None);
}

#[test]
fn tests_a_malformed_backdrop_cursor_clamps_into_its_layer() {
    let segs = compute_segments(&[], &[mark_b(9, 0)], &mark_b(4, 1));
    assert_eq!(text_ranges(&segs), vec![0..4, 4..4]);
    assert_eq!(segs[0].backdrop_after, Some(0));
}

#[test]
fn tests_sub_slice_clamps_to_the_slice_bounds() {
    let s = [10, 20, 30];
    assert_eq!(sub_slice(&s, &(1..3)), &[20, 30]);
    // Parallel slices may be shorter than the pool.
    assert_eq!(sub_slice(&s, &(2..7)), &[30]);
    assert_eq!(sub_slice(&s, &(5..7)), &[] as &[i32]);
}

// The box record.

#[test]
fn tests_box_instance_size_and_alignment() {
    assert_eq!(
        std::mem::size_of::<BoxInstance>(),
        84,
        "BoxInstance must be exactly 84 bytes"
    );
    assert_eq!(std::mem::align_of::<BoxInstance>(), 4);
    assert_eq!(uploaded(&[box_at(0.0, 0.0, 1.0, 1.0)]).len(), 84);
}

#[test]
fn tests_box_instance_field_offsets_match_shader_locations() {
    // Every field is given a value of its own and found again at its offset.
    let b = BoxInstance {
        rect: [1, 2, 3, 4],
        color: [5, 6, 7, 8],
        radii: [9, 10, 11, 12],
        transform: Transform {
            translate: [13, 14],
            scale: [15, 16],
            rotate: 17,
            origin: [18, 19],
            opacity: 20,
        },
        smooth: 21,
    };
    let lanes = lanes(&uploaded(&[b]));
    let at = |offset: usize| lanes[offset / 4];
    assert_eq!(at(0), b.rect[0]);
    assert_eq!(at(16), b.color[0]);
    assert_eq!(at(32), b.radii[0]);
    assert_eq!(at(48), b.transform.translate[0]);
    // `smooth` follows the transform, so that the four offsets above stay.
    assert_eq!(at(80), b.smooth);
    let transform = |offset: usize| at(48 + offset);
    assert_eq!(transform(0), b.transform.translate[0]);
    assert_eq!(transform(8), b.transform.scale[0]);
    assert_eq!(transform(16), b.transform.rotate);
    assert_eq!(transform(20), b.transform.origin[0]);
    assert_eq!(transform(28), b.transform.opacity);
}

#[test]
fn tests_box_instance_layout_stride_step_mode_and_attributes() {
    let layout = BoxInstance::layout();

    assert_eq!(
        layout.array_stride, 84,
        "stride must equal size_of::<BoxInstance>()"
    );
    assert_eq!(
        layout.step_mode,
        VertexStepMode::Instance,
        "must advance per instance, not per vertex"
    );

    let attrs = layout.attributes;
    assert_eq!(attrs.len(), 9);

    assert_eq!(attrs[0].shader_location, 1); // rect
    assert_eq!(attrs[0].offset, 0);
    assert_eq!(attrs[0].format, VertexFormat::Float32x4);

    assert_eq!(attrs[1].shader_location, 2); // color
    assert_eq!(attrs[1].offset, 16);
    assert_eq!(attrs[1].format, VertexFormat::Float32x4);

    assert_eq!(attrs[2].shader_location, 3); // radii
    assert_eq!(attrs[2].offset, 32);
    assert_eq!(attrs[2].format, VertexFormat::Float32x4);

    assert_eq!(attrs[3].shader_location, 4); // transform.translate
    assert_eq!(attrs[3].offset, 48);
    assert_eq!(attrs[3].format, VertexFormat::Float32x2);

    assert_eq!(attrs[4].shader_location, 5); // transform.scale
    assert_eq!(attrs[4].offset, 56);
    assert_eq!(attrs[4].format, VertexFormat::Float32x2);

    assert_eq!(attrs[5].shader_location, 6); // transform.rotate
    assert_eq!(attrs[5].offset, 64);
    assert_eq!(attrs[5].format, VertexFormat::Float32);

    assert_eq!(attrs[6].shader_location, 7); // transform.origin
    assert_eq!(attrs[6].offset, 68);
    assert_eq!(attrs[6].format, VertexFormat::Float32x2);

    assert_eq!(attrs[7].shader_location, 8); // transform.opacity
    assert_eq!(attrs[7].offset, 76);
    assert_eq!(attrs[7].format, VertexFormat::Float32);

    // Location 9 is the parallel draw-order depth buffer's.
    assert_eq!(attrs[8].shader_location, 10); // smooth
    assert_eq!(attrs[8].offset, 80);
    assert_eq!(attrs[8].format, VertexFormat::Float32);
}

#[test]
fn tests_box_instance_bytemuck_cast_produces_correct_byte_count() {
    let instances = [
        BoxInstance {
            rect: f4([0.0, 0.0, 100.0, 50.0]),
            color: f4([1.0, 0.0, 0.5, 1.0]),
            radii: f4([8.0, 8.0, 8.0, 8.0]),
            transform: Transform::identity(),
            smooth: 0,
        },
        BoxInstance {
            rect: f4([10.0, 20.0, 200.0, 80.0]),
            color: f4([0.0, 1.0, 0.0, 0.8]),
            radii: [0; 4],
            transform: Transform::identity(),
            smooth: 0,
        },
    ];
    let bytes = uploaded(&instances);
    assert_eq!(bytes.len(), 2 * 84, "2 instances × 84 bytes each");
}

#[test]
fn tests_box_instance_pod_accepts_non_finite_floats() {
    let inst = BoxInstance {
        rect: f4([f32::NAN, f32::INFINITY, f32::NEG_INFINITY, 0.0]),
        color: f4([f32::NAN; 4]),
        radii: f4([f32::INFINITY; 4]),
        transform: Transform::identity(),
        smooth: 0,
    };
    let bytes = uploaded(&[inst]);
    assert_eq!(bytes.len(), 84, "NaN/inf must not change struct size");
}

#[test]
fn tests_box_instance_zeroed_is_valid_and_all_zero() {
    let z = BoxInstance {
        rect: [0; 4],
        color: [0; 4],
        radii: [0; 4],
        transform: Transform {
            translate: [0; 2],
            scale: [0; 2],
            rotate: 0,
            origin: [0; 2],
            opacity: 0,
        },
        smooth: 0,
    };
    assert_eq!(z.rect.map(f32::from_bits), [0.0; 4]);
    assert_eq!(z.color.map(f32::from_bits), [0.0; 4]);
    assert_eq!(z.radii.map(f32::from_bits), [0.0; 4]);
    assert!(uploaded(&[z]).iter().all(|b| *b == 0));
}

#[test]
fn tests_box_instance_bytemuck_round_trip_preserves_values() {
    let original = BoxInstance {
        rect: f4([1.0, 2.0, 300.0, 400.0]),
        color: f4([0.25, 0.5, 0.75, 1.0]),
        radii: f4([8.0, 16.0, 24.0, 32.0]),
        transform: Transform::identity(),
        smooth: 0,
    };

    let recovered = lanes(&uploaded(&[original]));

    assert_eq!(recovered[0..4], original.rect);
    assert_eq!(recovered[4..8], original.color);
    assert_eq!(recovered[8..12], original.radii);
}

#[test]
fn tests_box_instance_cast_slice_empty_gives_zero_bytes() {
    let empty: &[BoxInstance] = &[];
    let bytes = uploaded(empty);
    assert_eq!(bytes.len(), 0);
}

// The shared quad.

#[test]
fn tests_quad_vertices_form_unit_square() {
    assert_eq!(quad_vertices().len(), 8);

    for v in quad_vertices().map(f32::from_bits) {
        assert!(
            v == 0.0 || v == 1.0,
            "unexpected quad vertex coordinate: {v}"
        );
    }

    let pairs = quad();
    assert!(pairs.contains(&(0.0, 0.0)), "missing top-left  (0,0)");
    assert!(pairs.contains(&(1.0, 0.0)), "missing top-right  (1,0)");
    assert!(pairs.contains(&(0.0, 1.0)), "missing bottom-left  (0,1)");
    assert!(pairs.contains(&(1.0, 1.0)), "missing bottom-right (1,1)");
}

#[test]
fn tests_quad_vertices_triangle_strip_tiles_unit_square_without_gaps() {
    fn tri_area(ax: f32, ay: f32, bx: f32, by: f32, cx: f32, cy: f32) -> f32 {
        ((bx - ax) * (cy - ay) - (cx - ax) * (by - ay)).abs() * 0.5
    }

    let p = quad();

    let a1 = tri_area(p[0].0, p[0].1, p[1].0, p[1].1, p[2].0, p[2].1);
    let a2 = tri_area(p[1].0, p[1].1, p[2].0, p[2].1, p[3].0, p[3].1);

    assert!((a1 - 0.5).abs() < 0.001, "T1 area = {a1} (expected 0.5)");
    assert!((a2 - 0.5).abs() < 0.001, "T2 area = {a2} (expected 0.5)");
    assert!(
        (a1 + a2 - 1.0).abs() < 0.001,
        "total area = {} (expected 1.0)",
        a1 + a2
    );
}

// Text bounds.

#[test]
fn tests_text_line_bounds_grows_with_character_count() {
    let short = text_line_bounds(&line(0.0, 0.0, "a", 16.0, false));
    let long = text_line_bounds(&line(0.0, 0.0, "a much longer string", 16.0, false));
    assert!(
        width(&long) > width(&short),
        "more characters must widen the bound"
    );
    assert_f32_eq(height(&short), height(&long));
}

#[test]
fn tests_text_line_bounds_grows_with_font_size() {
    let small = text_line_bounds(&line(0.0, 0.0, "label", 12.0, false));
    let large = text_line_bounds(&line(0.0, 0.0, "label", 48.0, false));
    assert!(width(&large) > width(&small));
    assert!(height(&large) > height(&small));
}

#[test]
fn tests_text_line_bounds_is_positioned_at_the_line_origin() {
    let r = text_line_bounds(&line(123.0, 45.0, "x", 16.0, false));
    assert_f32_eq(px(r.left), 123.0);
    assert_f32_eq(px(r.top), 45.0);
}

#[test]
fn tests_text_line_bounds_never_yields_negative_dimensions() {
    let r = text_line_bounds(&line(0.0, 0.0, "", 16.0, false));
    assert!(width(&r) >= 0.0);
    assert!(height(&r) >= 0.0);
}

#[test]
fn tests_dirty_text_bounds_is_none_when_nothing_is_dirty() {
    let texts = [
        line(0.0, 0.0, "a", 16.0, false),
        line(50.0, 50.0, "b", 16.0, false),
    ];
    assert!(dirty_text_bounds(&texts, &[], &[]).is_none());
}

#[test]
fn tests_dirty_text_bounds_is_none_for_empty_slice() {
    assert!(dirty_text_bounds(&[], &[], &[]).is_none());
}

#[test]
fn tests_dirty_text_bounds_ignores_non_dirty_lines() {
    let dirty_line = line(10.0, 10.0, "dirty", 16.0, true);
    let clean_line = line(1000.0, 1000.0, "clean", 16.0, false);
    let bounds = dirty_text_bounds(&[dirty_line.clone(), clean_line], &[], &[]).unwrap();
    let expected = text_line_bounds(&dirty_line);
    assert_eq!(bounds, expected, "clean line must not widen the union");
}

#[test]
fn tests_dirty_text_bounds_merges_multiple_dirty_lines() {
    let a = line(0.0, 0.0, "a", 16.0, true);
    let b = line(200.0, 300.0, "b", 16.0, true);
    let merged = dirty_text_bounds(&[a.clone(), b.clone()], &[], &[]).unwrap();
    let expected = text_line_bounds(&a).union(&text_line_bounds(&b));
    assert_eq!(merged, expected);
}

#[test]
fn tests_dirty_text_bounds_unions_with_previous_frame_bounds() {
    // A line that shrinks: its old footprint has to be repainted too.
    let shrunk = line(0.0, 0.0, "a", 16.0, true);
    let previous_bounds = text_line_bounds(&line(0.0, 0.0, "a much longer string", 16.0, false));
    let bounds = dirty_text_bounds(std::slice::from_ref(&shrunk), &[], &[previous_bounds]).unwrap();
    let current = text_line_bounds(&shrunk);
    let expected = current.union(&previous_bounds);
    assert_eq!(
        bounds, expected,
        "must cover both current and previous bounds for a dirty line"
    );
    assert!(
        width(&bounds) >= width(&previous_bounds),
        "must not be narrower than the previous frame's footprint"
    );
}

#[test]
fn tests_dirty_text_bounds_unions_when_line_grows_between_frames() {
    let grown = line(0.0, 0.0, "a much longer string", 16.0, true);
    let previous_bounds = text_line_bounds(&line(0.0, 0.0, "a", 16.0, false));
    let bounds = dirty_text_bounds(std::slice::from_ref(&grown), &[], &[previous_bounds]).unwrap();
    let current = text_line_bounds(&grown);
    assert_eq!(
        bounds, current,
        "previous bounds are fully contained, so union must equal current bounds"
    );
}

#[test]
fn tests_dirty_text_bounds_unions_when_line_moves_without_resizing() {
    let moved = line(500.0, 500.0, "a", 16.0, true);
    let previous_bounds = text_line_bounds(&line(0.0, 0.0, "a", 16.0, false));
    let bounds = dirty_text_bounds(std::slice::from_ref(&moved), &[], &[previous_bounds]).unwrap();
    let current = text_line_bounds(&moved);
    let expected = current.union(&previous_bounds);
    assert_eq!(bounds, expected);
    assert_f32_eq(px(bounds.left), 0.0);
    assert_f32_eq(px(bounds.top), 0.0);
}

#[test]
fn tests_dirty_text_bounds_handles_previous_shorter_than_texts() {
    // A line added this frame has no previous footprint.
    let existing = line(0.0, 0.0, "a", 16.0, false);
    let new_line = line(50.0, 50.0, "b", 16.0, true);
    let previous = [text_line_bounds(&existing)];
    let bounds = dirty_text_bounds(&[existing, new_line.clone()], &[], &previous).unwrap();
    let expected = text_line_bounds(&new_line);
    assert_eq!(
        bounds, expected,
        "a newly added dirty line with no previous entry must use only its current bounds"
    );
}

// Scissors.

#[test]
fn tests_logical_rect_to_physical_scissor_scales_by_dpi_factor() {
    let r = rect(10.0, 20.0, 30.0, 40.0);
    let scissor = logical_rect_to_physical_scissor(r, f(2.0), 10_000, 10_000);
    assert_eq!(scissor, (20, 40, 60, 80));
}

#[test]
fn tests_logical_rect_to_physical_scissor_clamps_to_target_bounds() {
    let r = rect(90.0, 90.0, 50.0, 50.0);
    let (scissor_x, scissor_y, scissor_w, scissor_h) =
        logical_rect_to_physical_scissor(r, f(1.0), 100, 100);
    assert_eq!(scissor_x, 90);
    assert_eq!(scissor_y, 90);
    assert_eq!(scissor_w, 10, "clamped to max_w - x");
    assert_eq!(scissor_h, 10, "clamped to max_h - y");
}

#[test]
fn tests_logical_rect_to_physical_scissor_handles_origin_outside_bounds() {
    let r = rect(200.0, 200.0, 50.0, 50.0);
    let (_, _, w, h) = logical_rect_to_physical_scissor(r, f(1.0), 100, 100);
    assert_eq!(w, 0);
    assert_eq!(h, 0);
}

#[test]
fn tests_needs_full_redraw_true_when_sticky_flag_set() {
    assert!(needs_full_redraw_this_frame(true, 3, 3, 3, 3));
}

#[test]
fn tests_needs_full_redraw_false_when_nothing_changed_and_not_sticky() {
    assert!(!needs_full_redraw_this_frame(false, 3, 3, 3, 3));
}

#[test]
fn tests_needs_full_redraw_true_when_instance_count_changes() {
    assert!(needs_full_redraw_this_frame(false, 3, 4, 3, 3));
    assert!(needs_full_redraw_this_frame(false, 4, 3, 3, 3));
}

#[test]
fn tests_needs_full_redraw_true_when_text_count_changes() {
    assert!(needs_full_redraw_this_frame(false, 3, 3, 2, 3));
    assert!(needs_full_redraw_this_frame(false, 3, 3, 3, 2));
}

#[test]
fn tests_compute_scissor_is_none_when_nothing_is_dirty() {
    let texts = [line(0.0, 0.0, "a", 16.0, false)];
    assert!(compute_scissor(&text_only(&texts, &[]), f(1.0), 1000, 1000).is_none());
}

#[test]
fn tests_compute_scissor_is_none_for_empty_texts() {
    assert!(compute_scissor(&text_only(&[], &[]), f(1.0), 1000, 1000).is_none());
}

#[test]
fn tests_compute_scissor_returns_physical_rect_for_a_dirty_line() {
    let texts = [line(10.0, 20.0, "hello", 16.0, true)];
    let (bounds, x, y, w, h) =
        compute_scissor(&text_only(&texts, &[]), f(2.0), 1000, 1000).unwrap();
    let expected_bounds = text_line_bounds(&texts[0]);
    assert_eq!(
        bounds,
        inflate(expected_bounds, AA_MARGIN),
        "logical bounds must be unscaled, and grown by the antialiasing margin"
    );
    let (expected_x, expected_y, expected_w, expected_h) =
        logical_rect_to_physical_scissor(inflate(expected_bounds, AA_MARGIN), f(2.0), 1000, 1000);
    assert_eq!(
        (x, y, w, h),
        (expected_x, expected_y, expected_w, expected_h)
    );
}

#[test]
fn tests_compute_scissor_unions_with_previous_bounds() {
    let shrunk = line(0.0, 0.0, "a", 16.0, true);
    let previous_bounds = text_line_bounds(&line(0.0, 0.0, "a much longer string", 16.0, false));
    let texts = [shrunk];
    let previous = [previous_bounds];
    let (bounds, _, _, w, _) =
        compute_scissor(&text_only(&texts, &previous), f(1.0), 1000, 1000).unwrap();
    assert!(
        width(&bounds) >= width(&previous_bounds),
        "logical union must retain the previous (wider) footprint"
    );
    assert!(
        w >= width(&previous_bounds).ceil() as u32,
        "physical scissor width must be wide enough to cover the stale footprint"
    );
}

#[test]
fn tests_compute_scissor_is_none_when_dirty_rect_lies_entirely_outside_target() {
    let texts = [line(2000.0, 2000.0, "offscreen", 16.0, true)];
    assert!(compute_scissor(&text_only(&texts, &[]), f(1.0), 100, 100).is_none());
}

// Boxes, decorations and images.

#[test]
fn tests_dirty_box_bounds_is_none_when_nothing_is_dirty() {
    let boxes = [box_at(0.0, 0.0, 10.0, 10.0), box_at(50.0, 50.0, 10.0, 10.0)];
    assert!(dirty_box_bounds(&boxes, &[false, false], &[]).is_none());
}

#[test]
fn tests_dirty_box_bounds_ignores_non_dirty_boxes() {
    let boxes = [
        box_at(10.0, 10.0, 20.0, 20.0),
        box_at(900.0, 900.0, 5.0, 5.0),
    ];
    let bounds = dirty_box_bounds(&boxes, &[true, false], &[]).unwrap();
    assert_eq!(
        bounds,
        rect_of(boxes[0].rect),
        "a clean box must not widen the union"
    );
}

#[test]
fn tests_dirty_box_bounds_unions_with_previous_frame_bounds() {
    let shrunk = box_at(0.0, 0.0, 10.0, 10.0);
    let previous = rect(0.0, 0.0, 200.0, 200.0);
    let bounds = dirty_box_bounds(std::slice::from_ref(&shrunk), &[true], &[previous]).unwrap();
    assert_eq!(bounds, rect_of(shrunk.rect).union(&previous));
    assert!(width(&bounds) >= width(&previous));
}

#[test]
fn tests_compute_scissor_is_some_when_only_a_box_is_dirty_and_no_text_exists() {
    let boxes = [box_at(10.0, 20.0, 30.0, 40.0)];
    let inputs = ScissorInputs {
        instances: &boxes,
        instances_dirty: &[true],
        ..text_only(&[], &[])
    };
    let scissor = compute_scissor(&inputs, f(1.0), 1000, 1000);
    assert!(
        scissor.is_some(),
        "a box-only mutation must produce a non-empty scissor"
    );
    let (bounds, ..) = scissor.unwrap();
    assert_eq!(bounds, inflate(rect_of(boxes[0].rect), AA_MARGIN));
}

#[test]
fn tests_compute_scissor_unions_box_and_text_dirty_regions() {
    let texts = [line(0.0, 0.0, "a", 16.0, true)];
    let boxes = [box_at(500.0, 500.0, 40.0, 40.0)];
    let inputs = ScissorInputs {
        instances: &boxes,
        instances_dirty: &[true],
        ..text_only(&texts, &[])
    };
    let (bounds, ..) = compute_scissor(&inputs, f(1.0), 1000, 1000).unwrap();
    let expected = text_line_bounds(&texts[0]).union(&rect_of(boxes[0].rect));
    assert_eq!(bounds, inflate(expected, AA_MARGIN));
}

#[test]
fn tests_a_wrapped_line_reports_bounds_several_lines_tall() {
    let paragraph = line(0.0, 0.0, &"word ".repeat(30), 12.0, true);
    let single = text_line_bounds_wrapped(&paragraph, None);
    let wrapped = text_line_bounds_wrapped(&paragraph, Some(f(120.0)));
    assert!(
        height(&wrapped) > height(&single) * 2.0,
        "a paragraph wrapped to 120px must report several lines of height, got {} vs the single-line {}",
        height(&wrapped),
        height(&single)
    );
    assert!(
        width(&wrapped) <= 120.0,
        "and no more width than it was offered"
    );
}

#[test]
fn tests_a_shadow_grows_a_decorated_boxs_dirty_bounds() {
    let mut d = decorated_at(100.0, 100.0, 50.0, 50.0, true);
    d.shadow_color = f4([0.0, 0.0, 0.0, 0.5]);
    d.shadow_dx = f(4.0);
    d.shadow_dy = f(6.0);
    d.shadow_blur = f(8.0);
    d.shadow_spread = f(2.0);
    let bounds = decorated_paint_bounds(&d);
    assert!(
        px(bounds.left) <= 90.0,
        "left edge must clear the blur: {bounds:?}"
    );
    assert!(
        px(bounds.right) >= 164.0,
        "right edge must clear offset + blur + spread: {bounds:?}"
    );
    assert!(px(bounds.bottom) >= 166.0, "{bounds:?}");
}

#[test]
fn tests_a_transparent_shadow_does_not_grow_the_bounds() {
    let d = decorated_at(100.0, 100.0, 50.0, 50.0, true);
    assert_eq!(decorated_paint_bounds(&d), rect_of(d.base.rect));
}

#[test]
fn tests_the_scissor_covers_the_antialiased_fringe() {
    let boxes = [box_at(100.0, 100.0, 40.0, 40.0)];
    let inputs = ScissorInputs {
        instances: &boxes,
        instances_dirty: &[true],
        ..text_only(&[], &[])
    };
    let (bounds, ..) = compute_scissor(&inputs, f(1.0), 1000, 1000).unwrap();
    assert!(px(bounds.left) < 100.0 && px(bounds.top) < 100.0);
    assert!(px(bounds.right) > 140.0);
    assert!(px(bounds.bottom) > 140.0);
}

#[test]
fn tests_dirty_texture_bounds_is_none_when_nothing_is_dirty() {
    let textures = [texture_at(0.0, 0.0, 10.0, 10.0, false)];
    assert!(dirty_texture_bounds(&textures, &[]).is_none());
}

#[test]
fn tests_dirty_texture_bounds_ignores_non_dirty_textures() {
    let textures = [
        texture_at(10.0, 10.0, 20.0, 20.0, true),
        texture_at(900.0, 900.0, 5.0, 5.0, false),
    ];
    let bounds = dirty_texture_bounds(&textures, &[]).unwrap();
    assert_eq!(bounds, rect_of(textures[0].rect));
}

#[test]
fn tests_dirty_texture_bounds_unions_with_previous_frame_bounds() {
    let shrunk = texture_at(0.0, 0.0, 10.0, 10.0, true);
    let previous = rect(0.0, 0.0, 200.0, 200.0);
    let bounds = dirty_texture_bounds(std::slice::from_ref(&shrunk), &[previous]).unwrap();
    assert_eq!(bounds, rect_of(shrunk.rect).union(&previous));
}

#[test]
fn tests_compute_scissor_does_not_force_full_redraw_when_a_clean_decorated_box_is_present() {
    let texts = [line(10.0, 20.0, "hi", 16.0, true)];
    let decorated = [decorated_at(0.0, 0.0, 999.0, 999.0, false)];
    let inputs = ScissorInputs {
        decorated: &decorated,
        ..text_only(&texts, &[])
    };
    let (bounds, ..) = compute_scissor(&inputs, f(1.0), 1000, 1000).unwrap();
    assert_eq!(
        bounds,
        inflate(text_line_bounds(&texts[0]), AA_MARGIN),
        "a clean decorated box must not expand the scissor"
    );
}

#[test]
fn tests_compute_scissor_includes_a_dirty_decorated_box() {
    let decorated = [decorated_at(100.0, 100.0, 50.0, 50.0, true)];
    let inputs = ScissorInputs {
        decorated: &decorated,
        ..text_only(&[], &[])
    };
    let (bounds, ..) = compute_scissor(&inputs, f(1.0), 1000, 1000).unwrap();
    assert_eq!(
        bounds,
        inflate(rect_of(decorated[0].base.rect), AA_MARGIN)
    );
}

#[test]
fn segments_end_where_their_layers_and_barriers_were_marked() {
    // Two layers and an open end; one barrier in each of the last two.
    let layers = [mark_b(3, 0), mark_b(7, 1)];
    let barriers = [mark_b(5, 0), mark_b(9, 1)];
    let segs = compute_segments(&layers, &barriers, &mark_b(12, 2));
    assert_eq!(text_ranges(&segs), vec![0..3, 3..5, 5..7, 7..9, 9..12]);
    for (l, mark) in layers.iter().enumerate() {
        let closing = &segs[l + mark.backdrop as usize];
        assert_eq!(closing.solid.end, mark.solid as usize);
        assert_eq!(closing.backdrop_after, None);
    }
    assert_eq!(segs[1].backdrop_after, Some(0));
    assert_eq!(segs[3].backdrop_after, Some(1));
}
