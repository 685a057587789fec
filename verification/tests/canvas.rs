//! Canvas shapes and path fills: the records they are staged as, and the
//! coverage those records describe.

use byard_core::encoder::canvas_fill;
use byard_core::encoder::canvas_fill::FillInstance;
use byard_core::encoder::canvas_shape;
use byard_core::encoder::canvas_shape::CanvasShapeInstance;
use byard_core::encoder::instance_arena::{InstanceArena, Region};
use byard_core::encoder::pipeline::check_portable_layout;
use byard_core::frame::{
    CanvasFill, CanvasShape, FillMesh, FillVertex, GRADIENT_NONE, GROUP_NONE, Gradient, Transform,
};

const TAU: f32 = std::f32::consts::TAU;

const ARC: u32 = 0;
const LINE: u32 = 2;
const BUTT: u32 = 0;
const ROUND: u32 = 1;

fn f(x: f32) -> u32 {
    x.to_bits()
}

fn f4(v: [f32; 4]) -> [u32; 4] {
    v.map(f32::to_bits)
}

fn value(bits: u32) -> f32 {
    f32::from_bits(bits)
}

fn shape() -> CanvasShape {
    CanvasShape {
        kind: ARC,
        params: [0; 8],
        stroke_color: [0; 4],
        fill_color: [0; 4],
        stroke_width: 0,
        cap: BUTT,
        dash: [0; 2],
        dash_offset: 0,
        opacity: f(1.0),
        transform: Transform::identity(),
        group_mode: GROUP_NONE,
        group_param: 0,
        group_first: 0,
        group_count: 0,
        stroke_gradient: None,
        bounds: [0; 4],
        dirty: false,
    }
}

/// The record of an arc of radius `r` around the origin.
fn arc(r: f32, start: f32, sweep: f32, half_w: f32, cap: u32) -> CanvasShapeInstance {
    let s = CanvasShape {
        kind: ARC,
        params: [0.0, 0.0, r, start, sweep, 0.0, 0.0, 0.0].map(f32::to_bits),
        stroke_width: f(2.0 * half_w),
        cap,
        ..shape()
    };
    CanvasShapeInstance::new(&s, 0)
}

/// Wraps an angle to half a turn either way.
fn wrap_angle(a: f32) -> f32 {
    a - TAU * (a / TAU).round()
}

/// Signed distance from `p` to the stroke an arc's record describes.
fn arc_stroke(p: [f32; 2], record: &CanvasShapeInstance) -> f32 {
    let c = [value(record.params0[0]), value(record.params0[1])];
    let r = value(record.params0[2]);
    let start = value(record.params0[3]);
    let sweep = value(record.params1[0]);
    let half_w = value(record.stroke_dash[0]) * 0.5;
    let round_cap = value(record.misc[3]) == 1.0;
    let rel = [p[0] - c[0], p[1] - c[1]];
    let len = (rel[0] * rel[0] + rel[1] * rel[1]).sqrt();
    let ang = rel[1].atan2(rel[0]);
    let half_sweep = sweep.abs().min(TAU) * 0.5;
    let mid = start + sweep * 0.5;
    let delta = wrap_angle(ang - mid);
    let ring = (len - r).abs() - half_w;
    if delta.abs() <= half_sweep {
        ring
    } else if round_cap {
        let p0 = [c[0] + r * start.cos(), c[1] + r * start.sin()];
        let e = start + sweep;
        let p1 = [c[0] + r * e.cos(), c[1] + r * e.sin()];
        let d0 = ((p[0] - p0[0]).powi(2) + (p[1] - p0[1]).powi(2)).sqrt();
        let d1 = ((p[0] - p1[0]).powi(2) + (p[1] - p1[1]).powi(2)).sqrt();
        d0.min(d1) - half_w
    } else {
        ring.max((delta.abs() - half_sweep) * len.max(1e-3))
    }
}

/// Signed distance from `p` to the round-capped stroke a line's record
/// describes.
fn line_stroke_round(p: [f32; 2], record: &CanvasShapeInstance) -> f32 {
    let a = [value(record.params0[0]), value(record.params0[1])];
    let b = [value(record.params0[2]), value(record.params0[3])];
    let half_w = value(record.stroke_dash[0]) * 0.5;
    let ba = [b[0] - a[0], b[1] - a[1]];
    let pa = [p[0] - a[0], p[1] - a[1]];
    let len2 = (ba[0] * ba[0] + ba[1] * ba[1]).max(1e-6);
    let h = ((pa[0] * ba[0] + pa[1] * ba[1]) / len2).clamp(0.0, 1.0);
    let dx = pa[0] - ba[0] * h;
    let dy = pa[1] - ba[1] * h;
    (dx * dx + dy * dy).sqrt() - half_w
}

/// The dash mask a record describes at `t` along the stroke: positive on a
/// dash.
fn dash_edge(t: f32, dash_len: f32, dash_gap: f32, dash_offset: f32) -> f32 {
    let s = CanvasShape {
        dash: [f(dash_len), f(dash_gap)],
        dash_offset: f(dash_offset),
        ..shape()
    };
    let d = CanvasShapeInstance::new(&s, 0).stroke_dash.map(f32::from_bits);
    let period = d[1] + d[2].max(0.0);
    let s = ((t + d[3]) / period).fract() * period;
    let s = if s < 0.0 { s + period } else { s };
    s.min(d[1] - s)
}

#[test]
fn arc_point_on_ring_within_sweep_is_inside_the_stroke() {
    let ang = 45f32.to_radians();
    let p = [20.0 * ang.cos(), 20.0 * ang.sin()];
    let d = arc_stroke(p, &arc(20.0, 0.0, 90f32.to_radians(), 2.0, BUTT));
    assert!(d < 0.0, "on-ring in-sweep point must be covered, got {d}");
}

#[test]
fn arc_point_outside_sweep_is_not_covered_with_butt_caps() {
    let p = [-20.0, 0.0];
    let d = arc_stroke(p, &arc(20.0, 0.0, 90f32.to_radians(), 2.0, BUTT));
    assert!(d > 0.0, "out-of-sweep point must not be covered, got {d}");
}

#[test]
fn arc_round_cap_covers_just_past_the_endpoint() {
    let end = 90f32.to_radians();
    let past = end + (1.0 / 20.0);
    let p = [20.0 * past.cos(), 20.0 * past.sin()];
    let round = arc_stroke(p, &arc(20.0, 0.0, end, 2.0, ROUND));
    let butt = arc_stroke(p, &arc(20.0, 0.0, end, 2.0, BUTT));
    assert!(
        round < 0.0,
        "round cap must cover 1px past the end: {round}"
    );
    assert!(butt > 0.0, "butt cap must stop at the end: {butt}");
}

#[test]
fn full_circle_sweep_covers_every_ring_angle() {
    for deg in [0.0f32, 45.0, 133.0, 200.0, 359.0] {
        let a = deg.to_radians();
        let p = [30.0 * a.cos(), 30.0 * a.sin()];
        let d = arc_stroke(p, &arc(30.0, 0.0, TAU, 1.5, BUTT));
        assert!(d < 0.0, "sweep=360° must cover the whole ring at {deg}°");
    }
}

#[test]
fn line_stroke_covers_the_segment_band_and_round_cap() {
    // From (0, 0) to (100, 0), six pixels wide.
    let s = CanvasShape {
        kind: LINE,
        params: [0.0, 0.0, 100.0, 0.0, 0.0, 0.0, 0.0, 0.0].map(f32::to_bits),
        stroke_width: f(6.0),
        cap: ROUND,
        ..shape()
    };
    let record = CanvasShapeInstance::new(&s, 0);
    let inside = line_stroke_round([50.0, 2.0], &record);
    let outside = line_stroke_round([50.0, 5.0], &record);
    let cap = line_stroke_round([102.0, 0.0], &record);
    assert!(inside < 0.0 && outside > 0.0);
    assert!(cap < 0.0, "round cap overhangs the endpoint: {cap}");
}

#[test]
fn dash_mask_alternates_on_and_off_and_offset_shifts_the_phase() {
    assert!(dash_edge(5.0, 10.0, 10.0, 0.0) > 0.0);
    assert!(dash_edge(15.0, 10.0, 10.0, 0.0) < 0.0);
    assert!(dash_edge(5.0, 10.0, 10.0, 10.0) < 0.0);
    assert!(dash_edge(15.0, 10.0, 10.0, 10.0) > 0.0);
}

#[test]
fn instance_packs_kind_cap_depth_and_quad_bounds() {
    let s = CanvasShape {
        kind: ARC,
        params: [24.0, 24.0, 20.0, -1.0, 2.0, 0.0, 0.0, 0.0].map(f32::to_bits),
        stroke_color: f4([1.0, 0.0, 0.0, 1.0]),
        stroke_width: f(4.0),
        cap: ROUND,
        dash: [f(6.0), f(4.0)],
        dash_offset: f(2.0),
        opacity: f(0.8),
        fill_color: [0; 4],
        bounds: f4([-1.0, -1.0, 50.0, 50.0]),
        dirty: true,
        ..shape()
    };
    let inst = CanvasShapeInstance::new(&s, f(0.5));
    assert_eq!(inst.misc, f4([0.8, 0.5, 0.0, 1.0]));
    assert_eq!(inst.stroke_dash, f4([4.0, 6.0, 4.0, 2.0]));
    assert!(value(inst.rect[0]) <= 0.0 && value(inst.rect[1]) <= 0.0);
    assert!(value(inst.rect[2]) >= 48.0 && value(inst.rect[3]) >= 48.0);
    let l = CanvasShape {
        kind: LINE,
        params: [10.0, 20.0, 90.0, 20.0, 0.0, 0.0, 0.0, 0.0].map(f32::to_bits),
        stroke_width: f(2.0),
        cap: BUTT,
        bounds: f4([8.0, 18.0, 84.0, 4.0]),
        ..shape()
    };
    let li = CanvasShapeInstance::new(&l, f(0.25));
    assert!(value(li.rect[0]) <= 8.0 && value(li.rect[0]) + value(li.rect[2]) >= 92.0);
    assert_eq!(li.misc, f4([1.0, 0.25, 2.0, 0.0]));
}

#[test]
fn a_group_head_is_moved_to_where_the_records_landed() {
    let head = CanvasShape {
        group_mode: 1,
        group_param: f(0.5),
        group_first: 3,
        group_count: 2,
        ..shape()
    };
    let lone = CanvasShape {
        group_first: 3,
        ..shape()
    };
    let mut arena = InstanceArena::new(256);
    arena.begin_frame();
    let mut records = Vec::new();
    let region = canvas_shape::stage(&mut arena, &mut records, &[head, lone], &[f(0.25)], 40);
    assert_eq!(region.len, 2 * 224);
    assert_eq!(records[0].group, f4([1.0, 0.5, 43.0, 2.0]));
    assert_eq!(records[1].group, f4([0.0, 0.0, 3.0, 0.0]));
    // A shape without a depth of its own is drawn at the far plane.
    assert_eq!(value(records[0].misc[1]), 0.25);
    assert_eq!(value(records[1].misc[1]), 1.0);
    // The staged bytes are the records, lane by lane.
    let group_lane = region.offset as usize + 35 * 4;
    assert_eq!(
        arena.staged()[group_lane..group_lane + 4],
        1.0f32.to_ne_bytes()
    );
}

#[test]
fn an_empty_batch_leaves_the_records_alone() {
    let mut arena = InstanceArena::new(256);
    arena.begin_frame();
    let mut records = Vec::new();
    let first = canvas_shape::stage(&mut arena, &mut records, &[shape()], &[], 0);
    let staged = arena.staged_len();
    let none = canvas_shape::stage(&mut arena, &mut records, &[], &[], 0);
    assert_eq!(records.len(), 1);
    assert!(none.is_empty() && !first.is_empty());
    assert_eq!(arena.staged_len(), staged);
    canvas_shape::stage(&mut arena, &mut records, &[shape(), shape()], &[], 0);
    assert_eq!(records.len(), 2, "the next batch takes its place");
}

#[test]
fn a_shape_record_spends_every_attribute_an_adapter_guarantees() {
    let layout = CanvasShapeInstance::layout();
    assert_eq!(layout.array_stride, 224);
    assert_eq!(layout.attributes.len() + 1, 16);
    assert!(check_portable_layout("canvas_shape", &layout).is_ok());
}

fn ramp() -> Gradient {
    Gradient {
        kind: 0,
        from: f4([1.0, 0.0, 0.0, 1.0]),
        mid: f4([0.0, 1.0, 0.0, 1.0]),
        to: f4([0.0, 0.0, 1.0, 1.0]),
        axis: f4([std::f32::consts::FRAC_PI_2, 0.0, 0.5, 1.0]),
    }
}

#[test]
fn a_record_carries_the_gradient_the_fill_declared() {
    let fill = CanvasFill {
        mesh: FillMesh {
            vertices: vec![],
            indices: vec![],
        },
        color: f4([1.0, 0.0, 0.0, 1.0]),
        gradient: Some(ramp()),
        transform: Transform::identity(),
        opacity: f(0.5),
        dirty: true,
    };
    let record = FillInstance::new(&fill, f(0.25));
    assert_eq!(record.grad_kind, ramp().kind);
    assert_eq!(record.grad_from, f4([1.0, 0.0, 0.0, 1.0]));
    assert!((value(record.misc[0]) - 0.5).abs() < f32::EPSILON);
    assert!((value(record.misc[1]) - 0.25).abs() < f32::EPSILON);
}

#[test]
fn a_solid_fill_says_it_has_no_gradient_rather_than_leaving_it_to_be_inferred() {
    let fill = CanvasFill {
        mesh: FillMesh {
            vertices: vec![],
            indices: vec![],
        },
        color: f4([0.0, 0.0, 1.0, 1.0]),
        gradient: None,
        transform: Transform::identity(),
        opacity: f(1.0),
        dirty: true,
    };
    let record = FillInstance::new(&fill, 0);
    assert_eq!(record.grad_kind, GRADIENT_NONE);
    assert_eq!(record.grad_axis.map(f32::from_bits), [0.0; 4]);
}

#[test]
fn the_vertex_state_fits_the_portable_attribute_floor() {
    check_portable_layout("canvas_fill", &FillInstance::layout())
        .expect("the record layout is portable");
    let total =
        FillInstance::mesh_layout().attributes.len() + FillInstance::layout().attributes.len();
    assert!(total <= 16, "{total} attributes is past the floor");
}

#[test]
fn a_fill_without_triangles_stages_nothing() {
    let empty = CanvasFill {
        mesh: FillMesh {
            vertices: vec![],
            indices: vec![],
        },
        color: [0; 4],
        gradient: None,
        transform: Transform::identity(),
        opacity: f(1.0),
        dirty: true,
    };
    let triangle = CanvasFill {
        mesh: FillMesh {
            vertices: vec![
                FillVertex {
                    pos: [f(0.0), f(0.0)],
                    uv: [f(0.0), f(0.0)],
                },
                FillVertex {
                    pos: [f(4.0), f(0.0)],
                    uv: [f(1.0), f(0.0)],
                },
                FillVertex {
                    pos: [f(0.0), f(4.0)],
                    uv: [f(0.0), f(1.0)],
                },
            ],
            indices: vec![0, 1, 2],
        },
        ..empty.clone()
    };
    let mut arena = InstanceArena::new(256);
    arena.begin_frame();
    let mut out = Vec::new();
    canvas_fill::stage(&mut arena, &mut out, &[empty, triangle], &[0, f(0.25)]);
    assert_eq!(out.len(), 1, "the path without triangles is left out");
    assert_eq!(out[0].index_count, 3);
    assert_eq!(out[0].vertices, Region { offset: 0, len: 48 });
    assert_eq!(out[0].indices, Region { offset: 48, len: 12 });
    assert_eq!(out[0].record, Region { offset: 60, len: 128 });
    // The second vertex stands sixteen bytes in, and the path keeps the depth
    // of its own place in the list.
    assert_eq!(arena.staged()[16..20], 4.0f32.to_ne_bytes());
    assert_eq!(arena.staged()[60 + 84..60 + 88], 0.25f32.to_ne_bytes());
}
