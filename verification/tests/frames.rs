//! Whole frames: what is decided, drawn and remembered.

use byard_core::encoder::backdrop::{BackdropRegions, ScratchCache};
use byard_core::encoder::decorated_box::DecoratedInstance;
use byard_core::encoder::dirty::{
    AA_MARGIN, dirty_backdrop_bounds, dirty_decorated_bounds, dirty_ripple_bounds, inflate,
    text_line_bounds_wrapped,
};
use byard_core::encoder::instance_arena::{InstanceArena, Region};
use byard_core::encoder::passes::{FrameClips, PassInputs, draw_ui_pass};
use byard_core::encoder::scissor::{
    ClipCtx, ClipRun, clip_runs, clip_to_text_bounds, intersect_scissor, physical,
};
use byard_core::encoder::segments::compute_segments;
use byard_core::encoder::subsystem::{
    EncoderSubsystem, FrameDirty, FrameInputs, GPU_UI_PASS_SCOPE,
};
use byard_core::encoder::{decorated_box, ripple, solid_box};
use byard_core::pattern::{is_at_most_zero, is_positive, real_of, unit_byte};
use byard_core::frame::{
    BackdropInstance, BoxInstance, ClipRect, DecoratedBox, Gradient, LayerMark, Rect,
    RippleInstance, TextLine, Transform, rect_of,
};
use byard_core::wide::Wide;

fn f(x: f32) -> u32 {
    x.to_bits()
}

fn f4(v: [f32; 4]) -> [u32; 4] {
    v.map(f32::to_bits)
}

fn square(x: f32, y: f32, side: f32) -> BoxInstance {
    BoxInstance {
        rect: f4([x, y, side, side]),
        color: f4([1.0, 0.0, 0.0, 1.0]),
        radii: [0; 4],
        transform: Transform::identity(),
        smooth: 0,
    }
}

fn line(text: &str, dirty: bool) -> TextLine {
    TextLine {
        x: f(10.0),
        y: f(20.0),
        text: text.to_string(),
        font_size: f(16.0),
        weight: 400,
        family: None,
        color: f4([0.0, 0.0, 0.0, 1.0]),
        dirty,
    }
}

fn ripple_at(x: f32) -> RippleInstance {
    RippleInstance {
        rect: f4([x, 0.0, 10.0, 10.0]),
        params: f4([x + 5.0, 5.0, 3.0, 0.5]),
        color: [0; 4],
        radii: [0; 4],
        t_translate: [0; 2],
        t_scale: [f(1.0); 2],
        t_rotate: 0,
        t_origin: [0; 2],
        depth: f(0.5),
    }
}

fn backdrop_at(x: f32) -> BackdropInstance {
    BackdropInstance {
        rect: f4([x, 0.0, 10.0, 10.0]),
        corners: [
            [f(x), f(0.0)],
            [f(x + 10.0), f(0.0)],
            [f(x + 10.0), f(10.0)],
            [f(x), f(10.0)],
        ],
        radii: [0; 4],
        tint: [0; 4],
        saturation: f(1.0),
        opacity: f(1.0),
        depth: f(0.5),
        smooth: 0,
        blur: f(2.0),
        quality: 0,
        transform: Transform::identity(),
    }
}

fn decorated(base: BoxInstance) -> DecoratedBox {
    DecoratedBox {
        base,
        border_color: [0; 4],
        border_width: 0,
        shadow_color: [0; 4],
        shadow_dx: 0,
        shadow_dy: 0,
        shadow_blur: 0,
        shadow_spread: 0,
        opacity: f(1.0),
        gradient: None,
        dirty: false,
    }
}

fn encoder() -> EncoderSubsystem {
    let (mut e, extent) = EncoderSubsystem::init(f(1.0), 200, 100, true);
    assert_eq!(extent, (200, 100));
    let u = e.update_viewport(f(200.0), f(100.0), 200, 100, f(1.0));
    assert_eq!(u.uniform, f4([200.0, 100.0, 0.0, 0.0]));
    assert_eq!(u.targets, None, "the size is the one it was made with");
    e
}

/// Plans, draws and ends a frame; whether it drew, and the regions it drew in.
fn run(e: &mut EncoderSubsystem, frame: &FrameInputs<'_>) -> (bool, Option<Rect>) {
    let plan = e.encode_frame_with_decorations(frame, true);
    if plan.should_draw {
        let regions = vec![BackdropRegions::default(); frame.backdrops.len()];
        let passes = e.draw_frame(frame, plan.full_redraw, plan.scissor, &plan.segments, &regions);
        let barriers = plan
            .segments
            .iter()
            .filter(|s| s.backdrop_after.is_some())
            .count();
        assert_eq!(passes.len(), 1 + barriers);
    } else {
        e.skip_frame();
    }
    e.conclude_frame(frame, plan.should_draw, None);
    (plan.should_draw, plan.scissor.map(|s| s.0))
}

#[test]
fn the_first_frame_is_drawn_in_full_and_a_steady_one_not_at_all() {
    let mut e = encoder();
    let boxes = [square(10.0, 10.0, 20.0)];
    let texts = [line("hello", false)];
    let clean = FrameInputs {
        dirty: FrameDirty {
            instances: &[false],
        },
        ..FrameInputs::plain(&boxes, &texts)
    };
    let plan = e.encode_frame_with_decorations(&clean, true);
    assert!(plan.full_redraw && plan.should_draw);
    assert_eq!(plan.scissor, None);
    let text = plan.text.expect("something is drawn");
    assert_eq!(text.reshape, vec![0]);
    e.draw_frame(&clean, true, None, &plan.segments, &[]);
    e.conclude_frame(&clean, true, Some(7));
    assert_eq!(e.last_relay_version(), 7);
    assert!(e.has_text_layer(0));
    assert_eq!(run(&mut e, &clean), (false, None));
}

#[test]
fn boxes_without_dirty_bits_are_all_repainted() {
    let mut e = encoder();
    let boxes = [square(10.0, 10.0, 20.0)];
    let plan = e.encode_frame(&boxes, &[]);
    assert!(plan.full_redraw);
    e.conclude_frame(&FrameInputs::plain(&boxes, &[]), true, None);
    let plan = e.encode_frame(&boxes, &[]);
    assert!(!plan.full_redraw);
    let (bounds, x, y, w, h) = plan.scissor.expect("unknown bits repaint every box");
    assert_eq!(bounds, inflate(rect_of(boxes[0].rect), AA_MARGIN));
    assert_eq!((x, y, w, h), (8, 8, 24, 24));
}

#[test]
fn a_change_of_count_or_size_redraws_everything() {
    let mut e = encoder();
    let one = [square(10.0, 10.0, 20.0)];
    let two = [square(10.0, 10.0, 20.0), square(50.0, 10.0, 20.0)];
    assert_eq!(run(&mut e, &FrameInputs::plain(&one, &[])), (true, None));
    let plan = e.encode_frame(&two, &[]);
    assert!(plan.full_redraw);
    e.conclude_frame(&FrameInputs::plain(&two, &[]), true, None);
    let u = e.update_viewport(f(300.0), f(100.0), 300, 100, f(1.0));
    assert_eq!(u.targets, Some((300, 100)));
    assert!(e.encode_frame(&two, &[]).full_redraw);
}

#[test]
fn an_unchanged_box_is_left_alone_where_another_moves() {
    let mut e = encoder();
    let before = [square(10.0, 10.0, 20.0), square(150.0, 60.0, 20.0)];
    run(&mut e, &FrameInputs::plain(&before, &[]));
    let after = [square(30.0, 10.0, 20.0), square(150.0, 60.0, 20.0)];
    let moved = FrameInputs {
        dirty: FrameDirty {
            instances: &[true, false],
        },
        ..FrameInputs::plain(&after, &[])
    };
    let plan = e.encode_frame_with_decorations(&moved, true);
    assert!(!plan.full_redraw && plan.should_draw);
    let (bounds, x, y, w, h) = plan.scissor.expect("the moved box is repainted");
    let both = rect_of(before[0].rect).union(&rect_of(after[0].rect));
    assert_eq!(bounds, inflate(both, AA_MARGIN));
    assert_eq!((x, y, w, h), (8, 8, 44, 24));
}

#[test]
fn a_moved_decoration_repaints_its_shadow_too() {
    let shadowed = DecoratedBox {
        shadow_color: f4([0.0, 0.0, 0.0, 0.5]),
        shadow_blur: f(8.0),
        dirty: true,
        ..decorated(square(50.0, 50.0, 10.0))
    };
    let mut e = encoder();
    let before = [DecoratedBox {
        dirty: false,
        ..shadowed
    }];
    run(
        &mut e,
        &FrameInputs {
            decorated: &before,
            ..FrameInputs::plain(&[], &[])
        },
    );
    let after = [DecoratedBox {
        base: square(90.0, 50.0, 10.0),
        ..shadowed
    }];
    let (_, bounds) = run(
        &mut e,
        &FrameInputs {
            decorated: &after,
            ..FrameInputs::plain(&[], &[])
        },
    );
    let bounds = bounds.expect("a dirty box repaints");
    assert!(bounds.left <= Wide::of(f(40.0)), "the shadow it left behind");
    assert!(bounds.right >= Wide::of(f(110.0)), "and the one it casts now");
}

#[test]
fn a_vanished_ripple_or_pane_repaints_where_it_was() {
    let was = [rect_of(ripple_at(40.0).rect)];
    assert_eq!(dirty_ripple_bounds(&[], &was), Some(was[0]));
    assert_eq!(dirty_ripple_bounds(&[], &[]), None);
    let both = dirty_ripple_bounds(&[ripple_at(0.0)], &was).unwrap();
    assert_eq!(both, rect_of(ripple_at(0.0).rect).union(&was[0]));
    let pane = [rect_of(backdrop_at(40.0).rect)];
    assert_eq!(dirty_backdrop_bounds(&[], &pane), Some(pane[0]));
    assert_eq!(dirty_decorated_bounds(&[], &pane), None);
}

#[test]
fn wrapped_text_is_remembered_as_it_was_painted() {
    let text = "word ".repeat(30);
    let mut e = encoder();
    let wraps = [Some(f(60.0))];
    let clips = FrameClips {
        text_wrap: &wraps,
        ..FrameClips::default()
    };
    let before = [line(&text, false)];
    run(
        &mut e,
        &FrameInputs {
            clips,
            ..FrameInputs::plain(&[], &before)
        },
    );
    let after = [line("short", true)];
    let (_, bounds) = run(
        &mut e,
        &FrameInputs {
            clips,
            ..FrameInputs::plain(&[], &after)
        },
    );
    let painted = text_line_bounds_wrapped(&before[0], wraps[0]);
    assert!(bounds.unwrap().bottom >= painted.bottom);
}

#[test]
fn an_upload_alone_redraws_without_moving_anything() {
    let mut e = encoder();
    run(&mut e, &FrameInputs::plain(&[], &[]));
    assert_eq!(run(&mut e, &FrameInputs::plain(&[], &[])), (false, None));
    let uploads = [byard_core::frame::AtlasUpload {
        id: 3,
        layer: 0,
        x: 0,
        y: 0,
        width: 1,
        height: 1,
        bytes: vec![0; 4],
    }];
    let plan = e.encode_frame_with_decorations(
        &FrameInputs {
            atlas_uploads: &uploads,
            ..FrameInputs::plain(&[], &[])
        },
        true,
    );
    assert!(plan.should_draw && !plan.full_redraw);
    assert_eq!(plan.scissor, None);
    assert_eq!(plan.applied, vec![3]);
}

#[test]
fn clip_runs_are_as_long_as_they_can_be() {
    let clips = [Some(1), Some(1), None, None, Some(1), Some(0)];
    let table = [
        ClipRect {
            rect: f4([500.0, 0.0, 5.0, 5.0]),
        },
        ClipRect {
            rect: f4([0.0, 0.0, 10.0, 10.0]),
        },
    ];
    let ctx = ClipCtx {
        clips: &table,
        base: (0, 0, 100, 100),
        scale: f(1.0),
        phys_w: 100,
        phys_h: 100,
    };
    // Neighbours with one clip share a run, others do not, and what is clipped
    // away has none. A missing clip is no clip.
    let spans: Vec<(u32, u32)> = clip_runs(8, &clips, ctx)
        .iter()
        .map(|r| (r.start, r.end))
        .collect();
    assert_eq!(spans, vec![(0, 2), (2, 4), (4, 5), (6, 8)]);
}

#[test]
fn the_timed_pass_writes_the_first_pair_of_queries() {
    let e = encoder();
    assert_eq!(e.query_count(), 2);
    assert_eq!(e.timed_pass_writes(), Some((0, 1)));
    let (plain, _) = EncoderSubsystem::init(f(1.0), 10, 10, false);
    assert_eq!(plain.query_count(), 0);
    assert_eq!(plain.timed_pass_writes(), None);
}

#[test]
fn a_frames_timestamps_are_copied_and_mapped_once() {
    let mut e = encoder();
    assert!(e.gpu_timing_available());
    let frame = FrameInputs::plain(&[], &[]);
    let end = e.conclude_frame(&frame, true, None);
    assert_eq!(end.copy, (200, 100));
    let resolve = end.resolve.expect("the pass was timed");
    assert_eq!((resolve.slot, resolve.queries), (0, 2));
    let ticket = e.submit().expect("and waits to be mapped");
    assert_eq!(e.submit(), None, "once");
    e.complete_map(ticket, true);
    let bytes = [5u64.to_ne_bytes(), 9u64.to_ne_bytes()].concat();
    let samples = e.drain_gpu_samples(&[bytes, vec![], vec![]]);
    assert_eq!(samples.len(), 1);
    assert_eq!(samples[0].ticks, 4);
    // A frame that drew nothing has nothing to copy.
    assert_eq!(e.conclude_frame(&frame, false, None).resolve, None);
    assert_eq!(GPU_UI_PASS_SCOPE, "gpu.ui_pass");
    let (mut plain, _) = EncoderSubsystem::init(f(1.0), 10, 10, false);
    assert!(!plain.gpu_timing_available());
    assert_eq!(plain.conclude_frame(&frame, true, None).resolve, None);
}

fn mark(n: u32, b: u32) -> LayerMark {
    LayerMark {
        solid: n,
        backdrop: b,
        ..LayerMark::default()
    }
}

#[test]
fn a_pane_is_blurred_after_its_segment_and_composited_before_the_next() {
    let segments = compute_segments(&[], &[mark(2, 0)], &mark(3, 1));
    let backdrops = [backdrop_at(20.0)];
    let regions = [BackdropRegions::default()];
    let clips = [ClipRect {
        rect: f4([0.0, 0.0, 50.0, 50.0]),
    }];
    let solid = [None, Some(0), Some(0)];
    let inputs = PassInputs {
        full_redraw: true,
        scissor: None,
        scale: f(1.0),
        phys: (100, 100),
        clips: FrameClips {
            table: &clips,
            solid: &solid,
            ..FrameClips::default()
        },
        segments: &segments,
        backdrops: &backdrops,
        regions: &regions,
        auto_capable: true,
    };
    let mut scratch = ScratchCache::new();
    let passes = draw_ui_pass(&inputs, &mut scratch);
    assert_eq!(passes.len(), 2);
    assert!(passes[0].clear_color && passes[0].clear_depth && passes[0].timed);
    assert!(!passes[0].discard_depth, "the depth is kept between segments");
    assert!(passes[0].composite.is_none());
    assert_eq!(
        passes[0].segments[0].solid.runs,
        vec![
            ClipRun {
                scissor: (0, 0, 100, 100),
                start: 0,
                end: 1
            },
            ClipRun {
                scissor: (0, 0, 50, 50),
                start: 1,
                end: 2
            },
        ]
    );
    let blur = passes[0].blur.expect("the pane is blurred after what is behind it");
    assert_eq!(blur.region, (15, 0, 35, 15));
    assert!(blur.create);
    assert!(!passes[1].clear_color && !passes[1].clear_depth && !passes[1].timed);
    assert!(passes[1].discard_depth);
    assert_eq!(passes[1].composite.as_ref().unwrap().backdrop, 0);
    assert_eq!((passes[1].segments[0].solid.start, passes[1].segments[0].solid.end), (2, 3));
    assert!(passes[1].blur.is_none());
    assert!(scratch.contains_key(&0));
}

#[test]
fn an_incremental_frame_wipes_its_region_once() {
    let segments = compute_segments(&[mark(1, 0)], &[], &mark(2, 0));
    let dirty = (rect_of(f4([10.0, 10.0, 20.0, 20.0])), 10, 10, 20, 20);
    let inputs = PassInputs {
        full_redraw: false,
        scissor: Some(dirty),
        scale: f(1.0),
        phys: (100, 100),
        clips: FrameClips::default(),
        segments: &segments,
        backdrops: &[],
        regions: &[],
        auto_capable: false,
    };
    let passes = draw_ui_pass(&inputs, &mut ScratchCache::new());
    assert_eq!(passes[0].wipe, Some(dirty));
    assert_eq!(passes.len(), 1, "a layer does not split the pass");
    assert_eq!(passes[0].segments.len(), 2);
    assert_eq!(passes[0].segments[1].solid.start, 1);
    assert!(passes[0].discard_depth);
    assert!(!passes[0].clear_color);
    assert!(passes[0].clear_depth);
    assert_eq!(passes[0].segments[0].solid.runs[0].scissor, (10, 10, 20, 20));
    assert_eq!(passes[0].segments[0].text_scissor, Some((10, 10, 20, 20)));
}

#[test]
fn runs_join_neighbours_under_one_clip_and_drop_the_hidden() {
    let clips = [
        ClipRect {
            rect: f4([0.0, 0.0, 10.0, 10.0]),
        },
        ClipRect {
            rect: f4([90.0, 90.0, 50.0, 50.0]),
        },
    ];
    let ctx = ClipCtx {
        clips: &clips,
        base: (0, 0, 50, 50),
        scale: f(1.0),
        phys_w: 100,
        phys_h: 100,
    };
    let runs = clip_runs(6, &[Some(0), Some(0), Some(1), None], ctx);
    assert_eq!(
        runs,
        vec![
            ClipRun {
                scissor: (0, 0, 10, 10),
                start: 0,
                end: 2
            },
            ClipRun {
                scissor: (0, 0, 50, 50),
                start: 3,
                end: 6
            },
        ]
    );
    assert_eq!(
        intersect_scissor((0, 0, 10, 10), (5, 5, 10, 10)),
        Some((5, 5, 5, 5))
    );
    assert_eq!(intersect_scissor((0, 0, 10, 10), (10, 0, 5, 5)), None);
    assert_eq!(physical(f(0.25), f(1.0)), 1, "a hairline keeps a pixel");
    let b = clip_to_text_bounds(rect_of(f4([0.5, 0.5, 10.0, 10.0])), f(1.0));
    assert_eq!((b.left, b.top, b.right, b.bottom), (0, 0, 11, 11));
}

#[test]
fn a_decorated_record_carries_its_gradient_and_is_all_zero_without_one() {
    let mut d = decorated(square(1.0, 2.0, 3.0));
    d.border_width = f(2.0);
    d.opacity = f(0.5);
    let plain = DecoratedInstance::new(&d, f(0.25));
    assert_eq!(plain.rect, d.base.rect);
    assert_eq!(plain.params[0], f(2.0));
    assert_eq!(plain.misc, f4([0.5, 0.25, 0.0, 0.0]));
    assert_eq!((plain.grad_from, plain.grad_axis), ([0; 4], [0; 4]));
    d.gradient = Some(Gradient {
        kind: 1,
        from: f4([1.0, 0.0, 0.0, 1.0]),
        mid: f4([0.0, 1.0, 0.0, 1.0]),
        to: f4([0.0, 0.0, 1.0, 1.0]),
        axis: f4([0.0, 0.0, 0.5, 1.0]),
    });
    let ramp = DecoratedInstance::new(&d, f(0.25));
    assert_eq!(ramp.grad_to, f4([0.0, 0.0, 1.0, 1.0]));
    assert_eq!(ramp.grad_axis, f4([0.0, 0.0, 0.5, 1.0]));
    let mut arena = InstanceArena::new(256);
    arena.begin_frame();
    let r = decorated_box::stage(&mut arena, &[d], &[]);
    assert_eq!(r.len, DecoratedInstance::layout().array_stride);
}

#[test]
fn boxes_and_their_depths_are_staged_apart() {
    let mut arena = InstanceArena::new(256);
    arena.begin_frame();
    let boxes = [square(1.0, 2.0, 3.0), square(4.0, 5.0, 6.0)];
    let (records, depths) = solid_box::stage(&mut arena, &boxes, &[f(0.5)]);
    assert_eq!(records, Region { offset: 0, len: 168 });
    assert_eq!(depths, Region { offset: 168, len: 8 });
    assert_eq!(arena.staged()[168..172], 0.5f32.to_ne_bytes());
    assert_eq!(arena.staged()[172..176], 1.0f32.to_ne_bytes());
    let r = ripple::stage(&mut arena, &[ripple_at(0.0)]);
    assert_eq!(r.len, RippleInstance::layout().array_stride);
    let (quad, depth) = solid_box::clear_quad(f4([1.0, 2.0, 3.0, 4.0]));
    assert_eq!(quad.rect, f4([1.0, 2.0, 3.0, 4.0]));
    assert_eq!(quad.color.map(f32::from_bits)[3], 0.0);
    assert_eq!(f32::from_bits(depth), 1.0);
}

#[test]
fn real_numbers_become_whole_ones_the_way_they_are_meant() {
    assert!(is_positive(f(0.1)) && !is_positive(f(-0.0)) && !is_positive(f(0.0)));
    assert!(is_at_most_zero(f(-0.0)) && is_at_most_zero(f(-1.0)) && !is_at_most_zero(f(1.0)));
    for n in [0u32, 1, 3, 255, 1 << 24, (1 << 24) + 1, u32::MAX] {
        assert_eq!(real_of(n), f(n as f32), "{n}");
    }
    for c in [0.0f32, 0.1, 0.25, 0.5, 0.999, 1.0, 2.0, -1.0, f32::INFINITY] {
        let expected = (c.clamp(0.0, 1.0) * 255.0) as u8;
        assert_eq!(unit_byte(f(c)), expected, "{c}");
    }
    for bits in (0x3d00_0000u32..0x3f80_0000).step_by(99_991) {
        let expected = (f32::from_bits(bits) * 255.0) as u8;
        assert_eq!(unit_byte(bits), expected, "{bits:#x}");
    }
}
