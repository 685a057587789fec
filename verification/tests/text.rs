//! Shape keys, content hashes and the text cache.

use byard_core::encoder::scissor::TextBounds;
use byard_core::encoder::text_glyph::{
    CachedLine, TextGlyphPipeline, TextLayer, assert_dirty_flag_consistency,
    collect_layer_text_areas, content_hash, index_is_identity_stable, needs_reshape, shape_key,
};
use byard_core::frame::{ClipRect, TextLine};

fn f(x: f32) -> u32 {
    x.to_bits()
}

fn f4(v: [f32; 4]) -> [u32; 4] {
    v.map(f32::to_bits)
}

fn line(text: &str, font_size: f32) -> TextLine {
    TextLine {
        x: 0,
        y: 0,
        text: text.to_string(),
        font_size: f(font_size),
        weight: 400,
        family: None,
        color: f4([1.0, 1.0, 1.0, 1.0]),
        dirty: false,
    }
}

fn colored(text: &str, font_size: f32, color: [f32; 4]) -> TextLine {
    TextLine {
        color: f4(color),
        ..line(text, font_size)
    }
}

#[test]
fn a_registered_family_is_loaded_once_however_often_it_is_delivered() {
    let fonts = ["Space Grotesk".to_string()];
    let mut pipeline = TextGlyphPipeline::new();
    assert_eq!(pipeline.register_fonts(&fonts).len(), 1, "first frame");
    for frame in 2..=10 {
        assert_eq!(
            pipeline.register_fonts(&fonts).len(),
            0,
            "frame {frame} re-loaded a face already resident"
        );
    }
}

#[test]
fn needs_reshape_false_when_the_shaped_run_would_be_identical() {
    assert!(!needs_reshape(false, false));
}

#[test]
fn needs_reshape_true_when_only_viewport_is_dirty() {
    assert!(needs_reshape(true, false));
}

#[test]
fn needs_reshape_true_when_only_the_shape_key_moved() {
    assert!(needs_reshape(false, true));
}

#[test]
fn needs_reshape_true_when_both_are_dirty() {
    assert!(needs_reshape(true, true));
}

#[test]
fn the_shape_key_is_stable_for_an_identical_run() {
    assert_eq!(
        shape_key(&line("hello", 14.0), None),
        shape_key(&line("hello", 14.0), None)
    );
}

#[test]
fn the_shape_key_moves_with_text_size_and_wrap() {
    let base = shape_key(&line("hello", 14.0), None);
    assert_ne!(base, shape_key(&line("world", 14.0), None), "text");
    assert_ne!(base, shape_key(&line("hello", 15.0), None), "font size");
    assert_ne!(
        base,
        shape_key(&line("hello", 14.0), Some(f(40.0))),
        "wrap width"
    );
}

#[test]
fn the_shape_key_moves_with_weight_and_family() {
    let base = shape_key(&line("hello", 14.0), None);
    let bold = TextLine {
        weight: 700,
        ..line("hello", 14.0)
    };
    let display = TextLine {
        family: Some("Space Grotesk".to_string()),
        ..line("hello", 14.0)
    };
    assert_ne!(base, shape_key(&bold, None), "weight");
    assert_ne!(base, shape_key(&display, None), "family");
}

#[test]
fn a_fixed_width_number_keeps_its_key_stable_until_the_value_actually_moves() {
    let a = shape_key(&line(&format!("{:>5.1}", 3.4), 12.0), None);
    let b = shape_key(&line(&format!("{:>5.1}", 3.4), 12.0), None);
    let c = shape_key(&line(&format!("{:>5.1}", 12.7), 12.0), None);
    assert_eq!(a, b, "an unchanged reading re-shapes nothing");
    assert_ne!(a, c, "a changed reading still re-shapes, once");
}

#[test]
fn a_colour_change_alone_never_re_shapes() {
    let before = shape_key(&line("tap me", 16.0), None);
    let after = shape_key(&colored("tap me", 16.0, [1.0, 0.0, 0.0, 1.0]), None);
    assert_eq!(before, after);
    assert!(!needs_reshape(false, before != after));
}

#[test]
fn a_forgotten_dirty_flag_can_no_longer_leave_a_line_stale() {
    let cached = shape_key(&line("before", 14.0), None);
    let this_frame = shape_key(&line("after", 14.0), None);
    assert!(
        needs_reshape(false, this_frame != cached),
        "the shaped run is re-derived from the content, not from a claim about it"
    );
}

#[test]
fn a_length_change_makes_every_index_unstable() {
    assert!(!index_is_identity_stable(false, true));
    assert!(!index_is_identity_stable(true, true));
}

#[test]
fn a_brand_new_index_is_never_compared_against_a_previous_occupant() {
    assert!(!index_is_identity_stable(true, false));
}

#[test]
fn a_stable_pool_is_compared_index_wise() {
    assert!(index_is_identity_stable(false, false));
    assert!(!needs_reshape(false, false));
}

#[test]
fn consistency_check_passes_when_hash_unchanged_and_not_dirty() {
    assert_dirty_flag_consistency(false, false);
}

#[test]
fn consistency_check_passes_when_hash_unchanged_but_dirty_anyway() {
    // Reporting too much is wasteful, never wrong.
    assert_dirty_flag_consistency(false, true);
}

#[test]
fn consistency_check_passes_when_hash_changed_and_dirty_was_set() {
    assert_dirty_flag_consistency(true, true);
}

#[test]
#[should_panic(expected = "may not be repainted where it changed")]
fn consistency_check_reports_a_change_the_redraw_region_will_miss() {
    assert_dirty_flag_consistency(true, false);
}

#[test]
fn content_hash_is_stable_for_identical_input() {
    let a = content_hash(&line("hello", 14.0), None);
    let b = content_hash(&line("hello", 14.0), None);
    assert_eq!(a, b);
}

#[test]
fn content_hash_changes_with_text() {
    let a = content_hash(&line("hello", 14.0), None);
    let b = content_hash(&line("world", 14.0), None);
    assert_ne!(a, b);
}

#[test]
fn content_hash_changes_with_wrap_width() {
    let a = content_hash(&line("hello world", 14.0), None);
    let b = content_hash(&line("hello world", 14.0), Some(f(40.0)));
    assert_ne!(a, b);
}

#[test]
fn the_repaint_hash_widens_the_shape_key_rather_than_replacing_it() {
    let white = content_hash(&line("ok", 14.0), None);
    let red = content_hash(&colored("ok", 14.0, [1.0, 0.0, 0.0, 1.0]), None);
    assert_ne!(white, red, "a recolour must reach the redraw region");
    assert_eq!(
        shape_key(&line("ok", 14.0), None),
        shape_key(&colored("ok", 14.0, [1.0, 0.0, 0.0, 1.0]), None),
        "and must not reach the shaper"
    );
}

#[test]
fn text_line_dirty_field_round_trips() {
    let dirty_line = TextLine {
        x: 0,
        y: 0,
        text: "hi".to_string(),
        font_size: f(12.0),
        weight: 400,
        family: None,
        color: f4([0.0, 0.0, 0.0, 1.0]),
        dirty: true,
    };
    assert!(dirty_line.dirty);

    let clean_line = TextLine {
        dirty: false,
        ..dirty_line
    };
    assert!(!clean_line.dirty);
}

#[test]
fn families_seen_before_are_skipped_and_repeats_count_once() {
    let mut pipeline = TextGlyphPipeline::new();
    let names = |v: &[&str]| v.iter().map(|s| s.to_string()).collect::<Vec<_>>();
    assert_eq!(
        pipeline.register_fonts(&names(&["a", "b", "a"])),
        vec![0, 1]
    );
    assert_eq!(pipeline.register_fonts(&names(&["c", "b"])), vec![0]);
}

#[test]
fn a_steady_scene_reshapes_nothing() {
    let mut pipeline = TextGlyphPipeline::new();
    let texts = [line("one", 14.0), line("two", 14.0)];
    let first = pipeline.prepare(&texts, &[], false, &[0..2], usize::MAX);
    assert_eq!(first.reshape, vec![0, 1], "a new index is always shaped");
    assert_eq!(first.renderers, 1);
    let second = pipeline.prepare(&texts, &[], false, &[0..2], usize::MAX);
    assert_eq!(second.reshape, Vec::<usize>::new());
    assert_eq!(pipeline.reshaped_lines(), 0);
    assert!(pipeline.has_layer(0));
    assert!(!pipeline.has_layer(1));
    // A new viewport shapes everything again.
    let third = pipeline.prepare(&texts, &[], true, &[0..2], usize::MAX);
    assert_eq!(third.reshape, vec![0, 1]);
    assert_eq!(pipeline.reshaped_lines(), 2);
}

#[test]
fn a_repainted_scene_reshapes_nothing() {
    let mut pipeline = TextGlyphPipeline::new();
    let texts = [line("one", 14.0), line("a line longer than sixteen bytes", 14.0)];
    pipeline.prepare(&texts, &[Some(f(80.0))], false, &[0..2], usize::MAX);
    let painted = texts.map(|t| TextLine {
        x: f(99.0),
        y: f(-3.0),
        color: f4([0.5, 0.25, 0.0, 1.0]),
        dirty: true,
        ..t
    });
    let plan = pipeline.prepare(&painted, &[Some(f(80.0))], false, &[0..2], usize::MAX);
    assert_eq!(plan.reshape, Vec::<usize>::new());
    assert_eq!(plan.unreported, Vec::<usize>::new());
    // The wrap width does reach the shaper.
    let plan = pipeline.prepare(&painted, &[], false, &[0..2], usize::MAX);
    assert_eq!(plan.reshape, vec![0]);
}

#[test]
fn a_changed_length_reshapes_everything_and_then_settles() {
    let mut pipeline = TextGlyphPipeline::new();
    let three = [line("a", 14.0), line("b", 14.0), line("c", 14.0)];
    pipeline.prepare(&three, &[], false, &[0..3], usize::MAX);
    let two = [line("a", 14.0), line("b", 14.0)];
    let shrunk = pipeline.prepare(&two, &[], false, &[0..2], usize::MAX);
    assert_eq!(shrunk.reshape, vec![0, 1]);
    let settled = pipeline.prepare(&two, &[], false, &[0..2], usize::MAX);
    assert_eq!(settled.reshape, Vec::<usize>::new());
}

#[test]
fn a_line_that_changed_without_saying_so_is_reshaped_and_reported() {
    let mut pipeline = TextGlyphPipeline::new();
    let key = |n: u64| CachedLine {
        shape_key: n,
        content_hash: 100 + n,
    };
    pipeline.prepare_keys(vec![key(1), key(2)], &[true, true], false, &[0..2], usize::MAX);
    let plan = pipeline.prepare_keys(
        vec![key(1), key(3)],
        &[false, false],
        false,
        &[0..2],
        usize::MAX,
    );
    assert_eq!(plan.reshape, vec![1]);
    assert_eq!(plan.unreported, vec![1]);
    let plan = pipeline.prepare_keys(
        vec![key(1), key(4)],
        &[false, true],
        false,
        &[0..2],
        usize::MAX,
    );
    assert_eq!(plan.reshape, vec![1]);
    assert_eq!(plan.unreported, Vec::<usize>::new());
}

#[test]
fn development_lines_are_shaped_but_not_counted() {
    let mut pipeline = TextGlyphPipeline::new();
    let texts = [line("app", 14.0), line("hud", 14.0)];
    let plan = pipeline.prepare(&texts, &[], false, &[0..1, 1..2], 1);
    assert_eq!(plan.reshape, vec![0, 1]);
    assert_eq!(plan.app_reshape, 1);
    assert_eq!(
        plan.layers,
        vec![
            TextLayer {
                start: 0,
                end: 1,
                dev: false
            },
            TextLayer {
                start: 1,
                end: 2,
                dev: true
            },
        ]
    );
}

#[test]
fn an_areas_colour_and_clip_reach_the_renderer() {
    let texts = [colored("a", 14.0, [1.0, 0.5, 0.0, 2.0]), line("b", 14.0)];
    let clips = [ClipRect {
        rect: f4([10.0, 20.0, 30.0, 40.0]),
    }];
    let layer = TextLayer {
        start: 0,
        end: 2,
        dev: false,
    };
    let areas = collect_layer_text_areas(&texts, layer, f(2.0), &clips, &[Some(0), None]);
    assert_eq!(areas.len(), 2);
    assert_eq!(areas[0].line, 0);
    assert_eq!(areas[0].color, [255, 127, 0, 255]);
    assert_eq!(
        areas[0].bounds,
        TextBounds {
            left: 20,
            top: 40,
            right: 80,
            bottom: 120
        }
    );
    assert_eq!(
        areas[1].bounds,
        TextBounds {
            left: 0,
            top: 0,
            right: i32::MAX,
            bottom: i32::MAX
        }
    );
}
