//! Starting up, resizing, presenting, and the first reactive label.

use byard_core::engine::{
    ACQUIRE_ERROR, Acquired, DeviceType, Engine, FRAME_LATENCY, LABEL_TEXT, Offer, ReactiveLabel,
    RenderStep, TIMEOUT_ERROR, WindowSize, blur_auto_capable, carry_dirty, choose_alpha_mode,
    choose_format, first_label, logic_tick,
};
use byard_core::error::ByardError;

fn f(x: f32) -> u32 {
    x.to_bits()
}

fn value(bits: u32) -> f32 {
    f32::from_bits(bits)
}

fn assert_f32_eq(actual: f32, expected: f32) {
    let diff = (actual - expected).abs();
    assert!(
        diff < 0.001,
        "expected {expected}, got {actual} (diff = {diff})",
    );
}

fn assert_color_eq(actual: [f32; 4], expected: [f32; 4]) {
    for i in 0..4 {
        assert_f32_eq(actual[i], expected[i]);
    }
}

fn label(text: String, x: f32, y: f32, font_size: f32, color: [f32; 4]) -> ReactiveLabel {
    ReactiveLabel::new(text, f(x), f(y), f(font_size), color.map(f32::to_bits))
}

fn label_with_text(text: &str) -> ReactiveLabel {
    label(text.to_string(), 10.0, 20.0, 16.0, [1.0, 0.5, 0.25, 0.75])
}

#[test]
fn new_stores_initial_text() {
    let mut label = label_with_text("hello");
    let line = label.text_line().expect("first tick never fails");
    assert_eq!(line.text, "hello");
}

#[test]
fn new_with_empty_string_text() {
    let mut label = label_with_text("");
    let line = label.text_line().expect("first tick never fails");
    assert_eq!(line.text, "");
}

#[test]
fn new_with_unicode_text() {
    let mut label = label_with_text("Byard — 🦀 ñ");
    let line = label.text_line().expect("first tick never fails");
    assert_eq!(line.text, "Byard — 🦀 ñ");
}

#[test]
fn new_with_long_text() {
    let long = "x".repeat(10_000);
    let mut label = label_with_text(&long);
    let line = label.text_line().expect("first tick never fails");
    assert_eq!(line.text.len(), 10_000);
}

#[test]
fn new_accepts_owned_string() {
    let owned: String = String::from("owned");
    let mut label = label(owned, 0.0, 0.0, 12.0, [0.0, 0.0, 0.0, 1.0]);
    let line = label.text_line().expect("first tick never fails");
    assert_eq!(line.text, "owned");
}

#[test]
fn new_accepts_str_slice() {
    let mut label = label("slice".to_string(), 0.0, 0.0, 12.0, [0.0, 0.0, 0.0, 1.0]);
    let line = label.text_line().expect("first tick never fails");
    assert_eq!(line.text, "slice");
}


#[test]
fn new_stores_x_position() {
    let mut label = label_with_text("t");
    let line = label.text_line().expect("first tick never fails");
    assert_f32_eq(value(line.x), 10.0);
}

#[test]
fn new_stores_y_position() {
    let mut label = label_with_text("t");
    let line = label.text_line().expect("first tick never fails");
    assert_f32_eq(value(line.y), 20.0);
}

#[test]
fn new_stores_font_size() {
    let mut label = label_with_text("t");
    let line = label.text_line().expect("first tick never fails");
    assert_f32_eq(value(line.font_size), 16.0);
}

#[test]
fn new_stores_color() {
    let mut label = label_with_text("t");
    let line = label.text_line().expect("first tick never fails");
    assert_color_eq(line.color.map(f32::from_bits), [1.0, 0.5, 0.25, 0.75]);
}

#[test]
fn new_with_zero_font_size() {
    let mut label = label("t".to_string(), 0.0, 0.0, 0.0, [0.0, 0.0, 0.0, 1.0]);
    let line = label.text_line().expect("first tick never fails");
    assert_f32_eq(value(line.font_size), 0.0);
}

#[test]
fn new_with_negative_position() {
    let mut label = label("t".to_string(), -50.0, -75.0, 12.0, [0.0, 0.0, 0.0, 1.0]);
    let line = label.text_line().expect("first tick never fails");
    assert_f32_eq(value(line.x), -50.0);
    assert_f32_eq(value(line.y), -75.0);
}

#[test]
fn new_with_alpha_zero_color() {
    let mut label = label("t".to_string(), 0.0, 0.0, 12.0, [1.0, 1.0, 1.0, 0.0]);
    let line = label.text_line().expect("first tick never fails");
    assert_color_eq(line.color.map(f32::from_bits), [1.0, 1.0, 1.0, 0.0]);
}

#[test]
fn new_with_all_color_components_at_max() {
    let mut label = label("t".to_string(), 0.0, 0.0, 12.0, [1.0, 1.0, 1.0, 1.0]);
    let line = label.text_line().expect("first tick never fails");
    assert_color_eq(line.color.map(f32::from_bits), [1.0, 1.0, 1.0, 1.0]);
}


#[test]
fn first_text_line_is_not_dirty() {
    let mut label = label_with_text("t");
    let line = label.text_line().expect("first tick never fails");
    assert!(
        !line.dirty,
        "a label that was never written to has nothing to mark dirty"
    );
}

#[test]
fn first_text_line_returns_ok() {
    let mut label = label_with_text("t");
    assert!(label.text_line().is_ok());
}

#[test]
fn set_text_marks_next_tick_dirty() {
    let mut label = label_with_text("before");
    label.set_text("after".to_string());
    let line = label.text_line().expect("tick after a write never fails");
    assert!(line.dirty);
}

#[test]
fn set_text_updates_text_content() {
    let mut label = label_with_text("before");
    label.set_text("after".to_string());
    let line = label.text_line().expect("tick after a write never fails");
    assert_eq!(line.text, "after");
}

#[test]
fn set_text_does_not_change_x() {
    let mut label = label_with_text("before");
    label.set_text("after".to_string());
    let line = label.text_line().expect("tick after a write never fails");
    assert_f32_eq(value(line.x), 10.0);
}

#[test]
fn set_text_does_not_change_y() {
    let mut label = label_with_text("before");
    label.set_text("after".to_string());
    let line = label.text_line().expect("tick after a write never fails");
    assert_f32_eq(value(line.y), 20.0);
}

#[test]
fn set_text_does_not_change_font_size() {
    let mut label = label_with_text("before");
    label.set_text("after".to_string());
    let line = label.text_line().expect("tick after a write never fails");
    assert_f32_eq(value(line.font_size), 16.0);
}

#[test]
fn set_text_does_not_change_color() {
    let mut label = label_with_text("before");
    label.set_text("after".to_string());
    let line = label.text_line().expect("tick after a write never fails");
    assert_color_eq(line.color.map(f32::from_bits), [1.0, 0.5, 0.25, 0.75]);
}

#[test]
fn second_tick_after_dirty_tick_is_clean() {
    let mut label = label_with_text("before");
    label.set_text("after".to_string());
    let first = label.text_line().expect("tick after a write never fails");
    assert!(first.dirty);

    let second = label.text_line().expect("tick with no writes never fails");
    assert!(
        !second.dirty,
        "no write happened between the two ticks, so the second must be clean"
    );
}

#[test]
fn second_tick_after_dirty_tick_keeps_the_same_text() {
    let mut label = label_with_text("before");
    label.set_text("after".to_string());
    let _ = label.text_line().expect("tick after a write never fails");
    let second = label.text_line().expect("tick with no writes never fails");
    assert_eq!(second.text, "after");
}

#[test]
fn multiple_writes_between_ticks_yield_a_single_dirty_tick() {
    let mut label = label_with_text("v0");
    label.set_text("v1".to_string());
    label.set_text("v2".to_string());
    label.set_text("v3".to_string());

    let line = label
        .text_line()
        .expect("tick after several writes never fails");
    assert!(line.dirty);

    let next = label.text_line().expect("tick with no writes never fails");
    assert!(
        !next.dirty,
        "the three writes must collapse into exactly one dirty tick"
    );
}

#[test]
fn multiple_writes_between_ticks_yield_the_latest_text() {
    let mut label = label_with_text("v0");
    label.set_text("v1".to_string());
    label.set_text("v2".to_string());
    label.set_text("v3".to_string());

    let line = label
        .text_line()
        .expect("tick after several writes never fails");
    assert_eq!(line.text, "v3");
}

#[test]
fn set_text_with_same_value_still_marks_dirty() {
    let mut label = label_with_text("same");
    label.set_text("same".to_string());
    let line = label.text_line().expect("tick after a write never fails");
    assert!(line.dirty);
    assert_eq!(line.text, "same");
}

#[test]
fn set_text_accepts_owned_string() {
    let mut label = label_with_text("before");
    let owned: String = String::from("after");
    label.set_text(owned);
    let line = label.text_line().expect("tick after a write never fails");
    assert_eq!(line.text, "after");
}

#[test]
fn set_text_accepts_str_slice() {
    let mut label = label_with_text("before");
    label.set_text("after".to_string());
    let line = label.text_line().expect("tick after a write never fails");
    assert_eq!(line.text, "after");
}

#[test]
fn set_text_accepts_formatted_string() {
    let mut label = label_with_text("before");
    label.set_text(format!("clicked {} time(s)", 3));
    let line = label.text_line().expect("tick after a write never fails");
    assert_eq!(line.text, "clicked 3 time(s)");
}

#[test]
fn sequential_set_text_calls_apply_in_order() {
    let mut label = label_with_text("start");
    for n in 1..=5 {
        label.set_text(format!("step {n}"));
        let line = label.text_line().expect("each tick never fails");
        assert_eq!(line.text, format!("step {n}"));
        assert!(line.dirty, "each step wrote, so each tick must be dirty");
    }
}

#[test]
fn alternating_write_and_tick_toggles_dirty_each_time() {
    let mut label = label_with_text("v0");
    for n in 1..=4 {
        label.set_text(format!("v{n}"));
        let dirty_line = label.text_line().expect("tick after a write never fails");
        assert!(
            dirty_line.dirty,
            "iteration {n}: expected dirty after write"
        );

        let clean_line = label.text_line().expect("tick with no writes never fails");
        assert!(
            !clean_line.dirty,
            "iteration {n}: expected clean with no intervening write"
        );
    }
}

#[test]
fn repeated_ticks_with_no_writes_stay_clean() {
    let mut label = label_with_text("static");
    for _ in 0..10 {
        let line = label.text_line().expect("tick with no writes never fails");
        assert!(!line.dirty);
        assert_eq!(line.text, "static");
    }
}

#[test]
fn text_line_can_be_called_many_times_consecutively() {
    let mut label = label_with_text("t");
    for _ in 0..100 {
        assert!(label.text_line().is_ok());
    }
}


#[test]
fn two_labels_have_independent_text() {
    let mut a = label_with_text("a-text");
    let mut b = label_with_text("b-text");
    assert_eq!(a.text_line().unwrap().text, "a-text");
    assert_eq!(b.text_line().unwrap().text, "b-text");
}

#[test]
fn two_labels_have_independent_dirty_state() {
    let mut a = label_with_text("a");
    let mut b = label_with_text("b");

    a.set_text("a2".to_string());
    let a_line = a.text_line().expect("tick after a write never fails");
    let b_line = b.text_line().expect("tick with no writes never fails");

    assert!(a_line.dirty, "a was written to");
    assert!(!b_line.dirty, "b was never touched");
}

#[test]
fn set_text_on_one_label_does_not_affect_another() {
    let mut a = label_with_text("a");
    let mut b = label_with_text("b");

    a.set_text("changed".to_string());
    let _ = a.text_line().expect("tick after a write never fails");
    let b_line = b.text_line().expect("tick with no writes never fails");

    assert_eq!(b_line.text, "b", "writing to `a` must not leak into `b`");
}

#[test]
fn the_first_label_greets_and_ticks_publish_what_was_received() {
    let mut label = first_label();
    let first = logic_tick(&mut label, vec![], &[], &[]);
    assert_eq!(first.texts.len(), 1);
    assert_eq!(first.texts[0].text, LABEL_TEXT);
    assert!(!first.texts[0].dirty);
    let second = logic_tick(
        &mut label,
        vec!["one".to_string(), "two".to_string()],
        &[],
        &[],
    );
    assert_eq!(second.texts[0].text, "two", "the latest write wins");
    assert!(second.texts[0].dirty);
}

#[test]
fn the_first_preferred_surface_format_is_taken() {
    assert_eq!(choose_format(&[false, true, true]), 1);
    assert_eq!(choose_format(&[false, false]), 0, "else the first offered");
    assert_eq!(choose_alpha_mode(&[false, false, true]), 2);
    assert_eq!(choose_alpha_mode(&[false]), 0);
}

#[test]
fn only_real_gpus_blur_at_full_cost() {
    assert!(blur_auto_capable(DeviceType::DiscreteGpu));
    assert!(!blur_auto_capable(DeviceType::Cpu));
}

fn size(width: u32, height: u32) -> WindowSize {
    WindowSize {
        width,
        height,
        logical_width: f(width as f32 / 2.0),
        logical_height: f(height as f32 / 2.0),
        scale: f(2.0),
    }
}

fn offer() -> Offer<'static> {
    Offer {
        srgb: &[false, true],
        opaque: &[true],
        device: DeviceType::DiscreteGpu,
        timestamp_query: true,
    }
}

#[test]
fn init_configures_the_surface_and_sizes_the_targets() {
    let (engine, plan) = Engine::init(&offer(), size(800, 600));
    assert_eq!(plan.config.format, 1);
    assert_eq!(plan.config.alpha_mode, 0);
    assert_eq!((plan.config.width, plan.config.height), (800, 600));
    assert_eq!(plan.config.latency, FRAME_LATENCY);
    assert_eq!(plan.targets, (800, 600));
    assert_eq!(plan.viewport.uniform[0], f(400.0));
    assert_eq!(plan.viewport.uniform[1], f(300.0));
    assert_eq!(plan.viewport.resolution, (800, 600));
    assert!(engine.gpu_timing_available());
}

#[test]
fn targets_of_a_window_without_extent_are_one_pixel() {
    let (_, plan) = Engine::init(&offer(), size(0, 0));
    assert_eq!((plan.config.width, plan.config.height), (0, 0));
    assert_eq!(plan.targets, (1, 1));
}

#[test]
fn a_resize_to_nothing_is_ignored() {
    let (mut engine, _) = Engine::init(&offer(), size(800, 600));
    assert!(engine.on_resize(size(0, 600)).is_none());
    assert!(engine.on_resize(size(800, 0)).is_none());
    assert_eq!(engine.config().width, 800);
    let plan = engine.on_resize(size(1024, 768)).expect("a real size");
    assert_eq!((plan.config.width, plan.config.height), (1024, 768));
    assert_eq!(plan.viewport.targets, Some((1024, 768)));
    assert_eq!(engine.config().width, 1024);
}

#[test]
fn the_logic_starts_with_the_first_label_behind_the_scene() {
    let (mut engine, _) = Engine::init(&offer(), size(800, 600));
    let first = engine.start_logic(&[], &[]);
    assert_eq!(first.texts.len(), 1);
    assert_eq!(first.texts[0].text, LABEL_TEXT);
}

#[test]
fn presenting_follows_what_the_surface_said() {
    let (mut engine, _) = Engine::init(&offer(), size(800, 600));
    engine.on_resize(size(1024, 768));
    let config = engine.config();
    assert_eq!((config.width, config.height), (1024, 768));
    assert_eq!(engine.render_latest(false, None), Ok(RenderStep::Done));
    assert_eq!(engine.render_latest(true, None), Ok(RenderStep::Acquire));
    assert_eq!(
        engine.render_latest(true, Some(Acquired::Success)),
        Ok(RenderStep::Encode)
    );
    assert_eq!(
        engine.render_latest(true, Some(Acquired::Suboptimal)),
        Ok(RenderStep::Encode)
    );
    assert_eq!(
        engine.render_latest(true, Some(Acquired::Lost)),
        Ok(RenderStep::Reconfigure(config))
    );
    assert_eq!(
        engine.render_latest(true, Some(Acquired::Outdated)),
        Ok(RenderStep::Reconfigure(config))
    );
    assert_eq!(
        engine.render_latest(true, Some(Acquired::Timeout)),
        Err(ByardError::RenderSurface(TIMEOUT_ERROR.to_string()))
    );
    assert_eq!(
        engine.render_latest(true, Some(Acquired::Occluded)),
        Ok(RenderStep::Done)
    );
    assert_eq!(
        engine.render_latest(true, Some(Acquired::Validation)),
        Err(ByardError::RenderSurface(ACQUIRE_ERROR.to_string()))
    );
}

#[test]
fn a_change_nobody_drew_is_carried_to_the_next_frame() {
    let (dirty, clean) = ([true, false], [false, false]);
    assert_eq!(carry_dirty(&clean, &dirty, false), [true, false]);
    assert_eq!(carry_dirty(&clean, &dirty, true), [false, false]);
    assert_eq!(carry_dirty(&[false, true], &dirty, false), [true, true]);
    // Another length cannot be compared.
    assert_eq!(carry_dirty(&clean, &[false], false), [true, true]);
    assert_eq!(carry_dirty(&clean, &[false], true), [false, false]);
    assert_eq!(carry_dirty(&[], &dirty, false), Vec::<bool>::new());
}
