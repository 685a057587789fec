//! Exact numbers, and what is decided with them far from ordinary sizes.

use byard_core::encoder::dirty::{inflate, text_line_bounds, text_line_bounds_wrapped};
use byard_core::encoder::scissor::{logical_rect_to_physical_scissor, physical};
use byard_core::frame::{Rect, TextLine};
use byard_core::wide::{Wide, scaled_down, scaled_up};

fn f(x: f32) -> u32 {
    x.to_bits()
}

fn line(text: &str, font_size: f32) -> TextLine {
    TextLine {
        x: 0,
        y: 0,
        text: text.to_string(),
        font_size: f(font_size),
        weight: 400,
        family: None,
        color: [0; 4],
        dirty: false,
    }
}

#[test]
fn every_number_is_held_exactly() {
    // Four units to the smallest number there is.
    assert_eq!(Wide::of(1).parts(), (0, 0, 4));
    assert_eq!(Wide::of(f(-0.0)).parts(), (0, 0, 0));
    assert_eq!(Wide::of(f(f32::NAN)).parts(), (0, 0, 0));
    assert_eq!(Wide::of(f(1.0)).parts(), (0, 1 << 23, 0));
    assert_eq!(Wide::of(f(-1.0)).parts(), (-1, u128::MAX - (1 << 23) + 1, 0));
    assert_eq!(Wide::of(f(f32::INFINITY)).parts(), (1 << 23, 0, 0));
    assert_eq!(Wide::power(130).parts(), (0, 4, 0));
}

#[test]
fn sums_products_and_quotients_are_exact() {
    let tiny = Wide::of(1);
    let huge = Wide::of(f(f32::MAX));
    assert_eq!(huge.plus(tiny).plus(huge.negated()), tiny);
    assert!(huge < huge.plus(tiny) && tiny.negated() < Wide::zero());
    assert!(tiny.at_most(huge) && !huge.at_most(tiny));
    assert_eq!(tiny.times(3).halved().parts(), (0, 0, 6));
    assert_eq!(tiny.negated().scaled_by(-5).parts(), (0, 0, 20));
    assert_eq!(Wide::of(f(7.0)).divided_up(Wide::of(f(2.0))), 4);
    assert_eq!(Wide::of(f(8.0)).divided_up(Wide::of(f(2.0))), 4);
    assert_eq!(huge.divided_up(tiny), u128::MAX);
    // Sums past the range stay at its end.
    let end = huge.times(u128::MAX);
    assert_eq!(end.plus(huge), end);
    assert_eq!(end.negated().plus(huge.negated()), end.negated());
    assert_eq!(scaled_down(Wide::of(f(-1.5)), 1, 151), -2);
    assert_eq!(scaled_up(Wide::of(f(-1.5)), 1, 151), -1);
    assert_eq!(scaled_down(Wide::of(f(1.5)), -1, 151), -2);
    assert_eq!(scaled_up(huge, 1, 0), 1 << 62);
}

#[test]
fn more_characters_are_wider_at_any_size() {
    for size in [2f32.powi(-17), f32::from_bits(1), 16.0, f32::MAX] {
        let three = text_line_bounds(&line("abc", size));
        let four = text_line_bounds(&line("abcd", size));
        assert!(three.right < four.right, "{size}");
        assert_eq!(three.bottom, four.bottom);
        assert_eq!(four.right, Wide::of(f(size)).times(3));
    }
}

#[test]
fn a_paragraph_far_larger_than_its_column_counts_its_lines() {
    let tall = text_line_bounds_wrapped(&line("a", 1.0), Some(f(2f32.powi(-70))));
    // ceil(0.95 * 2^70) lines of a pixel and a half.
    let lines = (95u128 << 70).div_ceil(100);
    assert_eq!(tall.bottom, Wide::of(f(1.0)).times(lines).times(3).halved());
}

#[test]
fn a_scale_is_never_rounded() {
    let rect = Rect::new(0, 0, f(1024.0), f(1024.0));
    let scale = f32::from_bits(f(2f32.powi(-10)) + 1);
    assert_eq!(
        logical_rect_to_physical_scissor(rect, f(scale), 10, 10),
        (0, 0, 2, 2)
    );
    assert_eq!(
        logical_rect_to_physical_scissor(rect, f(2f32.powi(-10)), 10, 10),
        (0, 0, 1, 1)
    );
    assert_eq!(physical(f(1024.0), f(scale)), 2);
    let far = Rect::new(f(2f32.powi(45)), 0, f(1.0), f(1.0));
    assert_eq!(
        logical_rect_to_physical_scissor(far, f(2f32.powi(-30)), 1 << 20, 10),
        (1 << 15, 0, 1, 1)
    );
}

#[test]
fn what_is_not_a_number_is_empty() {
    let nan = f(f32::NAN);
    for r in [
        Rect::new(nan, 0, f(10.0), f(10.0)),
        Rect::new(0, 0, nan, f(10.0)),
    ] {
        let (x, y, w, h) = logical_rect_to_physical_scissor(inflate(r, f(2.0)), f(1.0), 100, 100);
        assert_eq!((x, y, w, h), (0, 0, 0, 12));
    }
    let r = Rect::new(0, 0, f(10.0), f(10.0));
    assert_eq!(
        logical_rect_to_physical_scissor(r, nan, 100, 100),
        (0, 0, 0, 0)
    );
}
