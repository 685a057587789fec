//! The dirty region: which part of the target an incremental frame repaints.
//!
//! A dirty primitive contributes what it paints now and what it painted in the
//! previous frame, so that a primitive that shrank or moved still clears its
//! old footprint.

use super::scissor::{
    ceil_div, ceil_px, floor_px, holds_pixel, law_scissor_holds_the_touched_pixels,
    lemma_rounded_against, logical_rect_to_physical_scissor, pixel_units, scale_factor, scale_shift, scissor_of, Scissor,
};
use crate::pattern::{
    at_most_zero, binary_exponent, exponent_field, fraction_field, is_at_most_zero, is_nan,
    is_negative, is_positive, nan, positive, significand,
};
use crate::frame::{
    covers, edge_past, law_rectangle_is_where_its_numbers_say, max_int, min_int, numbers, occupies,
    past, rect_of, rect_spec, union_of, BackdropInstance,
    BoxInstance, CanvasShape, DecoratedBox, Rect, RippleInstance, TextLine, TextureSampler,
};
use crate::wide::{
    count_held, group_wide, held, lemma_value_reach, reach, value, wide, Wide, UNIT_EXPONENT,
};
use vstd::arithmetic::power2::pow2;
use vstd::prelude::*;

verus! {

broadcast use group_wide;

/// How far past its own rectangle a primitive's antialiased edge can fall: the
/// pattern of two logical pixels.
pub const AA_MARGIN: u32 = 0x4000_0000;

/// The width a run of `chars` characters is taken to need: three quarters of
/// the font size each. Nothing is rounded, every value being a multiple of four
/// units.
pub open spec fn natural_width(font_size: u32, chars: nat) -> int {
    (3 * (value(font_size) * chars)) / 4
}

/// How many lines a run of `chars` characters is taken to need inside `wrap`:
/// at ninety-five hundredths of the font size each, at least one.
pub open spec fn line_count(font_size: u32, chars: nat, wrap: u32) -> int {
    count_held(max_int(ceil_div(95 * (value(font_size) * chars), 100 * value(wrap)), 1))
}

/// How tall so many lines are taken to be: one and a half times the font size
/// each.
pub open spec fn lines_height(font_size: u32, lines: int) -> int {
    held(3 * held(value(font_size) * lines)) / 2
}

/// Whether a line wraps: only a positive width is one.
pub open spec fn wraps_at(wrap: Option<u32>) -> bool {
    wrap matches Some(w) && positive(w)
}

/// The width and the number of lines of a run that may wrap.
pub open spec fn text_extent(font_size: u32, chars: nat, wrap: Option<u32>) -> (int, int) {
    if wraps_at(wrap) {
        (value(wrap->0), line_count(font_size, chars, wrap->0))
    } else {
        (natural_width(font_size, chars), 1)
    }
}

/// The generous bounding box of a text line.
pub open spec fn text_bounds(line: TextLine, wrap: Option<u32>) -> Rect {
    let (width, lines) = text_extent(line.font_size, line.text@.len(), wrap);
    Rect {
        left: wide(value(line.x)),
        top: wide(value(line.y)),
        right: past(line.x, width, wraps_at(wrap) || !is_nan(line.font_size)),
        bottom: past(line.y, lines_height(line.font_size, lines), !is_nan(line.font_size)),
    }
}

/// A value times a character count stays far within range.
proof fn lemma_text_product(bits: u32, n: int)
    requires
        0 <= n <= 0xffff_ffff_ffff_ffff,
    ensures
        -0x1_0000_0000_0000_0000int * reach() <= value(bits) * n <= 0x1_0000_0000_0000_0000int
            * reach(),
{
    lemma_value_reach(bits);
    let v = value(bits);
    let r = reach();
    assert(-0x1_0000_0000_0000_0000int * r <= v * n <= 0x1_0000_0000_0000_0000int * r)
        by (nonlinear_arith)
        requires
            -r <= v <= r,
            0 <= n <= 0xffff_ffff_ffff_ffff,
            r > 0,
    ;
}

/// A positive pattern has a positive value, of at least four units.
proof fn lemma_positive_value(bits: u32)
    ensures
        positive(bits) ==> value(bits) >= 4,
        !positive(bits) ==> value(bits) <= 0,
{
    lemma_value_reach(bits);
    let m = significand(bits) as int;
    let s = (binary_exponent(bits) + UNIT_EXPONENT) as nat;
    vstd::arithmetic::power2::lemma_pow2_pos(s);
    let p = pow2(s) as int;
    assert(m >= 0 ==> m * p >= 0) by (nonlinear_arith)
        requires
            p > 0,
    ;
    assert(m > 0 ==> m * p > 0) by (nonlinear_arith)
        requires
            p > 0,
    ;
    if positive(bits) {
        assert(m > 0);
    } else if !is_nan(bits) && !is_negative(bits) {
        assert(bits == 0);
        assert(0 * p == 0);
    }
}

/// Deliberately generous bounding box of a line that does not wrap.
pub fn text_line_bounds(line: &TextLine) -> (r: Rect)
    ensures
        r == text_bounds(*line, None),
{
    text_line_bounds_wrapped(line, None)
}

/// How many lines a run needs inside a positive width.
fn lines_inside(font_size: u32, chars: usize, wrap: u32) -> (lines: u128)
    requires
        positive(wrap),
    ensures
        lines == line_count(font_size, chars as nat, wrap),
        lines >= 1,
{
    let f: Wide = Wide::of(font_size);
    let offered: Wide = Wide::of(wrap);
    proof {
        lemma_text_product(font_size, chars as int);
        lemma_positive_value(wrap);
    }
    let run: Wide = f.times(chars as u128).times(95);
    let step: Wide = offered.times(100);
    if Wide::zero().at_most(run) {
        let count: u128 = run.divided_up(step);
        if count < 1 {
            1
        } else {
            count
        }
    } else {
        proof {
            let n = 95 * (value(font_size) * chars);
            let d = 100 * value(wrap);
            vstd::arithmetic::div_mod::lemma_div_pos_is_pos(-n, d);
        }
        1
    }
}

/// [`text_line_bounds`] for a line that may wrap: it then takes the width it
/// was offered and several lines of height.
pub fn text_line_bounds_wrapped(line: &TextLine, wrap: Option<u32>) -> (r: Rect)
    ensures
        r == text_bounds(*line, wrap),
{
    let chars: usize = line.text.as_str().unicode_len();
    let f: Wide = Wide::of(line.font_size);
    proof {
        lemma_text_product(line.font_size, chars as int);
    }
    let natural: Wide = f.times(chars as u128).times(3).halved().halved();
    proof {
        let n = 3 * (value(line.font_size) * chars);
        assert((n / 2) / 2 == n / 4);
        assert(natural@ == natural_width(line.font_size, chars as nat));
    }
    let (width, lines, wrapped): (Wide, u128, bool) = match wrap {
        Some(w) => if is_positive(w) {
            (Wide::of(w), lines_inside(line.font_size, chars, w), true)
        } else {
            (natural, 1, false)
        },
        None => (natural, 1, false),
    };
    let known: bool = !nan(line.font_size);
    let height: Wide = f.times(lines).times(3).halved();
    proof {
        let a = held(value(line.font_size) * lines);
        assert(a * 3 == 3 * a);
    }
    Rect {
        left: Wide::of(line.x),
        top: Wide::of(line.y),
        right: edge_past(line.x, width, wrapped || known),
        bottom: edge_past(line.y, height, known),
    }
}

/// More characters at one font size give strictly wider bounds of the same
/// height, which start where the line does.
pub proof fn law_more_text_is_wider(a: TextLine, b: TextLine)
    requires
        a.font_size == b.font_size,
        positive(a.font_size),
        a.text@.len() < b.text@.len() <= usize::MAX,
        !is_nan(a.x) && !is_nan(b.x) && !is_nan(a.y) && !is_nan(b.y),
    ensures
        text_bounds(a, None).left@ == value(a.x),
        text_bounds(a, None).top@ == value(a.y),
        0 <= text_bounds(a, None).right@ - value(a.x) < text_bounds(b, None).right@ - value(b.x),
        0 <= text_bounds(a, None).bottom@ - value(a.y) == text_bounds(b, None).bottom@ - value(b.y),
{
    let v = value(a.font_size);
    let m = a.text@.len();
    let n = b.text@.len();
    lemma_positive_value(a.font_size);
    lemma_value_reach(a.font_size);
    lemma_value_reach(a.x);
    lemma_value_reach(a.y);
    lemma_value_reach(b.x);
    lemma_value_reach(b.y);
    lemma_text_product(a.font_size, m as int);
    lemma_text_product(a.font_size, n as int);
    assert(0 <= v * m && v * m + 4 <= v * n) by (nonlinear_arith)
        requires
            v >= 4,
            0 <= m < n,
    ;
    assert(v * 1 == v);
}

/// The union of two optional rectangles.
pub open spec fn opt_union(a: Option<Rect>, b: Option<Rect>) -> Option<Rect> {
    match (a, b) {
        (Some(x), Some(y)) => Some(union_of(x, y)),
        (Some(x), None) => Some(x),
        (None, Some(y)) => Some(y),
        (None, None) => None,
    }
}

/// Unions two optional rectangles; an absent one changes nothing.
pub fn union_opt(a: Option<Rect>, b: Option<Rect>) -> (r: Option<Rect>)
    ensures
        r == opt_union(a, b),
{
    match (a, b) {
        (Some(x), Some(y)) => Some(x.union(&y)),
        (Some(x), None) => Some(x),
        (None, Some(y)) => Some(y),
        (None, None) => None,
    }
}

/// The rectangle at `i`, if there is one.
pub open spec fn rect_at(rects: Seq<Rect>, i: int) -> Option<Rect> {
    if 0 <= i < rects.len() {
        Some(rects[i])
    } else {
        None
    }
}

/// The union of every dirty item's bounds and its bounds in the previous
/// frame; nothing when no item is dirty.
pub open spec fn dirty_union(items: Seq<(Rect, bool)>, previous: Seq<Rect>) -> Option<Rect>
    decreases items.len(),
{
    if items.len() == 0 {
        None
    } else {
        let i = items.len() - 1;
        let before = dirty_union(items.drop_last(), previous);
        if items[i].1 {
            opt_union(before, opt_union(Some(items[i].0), rect_at(previous, i)))
        } else {
            before
        }
    }
}

/// Unions the bounds of every dirty item with that item's bounds in the
/// previous frame. `None` when nothing is dirty.
pub fn union_dirty_rects(items: &[(Rect, bool)], previous: &[Rect]) -> (r: Option<Rect>)
    ensures
        r == dirty_union(items@, previous@),
{
    let mut acc: Option<Rect> = None;
    let mut i: usize = 0;
    while i < items.len()
        invariant
            i <= items@.len(),
            acc == dirty_union(items@.take(i as int), previous@),
        decreases items@.len() - i,
    {
        proof {
            assert(items@.take(i as int + 1).drop_last() =~= items@.take(i as int));
        }
        let (current, dirty): (Rect, bool) = items[i];
        if dirty {
            let prev: Option<Rect> = if i < previous.len() { Some(previous[i]) } else { None };
            acc = union_opt(acc, union_opt(Some(current), prev));
        }
        i = i + 1;
    }
    proof {
        assert(items@.take(items@.len() as int) =~= items@);
    }
    acc
}

/// The union of a sequence of rectangles.
pub open spec fn union_all(rects: Seq<Rect>) -> Option<Rect>
    decreases rects.len(),
{
    if rects.len() == 0 {
        None
    } else {
        opt_union(union_all(rects.drop_last()), Some(rects.last()))
    }
}

/// Unions a sequence of rectangles.
fn union_rects(rects: &[Rect]) -> (r: Option<Rect>)
    ensures
        r == union_all(rects@),
{
    let mut acc: Option<Rect> = None;
    let mut i: usize = 0;
    while i < rects.len()
        invariant
            i <= rects@.len(),
            acc == union_all(rects@.take(i as int)),
        decreases rects@.len() - i,
    {
        proof {
            assert(rects@.take(i as int + 1).drop_last() =~= rects@.take(i as int));
        }
        acc = union_opt(acc, Some(rects[i]));
        i = i + 1;
    }
    proof {
        assert(rects@.take(rects@.len() as int) =~= rects@);
    }
    acc
}

/// The wrap width of line `i`; a line past the slice does not wrap.
pub open spec fn wrap_at(wraps: Seq<Option<u32>>, i: int) -> Option<u32> {
    if 0 <= i < wraps.len() {
        wraps[i]
    } else {
        None
    }
}

/// What each text line paints.
pub open spec fn text_paint(texts: Seq<TextLine>, wraps: Seq<Option<u32>>) -> Seq<Rect> {
    Seq::new(texts.len(), |i: int| text_bounds(texts[i], wrap_at(wraps, i)))
}

/// What each box paints.
pub open spec fn box_paint(boxes: Seq<BoxInstance>) -> Seq<Rect> {
    Seq::new(boxes.len(), |i: int| rect_spec(boxes[i].rect))
}

/// What each decorated box paints.
pub open spec fn decorated_paint(boxes: Seq<DecoratedBox>) -> Seq<Rect> {
    Seq::new(boxes.len(), |i: int| decorated_bounds(boxes[i]))
}

/// What each image paints.
pub open spec fn texture_paint(textures: Seq<TextureSampler>) -> Seq<Rect> {
    Seq::new(textures.len(), |i: int| rect_spec(textures[i].rect))
}

/// What each canvas shape paints.
pub open spec fn canvas_paint(shapes: Seq<CanvasShape>) -> Seq<Rect> {
    Seq::new(shapes.len(), |i: int| rect_spec(shapes[i].bounds))
}

/// What each ripple paints.
pub open spec fn ripple_paint(ripples: Seq<RippleInstance>) -> Seq<Rect> {
    Seq::new(ripples.len(), |i: int| rect_spec(ripples[i].rect))
}

/// What each backdrop paints.
pub open spec fn backdrop_paint(backdrops: Seq<BackdropInstance>) -> Seq<Rect> {
    Seq::new(backdrops.len(), |i: int| rect_spec(backdrops[i].rect))
}

/// A decorated box's painted bounds: its rectangle grown by the shadow's
/// offset, spread and blur, if it casts one.
pub open spec fn decorated_bounds(d: DecoratedBox) -> Rect {
    let rect = rect_spec(d.base.rect);
    if at_most_zero(d.shadow_color[3]) {
        rect
    } else {
        let blur = max_int(value(d.shadow_blur), 0) + max_int(value(d.shadow_spread), 0);
        union_of(
            Rect {
                left: wide(rect.left@ + min_int(value(d.shadow_dx), 0) - blur),
                top: wide(rect.top@ + min_int(value(d.shadow_dy), 0) - blur),
                right: wide(rect.right@ + max_int(value(d.shadow_dx), 0) + blur),
                bottom: wide(rect.bottom@ + max_int(value(d.shadow_dy), 0) + blur),
            },
            rect,
        )
    }
}

/// The larger of a coordinate and zero.
fn grown(bits: u32) -> (r: Wide)
    ensures
        r@ == max_int(value(bits), 0),
        0 <= r@ <= reach(),
{
    Wide::of(bits).greater(Wide::zero())
}

/// The smaller of a coordinate and zero.
fn shrunk(bits: u32) -> (r: Wide)
    ensures
        r@ == min_int(value(bits), 0),
        -reach() <= r@ <= 0,
{
    Wide::of(bits).lesser(Wide::zero())
}

/// A decoration's painted bounds: its rectangle grown by the drop shadow's
/// offset, spread and blur. A transparent shadow grows nothing.
pub fn decorated_paint_bounds(d: &DecoratedBox) -> (r: Rect)
    ensures
        r == decorated_bounds(*d),
{
    let rect: Rect = rect_of(d.base.rect);
    if is_at_most_zero(d.shadow_color[3]) {
        return rect;
    }
    proof {
        lemma_value_reach(d.base.rect[0]);
        lemma_value_reach(d.base.rect[1]);
        lemma_value_reach(d.base.rect[2]);
        lemma_value_reach(d.base.rect[3]);
    }
    let blur: Wide = grown(d.shadow_blur).plus(grown(d.shadow_spread));
    let back: Wide = blur.negated();
    let shadow: Rect = Rect {
        left: rect.left.plus(shrunk(d.shadow_dx)).plus(back),
        top: rect.top.plus(shrunk(d.shadow_dy)).plus(back),
        right: rect.right.plus(grown(d.shadow_dx)).plus(blur),
        bottom: rect.bottom.plus(grown(d.shadow_dy)).plus(blur),
    };
    shadow.union(&rect)
}

/// What each text line paints, wrapped lines at their wrapped height.
pub fn text_paint_bounds(texts: &[TextLine], wraps: &[Option<u32>]) -> (r: Vec<Rect>)
    ensures
        r@ == text_paint(texts@, wraps@),
{
    let mut r: Vec<Rect> = Vec::new();
    let mut i: usize = 0;
    while i < texts.len()
        invariant
            i <= texts@.len(),
            r@ == text_paint(texts@, wraps@).take(i as int),
        decreases texts@.len() - i,
    {
        let wrap: Option<u32> = if i < wraps.len() { wraps[i] } else { None };
        r.push(text_line_bounds_wrapped(&texts[i], wrap));
        i = i + 1;
        proof {
            assert(r@ =~= text_paint(texts@, wraps@).take(i as int));
        }
    }
    proof {
        assert(text_paint(texts@, wraps@).take(i as int) =~= text_paint(texts@, wraps@));
    }
    r
}

/// What each box paints.
pub fn box_paint_bounds(boxes: &[BoxInstance]) -> (r: Vec<Rect>)
    ensures
        r@ == box_paint(boxes@),
{
    let mut r: Vec<Rect> = Vec::new();
    let mut i: usize = 0;
    while i < boxes.len()
        invariant
            i <= boxes@.len(),
            r@ == box_paint(boxes@).take(i as int),
        decreases boxes@.len() - i,
    {
        r.push(rect_of(boxes[i].rect));
        i = i + 1;
        proof {
            assert(r@ =~= box_paint(boxes@).take(i as int));
        }
    }
    proof {
        assert(box_paint(boxes@).take(i as int) =~= box_paint(boxes@));
    }
    r
}

/// What each decorated box paints, shadows included.
pub fn decorated_paint_all(boxes: &[DecoratedBox]) -> (r: Vec<Rect>)
    ensures
        r@ == decorated_paint(boxes@),
{
    let mut r: Vec<Rect> = Vec::new();
    let mut i: usize = 0;
    while i < boxes.len()
        invariant
            i <= boxes@.len(),
            r@ == decorated_paint(boxes@).take(i as int),
        decreases boxes@.len() - i,
    {
        r.push(decorated_paint_bounds(&boxes[i]));
        i = i + 1;
        proof {
            assert(r@ =~= decorated_paint(boxes@).take(i as int));
        }
    }
    proof {
        assert(decorated_paint(boxes@).take(i as int) =~= decorated_paint(boxes@));
    }
    r
}

/// What each image paints.
pub fn texture_paint_bounds(textures: &[TextureSampler]) -> (r: Vec<Rect>)
    ensures
        r@ == texture_paint(textures@),
{
    let mut r: Vec<Rect> = Vec::new();
    let mut i: usize = 0;
    while i < textures.len()
        invariant
            i <= textures@.len(),
            r@ == texture_paint(textures@).take(i as int),
        decreases textures@.len() - i,
    {
        r.push(rect_of(textures[i].rect));
        i = i + 1;
        proof {
            assert(r@ =~= texture_paint(textures@).take(i as int));
        }
    }
    proof {
        assert(texture_paint(textures@).take(i as int) =~= texture_paint(textures@));
    }
    r
}

/// What each canvas shape paints.
pub fn canvas_paint_bounds(shapes: &[CanvasShape]) -> (r: Vec<Rect>)
    ensures
        r@ == canvas_paint(shapes@),
{
    let mut r: Vec<Rect> = Vec::new();
    let mut i: usize = 0;
    while i < shapes.len()
        invariant
            i <= shapes@.len(),
            r@ == canvas_paint(shapes@).take(i as int),
        decreases shapes@.len() - i,
    {
        r.push(rect_of(shapes[i].bounds));
        i = i + 1;
        proof {
            assert(r@ =~= canvas_paint(shapes@).take(i as int));
        }
    }
    proof {
        assert(canvas_paint(shapes@).take(i as int) =~= canvas_paint(shapes@));
    }
    r
}

/// What each ripple paints.
pub fn ripple_paint_bounds(ripples: &[RippleInstance]) -> (r: Vec<Rect>)
    ensures
        r@ == ripple_paint(ripples@),
{
    let mut r: Vec<Rect> = Vec::new();
    let mut i: usize = 0;
    while i < ripples.len()
        invariant
            i <= ripples@.len(),
            r@ == ripple_paint(ripples@).take(i as int),
        decreases ripples@.len() - i,
    {
        r.push(rect_of(ripples[i].rect));
        i = i + 1;
        proof {
            assert(r@ =~= ripple_paint(ripples@).take(i as int));
        }
    }
    proof {
        assert(ripple_paint(ripples@).take(i as int) =~= ripple_paint(ripples@));
    }
    r
}

/// What each backdrop paints.
pub fn backdrop_paint_bounds(backdrops: &[BackdropInstance]) -> (r: Vec<Rect>)
    ensures
        r@ == backdrop_paint(backdrops@),
{
    let mut r: Vec<Rect> = Vec::new();
    let mut i: usize = 0;
    while i < backdrops.len()
        invariant
            i <= backdrops@.len(),
            r@ == backdrop_paint(backdrops@).take(i as int),
        decreases backdrops@.len() - i,
    {
        r.push(rect_of(backdrops[i].rect));
        i = i + 1;
        proof {
            assert(r@ =~= backdrop_paint(backdrops@).take(i as int));
        }
    }
    proof {
        assert(backdrop_paint(backdrops@).take(i as int) =~= backdrop_paint(backdrops@));
    }
    r
}

/// Bounds paired with dirty bits, as far as both go.
pub open spec fn paired(bounds: Seq<Rect>, dirty: Seq<bool>) -> Seq<(Rect, bool)> {
    Seq::new(
        min_int(bounds.len() as int, dirty.len() as int) as nat,
        |i: int| (bounds[i], dirty[i]),
    )
}

/// Pairs bounds with dirty bits.
fn pair(bounds: &[Rect], dirty: &[bool]) -> (r: Vec<(Rect, bool)>)
    ensures
        r@ == paired(bounds@, dirty@),
{
    let mut r: Vec<(Rect, bool)> = Vec::new();
    let mut i: usize = 0;
    while i < bounds.len() && i < dirty.len()
        invariant
            i <= bounds@.len(),
            i <= dirty@.len(),
            r@ == paired(bounds@, dirty@).take(i as int),
        decreases bounds@.len() - i,
    {
        r.push((bounds[i], dirty[i]));
        i = i + 1;
        proof {
            assert(r@ =~= paired(bounds@, dirty@).take(i as int));
        }
    }
    proof {
        assert(paired(bounds@, dirty@).take(i as int) =~= paired(bounds@, dirty@));
    }
    r
}

/// The dirty bits of the text lines.
pub open spec fn text_dirty(texts: Seq<TextLine>) -> Seq<bool> {
    Seq::new(texts.len(), |i: int| texts[i].dirty)
}

/// The dirty bits of the decorated boxes.
pub open spec fn decorated_dirty(boxes: Seq<DecoratedBox>) -> Seq<bool> {
    Seq::new(boxes.len(), |i: int| boxes[i].dirty)
}

/// The dirty bits of the images.
pub open spec fn texture_dirty(textures: Seq<TextureSampler>) -> Seq<bool> {
    Seq::new(textures.len(), |i: int| textures[i].dirty)
}

/// The dirty bits of the canvas shapes.
pub open spec fn canvas_dirty(shapes: Seq<CanvasShape>) -> Seq<bool> {
    Seq::new(shapes.len(), |i: int| shapes[i].dirty)
}

/// The pools of a frame and the bounds each had in the previous one.
pub struct ScissorView {
    /// Text lines.
    pub texts: Seq<TextLine>,
    /// Wrap widths of the text lines.
    pub text_wrap: Seq<Option<u32>>,
    /// Previous bounds of the text lines.
    pub prev_texts: Seq<Rect>,
    /// Solid boxes.
    pub instances: Seq<BoxInstance>,
    /// Dirty bits of the solid boxes.
    pub instances_dirty: Seq<bool>,
    /// Previous bounds of the solid boxes.
    pub prev_boxes: Seq<Rect>,
    /// Decorated boxes.
    pub decorated: Seq<DecoratedBox>,
    /// Previous bounds of the decorated boxes.
    pub prev_decorated: Seq<Rect>,
    /// Images.
    pub textures: Seq<TextureSampler>,
    /// Previous bounds of the images.
    pub prev_textures: Seq<Rect>,
    /// Canvas shapes.
    pub canvas_shapes: Seq<CanvasShape>,
    /// Previous bounds of the canvas shapes.
    pub prev_canvas: Seq<Rect>,
    /// Ripples.
    pub ripples: Seq<RippleInstance>,
    /// Previous bounds of the ripples.
    pub prev_ripples: Seq<Rect>,
    /// Backdrops.
    pub backdrops: Seq<BackdropInstance>,
    /// Previous bounds of the backdrops.
    pub prev_backdrops: Seq<Rect>,
}

impl<'a> View for ScissorInputs<'a> {
    type V = ScissorView;

    open spec fn view(&self) -> ScissorView {
        ScissorView {
            texts: self.texts@,
            text_wrap: self.text_wrap@,
            prev_texts: self.prev_texts@,
            instances: self.instances@,
            instances_dirty: self.instances_dirty@,
            prev_boxes: self.prev_boxes@,
            decorated: self.decorated@,
            prev_decorated: self.prev_decorated@,
            textures: self.textures@,
            prev_textures: self.prev_textures@,
            canvas_shapes: self.canvas_shapes@,
            prev_canvas: self.prev_canvas@,
            ripples: self.ripples@,
            prev_ripples: self.prev_ripples@,
            backdrops: self.backdrops@,
            prev_backdrops: self.prev_backdrops@,
        }
    }
}

/// The dirty region of the text lines.
pub fn dirty_text_bounds(texts: &[TextLine], wraps: &[Option<u32>], previous: &[Rect]) -> (r: Option<
    Rect,
>)
    ensures
        r == dirty_union(paired(text_paint(texts@, wraps@), text_dirty(texts@)), previous@),
{
    let bounds: Vec<Rect> = text_paint_bounds(texts, wraps);
    let mut dirty: Vec<bool> = Vec::new();
    let mut i: usize = 0;
    while i < texts.len()
        invariant
            i <= texts@.len(),
            dirty@ == text_dirty(texts@).take(i as int),
        decreases texts@.len() - i,
    {
        dirty.push(texts[i].dirty);
        i = i + 1;
        proof {
            assert(dirty@ =~= text_dirty(texts@).take(i as int));
        }
    }
    proof {
        assert(text_dirty(texts@).take(i as int) =~= text_dirty(texts@));
    }
    union_dirty_rects(pair(&bounds, &dirty).as_slice(), previous)
}

/// The dirty region of the solid boxes; `dirty` is parallel to `instances`.
pub fn dirty_box_bounds(instances: &[BoxInstance], dirty: &[bool], previous: &[Rect]) -> (r: Option<
    Rect,
>)
    ensures
        r == dirty_union(paired(box_paint(instances@), dirty@), previous@),
{
    let bounds: Vec<Rect> = box_paint_bounds(instances);
    union_dirty_rects(pair(&bounds, dirty).as_slice(), previous)
}

/// The dirty region of the decorated boxes, over what they paint.
pub fn dirty_decorated_bounds(decorated: &[DecoratedBox], previous: &[Rect]) -> (r: Option<Rect>)
    ensures
        r == dirty_union(paired(decorated_paint(decorated@), decorated_dirty(decorated@)), previous@),
{
    let bounds: Vec<Rect> = decorated_paint_all(decorated);
    let mut dirty: Vec<bool> = Vec::new();
    let mut i: usize = 0;
    while i < decorated.len()
        invariant
            i <= decorated@.len(),
            dirty@ == decorated_dirty(decorated@).take(i as int),
        decreases decorated@.len() - i,
    {
        dirty.push(decorated[i].dirty);
        i = i + 1;
        proof {
            assert(dirty@ =~= decorated_dirty(decorated@).take(i as int));
        }
    }
    proof {
        assert(decorated_dirty(decorated@).take(i as int) =~= decorated_dirty(decorated@));
    }
    union_dirty_rects(pair(&bounds, &dirty).as_slice(), previous)
}

/// The dirty region of the canvas shapes.
pub fn dirty_canvas_bounds(shapes: &[CanvasShape], previous: &[Rect]) -> (r: Option<Rect>)
    ensures
        r == dirty_union(paired(canvas_paint(shapes@), canvas_dirty(shapes@)), previous@),
{
    let bounds: Vec<Rect> = canvas_paint_bounds(shapes);
    let mut dirty: Vec<bool> = Vec::new();
    let mut i: usize = 0;
    while i < shapes.len()
        invariant
            i <= shapes@.len(),
            dirty@ == canvas_dirty(shapes@).take(i as int),
        decreases shapes@.len() - i,
    {
        dirty.push(shapes[i].dirty);
        i = i + 1;
        proof {
            assert(dirty@ =~= canvas_dirty(shapes@).take(i as int));
        }
    }
    proof {
        assert(canvas_dirty(shapes@).take(i as int) =~= canvas_dirty(shapes@));
    }
    union_dirty_rects(pair(&bounds, &dirty).as_slice(), previous)
}

/// The dirty region of the images.
pub fn dirty_texture_bounds(textures: &[TextureSampler], previous: &[Rect]) -> (r: Option<Rect>)
    ensures
        r == dirty_union(paired(texture_paint(textures@), texture_dirty(textures@)), previous@),
{
    let bounds: Vec<Rect> = texture_paint_bounds(textures);
    let mut dirty: Vec<bool> = Vec::new();
    let mut i: usize = 0;
    while i < textures.len()
        invariant
            i <= textures@.len(),
            dirty@ == texture_dirty(textures@).take(i as int),
        decreases textures@.len() - i,
    {
        dirty.push(textures[i].dirty);
        i = i + 1;
        proof {
            assert(dirty@ =~= texture_dirty(textures@).take(i as int));
        }
    }
    proof {
        assert(texture_dirty(textures@).take(i as int) =~= texture_dirty(textures@));
    }
    union_dirty_rects(pair(&bounds, &dirty).as_slice(), previous)
}

/// The dirty region of the ripples. A live ripple animates every frame, so all
/// of them count; the previous frame's count too, so that the frame after the
/// last ripple fades erases its final ink.
pub fn dirty_ripple_bounds(ripples: &[RippleInstance], previous: &[Rect]) -> (r: Option<Rect>)
    ensures
        r == opt_union(union_all(ripple_paint(ripples@)), union_all(previous@)),
{
    let bounds: Vec<Rect> = ripple_paint_bounds(ripples);
    union_opt(union_rects(bounds.as_slice()), union_rects(previous))
}

/// The dirty region of the backdrops. A pane samples whatever is behind it, so
/// all of them count; the previous frame's count too, so that a pane that
/// shrank or went away is erased.
pub fn dirty_backdrop_bounds(backdrops: &[BackdropInstance], previous: &[Rect]) -> (r: Option<Rect>)
    ensures
        r == opt_union(union_all(backdrop_paint(backdrops@)), union_all(previous@)),
{
    let bounds: Vec<Rect> = backdrop_paint_bounds(backdrops);
    union_opt(union_rects(bounds.as_slice()), union_rects(previous))
}

/// Everything that can make a region dirty, with the previous frame's bounds
/// of each pool beside it.
pub struct ScissorInputs<'a> {
    /// Text lines.
    pub texts: &'a [TextLine],
    /// Wrap widths, parallel to `texts`.
    pub text_wrap: &'a [Option<u32>],
    /// Previous bounds of the text lines.
    pub prev_texts: &'a [Rect],
    /// Solid boxes.
    pub instances: &'a [BoxInstance],
    /// Dirty bits, parallel to `instances`.
    pub instances_dirty: &'a [bool],
    /// Previous bounds of the solid boxes.
    pub prev_boxes: &'a [Rect],
    /// Decorated boxes.
    pub decorated: &'a [DecoratedBox],
    /// Previous bounds of the decorated boxes.
    pub prev_decorated: &'a [Rect],
    /// Images.
    pub textures: &'a [TextureSampler],
    /// Previous bounds of the images.
    pub prev_textures: &'a [Rect],
    /// Canvas shapes.
    pub canvas_shapes: &'a [CanvasShape],
    /// Previous bounds of the canvas shapes.
    pub prev_canvas: &'a [Rect],
    /// Ripples.
    pub ripples: &'a [RippleInstance],
    /// Previous bounds of the ripples.
    pub prev_ripples: &'a [Rect],
    /// Backdrops.
    pub backdrops: &'a [BackdropInstance],
    /// Previous bounds of the backdrops.
    pub prev_backdrops: &'a [Rect],
}

/// The dirty region of the text lines.
pub open spec fn text_region(inputs: ScissorView) -> Option<Rect> {
    dirty_union(
        paired(text_paint(inputs.texts, inputs.text_wrap), text_dirty(inputs.texts)),
        inputs.prev_texts,
    )
}

/// The dirty region of the solid boxes.
pub open spec fn box_region(inputs: ScissorView) -> Option<Rect> {
    dirty_union(paired(box_paint(inputs.instances), inputs.instances_dirty), inputs.prev_boxes)
}

/// The dirty region of the decorated boxes.
pub open spec fn decorated_region(inputs: ScissorView) -> Option<Rect> {
    dirty_union(
        paired(decorated_paint(inputs.decorated), decorated_dirty(inputs.decorated)),
        inputs.prev_decorated,
    )
}

/// The dirty region of the images.
pub open spec fn texture_region(inputs: ScissorView) -> Option<Rect> {
    dirty_union(
        paired(texture_paint(inputs.textures), texture_dirty(inputs.textures)),
        inputs.prev_textures,
    )
}

/// The dirty region of the canvas shapes.
pub open spec fn canvas_region(inputs: ScissorView) -> Option<Rect> {
    dirty_union(
        paired(canvas_paint(inputs.canvas_shapes), canvas_dirty(inputs.canvas_shapes)),
        inputs.prev_canvas,
    )
}

/// The dirty region of the ripples.
pub open spec fn ripple_region(inputs: ScissorView) -> Option<Rect> {
    opt_union(union_all(ripple_paint(inputs.ripples)), union_all(inputs.prev_ripples))
}

/// The dirty region of the backdrops.
pub open spec fn backdrop_region(inputs: ScissorView) -> Option<Rect> {
    opt_union(union_all(backdrop_paint(inputs.backdrops)), union_all(inputs.prev_backdrops))
}

/// The logical region every dirty primitive of a frame falls in.
pub open spec fn dirty_region(inputs: ScissorView) -> Option<Rect> {
    opt_union(
        opt_union(
            opt_union(text_region(inputs), box_region(inputs)),
            opt_union(decorated_region(inputs), texture_region(inputs)),
        ),
        opt_union(
            canvas_region(inputs),
            opt_union(ripple_region(inputs), backdrop_region(inputs)),
        ),
    )
}

/// A rectangle grown by `margin` on every side.
pub open spec fn inflated(rect: Rect, margin: int) -> Rect {
    Rect {
        left: wide(held(rect.left@ - margin)),
        top: wide(held(rect.top@ - margin)),
        right: wide(held(rect.right@ + margin)),
        bottom: wide(held(rect.bottom@ + margin)),
    }
}

/// Grows `rect` by the margin of that pattern on every side.
pub fn inflate(rect: Rect, margin: u32) -> (r: Rect)
    ensures
        r == inflated(rect, value(margin)),
{
    let out: Wide = Wide::of(margin);
    let back: Wide = out.negated();
    Rect {
        left: rect.left.plus(back),
        top: rect.top.plus(back),
        right: rect.right.plus(out),
        bottom: rect.bottom.plus(out),
    }
}

/// The antialiasing margin is two logical pixels.
pub proof fn lemma_margin()
    ensures
        value(AA_MARGIN) == 2 * pow2(UNIT_EXPONENT as nat),
        0 < value(AA_MARGIN) <= reach(),
{
    assert(exponent_field(AA_MARGIN) == 128);
    assert(fraction_field(AA_MARGIN) == 0);
    vstd::arithmetic::power2::lemma2_to64();
    vstd::arithmetic::power2::lemma_pow2_adds(23, 129);
    vstd::arithmetic::power2::lemma_pow2_unfold(152);
    vstd::arithmetic::power2::lemma_pow2_pos(151);
    lemma_value_reach(AA_MARGIN);
}

/// The logical region to clear and the physical scissor to draw it under.
pub type DirtyScissor = (Rect, u32, u32, u32, u32);

/// The region an incremental frame repaints: the dirty region with its
/// antialiasing margin, unless it covers no pixel of the target.
pub open spec fn frame_scissor(
    inputs: ScissorView,
    scale: u32,
    max_w: u32,
    max_h: u32,
) -> Option<DirtyScissor> {
    match dirty_region(inputs) {
        None => None,
        Some(region) => {
            let bounds = inflated(region, value(AA_MARGIN));
            let s = scissor_of(bounds, scale, max_w, max_h);
            if s.2 > 0 && s.3 > 0 {
                Some((bounds, s.0, s.1, s.2, s.3))
            } else {
                None
            }
        },
    }
}

/// Unions every dirty primitive's bounds and converts the result to the
/// logical region to clear and the physical scissor to draw under. `None` when
/// nothing is dirty, and when the region covers no pixel of the target.
pub fn compute_scissor(inputs: &ScissorInputs<'_>, scale: u32, max_w: u32, max_h: u32) -> (r: Option<
    DirtyScissor,
>)
    ensures
        r == frame_scissor(inputs@, scale, max_w, max_h),
{
    let region: Option<Rect> = union_opt(
        union_opt(
            union_opt(
                dirty_text_bounds(inputs.texts, inputs.text_wrap, inputs.prev_texts),
                dirty_box_bounds(inputs.instances, inputs.instances_dirty, inputs.prev_boxes),
            ),
            union_opt(
                dirty_decorated_bounds(inputs.decorated, inputs.prev_decorated),
                dirty_texture_bounds(inputs.textures, inputs.prev_textures),
            ),
        ),
        union_opt(
            dirty_canvas_bounds(inputs.canvas_shapes, inputs.prev_canvas),
            union_opt(
                dirty_ripple_bounds(inputs.ripples, inputs.prev_ripples),
                dirty_backdrop_bounds(inputs.backdrops, inputs.prev_backdrops),
            ),
        ),
    );
    match region {
        None => None,
        Some(r) => {
            let bounds: Rect = inflate(r, AA_MARGIN);
            let s: Scissor = logical_rect_to_physical_scissor(bounds, scale, max_w, max_h);
            if s.2 > 0 && s.3 > 0 {
                Some((bounds, s.0, s.1, s.2, s.3))
            } else {
                None
            }
        },
    }
}

/// Decides whether this frame must be redrawn in full: after construction and
/// after a resize (`sticky`), and whenever the number of boxes or of text lines
/// changed.
pub fn needs_full_redraw_this_frame(
    sticky: bool,
    prev_instance_count: usize,
    instance_count: usize,
    prev_text_count: usize,
    text_count: usize,
) -> (full: bool)
    ensures
        full == (sticky || prev_instance_count != instance_count || prev_text_count != text_count),
{
    sticky || prev_instance_count != instance_count || prev_text_count != text_count
}

/// Whether an optional region reaches over `inner`.
pub open spec fn reaches(region: Option<Rect>, inner: Rect) -> bool {
    region matches Some(outer) && covers(outer, inner)
}

/// A dirty item's present and previous bounds are inside the dirty union.
proof fn lemma_dirty_union_covers(items: Seq<(Rect, bool)>, previous: Seq<Rect>, i: int)
    requires
        0 <= i < items.len(),
        items[i].1,
    ensures
        reaches(dirty_union(items, previous), items[i].0),
        i < previous.len() ==> reaches(dirty_union(items, previous), previous[i]),
    decreases items.len(),
{
    if i < items.len() - 1 {
        lemma_dirty_union_covers(items.drop_last(), previous, i);
        assert(items.drop_last()[i] == items[i]);
    }
}

/// Nothing dirty means no dirty union.
proof fn lemma_clean_union_is_none(items: Seq<(Rect, bool)>, previous: Seq<Rect>)
    requires
        forall|i: int| 0 <= i < items.len() ==> !(#[trigger] items[i]).1,
    ensures
        dirty_union(items, previous) is None,
    decreases items.len(),
{
    if items.len() > 0 {
        assert forall|i: int| 0 <= i < items.drop_last().len() implies !(
        #[trigger] items.drop_last()[i]).1 by {
            assert(items.drop_last()[i] == items[i]);
        }
        lemma_clean_union_is_none(items.drop_last(), previous);
    }
}

/// Every rectangle of a sequence is inside its union.
proof fn lemma_union_all_covers(rects: Seq<Rect>, i: int)
    requires
        0 <= i < rects.len(),
    ensures
        reaches(union_all(rects), rects[i]),
    decreases rects.len(),
{
    if i < rects.len() - 1 {
        lemma_union_all_covers(rects.drop_last(), i);
        assert(rects.drop_last()[i] == rects[i]);
    }
}

/// A union reaches over whatever one of its parts reaches over.
proof fn lemma_union_reaches(a: Option<Rect>, b: Option<Rect>, inner: Rect)
    requires
        reaches(a, inner) || reaches(b, inner),
    ensures
        reaches(opt_union(a, b), inner),
{
}

/// The dirty region reaches over whatever one pool's region reaches over.
proof fn lemma_region_reaches(inputs: ScissorView, inner: Rect)
    requires
        reaches(text_region(inputs), inner) || reaches(box_region(inputs), inner) || reaches(
            decorated_region(inputs),
            inner,
        ) || reaches(texture_region(inputs), inner) || reaches(canvas_region(inputs), inner)
            || reaches(ripple_region(inputs), inner) || reaches(backdrop_region(inputs), inner),
    ensures
        reaches(dirty_region(inputs), inner),
{
    let tb = opt_union(text_region(inputs), box_region(inputs));
    let dx = opt_union(decorated_region(inputs), texture_region(inputs));
    let rk = opt_union(ripple_region(inputs), backdrop_region(inputs));
    if reaches(text_region(inputs), inner) || reaches(box_region(inputs), inner) {
        lemma_union_reaches(text_region(inputs), box_region(inputs), inner);
        lemma_union_reaches(tb, dx, inner);
    } else if reaches(decorated_region(inputs), inner) || reaches(texture_region(inputs), inner) {
        lemma_union_reaches(decorated_region(inputs), texture_region(inputs), inner);
        lemma_union_reaches(tb, dx, inner);
    } else if reaches(canvas_region(inputs), inner) {
        lemma_union_reaches(canvas_region(inputs), rk, inner);
    } else {
        lemma_union_reaches(ripple_region(inputs), backdrop_region(inputs), inner);
        lemma_union_reaches(canvas_region(inputs), rk, inner);
    }
    lemma_union_reaches(opt_union(tb, dx), opt_union(canvas_region(inputs), rk), inner);
}

/// The dirty region reaches over what a dirty text line paints now and painted
/// in the previous frame.
pub proof fn law_region_covers_dirty_text(inputs: ScissorView, i: int)
    requires
        0 <= i < inputs.texts.len(),
        inputs.texts[i].dirty,
    ensures
        reaches(
            dirty_region(inputs),
            text_bounds(inputs.texts[i], wrap_at(inputs.text_wrap, i)),
        ),
        i < inputs.prev_texts.len() ==> reaches(dirty_region(inputs), inputs.prev_texts[i]),
{
    lemma_dirty_union_covers(
        paired(text_paint(inputs.texts, inputs.text_wrap), text_dirty(inputs.texts)),
        inputs.prev_texts,
        i,
    );
    lemma_region_reaches(inputs, text_bounds(inputs.texts[i], wrap_at(inputs.text_wrap, i)));
    if i < inputs.prev_texts.len() {
        lemma_region_reaches(inputs, inputs.prev_texts[i]);
    }
}

/// The dirty region reaches over what a dirty box paints now and painted in
/// the previous frame.
pub proof fn law_region_covers_dirty_boxes(inputs: ScissorView, i: int)
    requires
        0 <= i < inputs.instances.len(),
        i < inputs.instances_dirty.len(),
        inputs.instances_dirty[i],
    ensures
        reaches(dirty_region(inputs), rect_spec(inputs.instances[i].rect)),
        i < inputs.prev_boxes.len() ==> reaches(dirty_region(inputs), inputs.prev_boxes[i]),
{
    lemma_dirty_union_covers(
        paired(box_paint(inputs.instances), inputs.instances_dirty),
        inputs.prev_boxes,
        i,
    );
    lemma_region_reaches(inputs, rect_spec(inputs.instances[i].rect));
    if i < inputs.prev_boxes.len() {
        lemma_region_reaches(inputs, inputs.prev_boxes[i]);
    }
}

/// The dirty region reaches over what a dirty decorated box paints now, its
/// shadow included, and painted in the previous frame.
pub proof fn law_region_covers_dirty_decorations(inputs: ScissorView, i: int)
    requires
        0 <= i < inputs.decorated.len(),
        inputs.decorated[i].dirty,
    ensures
        reaches(dirty_region(inputs), decorated_bounds(inputs.decorated[i])),
        i < inputs.prev_decorated.len() ==> reaches(
            dirty_region(inputs),
            inputs.prev_decorated[i],
        ),
{
    lemma_dirty_union_covers(
        paired(decorated_paint(inputs.decorated), decorated_dirty(inputs.decorated)),
        inputs.prev_decorated,
        i,
    );
    lemma_region_reaches(inputs, decorated_bounds(inputs.decorated[i]));
    if i < inputs.prev_decorated.len() {
        lemma_region_reaches(inputs, inputs.prev_decorated[i]);
    }
}

/// The dirty region reaches over what a dirty image paints now and painted in
/// the previous frame.
pub proof fn law_region_covers_dirty_images(inputs: ScissorView, i: int)
    requires
        0 <= i < inputs.textures.len(),
        inputs.textures[i].dirty,
    ensures
        reaches(dirty_region(inputs), rect_spec(inputs.textures[i].rect)),
        i < inputs.prev_textures.len() ==> reaches(dirty_region(inputs), inputs.prev_textures[i]),
{
    lemma_dirty_union_covers(
        paired(texture_paint(inputs.textures), texture_dirty(inputs.textures)),
        inputs.prev_textures,
        i,
    );
    lemma_region_reaches(inputs, rect_spec(inputs.textures[i].rect));
    if i < inputs.prev_textures.len() {
        lemma_region_reaches(inputs, inputs.prev_textures[i]);
    }
}

/// The dirty region reaches over what a dirty canvas shape paints now and
/// painted in the previous frame.
pub proof fn law_region_covers_dirty_shapes(inputs: ScissorView, i: int)
    requires
        0 <= i < inputs.canvas_shapes.len(),
        inputs.canvas_shapes[i].dirty,
    ensures
        reaches(dirty_region(inputs), rect_spec(inputs.canvas_shapes[i].bounds)),
        i < inputs.prev_canvas.len() ==> reaches(dirty_region(inputs), inputs.prev_canvas[i]),
{
    lemma_dirty_union_covers(
        paired(canvas_paint(inputs.canvas_shapes), canvas_dirty(inputs.canvas_shapes)),
        inputs.prev_canvas,
        i,
    );
    lemma_region_reaches(inputs, rect_spec(inputs.canvas_shapes[i].bounds));
    if i < inputs.prev_canvas.len() {
        lemma_region_reaches(inputs, inputs.prev_canvas[i]);
    }
}

/// The dirty region reaches over every ripple, live or present only in the
/// previous frame: the last ink of a faded ripple is repainted.
pub proof fn law_region_erases_faded_ripples(inputs: ScissorView, i: int)
    requires
        i >= 0,
    ensures
        i < inputs.ripples.len() ==> reaches(
            dirty_region(inputs),
            rect_spec(inputs.ripples[i].rect),
        ),
        i < inputs.prev_ripples.len() ==> reaches(dirty_region(inputs), inputs.prev_ripples[i]),
{
    if i < inputs.ripples.len() {
        lemma_union_all_covers(ripple_paint(inputs.ripples), i);
        lemma_region_reaches(inputs, rect_spec(inputs.ripples[i].rect));
    }
    if i < inputs.prev_ripples.len() {
        lemma_union_all_covers(inputs.prev_ripples, i);
        lemma_region_reaches(inputs, inputs.prev_ripples[i]);
    }
}

/// The dirty region reaches over every backdrop, live or present only in the
/// previous frame: a pane that went away is erased.
pub proof fn law_region_erases_vanished_backdrops(inputs: ScissorView, i: int)
    requires
        i >= 0,
    ensures
        i < inputs.backdrops.len() ==> reaches(
            dirty_region(inputs),
            rect_spec(inputs.backdrops[i].rect),
        ),
        i < inputs.prev_backdrops.len() ==> reaches(
            dirty_region(inputs),
            inputs.prev_backdrops[i],
        ),
{
    if i < inputs.backdrops.len() {
        lemma_union_all_covers(backdrop_paint(inputs.backdrops), i);
        lemma_region_reaches(inputs, rect_spec(inputs.backdrops[i].rect));
    }
    if i < inputs.prev_backdrops.len() {
        lemma_union_all_covers(inputs.prev_backdrops, i);
        lemma_region_reaches(inputs, inputs.prev_backdrops[i]);
    }
}

/// A frame in which no primitive is dirty and that neither has nor had a
/// ripple or a backdrop repaints nothing.
pub proof fn law_clean_frame_has_no_region(inputs: ScissorView, scale: u32, w: u32, h: u32)
    requires
        forall|i: int| 0 <= i < inputs.texts.len() ==> !(#[trigger] inputs.texts[i]).dirty,
        forall|i: int|
            0 <= i < inputs.instances_dirty.len() ==> !#[trigger] inputs.instances_dirty[i],
        forall|i: int| 0 <= i < inputs.decorated.len() ==> !(#[trigger] inputs.decorated[i]).dirty,
        forall|i: int| 0 <= i < inputs.textures.len() ==> !(#[trigger] inputs.textures[i]).dirty,
        forall|i: int|
            0 <= i < inputs.canvas_shapes.len() ==> !(#[trigger] inputs.canvas_shapes[i]).dirty,
        inputs.ripples.len() == 0,
        inputs.prev_ripples.len() == 0,
        inputs.backdrops.len() == 0,
        inputs.prev_backdrops.len() == 0,
    ensures
        dirty_region(inputs) is None,
        frame_scissor(inputs, scale, w, h) is None,
{
    lemma_clean_union_is_none(
        paired(text_paint(inputs.texts, inputs.text_wrap), text_dirty(inputs.texts)),
        inputs.prev_texts,
    );
    lemma_clean_union_is_none(
        paired(box_paint(inputs.instances), inputs.instances_dirty),
        inputs.prev_boxes,
    );
    lemma_clean_union_is_none(
        paired(decorated_paint(inputs.decorated), decorated_dirty(inputs.decorated)),
        inputs.prev_decorated,
    );
    lemma_clean_union_is_none(
        paired(texture_paint(inputs.textures), texture_dirty(inputs.textures)),
        inputs.prev_textures,
    );
    lemma_clean_union_is_none(
        paired(canvas_paint(inputs.canvas_shapes), canvas_dirty(inputs.canvas_shapes)),
        inputs.prev_canvas,
    );
}

/// The region to clear keeps two logical pixels of margin on every side of the
/// dirty region, up to the range of a number.
pub proof fn law_scissor_covers_the_fringe(
    inputs: ScissorView,
    scale: u32,
    max_w: u32,
    max_h: u32,
)
    ensures
        frame_scissor(inputs, scale, max_w, max_h) matches Some(s) ==> {
            &&& dirty_region(inputs) is Some
            &&& covers(s.0, dirty_region(inputs)->0)
            &&& s.0.left@ == held(dirty_region(inputs)->0.left@ - 2 * pow2(UNIT_EXPONENT as nat))
            &&& s.0.right@ == held(dirty_region(inputs)->0.right@ + 2 * pow2(UNIT_EXPONENT as nat))
            &&& s.0.top@ == held(dirty_region(inputs)->0.top@ - 2 * pow2(UNIT_EXPONENT as nat))
            &&& s.0.bottom@ == held(dirty_region(inputs)->0.bottom@ + 2 * pow2(UNIT_EXPONENT as nat))
            &&& (s.1, s.2, s.3, s.4) == scissor_of(s.0, scale, max_w, max_h)
            &&& s.3 > 0 && s.4 > 0
        },
{
    lemma_margin();
}

/// A rectangle inside another touches no pixel the other does not touch.
proof fn lemma_inner_pixels(
    outer: Rect,
    inner: Rect,
    scale: u32,
    max_w: u32,
    max_h: u32,
    x: int,
    y: int,
)
    requires
        covers(outer, inner),
        scale_factor(scale) >= 0,
        holds_pixel(scissor_of(inner, scale, max_w, max_h), x, y),
    ensures
        holds_pixel(scissor_of(outer, scale, max_w, max_h), x, y),
{
    law_scissor_holds_the_touched_pixels(inner, scale, max_w, max_h, x, y);
    law_scissor_holds_the_touched_pixels(outer, scale, max_w, max_h, x, y);
    lemma_edges_ordered(outer.left@, inner.left@, scale);
    lemma_edges_ordered(outer.top@, inner.top@, scale);
    lemma_edges_ordered(inner.right@, outer.right@, scale);
    lemma_edges_ordered(inner.bottom@, outer.bottom@, scale);
}

/// Edges keep their order when they are scaled and rounded.
proof fn lemma_edges_ordered(a: int, b: int, scale: u32)
    requires
        a <= b,
        scale_factor(scale) >= 0,
    ensures
        floor_px(a, scale) <= floor_px(b, scale),
        ceil_px(a, scale) <= ceil_px(b, scale),
{
    let s = scale_factor(scale);
    let d = pixel_units(scale);
    vstd::arithmetic::power2::lemma_pow2_pos(scale_shift(scale) as nat);
    assert(a * s <= b * s) by (nonlinear_arith)
        requires
            a <= b,
            s >= 0,
    ;
    vstd::arithmetic::div_mod::lemma_div_is_ordered(a * s, b * s, d);
    vstd::arithmetic::div_mod::lemma_div_is_ordered(-(b * s), -(a * s), d);
}

/// Every pixel of the target that something inside the dirty region touches
/// is repainted.
pub proof fn law_touched_pixels_are_repainted(
    inputs: ScissorView,
    scale: u32,
    max_w: u32,
    max_h: u32,
    r: Rect,
    x: int,
    y: int,
)
    requires
        reaches(dirty_region(inputs), r),
        scale_factor(scale) >= 0,
        holds_pixel(scissor_of(r, scale, max_w, max_h), x, y),
    ensures
        frame_scissor(inputs, scale, max_w, max_h) matches Some(s) && holds_pixel(
            (s.1, s.2, s.3, s.4),
            x,
            y,
        ),
{
    let bounds = inflated(dirty_region(inputs)->0, value(AA_MARGIN));
    lemma_margin();
    assert(covers(bounds, r));
    lemma_inner_pixels(bounds, r, scale, max_w, max_h, x, y);
}

/// Whether a region, if there is one, lies inside `c`.
pub open spec fn within(region: Option<Rect>, c: Rect) -> bool {
    region matches Some(r) ==> covers(c, r)
}

/// A dirty union lies inside whatever covers its parts.
pub proof fn lemma_dirty_union_within(items: Seq<(Rect, bool)>, previous: Seq<Rect>, c: Rect)
    requires
        forall|i: int|
            0 <= i < items.len() && (#[trigger] items[i]).1 ==> covers(c, items[i].0) && within(
                rect_at(previous, i),
                c,
            ),
    ensures
        within(dirty_union(items, previous), c),
    decreases items.len(),
{
    if items.len() > 0 {
        let rest = items.drop_last();
        assert forall|i: int| 0 <= i < rest.len() && (#[trigger] rest[i]).1 implies covers(
            c,
            rest[i].0,
        ) && within(rect_at(previous, i), c) by {
            assert(rest[i] == items[i]);
        }
        lemma_dirty_union_within(rest, previous, c);
        assert(items[items.len() - 1].1 ==> covers(c, items[items.len() - 1].0));
    }
}

/// A union lies inside whatever covers its parts.
pub proof fn lemma_union_all_within(rects: Seq<Rect>, c: Rect)
    requires
        forall|i: int| 0 <= i < rects.len() ==> covers(c, #[trigger] rects[i]),
    ensures
        within(union_all(rects), c),
    decreases rects.len(),
{
    if rects.len() > 0 {
        let rest = rects.drop_last();
        assert forall|i: int| 0 <= i < rest.len() implies covers(c, #[trigger] rest[i]) by {
            assert(rest[i] == rects[i]);
        }
        lemma_union_all_within(rest, c);
    }
}

/// The union of two regions lies inside whatever covers both.
proof fn lemma_union_within(a: Option<Rect>, b: Option<Rect>, c: Rect)
    requires
        within(a, c),
        within(b, c),
    ensures
        within(opt_union(a, b), c),
{
}

/// A frame's dirty region, margin included, lies inside whatever covers the
/// regions of its pools, grown by the same margin.
pub proof fn lemma_region_within(inputs: ScissorView, scale: u32, max_w: u32, max_h: u32, c: Rect)
    requires
        within(text_region(inputs), c),
        within(box_region(inputs), c),
        within(decorated_region(inputs), c),
        within(texture_region(inputs), c),
        within(canvas_region(inputs), c),
        within(union_all(ripple_paint(inputs.ripples)), c),
        within(union_all(inputs.prev_ripples), c),
        within(union_all(backdrop_paint(inputs.backdrops)), c),
        within(union_all(inputs.prev_backdrops), c),
    ensures
        within(dirty_region(inputs), c),
        frame_scissor(inputs, scale, max_w, max_h) matches Some(s) ==> covers(
            inflated(c, value(AA_MARGIN)),
            s.0,
        ),
{
    let tb = opt_union(text_region(inputs), box_region(inputs));
    let dx = opt_union(decorated_region(inputs), texture_region(inputs));
    let rk = opt_union(ripple_region(inputs), backdrop_region(inputs));
    lemma_union_within(union_all(ripple_paint(inputs.ripples)), union_all(inputs.prev_ripples), c);
    lemma_union_within(
        union_all(backdrop_paint(inputs.backdrops)),
        union_all(inputs.prev_backdrops),
        c,
    );
    lemma_union_within(text_region(inputs), box_region(inputs), c);
    lemma_union_within(decorated_region(inputs), texture_region(inputs), c);
    lemma_union_within(ripple_region(inputs), backdrop_region(inputs), c);
    lemma_union_within(tb, dx, c);
    lemma_union_within(canvas_region(inputs), rk, c);
    lemma_union_within(opt_union(tb, dx), opt_union(canvas_region(inputs), rk), c);
}

/// Every primitive with a rectangle of its own paints exactly there.
pub proof fn law_primitives_paint_their_rectangles(
    boxes: Seq<BoxInstance>,
    textures: Seq<TextureSampler>,
    shapes: Seq<CanvasShape>,
    ripples: Seq<RippleInstance>,
    backdrops: Seq<BackdropInstance>,
    i: int,
)
    requires
        0 <= i,
    ensures
        box_paint(boxes).len() == boxes.len(),
        i < boxes.len() && numbers(boxes[i].rect) ==> occupies(box_paint(boxes)[i], boxes[i].rect),
        texture_paint(textures).len() == textures.len(),
        i < textures.len() && numbers(textures[i].rect) ==> occupies(
            texture_paint(textures)[i],
            textures[i].rect,
        ),
        canvas_paint(shapes).len() == shapes.len(),
        i < shapes.len() && numbers(shapes[i].bounds) ==> occupies(
            canvas_paint(shapes)[i],
            shapes[i].bounds,
        ),
        ripple_paint(ripples).len() == ripples.len(),
        i < ripples.len() && numbers(ripples[i].rect) ==> occupies(
            ripple_paint(ripples)[i],
            ripples[i].rect,
        ),
        backdrop_paint(backdrops).len() == backdrops.len(),
        i < backdrops.len() && numbers(backdrops[i].rect) ==> occupies(
            backdrop_paint(backdrops)[i],
            backdrops[i].rect,
        ),
{
    if i < boxes.len() && numbers(boxes[i].rect) {
        law_rectangle_is_where_its_numbers_say(boxes[i].rect);
    }
    if i < textures.len() && numbers(textures[i].rect) {
        law_rectangle_is_where_its_numbers_say(textures[i].rect);
    }
    if i < shapes.len() && numbers(shapes[i].bounds) {
        law_rectangle_is_where_its_numbers_say(shapes[i].bounds);
    }
    if i < ripples.len() && numbers(ripples[i].rect) {
        law_rectangle_is_where_its_numbers_say(ripples[i].rect);
    }
    if i < backdrops.len() && numbers(backdrops[i].rect) {
        law_rectangle_is_where_its_numbers_say(backdrops[i].rect);
    }
}

/// A decorated box paints its rectangle, and, where it casts a shadow, everything
/// within the shadow's blur and spread of that rectangle and of the rectangle
/// moved by the shadow's offset; and no further on any side. A box without a
/// shadow paints its rectangle alone.
pub proof fn law_decorations_paint_their_shadow(d: DecoratedBox)
    requires
        numbers(d.base.rect),
        numbers([d.shadow_dx, d.shadow_dy, d.shadow_blur, d.shadow_spread]),
        !is_nan(d.shadow_color[3]),
    ensures
        value(d.shadow_color[3]) <= 0 ==> occupies(decorated_bounds(d), d.base.rect),
        value(d.shadow_color[3]) > 0 ==> {
            let r = decorated_bounds(d);
            let (x, y) = (value(d.base.rect[0]), value(d.base.rect[1]));
            let (right, bottom) = (x + value(d.base.rect[2]), y + value(d.base.rect[3]));
            let (dx, dy) = (value(d.shadow_dx), value(d.shadow_dy));
            let out = max_int(value(d.shadow_blur), 0) + max_int(value(d.shadow_spread), 0);
            &&& r.left@ <= x && r.top@ <= y && right <= r.right@ && bottom <= r.bottom@
            &&& r.left@ <= x - out && r.left@ <= x + dx - out
            &&& r.top@ <= y - out && r.top@ <= y + dy - out
            &&& r.right@ >= right + out && r.right@ >= right + dx + out
            &&& r.bottom@ >= bottom + out && r.bottom@ >= bottom + dy + out
            &&& r.left@ == x - out || r.left@ == x + dx - out
            &&& r.top@ == y - out || r.top@ == y + dy - out
            &&& r.right@ == right + out || r.right@ == right + dx + out
            &&& r.bottom@ == bottom + out || r.bottom@ == bottom + dy + out
        },
{
    let a = d.shadow_color[3];
    law_rectangle_is_where_its_numbers_say(d.base.rect);
    lemma_value_reach(d.base.rect[0]);
    lemma_value_reach(d.base.rect[1]);
    lemma_value_reach(d.base.rect[2]);
    lemma_value_reach(d.base.rect[3]);
    let q = [d.shadow_dx, d.shadow_dy, d.shadow_blur, d.shadow_spread];
    assert(q[0] == d.shadow_dx && q[1] == d.shadow_dy && q[2] == d.shadow_blur && q[3]
        == d.shadow_spread);
    lemma_value_reach(d.shadow_dx);
    lemma_value_reach(d.shadow_dy);
    lemma_value_reach(d.shadow_blur);
    lemma_value_reach(d.shadow_spread);
    lemma_positive_value(a);
    assert(at_most_zero(a) == !positive(a));
}

/// A multiple of four times a count is one.
proof fn lemma_quarters_times(size: int, n: int)
    requires
        size >= 0,
        size % 4 == 0,
        n >= 0,
    ensures
        size * n >= 0,
        (size * n) % 4 == 0,
{
    let q = size / 4;
    assert(size * n == 4 * (q * n)) by (nonlinear_arith)
        requires
            size == 4 * q,
    ;
    assert(q * n >= 0) by (nonlinear_arith)
        requires
            q >= 0,
            n >= 0,
    ;
}

/// A line of text starts where it says. Unwrapped it takes three quarters of the
/// font size per character and half as much again in height; wrapped it takes the
/// width it was given, and as many lines of that height as its characters need at
/// ninety-five hundredths of the font size each, at least one.
#[verifier::rlimit(50)]
pub proof fn law_text_takes_the_room_of_its_characters(line: TextLine, wrap: Option<u32>)
    requires
        !is_nan(line.x) && !is_nan(line.y) && !is_nan(line.font_size),
        value(line.font_size) >= 0,
        line.text@.len() <= usize::MAX,
        wrap matches Some(w) ==> (value(w) > 0 ==> 95 * (value(line.font_size) * line.text@.len())
            <= 0x1_0000_0000_0000_0000 * (100 * value(w))),
    ensures
        ({
            let r = text_bounds(line, wrap);
            let size = value(line.font_size);
            let n = line.text@.len();
            &&& r.left@ == value(line.x)
            &&& r.top@ == value(line.y)
            &&& !(wrap matches Some(w) && value(w) > 0) ==> {
                &&& 4 * (r.right@ - r.left@) == 3 * (size * n)
                &&& 2 * (r.bottom@ - r.top@) == 3 * size
            }
            &&& wrap matches Some(w) ==> (value(w) > 0 ==> {
                &&& r.right@ - r.left@ == value(w)
                &&& exists|lines: int|
                    {
                        &&& 1 <= lines
                        &&& 2 * (r.bottom@ - r.top@) == 3 * #[trigger] (size * lines)
                        &&& 95 * (size * n) <= lines * (100 * value(w))
                        &&& lines == 1 || (lines - 1) * (100 * value(w)) < 95 * (size * n)
                    }
            })
        }),
{
    let size = value(line.font_size);
    let n = line.text@.len() as int;
    lemma_value_reach(line.font_size);
    lemma_value_reach(line.x);
    lemma_value_reach(line.y);
    lemma_text_product(line.font_size, n);
    let chars = size * n;
    lemma_quarters_times(size, n);
    assert(size * 1 == size);
    if let Some(w) = wrap {
        lemma_positive_value(w);
        lemma_value_reach(w);
        if value(w) > 0 {
            let d = 100 * value(w);
            let lines = max_int(ceil_div(95 * chars, d), 1);
            lemma_rounded_against(95 * chars, d, 0x1_0000_0000_0000_0000);
            lemma_rounded_against(95 * chars, d, lines);
            lemma_rounded_against(95 * chars, d, lines - 1);
            assert(lines <= 0x1_0000_0000_0000_0000);
            assert(lines == line_count(line.font_size, n as nat, w));
            let tall = size * lines;
            lemma_quarters_times(size, lines);
            let most = reach();
            assert(tall <= 0x1_0000_0000_0000_0000 * most) by (nonlinear_arith)
                requires
                    tall == size * lines,
                    0 <= size <= most,
                    1 <= lines <= 0x1_0000_0000_0000_0000,
            ;
            assert(text_bounds(line, wrap).bottom@ == value(line.y) + 3 * tall / 2);
            assert(2 * (text_bounds(line, wrap).bottom@ - text_bounds(line, wrap).top@) == 3 * (size
                * lines));
        }
    }
}

/// Line `i` of a frame paints the room it takes at its own wrap width.
pub proof fn law_lines_paint_at_their_own_width(
    texts: Seq<TextLine>,
    wraps: Seq<Option<u32>>,
    i: int,
)
    requires
        0 <= i < texts.len(),
    ensures
        text_paint(texts, wraps).len() == texts.len(),
        text_paint(texts, wraps)[i] == text_bounds(
            texts[i],
            if i < wraps.len() {
                wraps[i]
            } else {
                None
            },
        ),
{
}

} // verus!
