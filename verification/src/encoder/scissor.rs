//! Physical scissor rectangles: scaling, intersection and content-clip runs.

use crate::pattern::{binary_exponent, is_nan, is_negative, nan, significand};
use crate::frame::{
    law_rectangle_is_where_its_numbers_say, max_int, min_int, numbers, rect_of, rect_spec, ClipRect,
    Rect,
};
use crate::wide::{group_wide, near, scaled_down, scaled_up, value, Wide, UNIT_EXPONENT};
use vstd::arithmetic::power2::pow2;
use vstd::prelude::*;

verus! {

broadcast use group_wide;

/// A physical-pixel scissor `(x, y, width, height)`.
pub type Scissor = (u32, u32, u32, u32);

/// `n / d` rounded down, for a positive `d`.
pub open spec fn floor_div(n: int, d: int) -> int {
    n / d
}

/// `n / d` rounded up, for a positive `d`.
pub open spec fn ceil_div(n: int, d: int) -> int {
    -((-n) / d)
}

/// The significand of a scale factor, with its sign; zero where the factor is not
/// a number.
pub open spec fn scale_factor(scale: u32) -> int {
    if is_nan(scale) {
        0
    } else if is_negative(scale) {
        -significand(scale)
    } else {
        significand(scale) as int
    }
}

/// The exponent of what a coordinate times [`scale_factor`] is divided by to give
/// physical pixels.
pub open spec fn scale_shift(scale: u32) -> int {
    UNIT_EXPONENT - binary_exponent(scale)
}

/// How many units of a coordinate times [`scale_factor`] make a physical pixel.
pub open spec fn pixel_units(scale: u32) -> int {
    pow2(scale_shift(scale) as nat) as int
}

/// The physical pixel a logical edge falls in, rounded down.
pub open spec fn floor_px(edge: int, scale: u32) -> int {
    floor_div(edge * scale_factor(scale), pixel_units(scale))
}

/// The physical pixel a logical edge falls in, rounded up.
pub open spec fn ceil_px(edge: int, scale: u32) -> int {
    ceil_div(edge * scale_factor(scale), pixel_units(scale))
}

/// Takes a scale factor apart.
pub fn scale_parts(scale: u32) -> (r: (i32, u32))
    ensures
        r.0 == scale_factor(scale),
        r.1 == scale_shift(scale),
        -0x100_0000 < r.0 < 0x100_0000,
        46 <= r.1 <= 300,
{
    let field: u32 = (scale / 0x80_0000) % 256;
    let fraction: u32 = scale % 0x80_0000;
    let (m, shift): (u32, u32) = if field == 0 {
        (fraction, 300)
    } else {
        (fraction + 0x80_0000, 301 - field)
    };
    (
        if nan(scale) {
            0
        } else if scale >= 0x8000_0000 {
            -(m as i32)
        } else {
            m as i32
        },
        shift,
    )
}

/// Scales a logical edge to physical pixels, rounding down.
pub fn edge_floor(edge: Wide, scale: u32) -> (px: i64)
    ensures
        px == near(floor_px(edge@, scale)),
        -0x4000_0000_0000_0000 <= px <= 0x4000_0000_0000_0000,
{
    let (m, shift): (i32, u32) = scale_parts(scale);
    scaled_down(edge, m, shift)
}

/// Scales a logical edge to physical pixels, rounding up.
pub fn edge_ceil(edge: Wide, scale: u32) -> (px: i64)
    ensures
        px == near(ceil_px(edge@, scale)),
        -0x4000_0000_0000_0000 <= px <= 0x4000_0000_0000_0000,
{
    let (m, shift): (i32, u32) = scale_parts(scale);
    scaled_up(edge, m, shift)
}

/// A span's first physical pixel, held inside a target of `max` pixels.
pub open spec fn span_start(lo: int, scale: u32, max: u32) -> int {
    min_int(max_int(floor_px(lo, scale), 0), max as int)
}

/// The pixel past a span's last one, held inside a target of `max` pixels.
pub open spec fn span_end(lo: int, hi: int, scale: u32, max: u32) -> int {
    min_int(max_int(ceil_px(hi, scale), max_int(floor_px(lo, scale), 0)), max as int)
}

/// The physical scissor of a logical rectangle on a target.
pub open spec fn scissor_of(rect: Rect, scale: u32, max_w: u32, max_h: u32) -> Scissor {
    let x0 = span_start(rect.left@, scale, max_w);
    let y0 = span_start(rect.top@, scale, max_h);
    let x1 = span_end(rect.left@, rect.right@, scale, max_w);
    let y1 = span_end(rect.top@, rect.bottom@, scale, max_h);
    (x0 as u32, y0 as u32, (x1 - x0) as u32, (y1 - y0) as u32)
}

/// Scales one span and holds it inside the target.
fn span(lo: Wide, hi: Wide, scale: u32, max: u32) -> (r: (u32, u32))
    ensures
        r.0 == span_start(lo@, scale, max),
        r.1 == span_end(lo@, hi@, scale, max),
        r.0 <= r.1 <= max,
{
    let f: i64 = edge_floor(lo, scale);
    let a: i64 = if f < 0 { 0 } else { f };
    let c: i64 = edge_ceil(hi, scale);
    let b: i64 = if c < a { a } else { c };
    let start: u32 = if a > max as i64 { max } else { a as u32 };
    let end: u32 = if b > max as i64 { max } else { b as u32 };
    (start, end)
}

/// Converts a logical rectangle to a physical scissor, clamped to the target.
pub fn logical_rect_to_physical_scissor(rect: Rect, scale: u32, max_w: u32, max_h: u32) -> (r: Scissor)
    ensures
        r == scissor_of(rect, scale, max_w, max_h),
        r.0 + r.2 <= max_w,
        r.1 + r.3 <= max_h,
{
    let (x0, x1) = span(rect.left, rect.right, scale, max_w);
    let (y0, y1) = span(rect.top, rect.bottom, scale, max_h);
    (x0, y0, x1 - x0, y1 - y0)
}

/// A logical extent in physical pixels, at least one.
pub open spec fn physical_of(extent: u32, scale: u32) -> int {
    let c = max_int(ceil_px(value(extent), scale), 1);
    min_int(c, u32::MAX as int)
}

/// A logical extent in physical pixels, at least one so a hairline still has a
/// pixel to land on.
pub fn physical(logical: u32, scale: u32) -> (r: u32)
    ensures
        r == physical_of(logical, scale),
        r >= 1,
{
    let c: i64 = edge_ceil(Wide::of(logical), scale);
    if c < 1 {
        1
    } else if c > 0xffff_ffff {
        0xffff_ffff
    } else {
        c as u32
    }
}

/// Whether pixel `(x, y)` lies inside a scissor.
pub open spec fn holds_pixel(s: Scissor, x: int, y: int) -> bool {
    s.0 <= x < s.0 + s.2 && s.1 <= y < s.1 + s.3
}

/// Whether a scissor's far edges are representable.
pub open spec fn bounded(s: Scissor) -> bool {
    s.0 + s.2 <= u32::MAX && s.1 + s.3 <= u32::MAX
}

/// The overlap of two scissors, if there is any.
pub open spec fn overlap(a: Scissor, b: Scissor) -> Option<Scissor> {
    let x0 = max_int(a.0 as int, b.0 as int);
    let y0 = max_int(a.1 as int, b.1 as int);
    let x1 = min_int(a.0 + a.2, b.0 + b.2);
    let y1 = min_int(a.1 + a.3, b.1 + b.3);
    if x1 > x0 && y1 > y0 {
        Some((x0 as u32, y0 as u32, (x1 - x0) as u32, (y1 - y0) as u32))
    } else {
        None
    }
}

/// Axis-aligned intersection of two scissors; `None` if it is empty.
pub fn intersect_scissor(a: Scissor, b: Scissor) -> (r: Option<Scissor>)
    requires
        bounded(a),
        bounded(b),
    ensures
        r == overlap(a, b),
        r matches Some(s) ==> bounded(s) && s.2 > 0 && s.3 > 0,
{
    let x0: u32 = if a.0 >= b.0 { a.0 } else { b.0 };
    let y0: u32 = if a.1 >= b.1 { a.1 } else { b.1 };
    let x1: u32 = if a.0 + a.2 <= b.0 + b.2 { a.0 + a.2 } else { b.0 + b.2 };
    let y1: u32 = if a.1 + a.3 <= b.1 + b.3 { a.1 + a.3 } else { b.1 + b.3 };
    if x1 > x0 && y1 > y0 {
        Some((x0, y0, x1 - x0, y1 - y0))
    } else {
        None
    }
}

/// What a clipped draw is resolved against: the clip table, the frame's base
/// scissor, and the conversion to physical pixels.
#[derive(Clone, Copy)]
pub struct ClipCtx<'a> {
    /// The frame's clip table.
    pub clips: &'a [ClipRect],
    /// The dirty region on an incremental frame, the whole target on a full one.
    pub base: Scissor,
    /// Scale factor.
    pub scale: u32,
    /// Target width.
    pub phys_w: u32,
    /// Target height.
    pub phys_h: u32,
}

/// The scissor a primitive with clip index `clip` draws under.
pub open spec fn clip_scissor_of(ctx: ClipCtx<'_>, clip: Option<u16>) -> Option<Scissor> {
    match clip {
        None => Some(ctx.base),
        Some(idx) => if (idx as int) < ctx.clips@.len() {
            overlap(
                ctx.base,
                scissor_of(rect_spec(ctx.clips@[idx as int].rect), ctx.scale, ctx.phys_w, ctx.phys_h),
            )
        } else {
            None
        },
    }
}

/// The scissor for a primitive with clip index `clip`: the base when it is
/// unclipped, else the base intersected with its clip. `None` means nothing of
/// it is visible.
pub fn clip_scissor(ctx: ClipCtx<'_>, clip: Option<u16>) -> (r: Option<Scissor>)
    requires
        bounded(ctx.base),
    ensures
        r == clip_scissor_of(ctx, clip),
        r is Some ==> bounded(r->0),
{
    match clip {
        None => Some(ctx.base),
        Some(idx) => {
            if (idx as usize) < ctx.clips.len() {
                let c: Rect = rect_of(ctx.clips[idx as usize].rect);
                let s: Scissor = logical_rect_to_physical_scissor(
                    c,
                    ctx.scale,
                    ctx.phys_w,
                    ctx.phys_h,
                );
                intersect_scissor(ctx.base, s)
            } else {
                None
            }
        },
    }
}

/// Consecutive instances drawn under one scissor.
#[derive(Clone, Copy, Debug, PartialEq, Eq)]
pub struct ClipRun {
    /// The scissor.
    pub scissor: Scissor,
    /// First instance.
    pub start: u32,
    /// The instance past the last.
    pub end: u32,
}

/// The clip of instance `i`; instances past the slice are unclipped.
pub open spec fn clip_at(clips: Seq<Option<u16>>, i: int) -> Option<u16> {
    if 0 <= i < clips.len() {
        clips[i]
    } else {
        None
    }
}

/// The end of the maximal run of equal clips that starts at `i`.
pub open spec fn run_end(clips: Seq<Option<u16>>, i: int, count: int) -> int
    decreases count - i,
{
    if i + 1 < count && clip_at(clips, i + 1) == clip_at(clips, i) {
        run_end(clips, i + 1, count)
    } else {
        i + 1
    }
}

/// The visible runs from instance `i` on.
pub open spec fn runs_from(ctx: ClipCtx<'_>, clips: Seq<Option<u16>>, i: int, count: int) -> Seq<ClipRun>
    decreases count - i,
{
    if i >= count || i < 0 {
        Seq::empty()
    } else {
        let j = run_end(clips, i, count);
        let rest = if i < j <= count {
            runs_from(ctx, clips, j, count)
        } else {
            Seq::empty()
        };
        match clip_scissor_of(ctx, clip_at(clips, i)) {
            Some(s) => seq![ClipRun { scissor: s, start: i as u32, end: j as u32 }] + rest,
            None => rest,
        }
    }
}

/// A run ends past its start and inside the batch.
proof fn lemma_run_end(clips: Seq<Option<u16>>, i: int, count: int)
    requires
        0 <= i < count,
    ensures
        i < run_end(clips, i, count) <= count,
        forall|k: int| i <= k < run_end(clips, i, count) ==> #[trigger] clip_at(clips, k) == clip_at(
            clips,
            i,
        ),
        run_end(clips, i, count) < count ==> clip_at(clips, run_end(clips, i, count)) != clip_at(
            clips,
            i,
        ),
    decreases count - i,
{
    if i + 1 < count && clip_at(clips, i + 1) == clip_at(clips, i) {
        lemma_run_end(clips, i + 1, count);
    }
}

/// A run that still matches at `j` ends where the run from `j - 1` ends.
proof fn lemma_run_extends(clips: Seq<Option<u16>>, i: int, j: int, count: int)
    requires
        0 <= i < j <= count,
        forall|k: int| i <= k < j ==> #[trigger] clip_at(clips, k) == clip_at(clips, i),
    ensures
        run_end(clips, i, count) == run_end(clips, j - 1, count),
    decreases j - i,
{
    if i < j - 1 {
        assert(clip_at(clips, i + 1) == clip_at(clips, i));
        lemma_run_extends(clips, i + 1, j, count);
    }
}

/// Groups `count` instances by content clip: maximal runs of equal clip, each
/// with its scissor, a run with no visible scissor left out.
pub fn clip_runs(count: usize, clip_slice: &[Option<u16>], ctx: ClipCtx<'_>) -> (runs: Vec<ClipRun>)
    requires
        bounded(ctx.base),
        count <= u32::MAX,
    ensures
        runs@ == runs_from(ctx, clip_slice@, 0, count as int),
{
    let mut runs: Vec<ClipRun> = Vec::new();
    let mut i: usize = 0;
    while i < count
        invariant
            i <= count <= u32::MAX,
            bounded(ctx.base),
            runs@ + runs_from(ctx, clip_slice@, i as int, count as int) == runs_from(
                ctx,
                clip_slice@,
                0,
                count as int,
            ),
        decreases count - i,
    {
        let cur: Option<u16> = if i < clip_slice.len() { clip_slice[i] } else { None };
        let mut j: usize = i + 1;
        let mut same: bool = true;
        while j < count && same
            invariant
                i < j <= count <= u32::MAX,
                cur == clip_at(clip_slice@, i as int),
                forall|k: int|
                    i <= k < j ==> #[trigger] clip_at(clip_slice@, k) == clip_at(
                        clip_slice@,
                        i as int,
                    ),
                !same ==> j < count && clip_at(clip_slice@, j as int) != cur,
            decreases count - j + (if same { 1int } else { 0int }),
        {
            let next: Option<u16> = if j < clip_slice.len() { clip_slice[j] } else { None };
            if next == cur {
                j = j + 1;
            } else {
                same = false;
            }
        }
        proof {
            lemma_run_end(clip_slice@, i as int, count as int);
            lemma_run_extends(clip_slice@, i as int, j as int, count as int);
        }
        let ghost before = runs@;
        let ghost rest = runs_from(ctx, clip_slice@, j as int, count as int);
        if let Some(scissor) = clip_scissor(ctx, cur) {
            runs.push(ClipRun { scissor, start: i as u32, end: j as u32 });
            proof {
                assert(runs@ + rest =~= before + runs_from(
                    ctx,
                    clip_slice@,
                    i as int,
                    count as int,
                ));
            }
        }
        i = j;
    }
    proof {
        assert(runs_from(ctx, clip_slice@, i as int, count as int) =~= Seq::empty());
        assert(runs@ + Seq::<ClipRun>::empty() =~= runs@);
    }
    runs
}

/// Physical bounds a text area is clipped to.
#[derive(Clone, Copy, Debug, PartialEq, Eq)]
pub struct TextBounds {
    /// Left edge.
    pub left: i32,
    /// Top edge.
    pub top: i32,
    /// Right edge.
    pub right: i32,
    /// Bottom edge.
    pub bottom: i32,
}

/// `v` held to the range of a 32-bit integer.
pub open spec fn held32(v: int) -> int {
    max_int(min_int(v, i32::MAX as int), i32::MIN as int)
}

/// The text bounds of a content clip.
pub open spec fn text_bounds_of(rect: Rect, scale: u32) -> TextBounds {
    TextBounds {
        left: held32(floor_px(rect.left@, scale)) as i32,
        top: held32(floor_px(rect.top@, scale)) as i32,
        right: held32(ceil_px(rect.right@, scale)) as i32,
        bottom: held32(ceil_px(rect.bottom@, scale)) as i32,
    }
}

/// Holds a wide intermediate to the range of a 32-bit integer.
fn hold32(v: i64) -> (r: i32)
    ensures
        r == held32(v as int),
{
    if v > 0x7fff_ffff {
        0x7fff_ffff
    } else if v < -0x8000_0000 {
        -0x8000_0000
    } else {
        v as i32
    }
}

/// Converts a content clip to physical text bounds.
pub fn clip_to_text_bounds(rect: Rect, scale: u32) -> (b: TextBounds)
    ensures
        b == text_bounds_of(rect, scale),
{
    TextBounds {
        left: hold32(edge_floor(rect.left, scale)),
        top: hold32(edge_floor(rect.top, scale)),
        right: hold32(edge_ceil(rect.right, scale)),
        bottom: hold32(edge_ceil(rect.bottom, scale)),
    }
}

/// A scissor holds exactly the target's pixels that the scaled rectangle
/// touches.
pub proof fn law_scissor_holds_the_touched_pixels(
    rect: Rect,
    scale: u32,
    max_w: u32,
    max_h: u32,
    x: int,
    y: int,
)
    ensures
        holds_pixel(scissor_of(rect, scale, max_w, max_h), x, y) <==> {
            &&& 0 <= x < max_w
            &&& 0 <= y < max_h
            &&& floor_px(rect.left@, scale) <= x < ceil_px(rect.right@, scale)
            &&& floor_px(rect.top@, scale) <= y < ceil_px(rect.bottom@, scale)
        },
{
}

/// Every pixel of the target whose square overlaps the inside of the scaled
/// rectangle lies in the scissor: a pixel `p` covers `p` to `p + 1`.
pub proof fn law_scissor_covers_what_the_rectangle_overlaps(
    rect: Rect,
    scale: u32,
    max_w: u32,
    max_h: u32,
    x: int,
    y: int,
)
    requires
        0 <= x < max_w,
        0 <= y < max_h,
        rect.left@ * scale_factor(scale) < (x + 1) * pixel_units(scale),
        x * pixel_units(scale) < rect.right@ * scale_factor(scale),
        rect.top@ * scale_factor(scale) < (y + 1) * pixel_units(scale),
        y * pixel_units(scale) < rect.bottom@ * scale_factor(scale),
    ensures
        holds_pixel(scissor_of(rect, scale, max_w, max_h), x, y),
{
    let d = pixel_units(scale);
    vstd::arithmetic::power2::lemma_pow2_pos(scale_shift(scale) as nat);
    lemma_pixel_between(rect.left@ * scale_factor(scale), rect.right@ * scale_factor(scale), d, x);
    lemma_pixel_between(rect.top@ * scale_factor(scale), rect.bottom@ * scale_factor(scale), d, y);
    law_scissor_holds_the_touched_pixels(rect, scale, max_w, max_h, x, y);
}

/// A pixel that overlaps a span lies between its rounded ends.
pub proof fn lemma_pixel_between(lo: int, hi: int, d: int, p: int)
    requires
        d > 0,
        lo < (p + 1) * d,
        p * d < hi,
    ensures
        floor_div(lo, d) <= p < ceil_div(hi, d),
{
    vstd::arithmetic::div_mod::lemma_fundamental_div_mod(lo, d);
    vstd::arithmetic::div_mod::lemma_fundamental_div_mod(-hi, d);
    let q = lo / d;
    assert(q <= p) by (nonlinear_arith)
        requires
            lo == d * q + lo % d,
            lo % d >= 0,
            (p + 1) * d > lo,
            d > 0,
    ;
    let u = (-hi) / d;
    assert(p < -u) by (nonlinear_arith)
        requires
            -hi == d * u + (-hi) % d,
            0 <= (-hi) % d < d,
            p * d < hi,
            d > 0,
    ;
}

/// An intersection holds exactly the pixels both scissors hold, and is absent
/// exactly when they share none.
pub proof fn law_overlap_is_the_shared_pixels(a: Scissor, b: Scissor, x: int, y: int)
    ensures
        (overlap(a, b) is Some && holds_pixel(overlap(a, b)->0, x, y)) <==> (holds_pixel(a, x, y)
            && holds_pixel(b, x, y)),
        overlap(a, b) is None ==> !(holds_pixel(a, x, y) && holds_pixel(b, x, y)),
        overlap(a, b) matches Some(s) ==> holds_pixel(s, s.0 as int, s.1 as int),
{
}

/// Whether a run draws instance `k`.
pub open spec fn draws(r: ClipRun, k: int) -> bool {
    r.start <= k < r.end
}

/// Whether a run of a batch of `count` instances is as long as it can be: all
/// its instances have one clip, which no neighbour of the run has.
pub open spec fn maximal(clips: Seq<Option<u16>>, r: ClipRun, count: int) -> bool {
    &&& forall|k: int|
        r.start <= k < r.end ==> #[trigger] clip_at(clips, k) == clip_at(clips, r.start as int)
    &&& r.start > 0 ==> clip_at(clips, r.start - 1) != clip_at(clips, r.start as int)
    &&& r.end < count ==> clip_at(clips, r.end as int) != clip_at(clips, r.start as int)
}

/// The runs from `i` draw each later instance that is visible exactly once,
/// under its own scissor, and no other instance.
proof fn lemma_runs_from(ctx: ClipCtx<'_>, clips: Seq<Option<u16>>, i: int, count: int)
    requires
        0 <= i <= count <= u32::MAX,
    ensures
        ({
            let runs = runs_from(ctx, clips, i, count);
            &&& forall|r: int| #![trigger runs[r]]
                0 <= r < runs.len() ==> i <= runs[r].start < runs[r].end <= count
            &&& forall|r: int, q: int| #![trigger runs[r], runs[q]]
                0 <= r < q < runs.len() ==> runs[r].end <= runs[q].start
            &&& forall|r: int, k: int| #![trigger draws(runs[r], k)]
                0 <= r < runs.len() && draws(runs[r], k) ==> clip_scissor_of(ctx, clip_at(clips, k))
                    == Some(runs[r].scissor)
            &&& forall|k: int| #![trigger clip_at(clips, k)]
                i <= k < count && clip_scissor_of(ctx, clip_at(clips, k)) is Some ==> exists|r: int|
                    0 <= r < runs.len() && #[trigger] draws(runs[r], k)
        }),
    decreases count - i,
{
    let runs = runs_from(ctx, clips, i, count);
    if i < count {
        lemma_run_end(clips, i, count);
        let j = run_end(clips, i, count);
        lemma_runs_from(ctx, clips, j, count);
        let rest = runs_from(ctx, clips, j, count);
        match clip_scissor_of(ctx, clip_at(clips, i)) {
            Some(s) => {
                let head = ClipRun { scissor: s, start: i as u32, end: j as u32 };
                assert(runs =~= seq![head] + rest);
                assert forall|r: int, q: int| #![trigger runs[r], runs[q]]
                    0 <= r < q < runs.len() implies runs[r].end <= runs[q].start by {
                    assert(runs[q] == rest[q - 1]);
                    if r > 0 {
                        assert(runs[r] == rest[r - 1]);
                    }
                }
                assert forall|r: int, k: int| #![trigger draws(runs[r], k)]
                    0 <= r < runs.len() && draws(runs[r], k) implies clip_scissor_of(
                    ctx,
                    clip_at(clips, k),
                ) == Some(runs[r].scissor) by {
                    if r > 0 {
                        assert(runs[r] == rest[r - 1]);
                        assert(draws(rest[r - 1], k));
                    } else {
                        assert(clip_at(clips, k) == clip_at(clips, i));
                    }
                }
                assert forall|k: int| #![trigger clip_at(clips, k)]
                    i <= k < count && clip_scissor_of(ctx, clip_at(clips, k)) is Some implies exists|
                        r: int,
                    |
                    0 <= r < runs.len() && #[trigger] draws(runs[r], k) by {
                    if k < j {
                        assert(draws(runs[0], k));
                    } else {
                        let r = choose|r: int| 0 <= r < rest.len() && #[trigger] draws(rest[r], k);
                        assert(runs[r + 1] == rest[r]);
                        assert(draws(runs[r + 1], k));
                    }
                }
                assert forall|r: int| #![trigger runs[r]] 0 <= r < runs.len() implies i
                    <= runs[r].start < runs[r].end <= count by {
                    if r > 0 {
                        assert(runs[r] == rest[r - 1]);
                    }
                }
            },
            None => {
                assert(runs == rest);
            },
        }
    }
}

/// Clip runs draw each visible instance of a batch in exactly one run, under
/// that instance's own scissor, in order, and draw nothing that is clipped
/// away.
pub proof fn law_runs_draw_each_visible_instance_once(
    ctx: ClipCtx<'_>,
    clips: Seq<Option<u16>>,
    count: int,
)
    requires
        0 <= count <= u32::MAX,
    ensures
        ({
            let runs = runs_from(ctx, clips, 0, count);
            &&& forall|r: int| #![trigger runs[r]]
                0 <= r < runs.len() ==> runs[r].start < runs[r].end <= count
            &&& forall|r: int, q: int| #![trigger runs[r], runs[q]]
                0 <= r < q < runs.len() ==> runs[r].end <= runs[q].start
            &&& forall|r: int, k: int| #![trigger draws(runs[r], k)]
                0 <= r < runs.len() && draws(runs[r], k) ==> clip_scissor_of(ctx, clip_at(clips, k))
                    == Some(runs[r].scissor)
            &&& forall|k: int| #![trigger clip_at(clips, k)]
                0 <= k < count && clip_scissor_of(ctx, clip_at(clips, k)) is Some ==> exists|r: int|
                    0 <= r < runs.len() && #[trigger] draws(runs[r], k)
        }),
{
    lemma_runs_from(ctx, clips, 0, count);
}

/// The runs from `i` are maximal if a run can start at `i`.
proof fn lemma_runs_are_maximal(
    ctx: ClipCtx<'_>,
    clips: Seq<Option<u16>>,
    i: int,
    count: int,
    r: int,
)
    requires
        0 <= i <= count <= u32::MAX,
        0 < i < count ==> clip_at(clips, i - 1) != clip_at(clips, i),
        0 <= r < runs_from(ctx, clips, i, count).len(),
    ensures
        maximal(clips, runs_from(ctx, clips, i, count)[r], count),
    decreases count - i,
{
    let runs = runs_from(ctx, clips, i, count);
    if i < count {
        lemma_run_end(clips, i, count);
        let j = run_end(clips, i, count);
        let rest = runs_from(ctx, clips, j, count);
        if j < count {
            assert(clip_at(clips, j - 1) == clip_at(clips, i));
        }
        match clip_scissor_of(ctx, clip_at(clips, i)) {
            Some(s) => {
                assert(runs =~= seq![ClipRun { scissor: s, start: i as u32, end: j as u32 }]
                    + rest);
                if r > 0 {
                    lemma_runs_are_maximal(ctx, clips, j, count, r - 1);
                    assert(runs[r] == rest[r - 1]);
                }
            },
            None => {
                lemma_runs_are_maximal(ctx, clips, j, count, r);
            },
        }
    }
}

/// Every clip run is maximal: its instances share one clip, and neither the one
/// before it nor the one after it does.
pub proof fn law_clip_runs_are_maximal(
    ctx: ClipCtx<'_>,
    clips: Seq<Option<u16>>,
    count: int,
    r: int,
)
    requires
        0 <= count <= u32::MAX,
        0 <= r < runs_from(ctx, clips, 0, count).len(),
    ensures
        maximal(clips, runs_from(ctx, clips, 0, count)[r], count),
{
    lemma_runs_are_maximal(ctx, clips, 0, count, r);
}

/// A physical pixel, where a coordinate is multiplied by a scale factor: both are
/// counted in units.
pub open spec fn pixel() -> int {
    pow2(302) as int
}

/// A scale factor taken apart is the scale factor, in proportion to a pixel.
pub proof fn lemma_scale(scale: u32) -> (t: int)
    ensures
        t > 0,
        value(scale) == scale_factor(scale) * t,
        pixel() == pixel_units(scale) * t,
        pixel_units(scale) > 0,
{
    let up = (binary_exponent(scale) + UNIT_EXPONENT) as nat;
    let t = pow2(up) as int;
    vstd::arithmetic::power2::lemma_pow2_pos(up);
    vstd::arithmetic::power2::lemma_pow2_pos(scale_shift(scale) as nat);
    vstd::arithmetic::power2::lemma_pow2_adds(scale_shift(scale) as nat, up);
    let m = significand(scale) as int;
    assert((-m) * t == -(m * t)) by (nonlinear_arith);
    assert(0 * t == 0);
    t
}

/// Comparing what is scaled with a number of pixels.
pub proof fn lemma_against_pixels(edge: int, scale: u32, k: int)
    ensures
        (edge * scale_factor(scale) < k * pixel_units(scale)) == (edge * value(scale) < k
            * pixel()),
        (k * pixel_units(scale) < edge * scale_factor(scale)) == (k * pixel() < edge * value(
            scale,
        )),
{
    let t = lemma_scale(scale);
    let f = scale_factor(scale);
    let u = pixel_units(scale);
    let a = edge * f;
    let b = k * u;
    assert(edge * (f * t) == a * t) by (nonlinear_arith)
        requires
            a == edge * f,
    ;
    assert(k * (u * t) == b * t) by (nonlinear_arith)
        requires
            b == k * u,
    ;
    assert((a < b) == (a * t < b * t)) by (nonlinear_arith)
        requires
            t > 0,
    ;
    assert((b < a) == (b * t < a * t)) by (nonlinear_arith)
        requires
            t > 0,
    ;
}

/// A quotient rounded down, and one rounded up, against an integer.
pub proof fn lemma_rounded_against(n: int, d: int, k: int)
    requires
        d > 0,
    ensures
        (floor_div(n, d) <= k) == (n < (k + 1) * d),
        (k < ceil_div(n, d)) == (k * d < n),
{
    vstd::arithmetic::div_mod::lemma_fundamental_div_mod(n, d);
    vstd::arithmetic::div_mod::lemma_fundamental_div_mod(-n, d);
    let q = n / d;
    let r = n % d;
    assert((q <= k) == (n < (k + 1) * d)) by (nonlinear_arith)
        requires
            n == d * q + r,
            0 <= r < d,
            d > 0,
    ;
    let u = (-n) / d;
    let v = (-n) % d;
    assert((k < -u) == (k * d < n)) by (nonlinear_arith)
        requires
            -n == d * u + v,
            0 <= v < d,
            d > 0,
    ;
}

/// A pixel against the rounded edges of what is scaled.
pub proof fn lemma_pixel_against(edge: int, scale: u32, k: int)
    ensures
        (floor_px(edge, scale) <= k) == (edge * value(scale) < (k + 1) * pixel()),
        (k < ceil_px(edge, scale)) == (k * pixel() < edge * value(scale)),
{
    let t = lemma_scale(scale);
    lemma_rounded_against(edge * scale_factor(scale), pixel_units(scale), k);
    lemma_against_pixels(edge, scale, k + 1);
    lemma_against_pixels(edge, scale, k);
}

/// A scissor holds exactly the target's pixels whose square overlaps the inside of
/// the rectangle times the scale factor: pixel `p` covers `p` to `p + 1`.
pub proof fn law_scissor_holds_exactly_the_overlapped_pixels(
    rect: Rect,
    scale: u32,
    max_w: u32,
    max_h: u32,
    x: int,
    y: int,
)
    ensures
        holds_pixel(scissor_of(rect, scale, max_w, max_h), x, y) <==> {
            &&& 0 <= x < max_w
            &&& 0 <= y < max_h
            &&& rect.left@ * value(scale) < (x + 1) * pixel()
            &&& x * pixel() < rect.right@ * value(scale)
            &&& rect.top@ * value(scale) < (y + 1) * pixel()
            &&& y * pixel() < rect.bottom@ * value(scale)
        },
{
    law_scissor_holds_the_touched_pixels(rect, scale, max_w, max_h, x, y);
    lemma_pixel_against(rect.left@, scale, x);
    lemma_pixel_against(rect.right@, scale, x);
    lemma_pixel_against(rect.top@, scale, y);
    lemma_pixel_against(rect.bottom@, scale, y);
}

/// What a primitive is drawn under holds exactly the pixels of the base that its
/// clip's rectangle overlaps: all of them without a clip, none with a clip that
/// the table lacks. Nothing is drawn exactly where no such pixel is left.
pub proof fn law_clipped_pixels_are_the_overlapped_ones(
    ctx: ClipCtx<'_>,
    clip: Option<u16>,
    x: int,
    y: int,
)
    requires
        clip matches Some(c) ==> (c < ctx.clips@.len() ==> numbers(ctx.clips@[c as int].rect)),
    ensures
        (clip_scissor_of(ctx, clip) matches Some(s) && holds_pixel(s, x, y)) <==> {
            &&& holds_pixel(ctx.base, x, y)
            &&& clip matches Some(c) ==> {
                let r = ctx.clips@[c as int].rect;
                &&& c < ctx.clips@.len()
                &&& 0 <= x < ctx.phys_w
                &&& 0 <= y < ctx.phys_h
                &&& value(r[0]) * value(ctx.scale) < (x + 1) * pixel()
                &&& x * pixel() < (value(r[0]) + value(r[2])) * value(ctx.scale)
                &&& value(r[1]) * value(ctx.scale) < (y + 1) * pixel()
                &&& y * pixel() < (value(r[1]) + value(r[3])) * value(ctx.scale)
            }
        },
        clip is None ==> clip_scissor_of(ctx, clip) == Some(ctx.base),
        clip matches Some(c) ==> (clip_scissor_of(ctx, clip) matches Some(s) ==> holds_pixel(
            s,
            s.0 as int,
            s.1 as int,
        )),
{
    if let Some(c) = clip {
        if c < ctx.clips@.len() {
            let r = ctx.clips@[c as int].rect;
            let rect = rect_spec(r);
            law_rectangle_is_where_its_numbers_say(r);
            let s = scissor_of(rect, ctx.scale, ctx.phys_w, ctx.phys_h);
            law_scissor_holds_exactly_the_overlapped_pixels(
                rect,
                ctx.scale,
                ctx.phys_w,
                ctx.phys_h,
                x,
                y,
            );
            law_overlap_is_the_shared_pixels(ctx.base, s, x, y);
        }
    }
}

/// A logical extent takes as many physical pixels as cover it, at least one.
pub proof fn law_physical_extent_covers_the_logical_one(extent: u32, scale: u32)
    ensures
        ({
            let n = physical_of(extent, scale);
            &&& 1 <= n <= u32::MAX
            &&& n < u32::MAX ==> value(extent) * value(scale) <= n * pixel()
            &&& n > 1 ==> (n - 1) * pixel() < value(extent) * value(scale)
        }),
{
    let n = physical_of(extent, scale);
    lemma_pixel_against(value(extent), scale, n);
    lemma_pixel_against(value(extent), scale, n - 1);
}

/// The text bounds of a content clip are the whole pixels round its rectangle, as
/// far as they can be held.
pub proof fn law_text_bounds_enclose_the_clip(rect: Rect, scale: u32)
    ensures
        ({
            let b = text_bounds_of(rect, scale);
            &&& b.left > i32::MIN ==> b.left * pixel() <= rect.left@ * value(scale)
            &&& b.left < i32::MAX ==> rect.left@ * value(scale) < (b.left + 1) * pixel()
            &&& b.top > i32::MIN ==> b.top * pixel() <= rect.top@ * value(scale)
            &&& b.top < i32::MAX ==> rect.top@ * value(scale) < (b.top + 1) * pixel()
            &&& b.right < i32::MAX ==> rect.right@ * value(scale) <= b.right * pixel()
            &&& b.right > i32::MIN ==> (b.right - 1) * pixel() < rect.right@ * value(scale)
            &&& b.bottom < i32::MAX ==> rect.bottom@ * value(scale) <= b.bottom * pixel()
            &&& b.bottom > i32::MIN ==> (b.bottom - 1) * pixel() < rect.bottom@ * value(scale)
        }),
{
    let b = text_bounds_of(rect, scale);
    lemma_pixel_against(rect.left@, scale, b.left as int);
    lemma_pixel_against(rect.left@, scale, b.left - 1);
    lemma_pixel_against(rect.top@, scale, b.top as int);
    lemma_pixel_against(rect.top@, scale, b.top - 1);
    lemma_pixel_against(rect.right@, scale, b.right as int);
    lemma_pixel_against(rect.right@, scale, b.right - 1);
    lemma_pixel_against(rect.bottom@, scale, b.bottom as int);
    lemma_pixel_against(rect.bottom@, scale, b.bottom - 1);
}

} // verus!
