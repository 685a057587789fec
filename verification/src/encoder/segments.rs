//! Cutting a frame's draw stream into render-pass segments.
//!
//! Two partitions of the same emission-ordered stream meet here: z-layer marks
//! order batches within a frame, and backdrop barriers split the pass, because
//! a pane must sample everything drawn before it. A frame with neither is
//! exactly one segment.

use crate::frame::{max_int, min_int, origin_mark, LayerMark};
use std::ops::Range;
use vstd::prelude::*;

verus! {

/// One contiguous slice of the draw stream, rendered inside a single pass.
#[derive(Debug, PartialEq, Eq)]
pub struct SegmentRanges {
    /// Solid boxes.
    pub solid: Range<usize>,
    /// Decorated boxes.
    pub decorated: Range<usize>,
    /// Images.
    pub texture: Range<usize>,
    /// Vector glyphs.
    pub vector: Range<usize>,
    /// Text lines.
    pub text: Range<usize>,
    /// Canvas shapes.
    pub canvas: Range<usize>,
    /// Ripples.
    pub ripple: Range<usize>,
    /// The backdrop to blur after this segment and to composite at the start
    /// of the next one.
    pub backdrop_after: Option<usize>,
}

/// The seven pools a segment ranges over.
pub enum Pool {
    /// Solid boxes.
    Solid,
    /// Decorated boxes.
    Decorated,
    /// Images.
    Texture,
    /// Vector glyphs.
    Vector,
    /// Text lines.
    Text,
    /// Canvas shapes.
    Canvas,
    /// Ripples.
    Ripple,
}

/// A mark's cursor into one pool.
pub open spec fn cursor_of(m: LayerMark, p: Pool) -> int {
    match p {
        Pool::Solid => m.solid as int,
        Pool::Decorated => m.decorated as int,
        Pool::Texture => m.texture as int,
        Pool::Vector => m.vector as int,
        Pool::Text => m.text as int,
        Pool::Canvas => m.canvas as int,
        Pool::Ripple => m.ripple as int,
    }
}

/// A segment's range over one pool.
pub open spec fn range_in(s: SegmentRanges, p: Pool) -> Range<usize> {
    match p {
        Pool::Solid => s.solid,
        Pool::Decorated => s.decorated,
        Pool::Texture => s.texture,
        Pool::Vector => s.vector,
        Pool::Text => s.text,
        Pool::Canvas => s.canvas,
        Pool::Ripple => s.ripple,
    }
}

/// Whether every cursor of `a` is at or before that of `b`.
pub open spec fn mark_le(a: LayerMark, b: LayerMark) -> bool {
    &&& a.solid <= b.solid
    &&& a.decorated <= b.decorated
    &&& a.texture <= b.texture
    &&& a.vector <= b.vector
    &&& a.text <= b.text
    &&& a.canvas <= b.canvas
    &&& a.ripple <= b.ripple
    &&& a.backdrop <= b.backdrop
}

/// `v` held between `lo` and `hi`.
pub open spec fn clamped(v: u32, lo: u32, hi: u32) -> u32 {
    if v < lo {
        lo
    } else if v > hi {
        hi
    } else {
        v
    }
}

/// `m` held between `lo` and `hi`, cursor by cursor.
pub open spec fn mark_clamp(m: LayerMark, lo: LayerMark, hi: LayerMark) -> LayerMark {
    LayerMark {
        solid: clamped(m.solid, lo.solid, hi.solid),
        decorated: clamped(m.decorated, lo.decorated, hi.decorated),
        texture: clamped(m.texture, lo.texture, hi.texture),
        vector: clamped(m.vector, lo.vector, hi.vector),
        text: clamped(m.text, lo.text, hi.text),
        canvas: clamped(m.canvas, lo.canvas, hi.canvas),
        ripple: clamped(m.ripple, lo.ripple, hi.ripple),
        backdrop: clamped(m.backdrop, lo.backdrop, hi.backdrop),
    }
}

/// The segment between two marks.
pub open spec fn between(a: LayerMark, b: LayerMark, backdrop_after: Option<usize>) -> SegmentRanges {
    SegmentRanges {
        solid: Range { start: a.solid as usize, end: b.solid as usize },
        decorated: Range { start: a.decorated as usize, end: b.decorated as usize },
        texture: Range { start: a.texture as usize, end: b.texture as usize },
        vector: Range { start: a.vector as usize, end: b.vector as usize },
        text: Range { start: a.text as usize, end: b.text as usize },
        canvas: Range { start: a.canvas as usize, end: b.canvas as usize },
        ripple: Range { start: a.ripple as usize, end: b.ripple as usize },
        backdrop_after,
    }
}

/// Where the cursor stands after barrier `b`, met inside a layer that runs
/// from `cursor` to `end`.
pub open spec fn after_barrier(marks: Seq<LayerMark>, b: int, cursor: LayerMark, end: LayerMark) -> LayerMark {
    LayerMark { backdrop: (b + 1) as u32, ..mark_clamp(marks[b], cursor, end) }
}

/// The segments of one layer: one per barrier from `b` up to `b_end`, then the
/// rest of the layer.
pub open spec fn layer_segments(
    cursor: LayerMark,
    end: LayerMark,
    marks: Seq<LayerMark>,
    b: int,
    b_end: int,
) -> Seq<SegmentRanges>
    decreases b_end - b,
{
    if b >= b_end {
        seq![between(cursor, end, None)]
    } else {
        seq![between(cursor, mark_clamp(marks[b], cursor, end), Some(b as usize))] + layer_segments(
            after_barrier(marks, b, cursor, end),
            end,
            marks,
            b + 1,
            b_end,
        )
    }
}

/// Where layer `l` ends: at its mark, or at the end of the frame.
pub open spec fn layer_end(layers: Seq<LayerMark>, l: int, cursor: LayerMark, totals: LayerMark) -> LayerMark {
    mark_clamp(
        if l < layers.len() {
            layers[l]
        } else {
            totals
        },
        cursor,
        totals,
    )
}

/// The segments of layer `l` and every later one.
pub open spec fn segments_from(
    l: int,
    cursor: LayerMark,
    layers: Seq<LayerMark>,
    marks: Seq<LayerMark>,
    totals: LayerMark,
) -> Seq<SegmentRanges>
    decreases layers.len() - l + 1,
{
    if l > layers.len() {
        Seq::empty()
    } else {
        let end = layer_end(layers, l, cursor, totals);
        layer_segments(
            cursor,
            end,
            marks,
            cursor.backdrop as int,
            min_int(end.backdrop as int, marks.len() as int),
        ) + segments_from(l + 1, end, layers, marks, totals)
    }
}

/// The whole frame's segments.
pub open spec fn segments_of(
    layers: Seq<LayerMark>,
    marks: Seq<LayerMark>,
    totals: LayerMark,
) -> Seq<SegmentRanges> {
    segments_from(0, origin_mark(), layers, marks, totals)
}

/// Holds one cursor between two others.
fn clamp_cursor(v: u32, lo: u32, hi: u32) -> (r: u32)
    ensures
        r == clamped(v, lo, hi),
{
    if v < lo {
        lo
    } else if v > hi {
        hi
    } else {
        v
    }
}

/// Field-wise clamp of a mark into `[lo, hi]`: a decreasing or overshooting
/// cursor collapses to an empty range.
pub fn mark_clamped(m: &LayerMark, lo: &LayerMark, hi: &LayerMark) -> (r: LayerMark)
    requires
        mark_le(*lo, *hi),
    ensures
        r == mark_clamp(*m, *lo, *hi),
        mark_le(*lo, r),
        mark_le(r, *hi),
{
    LayerMark {
        solid: clamp_cursor(m.solid, lo.solid, hi.solid),
        decorated: clamp_cursor(m.decorated, lo.decorated, hi.decorated),
        texture: clamp_cursor(m.texture, lo.texture, hi.texture),
        vector: clamp_cursor(m.vector, lo.vector, hi.vector),
        text: clamp_cursor(m.text, lo.text, hi.text),
        canvas: clamp_cursor(m.canvas, lo.canvas, hi.canvas),
        ripple: clamp_cursor(m.ripple, lo.ripple, hi.ripple),
        backdrop: clamp_cursor(m.backdrop, lo.backdrop, hi.backdrop),
    }
}

/// The [`SegmentRanges`] between two marks.
pub fn ranges_between(a: &LayerMark, b: &LayerMark, backdrop_after: Option<usize>) -> (r: SegmentRanges)
    ensures
        r == between(*a, *b, backdrop_after),
{
    SegmentRanges {
        solid: Range { start: a.solid as usize, end: b.solid as usize },
        decorated: Range { start: a.decorated as usize, end: b.decorated as usize },
        texture: Range { start: a.texture as usize, end: b.texture as usize },
        vector: Range { start: a.vector as usize, end: b.vector as usize },
        text: Range { start: a.text as usize, end: b.text as usize },
        canvas: Range { start: a.canvas as usize, end: b.canvas as usize },
        ripple: Range { start: a.ripple as usize, end: b.ripple as usize },
        backdrop_after,
    }
}

/// Appends one layer's segments: one per barrier that falls inside it, then
/// the rest.
fn push_layer(
    segments: &mut Vec<SegmentRanges>,
    start: LayerMark,
    end: &LayerMark,
    backdrop_marks: &[LayerMark],
)
    requires
        mark_le(start, *end),
    ensures
        final(segments)@ == old(segments)@ + layer_segments(
            start,
            *end,
            backdrop_marks@,
            start.backdrop as int,
            min_int(end.backdrop as int, backdrop_marks@.len() as int),
        ),
{
    let mut cursor: LayerMark = start;
    let mut b: usize = start.backdrop as usize;
    let b_end: usize = if (end.backdrop as usize) < backdrop_marks.len() {
        end.backdrop as usize
    } else {
        backdrop_marks.len()
    };
    while b < b_end
        invariant
            b_end == min_int(end.backdrop as int, backdrop_marks@.len() as int),
            start.backdrop <= b,
            mark_le(cursor, *end),
            b < b_end ==> cursor.backdrop == b,
            segments@ + layer_segments(cursor, *end, backdrop_marks@, b as int, b_end as int)
                == old(segments)@ + layer_segments(
                start,
                *end,
                backdrop_marks@,
                start.backdrop as int,
                b_end as int,
            ),
        decreases b_end - b,
    {
        let mut mid: LayerMark = mark_clamped(&backdrop_marks[b], &cursor, end);
        let ghost before = segments@;
        segments.push(ranges_between(&cursor, &mid, Some(b)));
        mid.backdrop = (b + 1) as u32;
        proof {
            let rest = layer_segments(mid, *end, backdrop_marks@, b as int + 1, b_end as int);
            assert(mid == after_barrier(backdrop_marks@, b as int, cursor, *end));
            assert(segments@ + rest =~= before + layer_segments(
                cursor,
                *end,
                backdrop_marks@,
                b as int,
                b_end as int,
            ));
        }
        cursor = mid;
        b = b + 1;
    }
    let ghost before = segments@;
    segments.push(ranges_between(&cursor, end, None));
    proof {
        assert(segments@ =~= before + layer_segments(
            cursor,
            *end,
            backdrop_marks@,
            b as int,
            b_end as int,
        ));
    }
}

/// Partitions the frame's draw stream into render-pass segments: one per
/// z-layer, further split at every backdrop barrier inside that layer.
pub fn compute_segments(
    layers: &[LayerMark],
    backdrop_marks: &[LayerMark],
    totals: &LayerMark,
) -> (segments: Vec<SegmentRanges>)
    ensures
        segments@ == segments_of(layers@, backdrop_marks@, *totals),
{
    let mut segments: Vec<SegmentRanges> = Vec::new();
    let mut cursor: LayerMark = LayerMark::default();
    let mut l: usize = 0;
    while l < layers.len()
        invariant
            l <= layers@.len(),
            mark_le(cursor, *totals),
            segments@ + segments_from(l as int, cursor, layers@, backdrop_marks@, *totals)
                == segments_of(layers@, backdrop_marks@, *totals),
        decreases layers@.len() - l,
    {
        let end: LayerMark = mark_clamped(&layers[l], &cursor, totals);
        let ghost before = segments@;
        push_layer(&mut segments, cursor, &end, backdrop_marks);
        proof {
            let rest = segments_from(l as int + 1, end, layers@, backdrop_marks@, *totals);
            assert(segments@ + rest =~= before + segments_from(
                l as int,
                cursor,
                layers@,
                backdrop_marks@,
                *totals,
            ));
        }
        cursor = end;
        l = l + 1;
    }
    let end: LayerMark = mark_clamped(totals, &cursor, totals);
    let ghost before = segments@;
    push_layer(&mut segments, cursor, &end, backdrop_marks);
    proof {
        assert(segments_from(l as int + 1, end, layers@, backdrop_marks@, *totals) =~= Seq::empty());
        assert(segments@ =~= before + segments_from(
            l as int,
            cursor,
            layers@,
            backdrop_marks@,
            *totals,
        ));
    }
    segments
}

/// The text ranges of a frame's segments, one per segment.
pub fn text_ranges(segments: &[SegmentRanges]) -> (ranges: Vec<Range<usize>>)
    ensures
        ranges@ == segments@.map_values(|s: SegmentRanges| s.text),
{
    let mut ranges: Vec<Range<usize>> = Vec::new();
    let mut i: usize = 0;
    while i < segments.len()
        invariant
            i <= segments@.len(),
            ranges@ == segments@.take(i as int).map_values(|s: SegmentRanges| s.text),
        decreases segments@.len() - i,
    {
        let s: &SegmentRanges = &segments[i];
        ranges.push(Range { start: s.text.start, end: s.text.end });
        proof {
            assert(segments@.take(i as int + 1).map_values(|s: SegmentRanges| s.text)
                =~= segments@.take(i as int).map_values(|s: SegmentRanges| s.text).push(s.text));
        }
        i = i + 1;
    }
    proof {
        assert(segments@.take(segments@.len() as int) =~= segments@);
    }
    ranges
}

/// Where a range starts once it is clamped to a slice of `len` items.
pub open spec fn sub_start(start: int, len: int) -> int {
    min_int(start, len)
}

/// Where a range ends once it is clamped to a slice of `len` items.
pub open spec fn sub_end(start: int, end: int, len: int) -> int {
    if end < sub_start(start, len) {
        sub_start(start, len)
    } else {
        min_int(end, len)
    }
}

/// The part of `slice` a range covers, the range first clamped to the slice's
/// bounds. Parallel depth and clip slices may be shorter than their pool.
pub fn sub_slice<'a, T>(slice: &'a [T], range: &Range<usize>) -> (r: &'a [T])
    ensures
        r@ == slice@.subrange(
            sub_start(range.start as int, slice@.len() as int),
            sub_end(range.start as int, range.end as int, slice@.len() as int),
        ),
{
    let start: usize = if range.start < slice.len() {
        range.start
    } else {
        slice.len()
    };
    let end: usize = if range.end < start {
        start
    } else if range.end > slice.len() {
        slice.len()
    } else {
        range.end
    };
    &slice[start..end]
}

/// A layer's segments run on from one another and cover the layer.
proof fn lemma_layer_tiles(
    cursor: LayerMark,
    end: LayerMark,
    marks: Seq<LayerMark>,
    b: int,
    b_end: int,
    p: Pool,
)
    requires
        mark_le(cursor, end),
        0 <= b,
        b_end <= marks.len(),
        b_end <= end.backdrop,
        b < b_end ==> cursor.backdrop == b,
    ensures
        ({
            let s = layer_segments(cursor, end, marks, b, b_end);
            &&& s.len() == 1 + (if b < b_end { b_end - b } else { 0 })
            &&& range_in(s[0], p).start == cursor_of(cursor, p)
            &&& range_in(s.last(), p).end == cursor_of(end, p)
            &&& forall|i: int| #![trigger s[i]]
                0 <= i < s.len() ==> range_in(s[i], p).start <= range_in(s[i], p).end
            &&& forall|i: int, j: int| #![trigger s[i], s[j]]
                0 <= i < s.len() && j == i + 1 && j < s.len() ==> range_in(s[i], p).end == range_in(
                    s[j],
                    p,
                ).start
        }),
    decreases b_end - b,
{
    if b < b_end {
        let mid = mark_clamp(marks[b], cursor, end);
        let next = after_barrier(marks, b, cursor, end);
        lemma_layer_tiles(next, end, marks, b + 1, b_end, p);
        let s = layer_segments(cursor, end, marks, b, b_end);
        let rest = layer_segments(next, end, marks, b + 1, b_end);
        assert(s =~= seq![between(cursor, mid, Some(b as usize))] + rest);
        assert forall|i: int, j: int| #![trigger s[i], s[j]]
            0 <= i < s.len() && j == i + 1 && j < s.len() implies range_in(s[i], p).end == range_in(
            s[j],
            p,
        ).start by {
            if i > 0 {
                assert(s[i] == rest[i - 1] && s[j] == rest[j - 1]);
            } else {
                assert(s[j] == rest[0]);
            }
        }
        assert forall|i: int| #![trigger s[i]] 0 <= i < s.len() implies range_in(s[i], p).start
            <= range_in(s[i], p).end by {
            if i > 0 {
                assert(s[i] == rest[i - 1]);
            }
        }
        assert(s.last() == rest.last());
    } else {
        assert(layer_segments(cursor, end, marks, b, b_end) =~= seq![between(cursor, end, None)]);
    }
}

/// The segments of the remaining layers run on from one another and cover what
/// is left of the frame.
proof fn lemma_tiles_from(
    l: int,
    cursor: LayerMark,
    layers: Seq<LayerMark>,
    marks: Seq<LayerMark>,
    totals: LayerMark,
    p: Pool,
)
    requires
        0 <= l <= layers.len(),
        mark_le(cursor, totals),
    ensures
        ({
            let s = segments_from(l, cursor, layers, marks, totals);
            &&& s.len() >= layers.len() - l + 1
            &&& s.len() >= 1
            &&& range_in(s[0], p).start == cursor_of(cursor, p)
            &&& range_in(s.last(), p).end == cursor_of(totals, p)
            &&& forall|i: int| #![trigger s[i]]
                0 <= i < s.len() ==> range_in(s[i], p).start <= range_in(s[i], p).end
            &&& forall|i: int, j: int| #![trigger s[i], s[j]]
                0 <= i < s.len() && j == i + 1 && j < s.len() ==> range_in(s[i], p).end == range_in(
                    s[j],
                    p,
                ).start
        }),
    decreases layers.len() - l,
{
    let end = layer_end(layers, l, cursor, totals);
    let b_end = min_int(end.backdrop as int, marks.len() as int);
    let head = layer_segments(cursor, end, marks, cursor.backdrop as int, b_end);
    let tail = segments_from(l + 1, end, layers, marks, totals);
    let s = segments_from(l, cursor, layers, marks, totals);
    assert(s =~= head + tail);
    lemma_layer_tiles(cursor, end, marks, cursor.backdrop as int, b_end, p);
    if l < layers.len() {
        lemma_tiles_from(l + 1, end, layers, marks, totals, p);
        assert forall|i: int, j: int| #![trigger s[i], s[j]]
            0 <= i < s.len() && j == i + 1 && j < s.len() implies range_in(s[i], p).end == range_in(
            s[j],
            p,
        ).start by {
            if j < head.len() {
                assert(s[i] == head[i] && s[j] == head[j]);
            } else if i >= head.len() {
                assert(s[i] == tail[i - head.len()] && s[j] == tail[j - head.len()]);
            } else {
                assert(s[i] == head.last() && s[j] == tail[0]);
            }
        }
        assert forall|i: int| #![trigger s[i]] 0 <= i < s.len() implies range_in(s[i], p).start
            <= range_in(s[i], p).end by {
            if i < head.len() {
                assert(s[i] == head[i]);
            } else {
                assert(s[i] == tail[i - head.len()]);
            }
        }
        assert(s.last() == tail.last());
    } else {
        assert(tail =~= Seq::empty());
        assert(s =~= head);
        assert(end == totals);
    }
}

/// The segments tile the frame: there is one per layer, one past the last layer
/// and one per barrier honoured. In every pool the first starts at zero, each
/// starts where the one before it ended, none runs backwards, and the last
/// ends at the pool's total. This holds of malformed marks too.
pub proof fn law_segments_tile_the_frame(
    layers: Seq<LayerMark>,
    marks: Seq<LayerMark>,
    totals: LayerMark,
    p: Pool,
)
    ensures
        ({
            let s = segments_of(layers, marks, totals);
            &&& s.len() == layers.len() + 1 + min_int(
                totals.backdrop as int,
                marks.len() as int,
            )
            &&& range_in(s[0], p).start == 0
            &&& range_in(s.last(), p).end == cursor_of(totals, p)
            &&& forall|i: int| #![trigger s[i]]
                0 <= i < s.len() ==> range_in(s[i], p).start <= range_in(s[i], p).end
            &&& forall|i: int, j: int| #![trigger s[i], s[j]]
                0 <= i < s.len() && j == i + 1 && j < s.len() ==> range_in(s[i], p).end == range_in(
                    s[j],
                    p,
                ).start
        }),
{
    lemma_tiles_from(0, origin_mark(), layers, marks, totals, p);
    lemma_count_from(0, origin_mark(), layers, marks, totals);
}

/// A layer has one segment more than barriers fall inside it.
proof fn lemma_layer_count(
    cursor: LayerMark,
    end: LayerMark,
    marks: Seq<LayerMark>,
    b: int,
    b_end: int,
)
    ensures
        layer_segments(cursor, end, marks, b, b_end).len() == 1 + max_int(b_end - b, 0),
    decreases b_end - b,
{
    if b < b_end {
        lemma_layer_count(after_barrier(marks, b, cursor, end), end, marks, b + 1, b_end);
    }
}

/// From a layer on there is one segment per layer, and one per barrier not yet
/// met.
proof fn lemma_count_from(
    l: int,
    cursor: LayerMark,
    layers: Seq<LayerMark>,
    marks: Seq<LayerMark>,
    totals: LayerMark,
)
    requires
        0 <= l <= layers.len(),
        mark_le(cursor, totals),
    ensures
        segments_from(l, cursor, layers, marks, totals).len() == layers.len() - l + 1 + max_int(
            min_int(totals.backdrop as int, marks.len() as int) - cursor.backdrop,
            0,
        ),
    decreases layers.len() - l,
{
    let end = layer_end(layers, l, cursor, totals);
    lemma_layer_count(
        cursor,
        end,
        marks,
        cursor.backdrop as int,
        min_int(end.backdrop as int, marks.len() as int),
    );
    if l < layers.len() {
        lemma_count_from(l + 1, end, layers, marks, totals);
    } else {
        assert(segments_from(l + 1, end, layers, marks, totals) =~= Seq::empty());
    }
}

/// The barriers a run of segments honours, in order.
pub open spec fn barriers_of(s: Seq<SegmentRanges>) -> Seq<int>
    decreases s.len(),
{
    if s.len() == 0 {
        Seq::empty()
    } else if s[0].backdrop_after is Some {
        seq![s[0].backdrop_after->0 as int] + barriers_of(s.skip(1))
    } else {
        barriers_of(s.skip(1))
    }
}

/// The integers from `a` up to, not including, `b`.
pub open spec fn counting(a: int, b: int) -> Seq<int> {
    Seq::new(
        if b > a {
            (b - a) as nat
        } else {
            0
        },
        |i: int| a + i,
    )
}

/// The barriers of two runs are the barriers of one after the other's.
proof fn lemma_barriers_append(a: Seq<SegmentRanges>, b: Seq<SegmentRanges>)
    ensures
        barriers_of(a + b) == barriers_of(a) + barriers_of(b),
    decreases a.len(),
{
    if a.len() == 0 {
        assert(a + b =~= b);
    } else {
        assert((a + b).skip(1) =~= a.skip(1) + b);
        lemma_barriers_append(a.skip(1), b);
        assert(barriers_of(a + b) =~= barriers_of(a) + barriers_of(b));
    }
}

/// A layer honours exactly the barriers from `b` to `b_end`, in order.
proof fn lemma_layer_barriers(
    cursor: LayerMark,
    end: LayerMark,
    marks: Seq<LayerMark>,
    b: int,
    b_end: int,
)
    requires
        0 <= b,
        b_end <= u32::MAX,
    ensures
        barriers_of(layer_segments(cursor, end, marks, b, b_end)) == counting(b, b_end),
    decreases b_end - b,
{
    let s = layer_segments(cursor, end, marks, b, b_end);
    if b < b_end {
        let rest = layer_segments(after_barrier(marks, b, cursor, end), end, marks, b + 1, b_end);
        lemma_layer_barriers(after_barrier(marks, b, cursor, end), end, marks, b + 1, b_end);
        assert(s.skip(1) =~= rest);
        assert(barriers_of(s) =~= counting(b, b_end));
    } else {
        assert(s =~= seq![between(cursor, end, None)]);
        assert(s.skip(1) =~= Seq::empty());
        assert(barriers_of(s.skip(1)) =~= Seq::empty());
        assert(barriers_of(s) =~= counting(b, b_end));
    }
}

/// The remaining layers honour exactly the barriers not yet met, in order.
proof fn lemma_barriers_from(
    l: int,
    cursor: LayerMark,
    layers: Seq<LayerMark>,
    marks: Seq<LayerMark>,
    totals: LayerMark,
)
    requires
        0 <= l <= layers.len(),
        mark_le(cursor, totals),
    ensures
        barriers_of(segments_from(l, cursor, layers, marks, totals)) == counting(
            cursor.backdrop as int,
            min_int(totals.backdrop as int, marks.len() as int),
        ),
    decreases layers.len() - l,
{
    let end = layer_end(layers, l, cursor, totals);
    let b_end = min_int(end.backdrop as int, marks.len() as int);
    let head = layer_segments(cursor, end, marks, cursor.backdrop as int, b_end);
    let tail = segments_from(l + 1, end, layers, marks, totals);
    lemma_layer_barriers(cursor, end, marks, cursor.backdrop as int, b_end);
    lemma_barriers_append(head, tail);
    let whole = counting(
        cursor.backdrop as int,
        min_int(totals.backdrop as int, marks.len() as int),
    );
    if l < layers.len() {
        lemma_barriers_from(l + 1, end, layers, marks, totals);
        assert(barriers_of(head) + barriers_of(tail) =~= whole);
    } else {
        assert(tail =~= Seq::empty());
        assert(head + tail =~= head);
        assert(end.backdrop == totals.backdrop);
        assert(barriers_of(head) =~= whole);
    }
}

/// Every backdrop of the frame that has a barrier mark is honoured exactly
/// once, in emission order, whatever layer it falls in.
pub proof fn law_every_barrier_is_honoured_once_in_order(
    layers: Seq<LayerMark>,
    marks: Seq<LayerMark>,
    totals: LayerMark,
)
    ensures
        barriers_of(segments_of(layers, marks, totals)) == counting(
            0,
            min_int(totals.backdrop as int, marks.len() as int),
        ),
{
    lemma_barriers_from(0, origin_mark(), layers, marks, totals);
}

/// A frame without layers and without barriers is one segment that covers it.
pub proof fn law_plain_frame_is_one_segment(totals: LayerMark)
    ensures
        segments_of(Seq::empty(), Seq::empty(), totals) == seq![
            between(origin_mark(), totals, None),
        ],
{
    let none = Seq::<LayerMark>::empty();
    let end = layer_end(none, 0, origin_mark(), totals);
    assert(end == totals);
    assert(segments_from(1, end, none, none, totals) =~= Seq::empty());
    assert(layer_segments(origin_mark(), end, none, 0, 0) =~= seq![between(origin_mark(), end, None)]);
    assert(segments_of(none, none, totals) =~= seq![between(origin_mark(), totals, None)]);
}

/// A layer's last segment honours no barrier.
proof fn lemma_layer_ends_open(
    cursor: LayerMark,
    end: LayerMark,
    marks: Seq<LayerMark>,
    b: int,
    b_end: int,
)
    ensures
        layer_segments(cursor, end, marks, b, b_end).len() > 0,
        layer_segments(cursor, end, marks, b, b_end).last().backdrop_after is None,
    decreases b_end - b,
{
    if b < b_end {
        lemma_layer_ends_open(after_barrier(marks, b, cursor, end), end, marks, b + 1, b_end);
    }
}

/// The last of the segments from a layer on honours no barrier.
proof fn lemma_frame_ends_open(
    l: int,
    cursor: LayerMark,
    layers: Seq<LayerMark>,
    marks: Seq<LayerMark>,
    totals: LayerMark,
)
    requires
        0 <= l <= layers.len(),
    ensures
        segments_from(l, cursor, layers, marks, totals).len() > 0,
        segments_from(l, cursor, layers, marks, totals).last().backdrop_after is None,
    decreases layers.len() - l,
{
    let end = layer_end(layers, l, cursor, totals);
    lemma_layer_ends_open(
        cursor,
        end,
        marks,
        cursor.backdrop as int,
        min_int(end.backdrop as int, marks.len() as int),
    );
    if l < layers.len() {
        lemma_frame_ends_open(l + 1, end, layers, marks, totals);
    } else {
        assert(segments_from(l + 1, end, layers, marks, totals) =~= Seq::empty());
    }
}

/// A barrier is never met after the last segment: there is always one more
/// segment to composite its pane in.
pub proof fn law_a_segment_follows_every_barrier(
    layers: Seq<LayerMark>,
    marks: Seq<LayerMark>,
    totals: LayerMark,
    i: int,
)
    requires
        0 <= i < segments_of(layers, marks, totals).len(),
        segments_of(layers, marks, totals)[i].backdrop_after is Some,
    ensures
        i + 1 < segments_of(layers, marks, totals).len(),
{
    lemma_frame_ends_open(0, origin_mark(), layers, marks, totals);
}

/// Every segment's range over a pool lies inside the pool.
pub proof fn law_segments_stay_inside_the_pools(
    layers: Seq<LayerMark>,
    marks: Seq<LayerMark>,
    totals: LayerMark,
    p: Pool,
    i: int,
)
    requires
        0 <= i < segments_of(layers, marks, totals).len(),
    ensures
        ({
            let r = range_in(segments_of(layers, marks, totals)[i], p);
            r.start <= r.end <= cursor_of(totals, p)
        }),
    decreases segments_of(layers, marks, totals).len() - i,
{
    law_segments_tile_the_frame(layers, marks, totals, p);
    let s = segments_of(layers, marks, totals);
    assert(range_in(s[i], p).start <= range_in(s[i], p).end);
    if i + 1 < s.len() {
        law_segments_stay_inside_the_pools(layers, marks, totals, p, i + 1);
        assert(range_in(s[i], p).end == range_in(s[i + 1], p).start);
    }
}

/// Whether a segment holds primitive `k` of a pool.
pub open spec fn holds(s: SegmentRanges, p: Pool, k: int) -> bool {
    range_in(s, p).start <= k < range_in(s, p).end
}

/// A later segment starts where an earlier one has ended.
proof fn lemma_later_starts_after(
    layers: Seq<LayerMark>,
    marks: Seq<LayerMark>,
    totals: LayerMark,
    p: Pool,
    i: int,
    j: int,
)
    requires
        0 <= i < j < segments_of(layers, marks, totals).len(),
    ensures
        range_in(segments_of(layers, marks, totals)[i], p).end <= range_in(
            segments_of(layers, marks, totals)[j],
            p,
        ).start,
    decreases j - i,
{
    law_segments_tile_the_frame(layers, marks, totals, p);
    let s = segments_of(layers, marks, totals);
    assert(range_in(s[j - 1], p).end == range_in(s[j], p).start);
    if i < j - 1 {
        lemma_later_starts_after(layers, marks, totals, p, i, j - 1);
        assert(range_in(s[j - 1], p).start <= range_in(s[j - 1], p).end);
    }
}

/// From a segment that does not start past a primitive on, some segment holds
/// it.
proof fn lemma_some_segment_holds(
    layers: Seq<LayerMark>,
    marks: Seq<LayerMark>,
    totals: LayerMark,
    p: Pool,
    k: int,
    i: int,
) -> (at: int)
    requires
        0 <= i < segments_of(layers, marks, totals).len(),
        range_in(segments_of(layers, marks, totals)[i], p).start <= k < cursor_of(totals, p),
    ensures
        i <= at < segments_of(layers, marks, totals).len(),
        holds(segments_of(layers, marks, totals)[at], p, k),
    decreases segments_of(layers, marks, totals).len() - i,
{
    law_segments_tile_the_frame(layers, marks, totals, p);
    let s = segments_of(layers, marks, totals);
    if k < range_in(s[i], p).end {
        i
    } else {
        assert(i + 1 < s.len());
        assert(range_in(s[i], p).end == range_in(s[i + 1], p).start);
        lemma_some_segment_holds(layers, marks, totals, p, k, i + 1)
    }
}

/// Every primitive of a frame lies in exactly one segment, so it is drawn in
/// exactly one pass.
pub proof fn law_every_primitive_lies_in_one_segment(
    layers: Seq<LayerMark>,
    marks: Seq<LayerMark>,
    totals: LayerMark,
    p: Pool,
    k: int,
)
    requires
        0 <= k < cursor_of(totals, p),
    ensures
        exists|i: int|
            0 <= i < segments_of(layers, marks, totals).len() && #[trigger] holds(
                segments_of(layers, marks, totals)[i],
                p,
                k,
            ),
        forall|i: int, j: int|
            0 <= i < segments_of(layers, marks, totals).len() && 0 <= j < segments_of(
                layers,
                marks,
                totals,
            ).len() && #[trigger] holds(segments_of(layers, marks, totals)[i], p, k)
                && #[trigger] holds(segments_of(layers, marks, totals)[j], p, k) ==> i == j,
{
    law_segments_tile_the_frame(layers, marks, totals, p);
    let s = segments_of(layers, marks, totals);
    let at = lemma_some_segment_holds(layers, marks, totals, p, k, 0);
    assert(holds(s[at], p, k));
    assert forall|i: int, j: int|
        0 <= i < s.len() && 0 <= j < s.len() && #[trigger] holds(s[i], p, k) && #[trigger] holds(
            s[j],
            p,
            k,
        ) implies i == j by {
        if i < j {
            lemma_later_starts_after(layers, marks, totals, p, i, j);
        }
        if j < i {
            lemma_later_starts_after(layers, marks, totals, p, j, i);
        }
    }
}

/// Whether every pool cursor of `a` is at or before that of `b`.
pub open spec fn pools_le(a: LayerMark, b: LayerMark) -> bool {
    &&& a.solid <= b.solid
    &&& a.decorated <= b.decorated
    &&& a.texture <= b.texture
    &&& a.vector <= b.vector
    &&& a.text <= b.text
    &&& a.canvas <= b.canvas
    &&& a.ripple <= b.ripple
}

/// Whether a frame's marks are as emission leaves them: layers and barriers in
/// order and inside the frame, every backdrop with a barrier, and a barrier on
/// the side of a layer's end that the layer's own count of backdrops says.
pub open spec fn in_emission_order(
    layers: Seq<LayerMark>,
    marks: Seq<LayerMark>,
    totals: LayerMark,
) -> bool {
    &&& marks.len() == totals.backdrop
    &&& forall|l: int| 0 <= l < layers.len() ==> mark_le(#[trigger] layers[l], totals)
    &&& forall|l: int, m: int|
        0 <= l <= m < layers.len() ==> mark_le(#[trigger] layers[l], #[trigger] layers[m])
    &&& forall|b: int| 0 <= b < marks.len() ==> pools_le(#[trigger] marks[b], totals)
    &&& forall|b: int, c: int|
        0 <= b <= c < marks.len() ==> pools_le(#[trigger] marks[b], #[trigger] marks[c])
    &&& forall|l: int, b: int|
        0 <= l < layers.len() && 0 <= b < marks.len() ==> if b < (#[trigger] layers[l]).backdrop {
            pools_le(#[trigger] marks[b], layers[l])
        } else {
            pools_le(layers[l], marks[b])
        }
}

/// Inside a layer each segment ends at its barrier, and the last at the layer's
/// end.
proof fn lemma_layer_ends_at_marks(
    cursor: LayerMark,
    end: LayerMark,
    marks: Seq<LayerMark>,
    b: int,
    b_end: int,
    p: Pool,
)
    requires
        0 <= b <= b_end <= marks.len(),
        b_end <= u32::MAX,
        forall|c: int|
            b <= c < b_end ==> pools_le(cursor, #[trigger] marks[c]) && pools_le(marks[c], end),
        forall|c: int, d: int|
            b <= c <= d < b_end ==> pools_le(#[trigger] marks[c], #[trigger] marks[d]),
    ensures
        ({
            let s = layer_segments(cursor, end, marks, b, b_end);
            &&& s.len() == 1 + b_end - b
            &&& forall|k: int| #![trigger s[k]]
                0 <= k < b_end - b ==> s[k].backdrop_after == Some((b + k) as usize) && range_in(
                    s[k],
                    p,
                ).end == cursor_of(marks[b + k], p)
            &&& s.last().backdrop_after is None
            &&& range_in(s.last(), p).end == cursor_of(end, p)
        }),
    decreases b_end - b,
{
    let s = layer_segments(cursor, end, marks, b, b_end);
    if b < b_end {
        let next = after_barrier(marks, b, cursor, end);
        let rest = layer_segments(next, end, marks, b + 1, b_end);
        assert(pools_le(cursor, marks[b]) && pools_le(marks[b], end));
        assert forall|c: int| b + 1 <= c < b_end implies pools_le(next, #[trigger] marks[c])
            && pools_le(marks[c], end) by {
            assert(pools_le(marks[b], marks[c]));
        }
        lemma_layer_ends_at_marks(next, end, marks, b + 1, b_end, p);
        assert(s =~= seq![between(cursor, mark_clamp(marks[b], cursor, end), Some(b as usize))]
            + rest);
        assert forall|k: int| #![trigger s[k]] 0 <= k < b_end - b implies s[k].backdrop_after
            == Some((b + k) as usize) && range_in(s[k], p).end == cursor_of(marks[b + k], p) by {
            if k > 0 {
                assert(s[k] == rest[k - 1]);
            }
        }
        assert(s.last() == rest.last());
    } else {
        assert(s =~= seq![between(cursor, end, None)]);
    }
}

/// From a layer on, each segment ends at its barrier or at its layer's end.
proof fn lemma_ends_at_marks(
    l: int,
    cursor: LayerMark,
    layers: Seq<LayerMark>,
    marks: Seq<LayerMark>,
    totals: LayerMark,
    p: Pool,
)
    requires
        0 <= l <= layers.len(),
        in_emission_order(layers, marks, totals),
        cursor == (if l == 0 {
            origin_mark()
        } else {
            layers[l - 1]
        }),
    ensures
        ({
            let s = segments_from(l, cursor, layers, marks, totals);
            &&& forall|i: int| #![trigger s[i]]
                0 <= i < s.len() && s[i].backdrop_after is Some ==> s[i].backdrop_after->0
                    < marks.len() && range_in(s[i], p).end == cursor_of(
                    marks[s[i].backdrop_after->0 as int],
                    p,
                )
            &&& forall|m: int| #![trigger layers[m]]
                l <= m < layers.len() ==> {
                    let i = m - l + layers[m].backdrop - cursor.backdrop;
                    &&& 0 <= i < s.len()
                    &&& s[i].backdrop_after is None
                    &&& range_in(s[i], p).end == cursor_of(layers[m], p)
                }
        }),
    decreases layers.len() - l,
{
    let end = layer_end(layers, l, cursor, totals);
    if l < layers.len() {
        assert(mark_le(layers[l], totals));
        if l > 0 {
            assert(mark_le(layers[l - 1], layers[l]));
        }
        assert(end == layers[l]);
    } else {
        if l > 0 {
            assert(mark_le(layers[l - 1], totals));
        }
        assert(end == totals);
    }
    let b = cursor.backdrop as int;
    let b_end = min_int(end.backdrop as int, marks.len() as int);
    assert(b_end == end.backdrop);
    assert forall|c: int| b <= c < b_end implies pools_le(cursor, #[trigger] marks[c]) && pools_le(
        marks[c],
        end,
    ) by {
        if l > 0 {
            assert(!(c < layers[l - 1].backdrop));
        }
        if l < layers.len() {
            assert(c < layers[l].backdrop);
        }
    }
    lemma_layer_ends_at_marks(cursor, end, marks, b, b_end, p);
    let head = layer_segments(cursor, end, marks, b, b_end);
    let tail = segments_from(l + 1, end, layers, marks, totals);
    let s = segments_from(l, cursor, layers, marks, totals);
    assert(s =~= head + tail);
    if l < layers.len() {
        lemma_ends_at_marks(l + 1, end, layers, marks, totals, p);
    } else {
        assert(tail =~= Seq::empty());
    }
    assert forall|i: int| #![trigger s[i]]
        0 <= i < s.len() && s[i].backdrop_after is Some implies s[i].backdrop_after->0 < marks.len()
        && range_in(s[i], p).end == cursor_of(marks[s[i].backdrop_after->0 as int], p) by {
        if i < head.len() {
            assert(s[i] == head[i]);
            assert(i < b_end - b);
        } else {
            assert(s[i] == tail[i - head.len()]);
        }
    }
    assert forall|m: int| #![trigger layers[m]] l <= m < layers.len() implies {
        let i = m - l + layers[m].backdrop - cursor.backdrop;
        &&& 0 <= i < s.len()
        &&& s[i].backdrop_after is None
        &&& range_in(s[i], p).end == cursor_of(layers[m], p)
    } by {
        let i = m - l + layers[m].backdrop - cursor.backdrop;
        if m == l {
            assert(i == head.len() - 1);
            assert(s[i] == head.last());
        } else {
            assert(mark_le(layers[l], layers[m]));
            assert(s[i] == tail[i - head.len()]);
        }
    }
}

/// In a frame whose marks are in emission order, a segment with a barrier after
/// it ends, in every pool, exactly where that barrier was marked: the pane
/// samples what was emitted before it, and nothing else.
pub proof fn law_segments_end_at_their_barriers(
    layers: Seq<LayerMark>,
    marks: Seq<LayerMark>,
    totals: LayerMark,
    p: Pool,
    i: int,
)
    requires
        in_emission_order(layers, marks, totals),
        0 <= i < segments_of(layers, marks, totals).len(),
        segments_of(layers, marks, totals)[i].backdrop_after is Some,
    ensures
        ({
            let s = segments_of(layers, marks, totals)[i];
            &&& s.backdrop_after->0 < marks.len()
            &&& range_in(s, p).end == cursor_of(marks[s.backdrop_after->0 as int], p)
        }),
{
    lemma_ends_at_marks(0, origin_mark(), layers, marks, totals, p);
}

/// In a frame whose marks are in emission order, each layer ends, in every pool,
/// exactly at its mark: the segment that closes it is the one after its own and
/// all earlier barriers and layers.
pub proof fn law_layers_end_at_their_marks(
    layers: Seq<LayerMark>,
    marks: Seq<LayerMark>,
    totals: LayerMark,
    p: Pool,
    l: int,
)
    requires
        in_emission_order(layers, marks, totals),
        0 <= l < layers.len(),
    ensures
        ({
            let s = segments_of(layers, marks, totals);
            let i = l + layers[l].backdrop;
            &&& i < s.len()
            &&& s[i].backdrop_after is None
            &&& range_in(s[i], p).end == cursor_of(layers[l], p)
        }),
{
    lemma_ends_at_marks(0, origin_mark(), layers, marks, totals, p);
    assert(mark_le(layers[l], totals));
}

} // verus!
