//! The render passes of one frame. Only a backdrop splits the pass: the segments
//! between two backdrops are ordered batches of one pass, and the blur of a
//! backdrop stands between the pass that ends at it and the one that opens with
//! its composite.

use super::backdrop::{
    draw_composite, plan_of, prepare, sample_region_of, BackdropRegions, BlurPlan, BlurScratch,
    ScratchCache,
};
use super::dirty::DirtyScissor;
use super::scissor::{
    bounded, clip_at, clip_runs, clip_scissor_of, draws, law_runs_draw_each_visible_instance_once,
    run_end, runs_from, ClipCtx, ClipRun, Scissor,
};
use super::segments::{
    barriers_of, law_a_segment_follows_every_barrier, law_every_barrier_is_honoured_once_in_order,
    law_segments_tile_the_frame, segments_of, sub_end, sub_slice, sub_start, Pool, SegmentRanges,
};
use crate::frame::{min_int, BackdropInstance, ClipRect, LayerMark};
use std::ops::Range;
use vstd::prelude::*;

verus! {

/// A frame's content-clip table and the clip of each primitive, pool by pool.
/// A pool's slice may be shorter than the pool: the rest is unclipped.
#[derive(Clone, Copy)]
pub struct FrameClips<'a> {
    /// The clip table.
    pub table: &'a [ClipRect],
    /// Parallel to the solid boxes.
    pub solid: &'a [Option<u16>],
    /// Parallel to the decorated boxes.
    pub decorated: &'a [Option<u16>],
    /// Parallel to the images.
    pub texture: &'a [Option<u16>],
    /// Parallel to the text lines.
    pub text: &'a [Option<u16>],
    /// Parallel to the vector glyphs.
    pub vector: &'a [Option<u16>],
    /// Parallel to the canvas shapes.
    pub canvas: &'a [Option<u16>],
    /// Parallel to the ripples.
    pub ripple: &'a [Option<u16>],
    /// Parallel to the backdrops.
    pub backdrop: &'a [Option<u16>],
    /// The wrap width of each text line.
    pub text_wrap: &'a [Option<u32>],
}

impl<'a> Default for FrameClips<'a> {
    /// Nothing clipped and nothing wrapped.
    fn default() -> (c: FrameClips<'a>)
        ensures
            c.table@.len() == 0,
            c.solid@.len() == 0,
            c.decorated@.len() == 0,
            c.texture@.len() == 0,
            c.text@.len() == 0,
            c.vector@.len() == 0,
            c.canvas@.len() == 0,
            c.ripple@.len() == 0,
            c.backdrop@.len() == 0,
            c.text_wrap@.len() == 0,
    {
        FrameClips {
            table: &[],
            solid: &[],
            decorated: &[],
            texture: &[],
            text: &[],
            vector: &[],
            canvas: &[],
            ripple: &[],
            backdrop: &[],
            text_wrap: &[],
        }
    }
}

/// What the passes of a frame are planned from.
#[derive(Clone, Copy)]
pub struct PassInputs<'a> {
    /// Whether everything is redrawn.
    pub full_redraw: bool,
    /// The region an incremental frame repaints.
    pub scissor: Option<DirtyScissor>,
    /// Scale factor.
    pub scale: u32,
    /// Target width and height.
    pub phys: (u32, u32),
    /// Content clips.
    pub clips: FrameClips<'a>,
    /// The frame's segments.
    pub segments: &'a [SegmentRanges],
    /// The frame's backdrops.
    pub backdrops: &'a [BackdropInstance],
    /// The regions reserved for each backdrop.
    pub regions: &'a [BackdropRegions],
    /// Whether the automatic blur tier runs at its higher resolution.
    pub auto_capable: bool,
}

/// The primitives of one pool that one segment draws.
#[derive(Debug, PartialEq, Eq)]
pub struct Batch {
    /// First primitive.
    pub start: usize,
    /// Past the last primitive.
    pub end: usize,
    /// The draws, counted from the first primitive.
    pub runs: Vec<ClipRun>,
}

/// The composite of a blurred backdrop.
#[derive(Debug, PartialEq, Eq)]
pub struct Composite {
    /// Which backdrop.
    pub backdrop: usize,
    /// Its draws: one, or none if it is clipped away.
    pub runs: Vec<ClipRun>,
}

/// What one segment draws, in the order its parts are recorded.
#[derive(Debug)]
pub struct SegmentBatches {
    /// Solid boxes.
    pub solid: Batch,
    /// Decorated boxes.
    pub decorated: Batch,
    /// Ripples.
    pub ripple: Batch,
    /// Canvas shapes.
    pub canvas: Batch,
    /// Images.
    pub texture: Batch,
    /// Vector glyphs.
    pub vector: Batch,
    /// The scissor restored before the text; absent if it is empty.
    pub text_scissor: Option<Scissor>,
    /// The text layer drawn last.
    pub text: Option<usize>,
}

/// One render pass, in the order its parts are recorded, and what follows it.
#[derive(Debug)]
pub struct PassPlan {
    /// Whether the colour target is cleared rather than loaded. It is always
    /// stored.
    pub clear_color: bool,
    /// Whether the depth buffer is cleared rather than loaded.
    pub clear_depth: bool,
    /// Whether the depth buffer is discarded rather than stored.
    pub discard_depth: bool,
    /// Whether the pass is timed.
    pub timed: bool,
    /// The region wiped first, and the scissor it is wiped under.
    pub wipe: Option<DirtyScissor>,
    /// The backdrop composited before anything else is drawn.
    pub composite: Option<Composite>,
    /// What its segments draw, one behind the other.
    pub segments: Vec<SegmentBatches>,
    /// The blur recorded after the pass has ended.
    pub blur: Option<BlurPlan>,
}

/// The scissor every draw of a frame stays inside.
pub open spec fn base_scissor(scissor: Option<DirtyScissor>, phys: (u32, u32)) -> Scissor {
    match scissor {
        Some(s) => (s.1, s.2, s.3, s.4),
        None => (0u32, 0u32, phys.0, phys.1),
    }
}

/// What the frame's clipped draws are resolved against.
pub open spec fn context(f: PassInputs<'_>) -> ClipCtx<'_> {
    ClipCtx {
        clips: f.clips.table,
        base: base_scissor(f.scissor, f.phys),
        scale: f.scale,
        phys_w: f.phys.0,
        phys_h: f.phys.1,
    }
}

/// Whether a range runs forward and can be drawn in one batch.
pub open spec fn forward(r: Range<usize>) -> bool {
    r.start <= r.end <= u32::MAX
}

/// Whether every range of a segment runs forward.
pub open spec fn segment_forward(s: SegmentRanges) -> bool {
    &&& forward(s.solid)
    &&& forward(s.decorated)
    &&& forward(s.texture)
    &&& forward(s.vector)
    &&& forward(s.text)
    &&& forward(s.canvas)
    &&& forward(s.ripple)
}

/// Whether a frame's passes can be planned: exactly one region per backdrop,
/// segments that run forward, and a scissor inside 32 bits.
pub open spec fn plannable(f: PassInputs<'_>) -> bool {
    &&& f.regions@.len() == f.backdrops@.len()
    &&& bounded(base_scissor(f.scissor, f.phys))
    &&& forall|i: int| 0 <= i < f.segments@.len() ==> segment_forward(#[trigger] f.segments@[i])
}

/// The clips of the primitives in a range.
pub open spec fn clips_in(clips: Seq<Option<u16>>, r: Range<usize>) -> Seq<Option<u16>> {
    clips.subrange(
        sub_start(r.start as int, clips.len() as int),
        sub_end(r.start as int, r.end as int, clips.len() as int),
    )
}

/// Whether a batch draws exactly the primitives of a range under their clips.
pub open spec fn is_batch(
    b: Batch,
    r: Range<usize>,
    clips: Seq<Option<u16>>,
    ctx: ClipCtx<'_>,
) -> bool {
    &&& b.start == r.start
    &&& b.end == r.end
    &&& b.runs@ == runs_from(ctx, clips_in(clips, r), 0, r.end - r.start)
}

/// The backdrop segment `i` ends at, if there is one of that index.
pub open spec fn barrier_at(f: PassInputs<'_>, i: int) -> Option<usize> {
    match f.segments@[i].backdrop_after {
        Some(b) => if b < f.backdrops@.len() {
            Some(b)
        } else {
            None
        },
        None => None,
    }
}

/// The blur after segment `i`, given whether its textures are to be created.
pub open spec fn blur_given(f: PassInputs<'_>, i: int, create: bool) -> Option<BlurPlan> {
    match barrier_at(f, i) {
        Some(b) => plan_of(
            f.backdrops@[b as int],
            f.regions@[b as int],
            f.scale,
            f.phys,
            f.auto_capable,
            create,
        ),
        None => None,
    }
}

/// The scratch textures once the first `n` segments were recorded.
pub open spec fn scratch_after(
    f: PassInputs<'_>,
    scratch: Map<usize, BlurScratch>,
    n: int,
) -> Map<usize, BlurScratch>
    decreases n,
{
    if n <= 0 {
        scratch
    } else {
        let held = scratch_after(f, scratch, n - 1);
        match (barrier_at(f, n - 1), blur_given(f, n - 1, true)) {
            (Some(b), Some(p)) => held.insert(b, p.sizes),
            _ => held,
        }
    }
}

/// The blur after segment `i`: its textures are created unless the slot holds
/// them at those sizes.
pub open spec fn blur_after(
    f: PassInputs<'_>,
    scratch: Map<usize, BlurScratch>,
    i: int,
) -> Option<BlurPlan> {
    match (barrier_at(f, i), blur_given(f, i, true)) {
        (Some(b), Some(p)) => {
            let held = scratch_after(f, scratch, i);
            blur_given(f, i, !(held.contains_key(b) && held[b] == p.sizes))
        },
        _ => None,
    }
}

/// The backdrop composited in segment `i`: the one the segment before ended
/// at, unless it is off the target.
pub open spec fn composited_in(f: PassInputs<'_>, i: int) -> Option<usize> {
    if i <= 0 {
        None
    } else {
        match barrier_at(f, i - 1) {
            Some(b) => if sample_region_of(f.backdrops@[b as int], f.scale, f.phys) is Some {
                Some(b)
            } else {
                None
            },
            None => None,
        }
    }
}

/// Whether a composite is that of a backdrop under its clip.
pub open spec fn is_composite(c: Option<Composite>, f: PassInputs<'_>, i: int) -> bool {
    match composited_in(f, i) {
        None => c is None,
        Some(b) => c matches Some(drawn) && drawn.backdrop == b && drawn.runs@ == runs_from(
            context(f),
            seq![clip_at(f.clips.backdrop@, b as int)],
            0,
            1,
        ),
    }
}

/// Whether `b` holds what segment `i` draws.
pub open spec fn is_segment(b: SegmentBatches, f: PassInputs<'_>, i: int) -> bool {
    let s = f.segments@[i];
    let base = base_scissor(f.scissor, f.phys);
    &&& is_batch(b.solid, s.solid, f.clips.solid@, context(f))
    &&& is_batch(b.decorated, s.decorated, f.clips.decorated@, context(f))
    &&& is_batch(b.ripple, s.ripple, f.clips.ripple@, context(f))
    &&& is_batch(b.canvas, s.canvas, f.clips.canvas@, context(f))
    &&& is_batch(b.texture, s.texture, f.clips.texture@, context(f))
    &&& is_batch(b.vector, s.vector, f.clips.vector@, context(f))
    &&& b.text_scissor == (if base.2 > 0 && base.3 > 0 {
        Some(base)
    } else {
        None
    })
    &&& b.text == (if s.text.start < s.text.end {
        Some(i as usize)
    } else {
        None
    })
}

/// Whether a pass ends with segment `i`: at a backdrop, or at the end of the
/// frame.
pub open spec fn closes(segments: Seq<SegmentRanges>, i: int) -> bool {
    segments[i].backdrop_after is Some || i + 1 == segments.len()
}

/// Past which segment each pass that ends among the first `n` segments ends.
pub open spec fn ends_among(segments: Seq<SegmentRanges>, n: int) -> Seq<int>
    decreases n,
{
    if n <= 0 {
        Seq::empty()
    } else if closes(segments, n - 1) {
        ends_among(segments, n - 1).push(n)
    } else {
        ends_among(segments, n - 1)
    }
}

/// Past which segment each pass of a frame ends.
pub open spec fn pass_ends(segments: Seq<SegmentRanges>) -> Seq<int> {
    ends_among(segments, segments.len() as int)
}

/// The first segment of pass `k`: where the pass before it ended.
pub open spec fn first_of(ends: Seq<int>, k: int) -> int {
    if k <= 0 {
        0
    } else {
        ends[k - 1]
    }
}

/// How many of the first `n` segments end at a backdrop.
pub open spec fn barriers_among(segments: Seq<SegmentRanges>, n: int) -> int
    decreases n,
{
    if n <= 0 {
        0
    } else {
        barriers_among(segments, n - 1) + if segments[n - 1].backdrop_after is Some {
            1int
        } else {
            0int
        }
    }
}

/// How many passes a frame takes: one more than the backdrops that have
/// something drawn over them.
pub open spec fn pass_count(segments: Seq<SegmentRanges>) -> int {
    if segments.len() == 0 {
        0
    } else {
        1 + barriers_among(segments, segments.len() - 1)
    }
}

/// Whether `p` is the pass of the segments from `from` to before `to`.
pub open spec fn is_pass(
    p: PassPlan,
    f: PassInputs<'_>,
    scratch: Map<usize, BlurScratch>,
    from: int,
    to: int,
) -> bool {
    &&& p.clear_color == (from == 0 && f.full_redraw)
    &&& p.clear_depth == (from == 0)
    &&& p.discard_depth == (to == f.segments@.len())
    &&& p.timed == (from == 0)
    &&& p.wipe == (if from == 0 {
        f.scissor
    } else {
        None
    })
    &&& is_composite(p.composite, f, from)
    &&& p.segments@.len() == to - from
    &&& forall|j: int| #![trigger p.segments@[j]]
        0 <= j < to - from ==> is_segment(p.segments@[j], f, from + j)
    &&& p.blur == blur_after(f, scratch, to - 1)
}

/// Whether these are the passes of a frame, in order.
pub open spec fn are_passes(
    passes: Seq<PassPlan>,
    f: PassInputs<'_>,
    scratch: Map<usize, BlurScratch>,
) -> bool {
    let ends = pass_ends(f.segments@);
    &&& passes.len() == ends.len()
    &&& forall|k: int|
        0 <= k < passes.len() ==> is_pass(
            #[trigger] passes[k],
            f,
            scratch,
            first_of(ends, k),
            ends[k],
        )
}

/// The ends of passes run forward, each past the one before it; the last is
/// where the frame ends. There is one before the last segment for every
/// backdrop.
proof fn lemma_ends(segments: Seq<SegmentRanges>, n: int)
    requires
        0 <= n <= segments.len(),
    ensures
        forall|k: int| #![trigger ends_among(segments, n)[k]]
            0 <= k < ends_among(segments, n).len() ==> first_of(ends_among(segments, n), k)
                < ends_among(segments, n)[k] <= n,
        forall|k: int| #![trigger ends_among(segments, n)[k]]
            0 <= k < ends_among(segments, n).len() ==> closes(
                segments,
                ends_among(segments, n)[k] - 1,
            ),
        n < segments.len() ==> ends_among(segments, n).len() == barriers_among(segments, n),
        n == segments.len() ==> ends_among(segments, n).len() == pass_count(segments),
        n == segments.len() && n > 0 ==> ends_among(segments, n).last() == n,
    decreases n,
{
    if n > 0 {
        lemma_ends(segments, n - 1);
        let e = ends_among(segments, n);
        let before = ends_among(segments, n - 1);
        assert forall|k: int| #![trigger e[k]] 0 <= k < e.len() implies first_of(e, k) < e[k] <= n
            && closes(segments, e[k] - 1) by {
            if k < before.len() {
                assert(e[k] == before[k]);
                if k > 0 {
                    assert(e[k - 1] == before[k - 1]);
                }
            } else {
                assert(e[k] == n);
                if k > 0 {
                    assert(e[k - 1] == before[k - 1]);
                }
            }
        }
    }
}

/// A pass of a frame is the last exactly if it ends where the frame does, and
/// the first exactly if it starts where the frame does.
proof fn lemma_outer_passes(segments: Seq<SegmentRanges>, k: int)
    requires
        0 <= k < pass_ends(segments).len(),
    ensures
        0 <= first_of(pass_ends(segments), k) < pass_ends(segments)[k] <= segments.len(),
        (first_of(pass_ends(segments), k) == 0) == (k == 0),
        (pass_ends(segments)[k] == segments.len()) == (k + 1 == pass_ends(segments).len()),
{
    let ends = pass_ends(segments);
    lemma_ends(segments, segments.len() as int);
    lemma_increasing(segments, 0, k);
    assert(first_of(ends, k) < ends[k]);
    if k > 0 {
        lemma_increasing(segments, 0, k - 1);
        assert(first_of(ends, 0) < ends[0]);
    }
    lemma_increasing(segments, k, ends.len() - 1);
}

/// Later passes end later.
proof fn lemma_increasing(segments: Seq<SegmentRanges>, i: int, j: int)
    requires
        0 <= i <= j < pass_ends(segments).len(),
    ensures
        pass_ends(segments)[i] <= pass_ends(segments)[j],
        i < j ==> pass_ends(segments)[i] < pass_ends(segments)[j],
    decreases j - i,
{
    if i < j {
        lemma_ends(segments, segments.len() as int);
        lemma_increasing(segments, i, j - 1);
        assert(first_of(pass_ends(segments), j) < pass_ends(segments)[j]);
    }
}

/// The draws of one pool's range.
fn batch(range: &Range<usize>, clips: &[Option<u16>], ctx: ClipCtx<'_>) -> (b: Batch)
    requires
        forward(*range),
        bounded(ctx.base),
    ensures
        is_batch(b, *range, clips@, ctx),
{
    let part: &[Option<u16>] = sub_slice(clips, range);
    let count: usize = range.end - range.start;
    Batch { start: range.start, end: range.end, runs: clip_runs(count, part, ctx) }
}

/// The composite opened by a segment that follows a blurred backdrop.
fn composite_of(pending: Option<usize>, clips: FrameClips<'_>, ctx: ClipCtx<'_>) -> (c: Option<
    Composite,
>)
    requires
        bounded(ctx.base),
    ensures
        match pending {
            None => c is None,
            Some(b) => c matches Some(drawn) && drawn.backdrop == b && drawn.runs@ == runs_from(
                ctx,
                seq![clip_at(clips.backdrop@, b as int)],
                0,
                1,
            ),
        },
{
    match pending {
        None => None,
        Some(b) => {
            let clip: Option<u16> = if b < clips.backdrop.len() {
                clips.backdrop[b]
            } else {
                None
            };
            Some(Composite { backdrop: b, runs: draw_composite(clip, ctx) })
        },
    }
}

/// The blur recorded after segment `i`.
fn blur_of(f: &PassInputs<'_>, scratch: &mut ScratchCache, i: usize, start: Ghost<Map<usize, BlurScratch>>) -> (blur:
    Option<BlurPlan>)
    requires
        plannable(*f),
        i < f.segments@.len(),
        old(scratch)@ == scratch_after(*f, start@, i as int),
    ensures
        blur == blur_after(*f, start@, i as int),
        final(scratch)@ == scratch_after(*f, start@, i as int + 1),
        blur is Some == (composited_in(*f, i as int + 1) is Some),
        composited_in(*f, i as int + 1) is Some ==> composited_in(*f, i as int + 1)
            == f.segments@[i as int].backdrop_after,
{
    match f.segments[i].backdrop_after {
        Some(b) => {
            if b < f.backdrops.len() {
                prepare(
                    scratch,
                    b,
                    &f.backdrops[b],
                    f.regions[b],
                    f.scale,
                    f.phys,
                    f.auto_capable,
                )
            } else {
                None
            }
        },
        None => None,
    }
}

/// What one segment draws.
fn segment_of(f: &PassInputs<'_>, ctx: ClipCtx<'_>, i: usize) -> (b: SegmentBatches)
    requires
        plannable(*f),
        ctx == context(*f),
        i < f.segments@.len(),
    ensures
        is_segment(b, *f, i as int),
{
    let s: &SegmentRanges = &f.segments[i];
    assert(segment_forward(f.segments@[i as int]));
    SegmentBatches {
        solid: batch(&s.solid, f.clips.solid, ctx),
        decorated: batch(&s.decorated, f.clips.decorated, ctx),
        ripple: batch(&s.ripple, f.clips.ripple, ctx),
        canvas: batch(&s.canvas, f.clips.canvas, ctx),
        texture: batch(&s.texture, f.clips.texture, ctx),
        vector: batch(&s.vector, f.clips.vector, ctx),
        text_scissor: if ctx.base.2 > 0 && ctx.base.3 > 0 {
            Some(ctx.base)
        } else {
            None
        },
        text: if s.text.start < s.text.end {
            Some(i)
        } else {
            None
        },
    }
}

/// Plans the passes of a frame, in order. A pass runs up to a backdrop, with its
/// segments as ordered batches inside; the backdrop is blurred behind it, and
/// the next pass opens with its composite.
#[verifier::rlimit(50)]
pub fn draw_ui_pass(f: &PassInputs<'_>, scratch: &mut ScratchCache) -> (passes: Vec<PassPlan>)
    requires
        plannable(*f),
    ensures
        passes@.len() == pass_count(f.segments@),
        are_passes(passes@, *f, old(scratch)@),
        final(scratch)@ == scratch_after(*f, old(scratch)@, f.segments@.len() as int),
{
    let ghost start = scratch@;
    let base: Scissor = match f.scissor {
        Some(s) => (s.1, s.2, s.3, s.4),
        None => (0, 0, f.phys.0, f.phys.1),
    };
    let ctx: ClipCtx<'_> = ClipCtx {
        clips: f.clips.table,
        base,
        scale: f.scale,
        phys_w: f.phys.0,
        phys_h: f.phys.1,
    };
    assert(ctx == context(*f));
    let mut passes: Vec<PassPlan> = Vec::new();
    let mut batches: Vec<SegmentBatches> = Vec::new();
    let mut pending: Option<usize> = None;
    let mut from: usize = 0;
    let mut i: usize = 0;
    while i < f.segments.len()
        invariant
            from <= i <= f.segments@.len(),
            plannable(*f),
            ctx == context(*f),
            passes@.len() == ends_among(f.segments@, i as int).len(),
            forall|k: int|
                0 <= k < passes@.len() ==> is_pass(
                    #[trigger] passes@[k],
                    *f,
                    start,
                    first_of(ends_among(f.segments@, i as int), k),
                    ends_among(f.segments@, i as int)[k],
                ),
            from == first_of(ends_among(f.segments@, i as int), passes@.len() as int),
            batches@.len() == i - from,
            forall|j: int| #![trigger batches@[j]]
                0 <= j < i - from ==> is_segment(batches@[j], *f, from + j),
            scratch@ == scratch_after(*f, start, i as int),
            pending == composited_in(*f, from as int),
            i == f.segments@.len() ==> from == i,
        decreases f.segments@.len() - i,
    {
        let ghost before = ends_among(f.segments@, i as int);
        let ghost after = ends_among(f.segments@, i as int + 1);
        batches.push(segment_of(f, ctx, i));
        let blur: Option<BlurPlan> = blur_of(f, scratch, i, Ghost(start));
        let barrier: Option<usize> = f.segments[i].backdrop_after;
        let last: bool = i == f.segments.len() - 1;
        if barrier.is_some() || last {
            let ghost held = passes@;
            let pass: PassPlan = PassPlan {
                clear_color: from == 0 && f.full_redraw,
                clear_depth: from == 0,
                discard_depth: last,
                timed: from == 0,
                wipe: if from == 0 {
                    f.scissor
                } else {
                    None
                },
                composite: composite_of(pending, f.clips, ctx),
                segments: batches,
                blur,
            };
            pending = if pass.blur.is_some() {
                barrier
            } else {
                None
            };
            assert(is_pass(pass, *f, start, from as int, i as int + 1));
            passes.push(pass);
            proof {
                assert(after == before.push(i as int + 1));
                assert forall|k: int| 0 <= k < passes@.len() implies is_pass(
                    #[trigger] passes@[k],
                    *f,
                    start,
                    first_of(after, k),
                    after[k],
                ) by {
                    if k < held.len() {
                        assert(is_pass(held[k], *f, start, first_of(before, k), before[k]));
                        assert(after[k] == before[k]);
                        assert(first_of(after, k) == first_of(before, k));
                    } else {
                        assert(first_of(after, k) == first_of(before, k));
                    }
                }
            }
            batches = Vec::new();
            from = i + 1;
        } else {
            assert(after == before);
        }
        i = i + 1;
    }
    proof {
        lemma_ends(f.segments@, f.segments@.len() as int);
    }
    passes
}

/// Layers never split the pass, only backdrops do: a frame takes one pass more
/// than it has backdrops with a mark, however many layers it has.
pub proof fn law_only_backdrops_split_the_pass(
    layers: Seq<LayerMark>,
    marks: Seq<LayerMark>,
    totals: LayerMark,
)
    ensures
        pass_count(segments_of(layers, marks, totals)) == 1 + min_int(
            totals.backdrop as int,
            marks.len() as int,
        ),
        pass_ends(segments_of(layers, marks, totals)).len() == pass_count(
            segments_of(layers, marks, totals),
        ),
{
    let s = segments_of(layers, marks, totals);
    law_segments_tile_the_frame(layers, marks, totals, Pool::Solid);
    law_every_barrier_is_honoured_once_in_order(layers, marks, totals);
    if s.last().backdrop_after is Some {
        law_a_segment_follows_every_barrier(layers, marks, totals, s.len() - 1);
    }
    lemma_barriers_counted(s);
    lemma_ends(s, s.len() as int);
}

/// Counting the backdrops of a run of segments counts the ones it honours.
proof fn lemma_barriers_counted(s: Seq<SegmentRanges>)
    ensures
        barriers_among(s, s.len() as int) == barriers_of(s).len(),
    decreases s.len(),
{
    if s.len() > 0 {
        lemma_barriers_counted(s.skip(1));
        lemma_barriers_shift(s, s.len() as int);
    }
}

/// Backdrops counted from the second segment on.
proof fn lemma_barriers_shift(s: Seq<SegmentRanges>, n: int)
    requires
        1 <= n <= s.len(),
    ensures
        barriers_among(s, n) == barriers_among(s.skip(1), n - 1) + if s[0].backdrop_after is Some {
            1int
        } else {
            0int
        },
    decreases n,
{
    if n > 1 {
        lemma_barriers_shift(s, n - 1);
        assert(s.skip(1)[n - 2] == s[n - 1]);
    } else {
        assert(barriers_among(s, 0) == 0);
    }
}

/// Every segment of a frame is drawn in exactly one pass, behind the segments
/// before it: pass `k` draws those from where the pass before it ended up to its
/// own end, and the last ends where the frame does.
pub proof fn law_passes_draw_the_segments_in_order(
    passes: Seq<PassPlan>,
    f: PassInputs<'_>,
    scratch: Map<usize, BlurScratch>,
    k: int,
)
    requires
        are_passes(passes, f, scratch),
        0 <= k < passes.len(),
    ensures
        passes[k].segments@.len() > 0,
        k > 0 ==> first_of(pass_ends(f.segments@), k) == pass_ends(f.segments@)[k - 1],
        forall|j: int| #![trigger passes[k].segments@[j]]
            0 <= j < passes[k].segments@.len() ==> is_segment(
                passes[k].segments@[j],
                f,
                first_of(pass_ends(f.segments@), k) + j,
            ),
        first_of(pass_ends(f.segments@), 0) == 0,
        pass_ends(f.segments@).last() == f.segments@.len(),
{
    lemma_outer_passes(f.segments@, k);
    lemma_outer_passes(f.segments@, passes.len() - 1);
    assert(is_pass(
        passes[k],
        f,
        scratch,
        first_of(pass_ends(f.segments@), k),
        pass_ends(f.segments@)[k],
    ));
}

/// Occlusion spans the frame: between two passes the depth buffer is stored and
/// loaded, and so is the colour target. It is cleared before the first pass
/// alone.
pub proof fn law_occlusion_spans_the_frame(
    passes: Seq<PassPlan>,
    f: PassInputs<'_>,
    scratch: Map<usize, BlurScratch>,
    k: int,
)
    requires
        are_passes(passes, f, scratch),
        0 <= k < passes.len(),
    ensures
        passes[k].clear_depth == (k == 0),
        passes[k].timed == (k == 0),
        k > 0 ==> !passes[k - 1].discard_depth && !passes[k].clear_depth && !passes[k].clear_color,
        passes[passes.len() - 1].discard_depth,
{
    let ends = pass_ends(f.segments@);
    let n = passes.len() - 1;
    lemma_outer_passes(f.segments@, k);
    lemma_outer_passes(f.segments@, n);
    assert(is_pass(passes[k], f, scratch, first_of(ends, k), ends[k]));
    if k > 0 {
        lemma_outer_passes(f.segments@, k - 1);
        assert(is_pass(passes[k - 1], f, scratch, first_of(ends, k - 1), ends[k - 1]));
    }
    assert(is_pass(passes[n], f, scratch, first_of(ends, n), ends[n]));
}

/// An incremental frame clears nothing but wipes the region it repaints, once,
/// before anything is drawn into it; a full one clears the whole target.
pub proof fn law_stale_ink_is_wiped_once(
    passes: Seq<PassPlan>,
    f: PassInputs<'_>,
    scratch: Map<usize, BlurScratch>,
    k: int,
)
    requires
        are_passes(passes, f, scratch),
        0 <= k < passes.len(),
    ensures
        passes[0].wipe == f.scissor,
        passes[0].clear_color == f.full_redraw,
        k > 0 ==> passes[k].wipe is None && !passes[k].clear_color,
{
    let ends = pass_ends(f.segments@);
    lemma_outer_passes(f.segments@, k);
    assert(is_pass(passes[0], f, scratch, first_of(ends, 0), ends[0]));
    assert(is_pass(passes[k], f, scratch, first_of(ends, k), ends[k]));
}

/// A pane is composited exactly in the pass that follows its blur.
pub proof fn law_panes_are_composited_after_their_blur(
    passes: Seq<PassPlan>,
    f: PassInputs<'_>,
    scratch: Map<usize, BlurScratch>,
    k: int,
)
    requires
        are_passes(passes, f, scratch),
        0 < k < passes.len(),
    ensures
        passes[k].composite is Some == (passes[k - 1].blur is Some),
        passes[0].composite is None,
{
    let ends = pass_ends(f.segments@);
    lemma_outer_passes(f.segments@, k - 1);
    assert(is_pass(passes[k], f, scratch, first_of(ends, k), ends[k]));
    assert(is_pass(passes[k - 1], f, scratch, first_of(ends, k - 1), ends[k - 1]));
    assert(is_pass(passes[0], f, scratch, first_of(ends, 0), ends[0]));
}

/// How many segments the passes before pass `k` draw.
pub open spec fn drawn_before(passes: Seq<PassPlan>, k: int) -> int
    decreases k,
{
    if k <= 0 {
        0
    } else {
        drawn_before(passes, k - 1) + passes[k - 1].segments@.len()
    }
}

/// The clip of primitive `k` of a pool; a primitive past the list has none.
pub open spec fn own_clip(clips: Seq<Option<u16>>, k: int) -> Option<u16> {
    if k < clips.len() {
        clips[k]
    } else {
        None
    }
}

/// Whether a batch draws the primitives of a range of a pool as they are meant to
/// be: each under the scissor of its own clip, in order, exactly once, and not at
/// all where its clip leaves nothing.
#[verifier::opaque]
pub open spec fn draws_range(
    b: Batch,
    r: Range<usize>,
    clips: Seq<Option<u16>>,
    ctx: ClipCtx<'_>,
) -> bool {
    &&& b.start == r.start
    &&& b.end == r.end
    &&& forall|q: int, j: int| #![trigger draws(b.runs@[q], j)]
        0 <= q < b.runs@.len() && draws(b.runs@[q], j) ==> {
            &&& 0 <= j < r.end - r.start
            &&& clip_scissor_of(ctx, own_clip(clips, r.start + j)) == Some(b.runs@[q].scissor)
        }
    &&& forall|j: int| #![trigger own_clip(clips, r.start + j)]
        0 <= j < r.end - r.start && clip_scissor_of(ctx, own_clip(clips, r.start + j)) is Some
            ==> exists|q: int| 0 <= q < b.runs@.len() && #[trigger] draws(b.runs@[q], j)
    &&& forall|q: int, m: int| #![trigger b.runs@[q], b.runs@[m]]
        0 <= q < m < b.runs@.len() ==> b.runs@[q].end <= b.runs@[m].start
    &&& forall|q: int| #![trigger b.runs@[q]]
        0 <= q < b.runs@.len() ==> b.runs@[q].start < b.runs@[q].end
}

/// The clips cut out for a range are the pool's own.
proof fn lemma_own_clips(clips: Seq<Option<u16>>, r: Range<usize>, j: int)
    requires
        forward(r),
        0 <= j < r.end - r.start,
    ensures
        clip_at(clips_in(clips, r), j) == own_clip(clips, r.start + j),
{
}

/// A batch draws its range.
proof fn lemma_batch_draws(b: Batch, r: Range<usize>, clips: Seq<Option<u16>>, ctx: ClipCtx<'_>)
    requires
        forward(r),
        is_batch(b, r, clips, ctx),
    ensures
        draws_range(b, r, clips, ctx),
{
    reveal(draws_range);
    let part = clips_in(clips, r);
    let count = r.end - r.start;
    law_runs_draw_each_visible_instance_once(ctx, part, count);
    assert forall|q: int, j: int| #![trigger draws(b.runs@[q], j)]
        0 <= q < b.runs@.len() && draws(b.runs@[q], j) implies {
        &&& 0 <= j < r.end - r.start
        &&& clip_scissor_of(ctx, own_clip(clips, r.start + j)) == Some(b.runs@[q].scissor)
    } by {
        lemma_own_clips(clips, r, j);
    }
    assert forall|j: int| #![trigger own_clip(clips, r.start + j)]
        0 <= j < r.end - r.start && clip_scissor_of(
            ctx,
            own_clip(clips, r.start + j),
        ) is Some implies exists|q: int| 0 <= q < b.runs@.len() && #[trigger] draws(b.runs@[q], j) by {
        lemma_own_clips(clips, r, j);
        assert(clip_scissor_of(ctx, clip_at(part, j)) is Some);
    }
}

/// A segment that closes a pass is where a pass ends.
proof fn lemma_closed_is_an_end(segments: Seq<SegmentRanges>, n: int, i: int)
    requires
        0 <= i < n <= segments.len(),
        closes(segments, i),
    ensures
        exists|k: int|
            0 <= k < ends_among(segments, n).len() && #[trigger] ends_among(segments, n)[k] == i
                + 1,
    decreases n,
{
    let all = ends_among(segments, n);
    if i == n - 1 {
        assert(all[all.len() - 1] == i + 1);
    } else {
        let rest = ends_among(segments, n - 1);
        lemma_closed_is_an_end(segments, n - 1, i);
        let k = choose|k: int| 0 <= k < rest.len() && #[trigger] rest[k] == i + 1;
        assert(all[k] == i + 1);
    }
}

/// Pass `k` starts where the passes before it have ended.
proof fn lemma_drawn_before(
    passes: Seq<PassPlan>,
    f: PassInputs<'_>,
    scratch: Map<usize, BlurScratch>,
    k: int,
)
    requires
        are_passes(passes, f, scratch),
        0 <= k <= passes.len(),
    ensures
        drawn_before(passes, k) == first_of(pass_ends(f.segments@), k),
    decreases k,
{
    if k > 0 {
        lemma_drawn_before(passes, f, scratch, k - 1);
        let ends = pass_ends(f.segments@);
        assert(is_pass(passes[k - 1], f, scratch, first_of(ends, k - 1), ends[k - 1]));
    }
}

/// A pass goes on until a segment that ends at a backdrop, or the last.
proof fn lemma_pass_boundary(
    passes: Seq<PassPlan>,
    f: PassInputs<'_>,
    scratch: Map<usize, BlurScratch>,
    k: int,
    j: int,
)
    requires
        are_passes(passes, f, scratch),
        0 <= k < passes.len(),
        0 <= j < passes[k].segments@.len(),
    ensures
        ({
            let n = drawn_before(passes, k) + j;
            &&& 0 <= n < f.segments@.len()
            &&& is_segment(passes[k].segments@[j], f, n)
            &&& (j + 1 == passes[k].segments@.len()) == (f.segments@[n].backdrop_after is Some || n
                + 1 == f.segments@.len())
            &&& (j + 1 == passes[k].segments@.len() && k + 1 == passes.len()) == (n + 1
                == f.segments@.len())
        }),
{
    let ends = pass_ends(f.segments@);
    let from = first_of(ends, k);
    let n = from + j;
    lemma_drawn_before(passes, f, scratch, k);
    lemma_outer_passes(f.segments@, k);
    lemma_ends(f.segments@, f.segments@.len() as int);
    assert(is_pass(passes[k], f, scratch, from, ends[k]));
    assert(closes(f.segments@, ends[k] - 1));
    assert(is_segment(passes[k].segments@[j], f, n));
    if closes(f.segments@, n) {
        lemma_closed_is_an_end(f.segments@, f.segments@.len() as int, n);
        let m = choose|m: int| 0 <= m < ends.len() && #[trigger] ends[m] == n + 1;
        if m < k {
            lemma_increasing(f.segments@, m, k - 1);
        }
        if m > k {
            lemma_increasing(f.segments@, k, m);
        }
    }
}

/// The passes of a frame draw its segments one behind the other: the `j`-th of pass
/// `k` is the frame's segment behind all that were drawn before. Of every pool it
/// draws that segment's primitives, each under the scissor of its own clip, and
/// then the segment's own text. A pass goes on exactly until a segment that ends at
/// a backdrop, or the last.
#[verifier::rlimit(50)]
pub proof fn law_segments_draw_their_own_primitives(
    passes: Seq<PassPlan>,
    f: PassInputs<'_>,
    scratch: Map<usize, BlurScratch>,
    ctx: ClipCtx<'_>,
    k: int,
    j: int,
)
    requires
        plannable(f),
        are_passes(passes, f, scratch),
        ctx == (ClipCtx {
            clips: f.clips.table,
            base: match f.scissor {
                Some(s) => (s.1, s.2, s.3, s.4),
                None => (0u32, 0u32, f.phys.0, f.phys.1),
            },
            scale: f.scale,
            phys_w: f.phys.0,
            phys_h: f.phys.1,
        }),
        0 <= k < passes.len(),
        0 <= j < passes[k].segments@.len(),
    ensures
        ({
            let n = drawn_before(passes, k) + j;
            let b = passes[k].segments@[j];
            let s = f.segments@[n];
            &&& n < f.segments@.len()
            &&& draws_range(b.solid, s.solid, f.clips.solid@, ctx)
            &&& draws_range(b.decorated, s.decorated, f.clips.decorated@, ctx)
            &&& draws_range(b.ripple, s.ripple, f.clips.ripple@, ctx)
            &&& draws_range(b.canvas, s.canvas, f.clips.canvas@, ctx)
            &&& draws_range(b.texture, s.texture, f.clips.texture@, ctx)
            &&& draws_range(b.vector, s.vector, f.clips.vector@, ctx)
            &&& b.text == (if s.text.start < s.text.end {
                Some(n as usize)
            } else {
                None
            })
            &&& b.text_scissor == (if ctx.base.2 > 0 && ctx.base.3 > 0 {
                Some(ctx.base)
            } else {
                None
            })
            &&& (j + 1 == passes[k].segments@.len()) == (s.backdrop_after is Some || n + 1
                == f.segments@.len())
            &&& (j + 1 == passes[k].segments@.len() && k + 1 == passes.len()) == (n + 1
                == f.segments@.len())
        }),
{
    let n = drawn_before(passes, k) + j;
    lemma_pass_boundary(passes, f, scratch, k, j);
    let b = passes[k].segments@[j];
    let s = f.segments@[n];
    assert(segment_forward(s));
    assert(ctx == context(f));
    lemma_batch_draws(b.solid, s.solid, f.clips.solid@, ctx);
    lemma_batch_draws(b.decorated, s.decorated, f.clips.decorated@, ctx);
    lemma_batch_draws(b.ripple, s.ripple, f.clips.ripple@, ctx);
    lemma_batch_draws(b.canvas, s.canvas, f.clips.canvas@, ctx);
    lemma_batch_draws(b.texture, s.texture, f.clips.texture@, ctx);
    lemma_batch_draws(b.vector, s.vector, f.clips.vector@, ctx);
}

/// Between two passes stands the backdrop that the first of them ended at: it is
/// blurred as its own properties and regions say, exactly where it has something to
/// sample, and the second opens with its composite, drawn once under its own clip
/// or not at all where that leaves nothing.
pub proof fn law_each_pass_ends_at_its_own_backdrop(
    passes: Seq<PassPlan>,
    f: PassInputs<'_>,
    scratch: Map<usize, BlurScratch>,
    k: int,
)
    requires
        are_passes(passes, f, scratch),
        0 <= k < passes.len() - 1,
    ensures
        ({
            let last = drawn_before(passes, k + 1) - 1;
            &&& 0 <= last < f.segments@.len() - 1
            &&& f.segments@[last].backdrop_after matches Some(b) && {
                let sampled = b < f.backdrops@.len() && sample_region_of(
                    f.backdrops@[b as int],
                    f.scale,
                    f.phys,
                ) is Some;
                &&& (passes[k].blur is Some) == sampled
                &&& passes[k].blur matches Some(p) ==> plan_of(
                    f.backdrops@[b as int],
                    f.regions@[b as int],
                    f.scale,
                    f.phys,
                    f.auto_capable,
                    p.create,
                ) == Some(p)
                &&& (passes[k + 1].composite is Some) == sampled
                &&& passes[k + 1].composite matches Some(c) ==> {
                    &&& c.backdrop == b
                    &&& match clip_scissor_of(context(f), own_clip(f.clips.backdrop@, b as int)) {
                        Some(s) => c.runs@ == seq![ClipRun { scissor: s, start: 0, end: 1 }],
                        None => c.runs@.len() == 0,
                    }
                }
            }
        }),
        passes[0].composite is None,
{
    let ends = pass_ends(f.segments@);
    lemma_drawn_before(passes, f, scratch, k + 1);
    lemma_outer_passes(f.segments@, k);
    lemma_outer_passes(f.segments@, k + 1);
    lemma_ends(f.segments@, f.segments@.len() as int);
    assert(closes(f.segments@, ends[k] - 1));
    assert(is_pass(passes[0], f, scratch, first_of(ends, 0), ends[0]));
    assert(is_pass(passes[k], f, scratch, first_of(ends, k), ends[k]));
    assert(is_pass(passes[k + 1], f, scratch, first_of(ends, k + 1), ends[k + 1]));
    let last = ends[k] - 1;
    let b = f.segments@[last].backdrop_after->0;
    let clip = clip_at(f.clips.backdrop@, b as int);
    assert(seq![clip][0] == clip);
    assert(clip_at(seq![clip], 0) == clip);
    reveal_with_fuel(runs_from, 2);
    reveal_with_fuel(run_end, 2);
    match clip_scissor_of(context(f), clip) {
        Some(s) => {
            assert(runs_from(context(f), seq![clip], 0, 1) =~= seq![
                ClipRun { scissor: s, start: 0, end: 1 },
            ]);
        },
        None => {},
    }
}

/// Whether a backdrop is blurred after one of the first `n` segments.
pub open spec fn blurred_among(f: PassInputs<'_>, n: int, b: usize) -> bool {
    exists|i: int|
        0 <= i < n && (#[trigger] f.segments@[i]).backdrop_after == Some(b) && b
            < f.backdrops@.len() && sample_region_of(
            f.backdrops@[b as int],
            f.scale,
            f.phys,
        ) is Some
}

/// The scratch textures once the first `n` segments were recorded: every backdrop that
/// was blurred has those of its own sizes, under its own index, and all others are as
/// they were.
pub proof fn law_scratch_is_kept_by_backdrop(
    f: PassInputs<'_>,
    scratch: Map<usize, BlurScratch>,
    n: int,
    b: usize,
)
    requires
        0 <= n <= f.segments@.len(),
    ensures
        blurred_among(f, n, b) ==> scratch_after(f, scratch, n).contains_key(b) && scratch_after(
            f,
            scratch,
            n,
        )[b] == plan_of(
            f.backdrops@[b as int],
            f.regions@[b as int],
            f.scale,
            f.phys,
            f.auto_capable,
            true,
        )->0.sizes,
        !blurred_among(f, n, b) ==> scratch_after(f, scratch, n).contains_key(b)
            == scratch.contains_key(b) && (scratch.contains_key(b) ==> scratch_after(f, scratch, n)[b]
            == scratch[b]),
    decreases n,
{
    if n > 0 {
        law_scratch_is_kept_by_backdrop(f, scratch, n - 1, b);
        let s = f.segments@[n - 1];
        if blurred_among(f, n - 1, b) {
            let i = choose|i: int|
                0 <= i < n - 1 && (#[trigger] f.segments@[i]).backdrop_after == Some(b) && b
                    < f.backdrops@.len() && sample_region_of(
                    f.backdrops@[b as int],
                    f.scale,
                    f.phys,
                ) is Some;
            assert(f.segments@[i].backdrop_after == Some(b));
        }
        if s.backdrop_after == Some(b) {
            assert(f.segments@[n - 1].backdrop_after == Some(b));
        }
    }
}

/// The textures of a blur are created exactly where its backdrop does not hold them at
/// those sizes already: not from the frames before, nor from this one.
pub proof fn law_blur_textures_are_created_where_they_are_missing(
    f: PassInputs<'_>,
    scratch: Map<usize, BlurScratch>,
    i: int,
)
    requires
        0 <= i < f.segments@.len(),
    ensures
        blur_after(f, scratch, i) matches Some(p) ==> {
            &&& f.segments@[i].backdrop_after matches Some(b) && p.create == !(blurred_among(f, i, b)
                || scratch.contains_key(b) && scratch[b] == p.sizes)
        },
{
    if let Some(b) = f.segments@[i].backdrop_after {
        law_scratch_is_kept_by_backdrop(f, scratch, i, b);
    }
}

} // verus!
