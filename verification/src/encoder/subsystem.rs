//! The encoder's state from one frame to the next, and what each frame does.
//!
//! A frame is drawn into a target that keeps its contents, so that only the
//! region that changed is repainted; the finished target is copied onto the
//! screen every frame. Whether a frame is redrawn in full, in part or not at
//! all is decided here, and what the next decision rests on is recorded here.
//!
//! A frame goes through three steps. [`EncoderSubsystem::encode_frame_with_decorations`]
//! decides and plans the text. Once the text is prepared,
//! [`EncoderSubsystem::draw_frame`] plans the passes. Once they are recorded,
//! [`EncoderSubsystem::conclude_frame`] ends the frame. A frame whose text
//! cannot be prepared stops after the first step, one whose text cannot be
//! drawn after the second; the frame after it then repaints what it missed.

use super::backdrop::{BackdropRegions, BlurScratch, ScratchCache};
use super::dirty::{
    backdrop_paint, backdrop_paint_bounds, box_paint, box_paint_bounds, canvas_dirty, canvas_paint,
    canvas_paint_bounds, compute_scissor, decorated_bounds, decorated_dirty, decorated_paint,
    decorated_paint_all, dirty_union, frame_scissor, inflated,
    law_primitives_paint_their_rectangles, lemma_dirty_union_within, lemma_region_within,
    lemma_union_all_within, needs_full_redraw_this_frame, paired, rect_at, ripple_paint,
    ripple_paint_bounds, text_bounds, text_dirty, text_paint, text_paint_bounds, texture_dirty,
    texture_paint, texture_paint_bounds, union_all, within, DirtyScissor, ScissorInputs,
    ScissorView, AA_MARGIN,
};
use super::gpu_timer::{
    collected, names, reclaimed, slot_gives, GpuSample, GpuTimer, MapTicket, ResolvePlan, Slot,
    SlotState, TimerView, SLOTS,
};
use super::passes::{
    are_passes, base_scissor, draw_ui_pass, pass_count, plannable, scratch_after, segment_forward,
    FrameClips, PassInputs, PassPlan,
};
use super::scissor::{bounded, holds_pixel, scale_factor, scissor_of};
use super::segments::{
    compute_segments, holds, law_every_primitive_lies_in_one_segment,
    law_segments_stay_inside_the_pools, segments_of, text_ranges, Pool, SegmentRanges,
};
use super::text_glyph::{text_prepared, TextGlyphPipeline, TextPlan, TextView};
use super::texture_sampler::{
    first_requests, newly_failed, recorded, request_textures, source_set, DecodedImage,
    TextureCache, TextureState,
};
use super::vector_msdf::{
    taken_ids, taken_writes, AtlasWrite, VectorAtlas, ATLAS_LAYERS, ATLAS_SIZE,
};
use crate::frame::{
    covers, numbers, occupies, AtlasUpload, BackdropInstance, BoxInstance, CanvasShape,
    DecoratedBox, LayerMark, Rect, RippleInstance, TextLine, TextureSampler, VectorInstance,
};
use std::ops::Range;
use crate::wide::value;
use vstd::prelude::*;

verus! {

broadcast use vstd::std_specs::hash::group_hash_axioms;

/// The name of the one pass that is timed.
pub const GPU_UI_PASS_SCOPE: &'static str = "gpu.ui_pass";

/// Draw-order depths, pool by pool. A pool's slice may be shorter than the
/// pool: the rest lies on the far plane.
#[derive(Clone, Copy)]
pub struct DrawDepths<'a> {
    /// Parallel to the solid boxes.
    pub solid: &'a [u32],
    /// Parallel to the decorated boxes.
    pub decorated: &'a [u32],
    /// Parallel to the images.
    pub texture: &'a [u32],
    /// Parallel to the text lines.
    pub text: &'a [u32],
    /// Parallel to the canvas shapes.
    pub canvas: &'a [u32],
}

/// Dirty bits that do not fit on the primitive itself. A slice of another
/// length than the pool means that nothing is known, and everything is taken
/// to be dirty: drawing too much is the safe direction.
#[derive(Clone, Copy)]
pub struct FrameDirty<'a> {
    /// Parallel to the solid boxes.
    pub instances: &'a [bool],
}

impl<'a> Default for DrawDepths<'a> {
    /// Everything on the far plane.
    fn default() -> (d: DrawDepths<'a>)
        ensures
            d.solid@.len() == 0,
            d.decorated@.len() == 0,
            d.texture@.len() == 0,
            d.text@.len() == 0,
            d.canvas@.len() == 0,
    {
        DrawDepths { solid: &[], decorated: &[], texture: &[], text: &[], canvas: &[] }
    }
}

impl<'a> Default for FrameDirty<'a> {
    /// Nothing known.
    fn default() -> (d: FrameDirty<'a>)
        ensures
            d.instances@.len() == 0,
    {
        FrameDirty { instances: &[] }
    }
}

/// Everything one frame draws.
#[derive(Clone, Copy)]
pub struct FrameInputs<'a> {
    /// Solid boxes.
    pub instances: &'a [BoxInstance],
    /// Text lines.
    pub texts: &'a [TextLine],
    /// Decorated boxes.
    pub decorated: &'a [DecoratedBox],
    /// Images.
    pub textures: &'a [TextureSampler],
    /// Vector glyphs.
    pub vectors: &'a [VectorInstance],
    /// Canvas shapes.
    pub canvas_shapes: &'a [CanvasShape],
    /// Ripples.
    pub ripples: &'a [RippleInstance],
    /// Distance fields on their way to the atlas.
    pub atlas_uploads: &'a [AtlasUpload],
    /// Backdrops.
    pub backdrops: &'a [BackdropInstance],
    /// Where each backdrop stands in the draw stream.
    pub backdrop_marks: &'a [LayerMark],
    /// Depths.
    pub depths: DrawDepths<'a>,
    /// Content clips.
    pub clips: FrameClips<'a>,
    /// Dirty bits.
    pub dirty: FrameDirty<'a>,
    /// Where each layer ends.
    pub layers: &'a [LayerMark],
    /// Where the developer tools' text lines start.
    pub dev_text_start: usize,
}

impl<'a> FrameInputs<'a> {
    /// A frame of solid boxes and text lines alone: one layer, everything on
    /// the far plane, unclipped, and nothing known of what is dirty.
    pub fn plain(instances: &'a [BoxInstance], texts: &'a [TextLine]) -> (f: FrameInputs<'a>)
        ensures
            is_plain(f, instances@, texts@),
    {
        FrameInputs {
            instances,
            texts,
            decorated: &[],
            textures: &[],
            vectors: &[],
            canvas_shapes: &[],
            ripples: &[],
            atlas_uploads: &[],
            backdrops: &[],
            backdrop_marks: &[],
            depths: DrawDepths::default(),
            clips: FrameClips::default(),
            dirty: FrameDirty::default(),
            layers: &[],
            dev_text_start: texts.len(),
        }
    }
}

/// What the encoder holds.
pub struct EncoderView {
    /// Scale factor.
    pub scale_factor: u32,
    /// Whether the viewport changed since text was last prepared.
    pub viewport_dirty: bool,
    /// Size of the target, in physical pixels.
    pub phys: (u32, u32),
    /// Whether the next frame is redrawn in full.
    pub needs_full_redraw: bool,
    /// Solid boxes of the previous frame.
    pub last_instance_count: int,
    /// Text lines of the previous frame.
    pub last_text_count: int,
    /// What the previous frame's text lines painted.
    pub last_text_bounds: Seq<Rect>,
    /// What its solid boxes painted.
    pub last_box_bounds: Seq<Rect>,
    /// What its decorated boxes painted.
    pub last_decorated_bounds: Seq<Rect>,
    /// What its canvas shapes painted.
    pub last_canvas_bounds: Seq<Rect>,
    /// What its ripples painted.
    pub last_ripple_bounds: Seq<Rect>,
    /// What its backdrops painted.
    pub last_backdrop_bounds: Seq<Rect>,
    /// What its images painted.
    pub last_texture_bounds: Seq<Rect>,
    /// The relayed frame drawn last.
    pub last_relay_version: u64,
    /// Whether the automatic blur tier runs at its higher resolution.
    pub blur_auto_capable: bool,
    /// Whether a timed pass waits to be mapped.
    pub gpu_timing_pending: bool,
    /// The timer, where the device has one.
    pub timer: Option<TimerView>,
    /// The backdrops' scratch textures.
    pub scratch: Map<usize, BlurScratch>,
    /// The text pipeline.
    pub text: TextView,
    /// The images.
    pub textures: TextureCache,
    /// Edge length of the atlas.
    pub atlas_size: u32,
    /// Layers of the atlas.
    pub atlas_layers: u32,
}

/// The encoder.
pub struct EncoderSubsystem {
    scale_factor: u32,
    viewport_dirty: bool,
    phys_w: u32,
    phys_h: u32,
    needs_full_redraw: bool,
    last_instance_count: usize,
    last_text_count: usize,
    last_text_bounds: Vec<Rect>,
    last_box_bounds: Vec<Rect>,
    last_decorated_bounds: Vec<Rect>,
    last_canvas_bounds: Vec<Rect>,
    last_ripple_bounds: Vec<Rect>,
    last_backdrop_bounds: Vec<Rect>,
    last_texture_bounds: Vec<Rect>,
    last_relay_version: u64,
    blur_auto_capable: bool,
    gpu_timing_pending: bool,
    gpu_timer: Option<GpuTimer>,
    blur_scratch: ScratchCache,
    text_pipeline: TextGlyphPipeline,
    texture_cache: TextureCache,
    vector_atlas: VectorAtlas,
}

/// The view of an optional timer.
pub open spec fn timer_view(t: Option<GpuTimer>) -> Option<TimerView> {
    match t {
        Some(timer) => Some(timer@),
        None => None,
    }
}

impl View for EncoderSubsystem {
    type V = EncoderView;

    closed spec fn view(&self) -> EncoderView {
        EncoderView {
            scale_factor: self.scale_factor,
            viewport_dirty: self.viewport_dirty,
            phys: (self.phys_w, self.phys_h),
            needs_full_redraw: self.needs_full_redraw,
            last_instance_count: self.last_instance_count as int,
            last_text_count: self.last_text_count as int,
            last_text_bounds: self.last_text_bounds@,
            last_box_bounds: self.last_box_bounds@,
            last_decorated_bounds: self.last_decorated_bounds@,
            last_canvas_bounds: self.last_canvas_bounds@,
            last_ripple_bounds: self.last_ripple_bounds@,
            last_backdrop_bounds: self.last_backdrop_bounds@,
            last_texture_bounds: self.last_texture_bounds@,
            last_relay_version: self.last_relay_version,
            blur_auto_capable: self.blur_auto_capable,
            gpu_timing_pending: self.gpu_timing_pending,
            timer: timer_view(self.gpu_timer),
            scratch: self.blur_scratch@,
            text: self.text_pipeline@,
            textures: self.texture_cache,
            atlas_size: self.vector_atlas.size_spec(),
            atlas_layers: self.vector_atlas.layers_spec(),
        }
    }
}

/// What holds of every encoder: its image cache and timer are well formed, the
/// timer times one pass, the atlas has the size it was made with, and only a
/// pass that was timed waits to be mapped.
pub open spec fn encoder_ok(v: EncoderView) -> bool {
    &&& v.textures.wf()
    &&& v.atlas_size == ATLAS_SIZE
    &&& v.timer matches Some(t) ==> super::gpu_timer::timer_ok(t) && t.scopes == seq![
        GPU_UI_PASS_SCOPE@,
    ]
    &&& v.gpu_timing_pending ==> (v.timer matches Some(t) && t.frame_index > 0)
}

/// The dirty bits of a frame's solid boxes.
pub open spec fn box_dirty_bits(frame: FrameInputs<'_>) -> Seq<bool> {
    if frame.dirty.instances@.len() == frame.instances@.len() {
        frame.dirty.instances@
    } else {
        Seq::new(frame.instances@.len(), |i: int| true)
    }
}

/// What a frame's dirty region is computed from.
pub open spec fn scissor_view(v: EncoderView, frame: FrameInputs<'_>) -> ScissorView {
    ScissorView {
        texts: frame.texts@,
        text_wrap: frame.clips.text_wrap@,
        prev_texts: v.last_text_bounds,
        instances: frame.instances@,
        instances_dirty: box_dirty_bits(frame),
        prev_boxes: v.last_box_bounds,
        decorated: frame.decorated@,
        prev_decorated: v.last_decorated_bounds,
        textures: frame.textures@,
        prev_textures: v.last_texture_bounds,
        canvas_shapes: frame.canvas_shapes@,
        prev_canvas: v.last_canvas_bounds,
        ripples: frame.ripples@,
        prev_ripples: v.last_ripple_bounds,
        backdrops: frame.backdrops@,
        prev_backdrops: v.last_backdrop_bounds,
    }
}

/// Whether a frame is redrawn in full.
pub open spec fn full_redraw_of(v: EncoderView, frame: FrameInputs<'_>) -> bool {
    v.needs_full_redraw || v.last_instance_count != frame.instances@.len() || v.last_text_count
        != frame.texts@.len()
}

/// The region a frame repaints, where it is not redrawn in full.
pub open spec fn scissor_for(v: EncoderView, frame: FrameInputs<'_>) -> Option<DirtyScissor> {
    if full_redraw_of(v, frame) {
        None
    } else {
        frame_scissor(scissor_view(v, frame), v.scale_factor, v.phys.0, v.phys.1)
    }
}

/// Whether a frame draws anything: in full, in part, or because a distance
/// field arrived, which changes what a glyph shows without moving it.
pub open spec fn draws_anything(v: EncoderView, frame: FrameInputs<'_>) -> bool {
    full_redraw_of(v, frame) || scissor_for(v, frame) is Some || frame.atlas_uploads@.len() > 0
}

/// A pool's length as a cursor.
pub open spec fn cursor_at(len: nat) -> u32 {
    if len <= u32::MAX {
        len as u32
    } else {
        u32::MAX
    }
}

/// Where the frame ends.
pub open spec fn totals_of(frame: FrameInputs<'_>) -> LayerMark {
    LayerMark {
        solid: cursor_at(frame.instances@.len()),
        decorated: cursor_at(frame.decorated@.len()),
        texture: cursor_at(frame.textures@.len()),
        vector: cursor_at(frame.vectors@.len()),
        text: cursor_at(frame.texts@.len()),
        canvas: cursor_at(frame.canvas_shapes@.len()),
        ripple: cursor_at(frame.ripples@.len()),
        backdrop: cursor_at(frame.backdrops@.len()),
    }
}

/// The segments of a frame.
pub open spec fn frame_segments(frame: FrameInputs<'_>) -> Seq<SegmentRanges> {
    segments_of(frame.layers@, frame.backdrop_marks@, totals_of(frame))
}

/// The text ranges of a frame's segments.
pub open spec fn frame_text_ranges(frame: FrameInputs<'_>) -> Seq<Range<usize>> {
    frame_segments(frame).map_values(|s: SegmentRanges| s.text)
}

/// What is decided for a frame before its text is prepared.
#[derive(Debug)]
pub struct FramePlan {
    /// The uploads to acknowledge.
    pub applied: Vec<u64>,
    /// The writes into the atlas.
    pub writes: Vec<AtlasWrite>,
    /// The images to decode.
    pub decode: Vec<usize>,
    /// Whether everything is redrawn.
    pub full_redraw: bool,
    /// The region repainted, where not everything is.
    pub scissor: Option<DirtyScissor>,
    /// Whether anything is drawn.
    pub should_draw: bool,
    /// The frame's segments.
    pub segments: Vec<SegmentRanges>,
    /// What is done for the text, if anything is drawn.
    pub text: Option<TextPlan>,
}

/// Whether the first step of a frame took the encoder from `before` to `after`
/// under `plan`.
pub open spec fn planned(
    before: EncoderView,
    after: EncoderView,
    frame: FrameInputs<'_>,
    has_io: bool,
    plan: FramePlan,
) -> bool {
    &&& plan.applied@ == taken_ids(before.atlas_size, before.atlas_layers, frame.atlas_uploads@)
    &&& plan.writes@ == taken_writes(
        before.atlas_size,
        before.atlas_layers,
        frame.atlas_uploads@,
    )
    &&& plan.decode@ == (if has_io {
        first_requests(before.textures, frame.textures@)
    } else {
        Seq::new(frame.textures@.len(), |i: int| i as usize)
    })
    &&& forall|s: Seq<char>| #[trigger]
        after.textures.state(s) == (if has_io && before.textures.state(s) is None && source_set(
            frame.textures@,
        ).contains(s) {
            Some(TextureState::Pending)
        } else {
            before.textures.state(s)
        })
    &&& plan.full_redraw == full_redraw_of(before, frame)
    &&& plan.scissor == scissor_for(before, frame)
    &&& plan.should_draw == draws_anything(before, frame)
    &&& plan.segments@ == frame_segments(frame)
    &&& forall|i: int|
        0 <= i < plan.segments@.len() ==> segment_forward(#[trigger] plan.segments@[i])
    &&& bounded(base_scissor(plan.scissor, before.phys))
    &&& match plan.text {
        Some(text) => plan.should_draw && text_prepared(
            before.text,
            after.text,
            frame.texts@,
            frame.clips.text_wrap@,
            before.viewport_dirty,
            frame_text_ranges(frame),
            frame.dev_text_start,
            text,
        ),
        None => !plan.should_draw && after.text == before.text,
    }
    &&& after == (EncoderView { textures: after.textures, text: after.text, ..before })
}

/// Whether a frame holds these solid boxes and text lines and nothing else.
pub open spec fn is_plain(
    f: FrameInputs<'_>,
    instances: Seq<BoxInstance>,
    texts: Seq<TextLine>,
) -> bool {
    &&& f.instances@ == instances
    &&& f.texts@ == texts
    &&& f.decorated@.len() == 0
    &&& f.textures@.len() == 0
    &&& f.vectors@.len() == 0
    &&& f.canvas_shapes@.len() == 0
    &&& f.ripples@.len() == 0
    &&& f.atlas_uploads@.len() == 0
    &&& f.backdrops@.len() == 0
    &&& f.backdrop_marks@.len() == 0
    &&& f.depths.solid@.len() == 0
    &&& f.depths.decorated@.len() == 0
    &&& f.depths.texture@.len() == 0
    &&& f.depths.text@.len() == 0
    &&& f.depths.canvas@.len() == 0
    &&& f.clips.table@.len() == 0
    &&& f.clips.solid@.len() == 0
    &&& f.clips.decorated@.len() == 0
    &&& f.clips.texture@.len() == 0
    &&& f.clips.text@.len() == 0
    &&& f.clips.vector@.len() == 0
    &&& f.clips.canvas@.len() == 0
    &&& f.clips.ripple@.len() == 0
    &&& f.clips.backdrop@.len() == 0
    &&& f.clips.text_wrap@.len() == 0
    &&& f.dirty.instances@.len() == 0
    &&& f.layers@.len() == 0
    &&& f.dev_text_start == texts.len()
}

/// How a frame ends.
#[derive(Debug, Clone, Copy, PartialEq, Eq)]
pub struct FrameEnd {
    /// The copy of the timestamps, if a pass was timed.
    pub resolve: Option<ResolvePlan>,
    /// The extent copied onto the screen, always the whole target.
    pub copy: (u32, u32),
}

/// What a change of viewport asks for.
#[derive(Debug, Clone, Copy, PartialEq, Eq)]
pub struct ViewportUpdate {
    /// The lanes of the viewport uniform.
    pub uniform: [u32; 4],
    /// The text pipeline's resolution.
    pub resolution: (u32, u32),
    /// The size of the targets to create in place of the present ones.
    pub targets: Option<(u32, u32)>,
}

/// The extent of a target: at least one pixel on each axis.
pub open spec fn target_extent(width: u32, height: u32) -> (u32, u32) {
    (
        if width == 0 {
            1
        } else {
            width
        },
        if height == 0 {
            1
        } else {
            height
        },
    )
}

/// The extent targets are created with.
fn extent_of(width: u32, height: u32) -> (e: (u32, u32))
    ensures
        e == target_extent(width, height),
{
    (
        if width == 0 {
            1
        } else {
            width
        },
        if height == 0 {
            1
        } else {
            height
        },
    )
}

/// A pool's length as a cursor.
fn cursor(len: usize) -> (c: u32)
    ensures
        c == cursor_at(len as nat),
{
    if len <= 0xffff_ffff {
        len as u32
    } else {
        0xffff_ffff
    }
}

/// What the passes of a frame are planned from.
pub open spec fn pass_inputs<'a>(
    v: EncoderView,
    frame: FrameInputs<'a>,
    full_redraw: bool,
    scissor: Option<DirtyScissor>,
    segments: &'a [SegmentRanges],
    regions: &'a [BackdropRegions],
) -> PassInputs<'a> {
    PassInputs {
        full_redraw,
        scissor,
        scale: v.scale_factor,
        phys: v.phys,
        clips: frame.clips,
        segments,
        backdrops: frame.backdrops,
        regions,
        auto_capable: v.blur_auto_capable,
    }
}

/// The encoder once a frame has ended: nothing is left to be redrawn in full,
/// and the next frame is compared with this one.
pub open spec fn after_frame(v: EncoderView, frame: FrameInputs<'_>) -> EncoderView {
    EncoderView {
        needs_full_redraw: false,
        last_instance_count: frame.instances@.len() as int,
        last_text_count: frame.texts@.len() as int,
        last_text_bounds: text_paint(frame.texts@, frame.clips.text_wrap@),
        last_box_bounds: box_paint(frame.instances@),
        last_decorated_bounds: decorated_paint(frame.decorated@),
        last_canvas_bounds: canvas_paint(frame.canvas_shapes@),
        last_ripple_bounds: ripple_paint(frame.ripples@),
        last_backdrop_bounds: backdrop_paint(frame.backdrops@),
        last_texture_bounds: texture_paint(frame.textures@),
        ..v
    }
}

/// The encoder once it took note of a viewport.
pub open spec fn after_viewport(v: EncoderView, phys: (u32, u32), scale: u32) -> EncoderView {
    EncoderView {
        scale_factor: scale,
        viewport_dirty: true,
        phys,
        needs_full_redraw: v.needs_full_redraw || v.phys != phys,
        ..v
    }
}

/// A timer once a frame's timestamps are copied.
pub open spec fn resolved(t: TimerView) -> TimerView {
    let slot = t.frame_index % SLOTS as int;
    TimerView {
        slots: t.slots.update(slot, reclaimed(t.slots[slot])),
        frame_index: t.frame_index + 1,
        ..t
    }
}

/// The mapping of the buffer the last frame was copied into.
pub open spec fn last_ticket(t: TimerView) -> MapTicket {
    let slot = (t.frame_index - 1) % SLOTS as int;
    MapTicket { slot: slot as usize, generation: t.slots[slot].generation }
}

/// A timer once that mapping is requested.
pub open spec fn awaiting(t: TimerView) -> TimerView {
    let slot = (t.frame_index - 1) % SLOTS as int;
    TimerView {
        slots: t.slots.update(
            slot,
            Slot { state: SlotState::Pending, generation: t.slots[slot].generation },
        ),
        ..t
    }
}

/// A timer of the one named pass that has timed nothing.
pub open spec fn fresh_timer() -> TimerView {
    TimerView {
        scopes: seq![GPU_UI_PASS_SCOPE@],
        slots: Seq::new(SLOTS as nat, |i: int| Slot { state: SlotState::Idle, generation: 0 }),
        frame_index: 0,
    }
}

/// Whether an encoder has drawn nothing, loaded nothing and been told nothing:
/// its first frame is redrawn in full.
pub open spec fn is_fresh(
    v: EncoderView,
    scale_factor: u32,
    phys: (u32, u32),
    has_timestamp_query: bool,
) -> bool {
    &&& forall|s: Seq<char>| (#[trigger] v.textures.state(s)) is None
    &&& v == (EncoderView {
        scale_factor,
        viewport_dirty: false,
        phys,
        needs_full_redraw: true,
        last_instance_count: 0,
        last_text_count: 0,
        last_text_bounds: Seq::empty(),
        last_box_bounds: Seq::empty(),
        last_decorated_bounds: Seq::empty(),
        last_canvas_bounds: Seq::empty(),
        last_ripple_bounds: Seq::empty(),
        last_backdrop_bounds: Seq::empty(),
        last_texture_bounds: Seq::empty(),
        last_relay_version: 0,
        blur_auto_capable: false,
        gpu_timing_pending: false,
        timer: if has_timestamp_query {
            Some(fresh_timer())
        } else {
            None
        },
        scratch: Map::empty(),
        text: TextView {
            cache: Seq::empty(),
            last_len: 0,
            renderers: 1,
            reshaped: 0,
            loaded: Set::empty(),
        },
        textures: v.textures,
        atlas_size: ATLAS_SIZE,
        atlas_layers: ATLAS_LAYERS,
    })
}

/// The timer of an encoder: one named pass, absent without timestamp queries.
fn new_timer(has_timestamp_query: bool) -> (t: Option<GpuTimer>)
    ensures
        timer_view(t) == (if has_timestamp_query {
            Some(fresh_timer())
        } else {
            None
        }),
        t matches Some(timer) ==> timer.wf(),
{
    let mut scopes: Vec<String> = Vec::new();
    scopes.push(GPU_UI_PASS_SCOPE.to_owned());
    assert(names(scopes@) =~= seq![GPU_UI_PASS_SCOPE@]);
    GpuTimer::new(has_timestamp_query, scopes)
}

impl EncoderSubsystem {
    /// What holds of every encoder.
    pub open spec fn wf(&self) -> bool {
        encoder_ok(self@)
    }

    /// An encoder that has drawn nothing: its first frame is redrawn in full.
    /// The second value is the extent of the targets to create.
    pub fn init(scale_factor: u32, width: u32, height: u32, has_timestamp_query: bool) -> (r: (
        EncoderSubsystem,
        (u32, u32),
    ))
        ensures
            r.0.wf(),
            r.1 == target_extent(width, height),
            is_fresh(r.0@, scale_factor, (width, height), has_timestamp_query),
    {
        let encoder: EncoderSubsystem = EncoderSubsystem {
            scale_factor,
            viewport_dirty: false,
            phys_w: width,
            phys_h: height,
            needs_full_redraw: true,
            last_instance_count: 0,
            last_text_count: 0,
            last_text_bounds: Vec::new(),
            last_box_bounds: Vec::new(),
            last_decorated_bounds: Vec::new(),
            last_canvas_bounds: Vec::new(),
            last_ripple_bounds: Vec::new(),
            last_backdrop_bounds: Vec::new(),
            last_texture_bounds: Vec::new(),
            last_relay_version: 0,
            blur_auto_capable: false,
            gpu_timing_pending: false,
            gpu_timer: new_timer(has_timestamp_query),
            blur_scratch: ScratchCache::new(),
            text_pipeline: TextGlyphPipeline::new(),
            texture_cache: TextureCache::new(),
            vector_atlas: VectorAtlas::new(ATLAS_SIZE, ATLAS_LAYERS),
        };
        (encoder, extent_of(width, height))
    }

    /// Sets which resolution the automatic blur tier runs at.
    pub fn set_blur_auto_capable(&mut self, capable: bool)
        requires
            old(self).wf(),
        ensures
            final(self).wf(),
            final(self)@ == (EncoderView { blur_auto_capable: capable, ..old(self)@ }),
    {
        self.blur_auto_capable = capable;
    }

    /// Whether passes are timed.
    pub fn gpu_timing_available(&self) -> (yes: bool)
        ensures
            yes == (self@.timer is Some),
    {
        self.gpu_timer.is_some()
    }

    /// How many queries the timer's set holds; none without one.
    pub fn query_count(&self) -> (n: u32)
        requires
            self.wf(),
        ensures
            n == (if self@.timer is Some {
                2int
            } else {
                0
            }),
    {
        match &self.gpu_timer {
            Some(timer) => timer.query_count(),
            None => 0,
        }
    }

    /// The query indices the timed pass writes at its beginning and at its end,
    /// where passes are timed.
    pub fn timed_pass_writes(&self) -> (w: Option<(u32, u32)>)
        requires
            self.wf(),
        ensures
            w == (if self@.timer is Some {
                Some((0u32, 1u32))
            } else {
                None
            }),
    {
        match &self.gpu_timer {
            Some(timer) => {
                let name: String = GPU_UI_PASS_SCOPE.to_owned();
                let w: Option<(u32, u32)> = timer.timestamp_writes(&name);
                assert(timer@.scopes[0] == name@);
                w
            },
            None => None,
        }
    }

    /// Takes note of a new viewport. The targets are created anew only where
    /// their size changed; what they then hold is undefined, so the next frame
    /// is redrawn in full.
    pub fn update_viewport(
        &mut self,
        width: u32,
        height: u32,
        phys_w: u32,
        phys_h: u32,
        scale: u32,
    ) -> (u: ViewportUpdate)
        requires
            old(self).wf(),
        ensures
            final(self).wf(),
            u == (ViewportUpdate {
                uniform: [width, height, 0, 0],
                resolution: (phys_w, phys_h),
                targets: if old(self)@.phys == (phys_w, phys_h) {
                    None
                } else {
                    Some(target_extent(phys_w, phys_h))
                },
            }),
            final(self)@ == after_viewport(old(self)@, (phys_w, phys_h), scale),
    {
        self.scale_factor = scale;
        self.viewport_dirty = true;
        let mut targets: Option<(u32, u32)> = None;
        if phys_w != self.phys_w || phys_h != self.phys_h {
            self.phys_w = phys_w;
            self.phys_h = phys_h;
            self.needs_full_redraw = true;
            targets = Some(extent_of(phys_w, phys_h));
        }
        ViewportUpdate { uniform: [width, height, 0, 0], resolution: (phys_w, phys_h), targets }
    }

    /// Which faces of a font table are to be loaded before text is prepared.
    pub fn register_fonts(&mut self, faces: &[String]) -> (load: Vec<usize>)
        requires
            old(self).wf(),
        ensures
            final(self).wf(),
            load@ == super::text_glyph::missing(old(self)@.text.loaded, faces@),
            final(self)@ == (EncoderView {
                text: (TextView {
                    loaded: old(self)@.text.loaded.union(super::text_glyph::family_set(faces@)),
                    ..old(self)@.text
                }),
                ..old(self)@
            }),
    {
        self.text_pipeline.register_fonts(faces)
    }

    /// Records a decoded image, sampled through `handle`. `true` exactly when
    /// its source failed and had not before.
    pub fn apply_decoded(&mut self, decoded: &DecodedImage, handle: u64) -> (warn: bool)
        requires
            old(self).wf(),
        ensures
            final(self).wf(),
            recorded(old(self)@.textures, final(self)@.textures, *decoded, handle),
            final(self)@ == (EncoderView { textures: final(self)@.textures, ..old(self)@ }),
            warn == newly_failed(old(self)@.textures, *decoded),
    {
        self.texture_cache.apply_decoded(decoded, handle)
    }

    /// The images, for staging.
    pub fn textures(&self) -> (c: &TextureCache)
        requires
            self.wf(),
        ensures
            *c == self@.textures,
            c.wf(),
    {
        &self.texture_cache
    }

    /// Whether a text layer has a renderer to draw it.
    pub fn has_text_layer(&self, layer: usize) -> (yes: bool)
        ensures
            yes == (layer < self@.text.renderers),
    {
        self.text_pipeline.has_layer(layer)
    }

    /// Requests the images of a frame. With a decode service the new sources
    /// are requested from it; without one every image is decoded on the spot.
    fn request(&mut self, textures: &[TextureSampler], has_io: bool) -> (decode: Vec<usize>)
        requires
            old(self).wf(),
        ensures
            final(self).wf(),
            final(self)@ == (EncoderView { textures: final(self)@.textures, ..old(self)@ }),
            has_io ==> {
                &&& decode@ == first_requests(old(self)@.textures, textures@)
                &&& forall|s: Seq<char>| #[trigger]
                    final(self)@.textures.state(s) == (if old(self)@.textures.state(s) is None
                        && source_set(textures@).contains(s) {
                        Some(TextureState::Pending)
                    } else {
                        old(self)@.textures.state(s)
                    })
            },
            !has_io ==> {
                &&& decode@ == Seq::new(textures@.len(), |i: int| i as usize)
                &&& final(self)@.textures == old(self)@.textures
            },
    {
        if has_io {
            return request_textures(&mut self.texture_cache, textures);
        }
        let mut decode: Vec<usize> = Vec::new();
        let mut i: usize = 0;
        while i < textures.len()
            invariant
                i <= textures@.len(),
                decode@ == Seq::new(i as nat, |k: int| k as usize),
                self@ == old(self)@,
                self.wf(),
            decreases textures@.len() - i,
        {
            decode.push(i);
            i = i + 1;
            assert(decode@ =~= Seq::new(i as nat, |k: int| k as usize));
        }
        decode
    }

    /// The region an incremental frame repaints.
    fn region(&self, frame: &FrameInputs<'_>) -> (r: Option<DirtyScissor>)
        ensures
            r == frame_scissor(
                scissor_view(self@, *frame),
                self@.scale_factor,
                self@.phys.0,
                self@.phys.1,
            ),
    {
        let mut all: Vec<bool> = Vec::new();
        let mut i: usize = 0;
        while i < frame.instances.len()
            invariant
                i <= frame.instances@.len(),
                all@ == Seq::new(i as nat, |k: int| true),
            decreases frame.instances@.len() - i,
        {
            all.push(true);
            i = i + 1;
            assert(all@ =~= Seq::new(i as nat, |k: int| true));
        }
        let bits: &[bool] = if frame.dirty.instances.len() == frame.instances.len() {
            frame.dirty.instances
        } else {
            all.as_slice()
        };
        assert(bits@ == box_dirty_bits(*frame));
        let inputs: ScissorInputs<'_> = ScissorInputs {
            texts: frame.texts,
            text_wrap: frame.clips.text_wrap,
            prev_texts: self.last_text_bounds.as_slice(),
            instances: frame.instances,
            instances_dirty: bits,
            prev_boxes: self.last_box_bounds.as_slice(),
            decorated: frame.decorated,
            prev_decorated: self.last_decorated_bounds.as_slice(),
            textures: frame.textures,
            prev_textures: self.last_texture_bounds.as_slice(),
            canvas_shapes: frame.canvas_shapes,
            prev_canvas: self.last_canvas_bounds.as_slice(),
            ripples: frame.ripples,
            prev_ripples: self.last_ripple_bounds.as_slice(),
            backdrops: frame.backdrops,
            prev_backdrops: self.last_backdrop_bounds.as_slice(),
        };
        assert(inputs@ == scissor_view(self@, *frame));
        compute_scissor(&inputs, self.scale_factor, self.phys_w, self.phys_h)
    }

    /// The first step of a frame: takes in the uploads and the images it names,
    /// decides whether it is redrawn in full, in part or not at all, cuts it
    /// into segments, and plans its text if anything is drawn.
    pub fn encode_frame_with_decorations(&mut self, frame: &FrameInputs<'_>, has_io: bool) -> (plan:
        FramePlan)
        requires
            old(self).wf(),
        ensures
            final(self).wf(),
            planned(old(self)@, final(self)@, *frame, has_io, plan),
    {
        let (applied, writes): (Vec<u64>, Vec<AtlasWrite>) = self.vector_atlas.apply_uploads(
            frame.atlas_uploads,
        );
        let decode: Vec<usize> = self.request(frame.textures, has_io);
        let full_redraw: bool = needs_full_redraw_this_frame(
            self.needs_full_redraw,
            self.last_instance_count,
            frame.instances.len(),
            self.last_text_count,
            frame.texts.len(),
        );
        let scissor: Option<DirtyScissor> = if full_redraw {
            None
        } else {
            self.region(frame)
        };
        let should_draw: bool = full_redraw || scissor.is_some() || frame.atlas_uploads.len() > 0;
        let totals: LayerMark = LayerMark {
            solid: cursor(frame.instances.len()),
            decorated: cursor(frame.decorated.len()),
            texture: cursor(frame.textures.len()),
            vector: cursor(frame.vectors.len()),
            text: cursor(frame.texts.len()),
            canvas: cursor(frame.canvas_shapes.len()),
            ripple: cursor(frame.ripples.len()),
            backdrop: cursor(frame.backdrops.len()),
        };
        let segments: Vec<SegmentRanges> = compute_segments(
            frame.layers,
            frame.backdrop_marks,
            &totals,
        );
        proof {
            assert(totals == totals_of(*frame));
            assert forall|i: int| 0 <= i < segments@.len() implies segment_forward(
                #[trigger] segments@[i],
            ) by {
                let l = frame.layers@;
                let m = frame.backdrop_marks@;
                law_segments_stay_inside_the_pools(l, m, totals, Pool::Solid, i);
                law_segments_stay_inside_the_pools(l, m, totals, Pool::Decorated, i);
                law_segments_stay_inside_the_pools(l, m, totals, Pool::Texture, i);
                law_segments_stay_inside_the_pools(l, m, totals, Pool::Vector, i);
                law_segments_stay_inside_the_pools(l, m, totals, Pool::Text, i);
                law_segments_stay_inside_the_pools(l, m, totals, Pool::Canvas, i);
                law_segments_stay_inside_the_pools(l, m, totals, Pool::Ripple, i);
            }
        }
        let text: Option<TextPlan> = if should_draw {
            let ranges: Vec<Range<usize>> = text_ranges(segments.as_slice());
            Some(
                self.text_pipeline.prepare(
                    frame.texts,
                    frame.clips.text_wrap,
                    self.viewport_dirty,
                    ranges.as_slice(),
                    frame.dev_text_start,
                ),
            )
        } else {
            None
        };
        FramePlan { applied, writes, decode, full_redraw, scissor, should_draw, segments, text }
    }

    /// The first step of a frame of solid boxes and text lines alone.
    pub fn encode_frame(&mut self, instances: &[BoxInstance], texts: &[TextLine]) -> (plan:
        FramePlan)
        requires
            old(self).wf(),
        ensures
            final(self).wf(),
            exists|f: FrameInputs<'_>| #[trigger]
                is_plain(f, instances@, texts@) && planned(old(self)@, final(self)@, f, true, plan),
    {
        let frame: FrameInputs<'_> = FrameInputs::plain(instances, texts);
        self.encode_frame_with_decorations(&frame, true)
    }

    /// The second step of a frame that draws: plans its passes. The text has
    /// been prepared, so the viewport's change is dealt with.
    pub fn draw_frame(
        &mut self,
        frame: &FrameInputs<'_>,
        full_redraw: bool,
        scissor: Option<DirtyScissor>,
        segments: &[SegmentRanges],
        regions: &[BackdropRegions],
    ) -> (passes: Vec<PassPlan>)
        requires
            old(self).wf(),
            plannable(pass_inputs(old(self)@, *frame, full_redraw, scissor, segments, regions)),
        ensures
            final(self).wf(),
            passes@.len() == pass_count(segments@),
            are_passes(
                passes@,
                pass_inputs(old(self)@, *frame, full_redraw, scissor, segments, regions),
                old(self)@.scratch,
            ),
            final(self)@ == (EncoderView {
                viewport_dirty: false,
                scratch: scratch_after(
                    pass_inputs(old(self)@, *frame, full_redraw, scissor, segments, regions),
                    old(self)@.scratch,
                    segments@.len() as int,
                ),
                ..old(self)@
            }),
    {
        self.viewport_dirty = false;
        let inputs: PassInputs<'_> = PassInputs {
            full_redraw,
            scissor,
            scale: self.scale_factor,
            phys: (self.phys_w, self.phys_h),
            clips: frame.clips,
            segments,
            backdrops: frame.backdrops,
            regions,
            auto_capable: self.blur_auto_capable,
        };
        draw_ui_pass(&inputs, &mut self.blur_scratch)
    }

    /// The second step of a frame that draws nothing.
    pub fn skip_frame(&mut self)
        requires
            old(self).wf(),
        ensures
            final(self).wf(),
            final(self)@ == (EncoderView { viewport_dirty: false, ..old(self)@ }),
    {
        self.viewport_dirty = false;
    }

    /// Whether one more frame can be timed: no timer counts past 64 bits.
    pub fn can_conclude(&self) -> (yes: bool)
        requires
            self.wf(),
        ensures
            yes == (self@.timer matches Some(t) ==> t.frame_index < u64::MAX),
    {
        match &self.gpu_timer {
            Some(timer) => timer.frames() < 0xffff_ffff_ffff_ffff,
            None => true,
        }
    }

    /// The last step of a frame: resolves the timed pass if one was drawn,
    /// copies the whole target onto the screen, and records what the next
    /// frame is compared with. `version` is that of a relayed frame.
    pub fn conclude_frame(&mut self, frame: &FrameInputs<'_>, drawn: bool, version: Option<u64>) -> (end:
        FrameEnd)
        requires
            old(self).wf(),
            old(self)@.timer matches Some(t) ==> t.frame_index < u64::MAX,
        ensures
            final(self).wf(),
            end.copy == old(self)@.phys,
            end.resolve is Some == (drawn && old(self)@.timer is Some),
            final(self)@.timer == (match old(self)@.timer {
                Some(t) => if drawn {
                    Some(resolved(t))
                } else {
                    Some(t)
                },
                None => None,
            }),
            old(self)@.timer matches Some(t) ==> drawn ==> end.resolve == Some(
                ResolvePlan {
                    slot: (t.frame_index % SLOTS as int) as usize,
                    unmap: t.slots[t.frame_index % SLOTS as int].state != SlotState::Idle,
                    queries: (2 * t.scopes.len()) as u32,
                    bytes: (16 * t.scopes.len()) as u64,
                },
            ),
            final(self)@ == (EncoderView {
                gpu_timing_pending: old(self)@.gpu_timing_pending || (drawn && old(
                    self,
                )@.timer is Some),
                timer: final(self)@.timer,
                last_relay_version: match version {
                    Some(n) => n,
                    None => old(self)@.last_relay_version,
                },
                ..after_frame(old(self)@, *frame)
            }),
    {
        let mut resolve: Option<ResolvePlan> = None;
        if drawn {
            if let Some(timer) = self.gpu_timer.as_mut() {
                resolve = Some(timer.resolve_and_copy());
                self.gpu_timing_pending = true;
            }
        }
        self.needs_full_redraw = false;
        self.last_instance_count = frame.instances.len();
        self.last_text_count = frame.texts.len();
        self.last_text_bounds = text_paint_bounds(frame.texts, frame.clips.text_wrap);
        self.last_box_bounds = box_paint_bounds(frame.instances);
        self.last_decorated_bounds = decorated_paint_all(frame.decorated);
        self.last_canvas_bounds = canvas_paint_bounds(frame.canvas_shapes);
        self.last_ripple_bounds = ripple_paint_bounds(frame.ripples);
        self.last_backdrop_bounds = backdrop_paint_bounds(frame.backdrops);
        self.last_texture_bounds = texture_paint_bounds(frame.textures);
        if let Some(n) = version {
            self.last_relay_version = n;
        }
        FrameEnd { resolve, copy: (self.phys_w, self.phys_h) }
    }

    /// The relayed frame drawn last.
    pub fn last_relay_version(&self) -> (n: u64)
        ensures
            n == self@.last_relay_version,
    {
        self.last_relay_version
    }

    /// Takes note of a submission: requests the mapping of the pass timed in
    /// it, if there was one.
    pub fn submit(&mut self) -> (ticket: Option<MapTicket>)
        requires
            old(self).wf(),
        ensures
            final(self).wf(),
            !final(self)@.gpu_timing_pending,
            ticket is Some == old(self)@.gpu_timing_pending,
            ticket matches Some(t) ==> (old(self)@.timer matches Some(timer) && t == last_ticket(timer)
                && final(self)@.timer == Some(awaiting(timer))),
            ticket is None ==> final(self)@.timer == old(self)@.timer,
            final(self)@ == (EncoderView {
                gpu_timing_pending: false,
                timer: final(self)@.timer,
                ..old(self)@
            }),
    {
        if !self.gpu_timing_pending {
            return None;
        }
        self.gpu_timing_pending = false;
        if let Some(timer) = self.gpu_timer.as_mut() {
            Some(timer.request_map())
        } else {
            None
        }
    }

    /// Takes note of a completed mapping.
    pub fn complete_map(&mut self, ticket: MapTicket, ok: bool)
        requires
            old(self).wf(),
            ticket.slot < SLOTS,
        ensures
            final(self).wf(),
            final(self)@ == (EncoderView { timer: final(self)@.timer, ..old(self)@ }),
            match old(self)@.timer {
                None => final(self)@.timer is None,
                Some(t) => final(self)@.timer == Some(
                    TimerView {
                        slots: t.slots.update(
                            ticket.slot as int,
                            super::gpu_timer::completed(
                                t.slots[ticket.slot as int],
                                ticket.generation,
                                ok,
                            ),
                        ),
                        ..t
                    },
                ),
            },
    {
        if let Some(timer) = self.gpu_timer.as_mut() {
            timer.complete_map(ticket, ok);
        }
    }

    /// Whether a readback buffer is mapped and waits to be collected.
    pub fn timing_ready(&self, slot: usize) -> (yes: bool)
        requires
            self.wf(),
            slot < SLOTS,
        ensures
            yes == (self@.timer matches Some(t) && t.slots[slot as int].state == SlotState::Ready),
    {
        match &self.gpu_timer {
            Some(timer) => timer.is_ready(slot),
            None => false,
        }
    }

    /// Collects the passes whose timing has arrived. `mapped` holds the bytes
    /// of each mapped readback buffer.
    pub fn drain_gpu_samples(&mut self, mapped: &[Vec<u8>]) -> (samples: Vec<GpuSample>)
        requires
            old(self).wf(),
            mapped@.len() == SLOTS,
            old(self)@.timer matches Some(t) ==> forall|i: int|
                0 <= i < SLOTS && (#[trigger] t.slots[i]).state == SlotState::Ready
                    ==> mapped@[i]@.len() == 16 * t.scopes.len(),
        ensures
            final(self).wf(),
            final(self)@ == (EncoderView { timer: final(self)@.timer, ..old(self)@ }),
            match old(self)@.timer {
                None => samples@.len() == 0 && final(self)@.timer is None,
                Some(t) => {
                    &&& final(self)@.timer == Some(
                        TimerView {
                            slots: Seq::new(SLOTS as nat, |i: int| collected(t.slots[i])),
                            ..t
                        },
                    )
                    &&& exists|a: Seq<GpuSample>, b: Seq<GpuSample>, c: Seq<GpuSample>|
                        {
                            &&& samples@ == a + b + c
                            &&& #[trigger] slot_gives(t.slots[0], mapped@[0]@, a)
                            &&& #[trigger] slot_gives(t.slots[1], mapped@[1]@, b)
                            &&& #[trigger] slot_gives(t.slots[2], mapped@[2]@, c)
                        }
                },
            },
    {
        if let Some(timer) = self.gpu_timer.as_mut() {
            timer.drain_ready(mapped)
        } else {
            Vec::new()
        }
    }
}

/// A resize is followed by a full redraw, whatever the next frame holds and
/// however often the viewport changes in between.
pub proof fn law_resize_forces_a_full_redraw(
    v: EncoderView,
    phys: (u32, u32),
    scale: u32,
    later: (u32, u32),
    later_scale: u32,
    frame: FrameInputs<'_>,
)
    requires
        v.phys != phys,
    ensures
        ({
            let resized = after_viewport(v, phys, scale);
            let again = after_viewport(resized, later, later_scale);
            &&& full_redraw_of(resized, frame) && scissor_for(resized, frame) is None
            &&& full_redraw_of(again, frame) && scissor_for(again, frame) is None
            &&& draws_anything(resized, frame) && draws_anything(again, frame)
        }),
{
}

/// A frame with as many boxes and lines as the one before is not redrawn in
/// full: the obligation ends with the frame that met it.
pub proof fn law_full_redraw_is_met_once(
    v: EncoderView,
    done: FrameInputs<'_>,
    next: FrameInputs<'_>,
)
    requires
        done.instances@.len() == next.instances@.len(),
        done.texts@.len() == next.texts@.len(),
    ensures
        !full_redraw_of(after_frame(v, done), next),
{
}

/// A change in the number of boxes or of lines redraws everything.
pub proof fn law_structural_change_forces_a_full_redraw(
    v: EncoderView,
    done: FrameInputs<'_>,
    next: FrameInputs<'_>,
)
    requires
        done.instances@.len() != next.instances@.len() || done.texts@.len() != next.texts@.len(),
    ensures
        full_redraw_of(after_frame(v, done), next),
{
}

/// Dirty bits that do not match the boxes mark every box dirty: the frame is
/// planned and remembered exactly as if every bit were set.
pub proof fn law_unknown_bits_mark_everything_dirty(
    before: EncoderView,
    after: EncoderView,
    frame: FrameInputs<'_>,
    known: FrameInputs<'_>,
    has_io: bool,
    plan: FramePlan,
)
    requires
        frame.dirty.instances@.len() != frame.instances@.len(),
        known == (FrameInputs { dirty: known.dirty, ..frame }),
        known.dirty.instances@ == Seq::new(frame.instances@.len(), |i: int| true),
    ensures
        planned(before, after, frame, has_io, plan) == planned(before, after, known, has_io, plan),
        after_frame(after, frame) == after_frame(after, known),
{
    assert(box_dirty_bits(frame) =~= box_dirty_bits(known));
    assert(scissor_view(before, frame) == scissor_view(before, known));
}

/// A frame that stops before its end is drawn by the next one: neither the
/// first step nor the second touches what full redraws and repainted regions
/// are decided by.
pub proof fn law_unfinished_frame_is_drawn_again(
    before: EncoderView,
    after: EncoderView,
    frame: FrameInputs<'_>,
    has_io: bool,
    plan: FramePlan,
    viewport_dirty: bool,
    scratch: Map<usize, BlurScratch>,
)
    requires
        planned(before, after, frame, has_io, plan),
    ensures
        ({
            let stopped = EncoderView { viewport_dirty, scratch, ..after };
            &&& full_redraw_of(stopped, frame) == plan.full_redraw
            &&& scissor_for(stopped, frame) == plan.scissor
            &&& draws_anything(stopped, frame) == plan.should_draw
        }),
{
}

/// A frame that changes nothing draws nothing: as many boxes and lines as in
/// the frame before, no bit set, no ripple and no backdrop in either, and no
/// upload.
pub proof fn law_steady_frame_draws_nothing(
    v: EncoderView,
    done: FrameInputs<'_>,
    next: FrameInputs<'_>,
)
    requires
        done.instances@.len() == next.instances@.len(),
        done.texts@.len() == next.texts@.len(),
        next.dirty.instances@.len() == next.instances@.len(),
        forall|i: int|
            0 <= i < next.instances@.len() ==> !(#[trigger] next.dirty.instances@[i]),
        forall|i: int| 0 <= i < next.texts@.len() ==> !(#[trigger] next.texts@[i]).dirty,
        forall|i: int| 0 <= i < next.decorated@.len() ==> !(#[trigger] next.decorated@[i]).dirty,
        forall|i: int| 0 <= i < next.textures@.len() ==> !(#[trigger] next.textures@[i]).dirty,
        forall|i: int|
            0 <= i < next.canvas_shapes@.len() ==> !(#[trigger] next.canvas_shapes@[i]).dirty,
        done.ripples@.len() == 0,
        next.ripples@.len() == 0,
        done.backdrops@.len() == 0,
        next.backdrops@.len() == 0,
        next.atlas_uploads@.len() == 0,
    ensures
        !draws_anything(after_frame(v, done), next),
{
    super::dirty::law_clean_frame_has_no_region(
        scissor_view(after_frame(v, done), next),
        v.scale_factor,
        v.phys.0,
        v.phys.1,
    );
}

/// Whether `r` is what a primitive that changed between two frames paints in
/// the later one or painted in the earlier one. Ripples and backdrops change
/// in every frame.
pub open spec fn changed_paint(done: FrameInputs<'_>, next: FrameInputs<'_>, i: int, r: Rect) -> bool {
    ||| 0 <= i < next.texts@.len() && next.texts@[i].dirty && among(
        text_paint(done.texts@, done.clips.text_wrap@),
        text_paint(next.texts@, next.clips.text_wrap@),
        i,
        r,
    )
    ||| 0 <= i < next.instances@.len() && box_dirty_bits(next)[i] && among(
        box_paint(done.instances@),
        box_paint(next.instances@),
        i,
        r,
    )
    ||| 0 <= i < next.decorated@.len() && next.decorated@[i].dirty && among(
        decorated_paint(done.decorated@),
        decorated_paint(next.decorated@),
        i,
        r,
    )
    ||| 0 <= i < next.textures@.len() && next.textures@[i].dirty && among(
        texture_paint(done.textures@),
        texture_paint(next.textures@),
        i,
        r,
    )
    ||| 0 <= i < next.canvas_shapes@.len() && next.canvas_shapes@[i].dirty && among(
        canvas_paint(done.canvas_shapes@),
        canvas_paint(next.canvas_shapes@),
        i,
        r,
    )
    ||| among(ripple_paint(done.ripples@), ripple_paint(next.ripples@), i, r)
    ||| among(backdrop_paint(done.backdrops@), backdrop_paint(next.backdrops@), i, r)
}

/// Whether `r` stands at `i` in one of two lists.
pub open spec fn among(before: Seq<Rect>, now: Seq<Rect>, i: int, r: Rect) -> bool {
    ||| 0 <= i < before.len() && r == before[i]
    ||| 0 <= i < now.len() && r == now[i]
}

/// Nothing stale stays on screen: every pixel that a changed primitive touches
/// or touched in the frame before is repainted, in full or under the scissor.
pub proof fn law_nothing_stale_stays_on_screen(
    v: EncoderView,
    done: FrameInputs<'_>,
    next: FrameInputs<'_>,
    i: int,
    r: Rect,
    x: int,
    y: int,
)
    requires
        changed_paint(done, next, i, r),
        scale_factor(v.scale_factor) >= 0,
        holds_pixel(
            scissor_of(r, v.scale_factor, v.phys.0, v.phys.1),
            x,
            y,
        ),
    ensures
        ({
            let then_on = after_frame(v, done);
            full_redraw_of(then_on, next) || (scissor_for(then_on, next) matches Some(s)
                && holds_pixel((s.1, s.2, s.3, s.4), x, y))
        }),
{
    let inputs = scissor_view(after_frame(v, done), next);
    if 0 <= i < next.texts@.len() && next.texts@[i].dirty {
        super::dirty::law_region_covers_dirty_text(inputs, i);
    }
    if 0 <= i < next.instances@.len() && box_dirty_bits(next)[i] {
        super::dirty::law_region_covers_dirty_boxes(inputs, i);
    }
    if 0 <= i < next.decorated@.len() && next.decorated@[i].dirty {
        super::dirty::law_region_covers_dirty_decorations(inputs, i);
    }
    if 0 <= i < next.textures@.len() && next.textures@[i].dirty {
        super::dirty::law_region_covers_dirty_images(inputs, i);
    }
    if 0 <= i < next.canvas_shapes@.len() && next.canvas_shapes@[i].dirty {
        super::dirty::law_region_covers_dirty_shapes(inputs, i);
    }
    if i >= 0 {
        super::dirty::law_region_erases_faded_ripples(inputs, i);
        super::dirty::law_region_erases_vanished_backdrops(inputs, i);
    }
    super::dirty::law_touched_pixels_are_repainted(
        inputs,
        v.scale_factor,
        v.phys.0,
        v.phys.1,
        r,
        x,
        y,
    );
}

/// Unchanged parts of a frame are not redrawn: whatever covers all that changed
/// primitives paint and painted covers the repainted region, but for its
/// antialiasing margin.
pub proof fn law_unchanged_parts_are_left_alone(
    v: EncoderView,
    done: FrameInputs<'_>,
    next: FrameInputs<'_>,
    c: Rect,
)
    requires
        forall|i: int, r: Rect| #[trigger] changed_paint(done, next, i, r) ==> covers(c, r),
    ensures
        scissor_for(after_frame(v, done), next) matches Some(s) ==> covers(
            inflated(c, value(AA_MARGIN)),
            s.0,
        ),
{
    lemma_text_within(done, next, c);
    lemma_boxes_within(done, next, c);
    lemma_decorations_within(done, next, c);
    lemma_images_within(done, next, c);
    lemma_shapes_within(done, next, c);
    lemma_ink_within(done, next, c);
    lemma_region_within(
        scissor_view(after_frame(v, done), next),
        v.scale_factor,
        v.phys.0,
        v.phys.1,
        c,
    );
}

/// The dirty text lines of a frame lie inside what covers all that changed.
proof fn lemma_text_within(done: FrameInputs<'_>, next: FrameInputs<'_>, c: Rect)
    requires
        forall|i: int, r: Rect| #[trigger] changed_paint(done, next, i, r) ==> covers(c, r),
    ensures
        within(
            dirty_union(
                paired(
                    text_paint(next.texts@, next.clips.text_wrap@),
                    text_dirty(next.texts@),
                ),
                text_paint(done.texts@, done.clips.text_wrap@),
            ),
            c,
        ),
{
    let items = paired(text_paint(next.texts@, next.clips.text_wrap@), text_dirty(next.texts@));
    let before = text_paint(done.texts@, done.clips.text_wrap@);
    assert forall|i: int| 0 <= i < items.len() && (#[trigger] items[i]).1 implies covers(
        c,
        items[i].0,
    ) && within(rect_at(before, i), c) by {
        assert(changed_paint(done, next, i, items[i].0));
        if i < before.len() {
            assert(changed_paint(done, next, i, before[i]));
        }
    }
    lemma_dirty_union_within(items, before, c);
}

/// So do its dirty boxes.
proof fn lemma_boxes_within(done: FrameInputs<'_>, next: FrameInputs<'_>, c: Rect)
    requires
        forall|i: int, r: Rect| #[trigger] changed_paint(done, next, i, r) ==> covers(c, r),
    ensures
        within(
            dirty_union(
                paired(
                    box_paint(next.instances@),
                    box_dirty_bits(next),
                ),
                box_paint(done.instances@),
            ),
            c,
        ),
{
    let items = paired(box_paint(next.instances@), box_dirty_bits(next));
    let before = box_paint(done.instances@);
    assert forall|i: int| 0 <= i < items.len() && (#[trigger] items[i]).1 implies covers(
        c,
        items[i].0,
    ) && within(rect_at(before, i), c) by {
        assert(changed_paint(done, next, i, items[i].0));
        if i < before.len() {
            assert(changed_paint(done, next, i, before[i]));
        }
    }
    lemma_dirty_union_within(items, before, c);
}

/// So do its dirty decorated boxes.
proof fn lemma_decorations_within(done: FrameInputs<'_>, next: FrameInputs<'_>, c: Rect)
    requires
        forall|i: int, r: Rect| #[trigger] changed_paint(done, next, i, r) ==> covers(c, r),
    ensures
        within(
            dirty_union(
                paired(
                    decorated_paint(next.decorated@),
                    decorated_dirty(next.decorated@),
                ),
                decorated_paint(done.decorated@),
            ),
            c,
        ),
{
    let items = paired(decorated_paint(next.decorated@), decorated_dirty(next.decorated@));
    let before = decorated_paint(done.decorated@);
    assert forall|i: int| 0 <= i < items.len() && (#[trigger] items[i]).1 implies covers(
        c,
        items[i].0,
    ) && within(rect_at(before, i), c) by {
        assert(changed_paint(done, next, i, items[i].0));
        if i < before.len() {
            assert(changed_paint(done, next, i, before[i]));
        }
    }
    lemma_dirty_union_within(items, before, c);
}

/// So do its dirty images.
proof fn lemma_images_within(done: FrameInputs<'_>, next: FrameInputs<'_>, c: Rect)
    requires
        forall|i: int, r: Rect| #[trigger] changed_paint(done, next, i, r) ==> covers(c, r),
    ensures
        within(
            dirty_union(
                paired(
                    texture_paint(next.textures@),
                    texture_dirty(next.textures@),
                ),
                texture_paint(done.textures@),
            ),
            c,
        ),
{
    let items = paired(texture_paint(next.textures@), texture_dirty(next.textures@));
    let before = texture_paint(done.textures@);
    assert forall|i: int| 0 <= i < items.len() && (#[trigger] items[i]).1 implies covers(
        c,
        items[i].0,
    ) && within(rect_at(before, i), c) by {
        assert(changed_paint(done, next, i, items[i].0));
        if i < before.len() {
            assert(changed_paint(done, next, i, before[i]));
        }
    }
    lemma_dirty_union_within(items, before, c);
}

/// So do its dirty canvas shapes.
proof fn lemma_shapes_within(done: FrameInputs<'_>, next: FrameInputs<'_>, c: Rect)
    requires
        forall|i: int, r: Rect| #[trigger] changed_paint(done, next, i, r) ==> covers(c, r),
    ensures
        within(
            dirty_union(
                paired(
                    canvas_paint(next.canvas_shapes@),
                    canvas_dirty(next.canvas_shapes@),
                ),
                canvas_paint(done.canvas_shapes@),
            ),
            c,
        ),
{
    let items = paired(canvas_paint(next.canvas_shapes@), canvas_dirty(next.canvas_shapes@));
    let before = canvas_paint(done.canvas_shapes@);
    assert forall|i: int| 0 <= i < items.len() && (#[trigger] items[i]).1 implies covers(
        c,
        items[i].0,
    ) && within(rect_at(before, i), c) by {
        assert(changed_paint(done, next, i, items[i].0));
        if i < before.len() {
            assert(changed_paint(done, next, i, before[i]));
        }
    }
    lemma_dirty_union_within(items, before, c);
}

/// All ripples and backdrops of two frames lie inside what covers them.
proof fn lemma_ink_within(done: FrameInputs<'_>, next: FrameInputs<'_>, c: Rect)
    requires
        forall|i: int, r: Rect| #[trigger] changed_paint(done, next, i, r) ==> covers(c, r),
    ensures
        within(union_all(ripple_paint(done.ripples@)), c),
        within(union_all(ripple_paint(next.ripples@)), c),
        within(union_all(backdrop_paint(done.backdrops@)), c),
        within(union_all(backdrop_paint(next.backdrops@)), c),
{
    let ripples = ripple_paint(done.ripples@);
    assert forall|i: int| 0 <= i < ripples.len() implies covers(c, #[trigger] ripples[i]) by {
        assert(changed_paint(done, next, i, ripples[i]));
    }
    lemma_union_all_within(ripples, c);
    let ripples = ripple_paint(next.ripples@);
    assert forall|i: int| 0 <= i < ripples.len() implies covers(c, #[trigger] ripples[i]) by {
        assert(changed_paint(done, next, i, ripples[i]));
    }
    lemma_union_all_within(ripples, c);
    let panes = backdrop_paint(done.backdrops@);
    assert forall|i: int| 0 <= i < panes.len() implies covers(c, #[trigger] panes[i]) by {
        assert(changed_paint(done, next, i, panes[i]));
    }
    lemma_union_all_within(panes, c);
    let panes = backdrop_paint(next.backdrops@);
    assert forall|i: int| 0 <= i < panes.len() implies covers(c, #[trigger] panes[i]) by {
        assert(changed_paint(done, next, i, panes[i]));
    }
    lemma_union_all_within(panes, c);
}

/// Every primitive of a frame, in whichever pool, is drawn by exactly one of the
/// segments it is cut into.
pub proof fn law_every_primitive_of_a_frame_is_in_one_segment(frame: FrameInputs<'_>, k: int)
    requires
        0 <= k,
        frame.instances@.len() <= u32::MAX,
        frame.decorated@.len() <= u32::MAX,
        frame.textures@.len() <= u32::MAX,
        frame.vectors@.len() <= u32::MAX,
        frame.texts@.len() <= u32::MAX,
        frame.canvas_shapes@.len() <= u32::MAX,
        frame.ripples@.len() <= u32::MAX,
    ensures
        k < frame.instances@.len() ==> once(frame_segments(frame), Pool::Solid, k),
        k < frame.decorated@.len() ==> once(frame_segments(frame), Pool::Decorated, k),
        k < frame.textures@.len() ==> once(frame_segments(frame), Pool::Texture, k),
        k < frame.vectors@.len() ==> once(frame_segments(frame), Pool::Vector, k),
        k < frame.texts@.len() ==> once(frame_segments(frame), Pool::Text, k),
        k < frame.canvas_shapes@.len() ==> once(frame_segments(frame), Pool::Canvas, k),
        k < frame.ripples@.len() ==> once(frame_segments(frame), Pool::Ripple, k),
{
    let l = frame.layers@;
    let m = frame.backdrop_marks@;
    let t = totals_of(frame);
    if k < frame.instances@.len() {
        law_every_primitive_lies_in_one_segment(l, m, t, Pool::Solid, k);
    }
    if k < frame.decorated@.len() {
        law_every_primitive_lies_in_one_segment(l, m, t, Pool::Decorated, k);
    }
    if k < frame.textures@.len() {
        law_every_primitive_lies_in_one_segment(l, m, t, Pool::Texture, k);
    }
    if k < frame.vectors@.len() {
        law_every_primitive_lies_in_one_segment(l, m, t, Pool::Vector, k);
    }
    if k < frame.texts@.len() {
        law_every_primitive_lies_in_one_segment(l, m, t, Pool::Text, k);
    }
    if k < frame.canvas_shapes@.len() {
        law_every_primitive_lies_in_one_segment(l, m, t, Pool::Canvas, k);
    }
    if k < frame.ripples@.len() {
        law_every_primitive_lies_in_one_segment(l, m, t, Pool::Ripple, k);
    }
}

/// Whether exactly one of the segments holds primitive `k` of a pool.
pub open spec fn once(segments: Seq<SegmentRanges>, p: Pool, k: int) -> bool {
    &&& exists|i: int| 0 <= i < segments.len() && #[trigger] holds(segments[i], p, k)
    &&& forall|i: int, j: int|
        0 <= i < segments.len() && 0 <= j < segments.len() && #[trigger] holds(segments[i], p, k)
            && #[trigger] holds(segments[j], p, k) ==> i == j
}

/// What a frame does, told from what it holds and from what the frames before it left
/// behind: a first frame, a resized one and one with another number of boxes or
/// lines is drawn in full; a field that arrives is drawn at once; and text is
/// prepared exactly where something is drawn.
pub proof fn law_frames_draw_what_they_have_to(
    before: EncoderView,
    after: EncoderView,
    frame: FrameInputs<'_>,
    has_io: bool,
    plan: FramePlan,
)
    requires
        planned(before, after, frame, has_io, plan),
    ensures
        plan.full_redraw <==> {
            ||| before.needs_full_redraw
            ||| before.last_instance_count != frame.instances@.len()
            ||| before.last_text_count != frame.texts@.len()
        },
        plan.full_redraw ==> plan.should_draw && plan.scissor is None,
        plan.scissor is Some ==> plan.should_draw,
        frame.atlas_uploads@.len() > 0 ==> plan.should_draw,
        plan.should_draw ==> plan.full_redraw || plan.scissor is Some
            || frame.atlas_uploads@.len() > 0,
        plan.text is Some <==> plan.should_draw,
        !has_io ==> plan.decode@.len() == frame.textures@.len() && forall|i: int|
            0 <= i < frame.textures@.len() ==> plan.decode@[i] == i as usize,
        after.needs_full_redraw == before.needs_full_redraw,
        after.viewport_dirty == before.viewport_dirty,
{
}

/// The first frame of an encoder is drawn in full, whatever it holds.
pub proof fn law_first_frame_is_drawn_in_full(
    v: EncoderView,
    scale_factor: u32,
    phys: (u32, u32),
    has_timestamp_query: bool,
    frame: FrameInputs<'_>,
)
    requires
        is_fresh(v, scale_factor, phys, has_timestamp_query),
    ensures
        full_redraw_of(v, frame),
        draws_anything(v, frame),
        v.scale_factor == scale_factor,
        v.phys == phys,
        v.timer is Some == has_timestamp_query,
{
}

/// A target is never empty and otherwise as large as asked for.
pub proof fn law_targets_are_never_empty(width: u32, height: u32)
    ensures
        target_extent(width, height).0 >= 1 && target_extent(width, height).1 >= 1,
        width > 0 ==> target_extent(width, height).0 == width,
        height > 0 ==> target_extent(width, height).1 == height,
{
}

/// A change of viewport takes over the size and the scale, has the text prepared anew,
/// asks for a full redraw exactly where the size changed, and leaves everything else
/// as it was.
pub proof fn law_viewport_is_taken_over(v: EncoderView, phys: (u32, u32), scale: u32)
    ensures
        ({
            let now = after_viewport(v, phys, scale);
            &&& now.phys == phys
            &&& now.scale_factor == scale
            &&& now.viewport_dirty
            &&& now.needs_full_redraw == (v.needs_full_redraw || v.phys.0 != phys.0 || v.phys.1
                != phys.1)
            &&& now.last_instance_count == v.last_instance_count && now.last_text_count
                == v.last_text_count
            &&& now.last_text_bounds == v.last_text_bounds && now.last_box_bounds
                == v.last_box_bounds && now.last_decorated_bounds == v.last_decorated_bounds
            &&& now.last_canvas_bounds == v.last_canvas_bounds && now.last_ripple_bounds
                == v.last_ripple_bounds && now.last_backdrop_bounds == v.last_backdrop_bounds
                && now.last_texture_bounds == v.last_texture_bounds
            &&& now.text == v.text && now.textures == v.textures && now.scratch == v.scratch
                && now.timer == v.timer
        }),
{
}

/// What a frame leaves behind for the next one: how many boxes and lines it had, and
/// what each of its primitives painted, pool by pool and in their order.
pub proof fn law_frames_remember_what_they_painted(v: EncoderView, frame: FrameInputs<'_>, i: int)
    requires
        0 <= i,
    ensures
        ({
            let now = after_frame(v, frame);
            &&& !now.needs_full_redraw
            &&& now.last_instance_count == frame.instances@.len()
            &&& now.last_text_count == frame.texts@.len()
            &&& now.last_box_bounds.len() == frame.instances@.len()
            &&& i < frame.instances@.len() && numbers(frame.instances@[i].rect) ==> occupies(
                now.last_box_bounds[i],
                frame.instances@[i].rect,
            )
            &&& now.last_texture_bounds.len() == frame.textures@.len()
            &&& i < frame.textures@.len() && numbers(frame.textures@[i].rect) ==> occupies(
                now.last_texture_bounds[i],
                frame.textures@[i].rect,
            )
            &&& now.last_canvas_bounds.len() == frame.canvas_shapes@.len()
            &&& i < frame.canvas_shapes@.len() && numbers(frame.canvas_shapes@[i].bounds)
                ==> occupies(now.last_canvas_bounds[i], frame.canvas_shapes@[i].bounds)
            &&& now.last_ripple_bounds.len() == frame.ripples@.len()
            &&& i < frame.ripples@.len() && numbers(frame.ripples@[i].rect) ==> occupies(
                now.last_ripple_bounds[i],
                frame.ripples@[i].rect,
            )
            &&& now.last_backdrop_bounds.len() == frame.backdrops@.len()
            &&& i < frame.backdrops@.len() && numbers(frame.backdrops@[i].rect) ==> occupies(
                now.last_backdrop_bounds[i],
                frame.backdrops@[i].rect,
            )
            &&& now.last_decorated_bounds.len() == frame.decorated@.len()
            &&& i < frame.decorated@.len() ==> now.last_decorated_bounds[i] == decorated_bounds(
                frame.decorated@[i],
            )
            &&& now.last_text_bounds.len() == frame.texts@.len()
            &&& i < frame.texts@.len() ==> now.last_text_bounds[i] == text_bounds(
                frame.texts@[i],
                if i < frame.clips.text_wrap@.len() {
                    frame.clips.text_wrap@[i]
                } else {
                    None
                },
            )
        }),
{
    law_primitives_paint_their_rectangles(
        frame.instances@,
        frame.textures@,
        frame.canvas_shapes@,
        frame.ripples@,
        frame.backdrops@,
        i,
    );
}

/// The text of a frame is drawn in as many layers as the frame has segments, each layer the
/// text lines of its own segment.
pub proof fn law_text_layers_are_the_segments(
    before: EncoderView,
    after: EncoderView,
    frame: FrameInputs<'_>,
    has_io: bool,
    plan: FramePlan,
    i: int,
)
    requires
        planned(before, after, frame, has_io, plan),
        frame.texts@.len() <= u32::MAX,
        0 <= i < plan.segments@.len(),
    ensures
        plan.text matches Some(t) ==> {
            &&& t.layers@.len() == plan.segments@.len()
            &&& t.layers@[i].start == plan.segments@[i].text.start
            &&& t.layers@[i].end == plan.segments@[i].text.end
        },
{
    law_segments_stay_inside_the_pools(
        frame.layers@,
        frame.backdrop_marks@,
        totals_of(frame),
        Pool::Text,
        i,
    );
}

/// The passes of a frame are planned for this frame: its own clips and backdrops, the target
/// and the scale it is drawn at, and what was decided before.
pub proof fn law_passes_are_planned_for_their_frame<'a>(
    v: EncoderView,
    frame: FrameInputs<'a>,
    full_redraw: bool,
    scissor: Option<DirtyScissor>,
    segments: &'a [SegmentRanges],
    regions: &'a [BackdropRegions],
)
    ensures
        ({
            let f = pass_inputs(v, frame, full_redraw, scissor, segments, regions);
            &&& f.full_redraw == full_redraw
            &&& f.scissor == scissor
            &&& f.scale == v.scale_factor
            &&& f.phys == v.phys
            &&& f.clips == frame.clips
            &&& f.segments == segments
            &&& f.backdrops == frame.backdrops
            &&& f.regions == regions
            &&& f.auto_capable == v.blur_auto_capable
        }),
{
}

/// A frame with dirty bits of its own for every box has exactly those.
pub proof fn law_known_bits_are_the_frames_own(frame: FrameInputs<'_>, i: int)
    requires
        frame.dirty.instances@.len() == frame.instances@.len(),
        0 <= i < frame.instances@.len(),
    ensures
        box_dirty_bits(frame).len() == frame.instances@.len(),
        box_dirty_bits(frame)[i] == frame.dirty.instances@[i],
{
}

/// Timestamps go round the ring of buffers: a frame is copied into one of them, which no
/// frame before it in the last two was copied into, and touches no other; the mapping then
/// asked for is of exactly that buffer in its present use.
pub proof fn law_timestamps_go_round_the_ring(t: TimerView, i: int)
    requires
        super::gpu_timer::timer_ok(t),
        t.frame_index < u64::MAX,
        0 <= i < 3,
    ensures
        ({
            let copied = resolved(t);
            let at = last_ticket(copied).slot as int;
            let waiting = awaiting(copied);
            &&& 0 <= at < 3
            &&& at == t.frame_index % 3
            &&& t.frame_index > 0 ==> at != last_ticket(t).slot
            &&& i != at ==> copied.slots[i] == t.slots[i] && waiting.slots[i] == t.slots[i]
            &&& copied.slots[at].state == SlotState::Idle
            &&& t.slots[at].state != SlotState::Idle ==> copied.slots[at].generation
                > t.slots[at].generation
            &&& waiting.slots[at].state == SlotState::Pending
            &&& last_ticket(copied).generation == waiting.slots[at].generation
            &&& copied.frame_index == t.frame_index + 1
            &&& waiting.frame_index == copied.frame_index
            &&& waiting.scopes == t.scopes
        }),
{
    let at = t.frame_index % 3;
    assert(t.slots[at].generation <= t.frame_index);
}

} // verus!
