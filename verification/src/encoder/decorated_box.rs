//! The `DecoratedBox` pipeline: rectangles with a border, a drop shadow, a
//! gradient or translucency.
//!
//! The whole pass is transparent geometry: it tests the draw-order depth
//! buffer and never writes it.

use super::descriptor::{
    binds_viewport, draw_depth_stencil_no_write, lays_out, pack, packed_size, push_lanes,
    quad_lanes, quad_layout, transparent_depth, viewport_layout, BindLayout, Blend, Lanes,
    PipelineDesc, TextureFormat, Topology, VertexBufferLayout, VertexFormat, VertexStepMode,
};
use super::instance_arena::{ArenaView, InstanceArena, Region};
use super::staging::{
    batch_fits, depth_at, depth_of, ramp, ramp_axis, ramp_from, ramp_mid, ramp_to, stage_lanes,
    staged_batch,
};
use crate::frame::DecoratedBox;
use super::records::{feeds, lemma_feeds, lemma_offset};
use vstd::prelude::*;

verus! {

/// One decorated box as the shader reads it.
#[derive(Clone, Copy, Debug, PartialEq, Eq)]
pub struct DecoratedInstance {
    /// `[x, y, width, height]`.
    pub rect: [u32; 4],
    /// Fill colour.
    pub color: [u32; 4],
    /// Corner radii.
    pub radii: [u32; 4],
    /// Border colour.
    pub border_color: [u32; 4],
    /// Shadow colour.
    pub shadow_color: [u32; 4],
    /// Border width, shadow offset and blur.
    pub params: [u32; 4],
    /// Opacity, depth, shadow spread, corner smoothing.
    pub misc: [u32; 4],
    /// Transform translation.
    pub t_translate: [u32; 2],
    /// Transform scale.
    pub t_scale: [u32; 2],
    /// Transform rotation.
    pub t_rotate: u32,
    /// Transform pivot.
    pub t_origin: [u32; 2],
    /// Gradient start colour.
    pub grad_from: [u32; 4],
    /// Gradient middle colour.
    pub grad_mid: [u32; 4],
    /// Gradient end colour.
    pub grad_to: [u32; 4],
    /// Gradient control numbers.
    pub grad_axis: [u32; 4],
}

/// The record of a decorated box at a depth.
pub open spec fn instance_of(d: DecoratedBox, depth: u32) -> DecoratedInstance {
    DecoratedInstance {
        rect: d.base.rect,
        color: d.base.color,
        radii: d.base.radii,
        border_color: d.border_color,
        shadow_color: d.shadow_color,
        params: [d.border_width, d.shadow_dx, d.shadow_dy, d.shadow_blur],
        misc: [d.opacity, depth, d.shadow_spread, d.base.smooth],
        t_translate: d.base.transform.translate,
        t_scale: d.base.transform.scale,
        t_rotate: d.base.transform.rotate,
        t_origin: d.base.transform.origin,
        grad_from: ramp_from(d.gradient),
        grad_mid: ramp_mid(d.gradient),
        grad_to: ramp_to(d.gradient),
        grad_axis: ramp_axis(d.gradient),
    }
}

/// The lanes of one record.
pub open spec fn instance_lanes(r: DecoratedInstance) -> Seq<u32> {
    r.rect@ + r.color@ + r.radii@ + r.border_color@ + r.shadow_color@ + r.params@ + r.misc@
        + r.t_translate@ + r.t_scale@ + seq![r.t_rotate] + r.t_origin@ + r.grad_from@ + r.grad_mid@
        + r.grad_to@ + r.grad_axis@
}

/// The lanes of a batch, each record at its own depth.
pub open spec fn batch_lanes(boxes: Seq<DecoratedBox>, depths: Seq<u32>) -> Seq<u32>
    decreases boxes.len(),
{
    if boxes.len() == 0 {
        Seq::empty()
    } else {
        batch_lanes(boxes.drop_last(), depths) + instance_lanes(
            instance_of(boxes.last(), depth_of(depths, boxes.len() - 1)),
        )
    }
}

/// Locations and formats of a record.
pub open spec fn formats() -> Lanes {
    seq![
        (1u32, VertexFormat::Float32x4),
        (2u32, VertexFormat::Float32x4),
        (3u32, VertexFormat::Float32x4),
        (4u32, VertexFormat::Float32x4),
        (5u32, VertexFormat::Float32x4),
        (6u32, VertexFormat::Float32x4),
        (7u32, VertexFormat::Float32x4),
        (8u32, VertexFormat::Float32x2),
        (9u32, VertexFormat::Float32x2),
        (10u32, VertexFormat::Float32),
        (11u32, VertexFormat::Float32x2),
        (12u32, VertexFormat::Float32x4),
        (13u32, VertexFormat::Float32x4),
        (14u32, VertexFormat::Float32x4),
        (15u32, VertexFormat::Float32x4),
    ]
}

impl DecoratedInstance {
    /// The record of a decorated box, drawn at `depth`.
    pub fn new(d: &DecoratedBox, depth: u32) -> (r: DecoratedInstance)
        ensures
            r == instance_of(*d, depth),
    {
        let (grad_from, grad_mid, grad_to, grad_axis, _kind) = ramp(d.gradient);
        DecoratedInstance {
            rect: d.base.rect,
            color: d.base.color,
            radii: d.base.radii,
            border_color: d.border_color,
            shadow_color: d.shadow_color,
            params: [d.border_width, d.shadow_dx, d.shadow_dy, d.shadow_blur],
            misc: [d.opacity, depth, d.shadow_spread, d.base.smooth],
            t_translate: d.base.transform.translate,
            t_scale: d.base.transform.scale,
            t_rotate: d.base.transform.rotate,
            t_origin: d.base.transform.origin,
            grad_from,
            grad_mid,
            grad_to,
            grad_axis,
        }
    }

    /// The instance layout, locations 1 to 15.
    pub fn layout() -> (l: VertexBufferLayout)
        ensures
            lays_out(l, formats(), VertexStepMode::Instance),
    {
        let lanes: [(u32, VertexFormat); 15] = [
            (1, VertexFormat::Float32x4),
            (2, VertexFormat::Float32x4),
            (3, VertexFormat::Float32x4),
            (4, VertexFormat::Float32x4),
            (5, VertexFormat::Float32x4),
            (6, VertexFormat::Float32x4),
            (7, VertexFormat::Float32x4),
            (8, VertexFormat::Float32x2),
            (9, VertexFormat::Float32x2),
            (10, VertexFormat::Float32),
            (11, VertexFormat::Float32x2),
            (12, VertexFormat::Float32x4),
            (13, VertexFormat::Float32x4),
            (14, VertexFormat::Float32x4),
            (15, VertexFormat::Float32x4),
        ];
        assert(lanes@ =~= formats());
        pack(lanes.as_slice(), VertexStepMode::Instance)
    }

    /// Appends the record's lanes.
    fn push(&self, out: &mut Vec<u32>)
        ensures
            final(out)@ == old(out)@ + instance_lanes(*self),
    {
        let ghost before = out@;
        push_lanes(out, self.rect.as_slice());
        push_lanes(out, self.color.as_slice());
        push_lanes(out, self.radii.as_slice());
        push_lanes(out, self.border_color.as_slice());
        push_lanes(out, self.shadow_color.as_slice());
        push_lanes(out, self.params.as_slice());
        push_lanes(out, self.misc.as_slice());
        push_lanes(out, self.t_translate.as_slice());
        push_lanes(out, self.t_scale.as_slice());
        out.push(self.t_rotate);
        push_lanes(out, self.t_origin.as_slice());
        push_lanes(out, self.grad_from.as_slice());
        push_lanes(out, self.grad_mid.as_slice());
        push_lanes(out, self.grad_to.as_slice());
        push_lanes(out, self.grad_axis.as_slice());
        assert(out@ =~= before + instance_lanes(*self));
    }
}

/// A record is exactly as long as its layout's stride.
pub proof fn law_record_fills_its_stride(r: DecoratedInstance, l: VertexBufferLayout)
    requires
        lays_out(l, formats(), VertexStepMode::Instance),
    ensures
        4 * instance_lanes(r).len() == l.array_stride,
        l.array_stride == 204,
{
    reveal_with_fuel(packed_size, 16);
    assert(packed_size(formats()) == 204);
}

/// A batch takes 51 lanes per box.
proof fn lemma_batch_len(boxes: Seq<DecoratedBox>, depths: Seq<u32>)
    ensures
        batch_lanes(boxes, depths).len() == 51 * boxes.len(),
    decreases boxes.len(),
{
    if boxes.len() > 0 {
        lemma_batch_len(boxes.drop_last(), depths);
    }
}

/// Stages a batch, each record stamped with its draw-order depth; a missing
/// depth is the far plane.
pub fn stage(arena: &mut InstanceArena, boxes: &[DecoratedBox], depths: &[u32]) -> (r: Region)
    requires
        old(arena).wf(),
        batch_fits(old(arena)@, 51 * boxes@.len() as int),
    ensures
        final(arena).wf(),
        staged_batch(old(arena)@, final(arena)@, r, batch_lanes(boxes@, depths@)),
{
    let mut lanes: Vec<u32> = Vec::new();
    let mut i: usize = 0;
    while i < boxes.len()
        invariant
            i <= boxes@.len(),
            lanes@ == batch_lanes(boxes@.take(i as int), depths@),
        decreases boxes@.len() - i,
    {
        proof {
            assert(boxes@.take(i as int + 1).drop_last() =~= boxes@.take(i as int));
        }
        DecoratedInstance::new(&boxes[i], depth_at(depths, i)).push(&mut lanes);
        i = i + 1;
    }
    proof {
        assert(boxes@.take(i as int) =~= boxes@);
        lemma_batch_len(boxes@, depths@);
    }
    stage_lanes(arena, lanes.as_slice())
}

/// What the pipeline is made of.
pub open spec fn describes(d: PipelineDesc, surface: TextureFormat) -> bool {
    &&& d.name@ == "DecoratedBox"@
    &&& d.buffers@.len() == 2
    &&& lays_out(d.buffers@[0], quad_lanes(), VertexStepMode::Vertex)
    &&& lays_out(d.buffers@[1], formats(), VertexStepMode::Instance)
    &&& d.groups@.len() == 1
    &&& binds_viewport(d.groups@[0])
    &&& d.target == surface
    &&& d.blend == Blend::Alpha
    &&& d.topology == Topology::TriangleStrip
    &&& d.depth == Some(transparent_depth())
    &&& d.samples == 1
}

/// Describes the pipeline.
pub fn pipeline(surface: TextureFormat) -> (d: PipelineDesc)
    ensures
        describes(d, surface),
{
    let mut buffers: Vec<VertexBufferLayout> = Vec::new();
    buffers.push(quad_layout());
    buffers.push(DecoratedInstance::layout());
    let mut groups: Vec<BindLayout> = Vec::new();
    groups.push(viewport_layout());
    PipelineDesc {
        name: "DecoratedBox",
        buffers,
        groups,
        target: surface,
        blend: Blend::Alpha,
        topology: Topology::TriangleStrip,
        depth: Some(draw_depth_stencil_no_write()),
        samples: 1,
    }
}

/// Where each location of a record starts.
proof fn lemma_offsets()
    ensures
        packed_size(formats().take(0)) == 0,
        packed_size(formats().take(1)) == 16,
        packed_size(formats().take(2)) == 32,
        packed_size(formats().take(3)) == 48,
        packed_size(formats().take(4)) == 64,
        packed_size(formats().take(5)) == 80,
        packed_size(formats().take(6)) == 96,
        packed_size(formats().take(7)) == 112,
        packed_size(formats().take(8)) == 120,
        packed_size(formats().take(9)) == 128,
        packed_size(formats().take(10)) == 132,
        packed_size(formats().take(11)) == 140,
        packed_size(formats().take(12)) == 156,
        packed_size(formats().take(13)) == 172,
        packed_size(formats().take(14)) == 188,
{
    lemma_offset(formats(), 0);
    lemma_offset(formats(), 1);
    lemma_offset(formats(), 2);
    lemma_offset(formats(), 3);
    lemma_offset(formats(), 4);
    lemma_offset(formats(), 5);
    lemma_offset(formats(), 6);
    lemma_offset(formats(), 7);
    lemma_offset(formats(), 8);
    lemma_offset(formats(), 9);
    lemma_offset(formats(), 10);
    lemma_offset(formats(), 11);
    lemma_offset(formats(), 12);
    lemma_offset(formats(), 13);
    lemma_offset(formats(), 14);
}

/// Each location reads its own lanes of a record.
proof fn lemma_locations(
    before: ArenaView,
    after: ArenaView,
    region: Region,
    lanes: Seq<u32>,
    l: VertexBufferLayout,
    i: int,
    record: Seq<u32>,
)
    requires
        staged_batch(before, after, region, lanes),
        batch_fits(before, lanes.len() as int),
        lays_out(l, formats(), VertexStepMode::Instance),
        l.array_stride == 204,
        record.len() == 51,
        0 <= i,
        51 * (i + 1) <= lanes.len(),
        lanes.subrange(51 * i, 51 * (i + 1)) == record,
    ensures
        feeds(after.staged, region, l, i, 1u32, VertexFormat::Float32x4, record.subrange(0, 4)),
        feeds(after.staged, region, l, i, 2u32, VertexFormat::Float32x4, record.subrange(4, 8)),
        feeds(after.staged, region, l, i, 3u32, VertexFormat::Float32x4, record.subrange(8, 12)),
        feeds(after.staged, region, l, i, 4u32, VertexFormat::Float32x4, record.subrange(12, 16)),
        feeds(after.staged, region, l, i, 5u32, VertexFormat::Float32x4, record.subrange(16, 20)),
        feeds(after.staged, region, l, i, 6u32, VertexFormat::Float32x4, record.subrange(20, 24)),
        feeds(after.staged, region, l, i, 7u32, VertexFormat::Float32x4, record.subrange(24, 28)),
        feeds(after.staged, region, l, i, 8u32, VertexFormat::Float32x2, record.subrange(28, 30)),
        feeds(after.staged, region, l, i, 9u32, VertexFormat::Float32x2, record.subrange(30, 32)),
        feeds(after.staged, region, l, i, 10u32, VertexFormat::Float32, record.subrange(32, 33)),
        feeds(after.staged, region, l, i, 11u32, VertexFormat::Float32x2, record.subrange(33, 35)),
        feeds(after.staged, region, l, i, 12u32, VertexFormat::Float32x4, record.subrange(35, 39)),
        feeds(after.staged, region, l, i, 13u32, VertexFormat::Float32x4, record.subrange(39, 43)),
        feeds(after.staged, region, l, i, 14u32, VertexFormat::Float32x4, record.subrange(43, 47)),
        feeds(after.staged, region, l, i, 15u32, VertexFormat::Float32x4, record.subrange(47, 51)),
{
    lemma_offsets();
    assert(i * record.len() == 51 * i && (i + 1) * record.len() == 51 * (i + 1));
    lemma_feeds(
        before,
        after,
        region,
        lanes,
        l,
        formats(),
        VertexStepMode::Instance,
        i,
        record,
        0,
        0,
        record.subrange(0, 4),
    );
    lemma_feeds(
        before,
        after,
        region,
        lanes,
        l,
        formats(),
        VertexStepMode::Instance,
        i,
        record,
        1,
        4,
        record.subrange(4, 8),
    );
    lemma_feeds(
        before,
        after,
        region,
        lanes,
        l,
        formats(),
        VertexStepMode::Instance,
        i,
        record,
        2,
        8,
        record.subrange(8, 12),
    );
    lemma_feeds(
        before,
        after,
        region,
        lanes,
        l,
        formats(),
        VertexStepMode::Instance,
        i,
        record,
        3,
        12,
        record.subrange(12, 16),
    );
    lemma_feeds(
        before,
        after,
        region,
        lanes,
        l,
        formats(),
        VertexStepMode::Instance,
        i,
        record,
        4,
        16,
        record.subrange(16, 20),
    );
    lemma_feeds(
        before,
        after,
        region,
        lanes,
        l,
        formats(),
        VertexStepMode::Instance,
        i,
        record,
        5,
        20,
        record.subrange(20, 24),
    );
    lemma_feeds(
        before,
        after,
        region,
        lanes,
        l,
        formats(),
        VertexStepMode::Instance,
        i,
        record,
        6,
        24,
        record.subrange(24, 28),
    );
    lemma_feeds(
        before,
        after,
        region,
        lanes,
        l,
        formats(),
        VertexStepMode::Instance,
        i,
        record,
        7,
        28,
        record.subrange(28, 30),
    );
    lemma_feeds(
        before,
        after,
        region,
        lanes,
        l,
        formats(),
        VertexStepMode::Instance,
        i,
        record,
        8,
        30,
        record.subrange(30, 32),
    );
    lemma_feeds(
        before,
        after,
        region,
        lanes,
        l,
        formats(),
        VertexStepMode::Instance,
        i,
        record,
        9,
        32,
        record.subrange(32, 33),
    );
    lemma_feeds(
        before,
        after,
        region,
        lanes,
        l,
        formats(),
        VertexStepMode::Instance,
        i,
        record,
        10,
        33,
        record.subrange(33, 35),
    );
    lemma_feeds(
        before,
        after,
        region,
        lanes,
        l,
        formats(),
        VertexStepMode::Instance,
        i,
        record,
        11,
        35,
        record.subrange(35, 39),
    );
    lemma_feeds(
        before,
        after,
        region,
        lanes,
        l,
        formats(),
        VertexStepMode::Instance,
        i,
        record,
        12,
        39,
        record.subrange(39, 43),
    );
    lemma_feeds(
        before,
        after,
        region,
        lanes,
        l,
        formats(),
        VertexStepMode::Instance,
        i,
        record,
        13,
        43,
        record.subrange(43, 47),
    );
    lemma_feeds(
        before,
        after,
        region,
        lanes,
        l,
        formats(),
        VertexStepMode::Instance,
        i,
        record,
        14,
        47,
        record.subrange(47, 51),
    );
}

/// The parts of a record, by lane.
#[verifier::rlimit(40)]
proof fn lemma_parts(r: DecoratedInstance)
    ensures
        instance_lanes(r).len() == 51,
        instance_lanes(r).subrange(0, 4) == r.rect@,
        instance_lanes(r).subrange(4, 8) == r.color@,
        instance_lanes(r).subrange(8, 12) == r.radii@,
        instance_lanes(r).subrange(12, 16) == r.border_color@,
        instance_lanes(r).subrange(16, 20) == r.shadow_color@,
        instance_lanes(r).subrange(20, 24) == r.params@,
        instance_lanes(r).subrange(24, 28) == r.misc@,
        instance_lanes(r).subrange(28, 30) == r.t_translate@,
        instance_lanes(r).subrange(30, 32) == r.t_scale@,
        instance_lanes(r).subrange(32, 33) == seq![r.t_rotate],
        instance_lanes(r).subrange(33, 35) == r.t_origin@,
        instance_lanes(r).subrange(35, 39) == r.grad_from@,
        instance_lanes(r).subrange(39, 43) == r.grad_mid@,
        instance_lanes(r).subrange(43, 47) == r.grad_to@,
        instance_lanes(r).subrange(47, 51) == r.grad_axis@,
{
    assert(instance_lanes(r).subrange(0, 4) =~= r.rect@);
    assert(instance_lanes(r).subrange(4, 8) =~= r.color@);
    assert(instance_lanes(r).subrange(8, 12) =~= r.radii@);
    assert(instance_lanes(r).subrange(12, 16) =~= r.border_color@);
    assert(instance_lanes(r).subrange(16, 20) =~= r.shadow_color@);
    assert(instance_lanes(r).subrange(20, 24) =~= r.params@);
    assert(instance_lanes(r).subrange(24, 28) =~= r.misc@);
    assert(instance_lanes(r).subrange(28, 30) =~= r.t_translate@);
    assert(instance_lanes(r).subrange(30, 32) =~= r.t_scale@);
    assert(instance_lanes(r).subrange(32, 33) =~= seq![r.t_rotate]);
    assert(instance_lanes(r).subrange(33, 35) =~= r.t_origin@);
    assert(instance_lanes(r).subrange(35, 39) =~= r.grad_from@);
    assert(instance_lanes(r).subrange(39, 43) =~= r.grad_mid@);
    assert(instance_lanes(r).subrange(43, 47) =~= r.grad_to@);
    assert(instance_lanes(r).subrange(47, 51) =~= r.grad_axis@);
}

/// Record `i` of a batch lies behind the records before it.
proof fn lemma_record_at(boxes: Seq<DecoratedBox>, depths: Seq<u32>, i: int)
    requires
        0 <= i < boxes.len(),
    ensures
        batch_lanes(boxes, depths).subrange(51 * i, 51 * (i + 1)) == instance_lanes(
            instance_of(boxes[i], depth_of(depths, i)),
        ),
    decreases boxes.len(),
{
    let rest = boxes.drop_last();
    lemma_batch_len(rest, depths);
    lemma_batch_len(boxes, depths);
    let all = batch_lanes(boxes, depths);
    let record = instance_lanes(instance_of(boxes[i], depth_of(depths, i)));
    if i < rest.len() {
        lemma_record_at(rest, depths, i);
        assert(rest[i] == boxes[i]);
        assert(all.subrange(51 * i, 51 * (i + 1)) =~= batch_lanes(rest, depths).subrange(
            51 * i,
            51 * (i + 1),
        ));
    } else {
        assert(all.subrange(51 * i, 51 * (i + 1)) =~= record);
    }
}

/// What the shader reads of box `i` of a staged batch, location by location: each
/// is one of the box's own properties.
#[verifier::rlimit(50)]
pub proof fn law_staged_boxes_feed_their_locations(
    before: ArenaView,
    after: ArenaView,
    region: Region,
    boxes: Seq<DecoratedBox>,
    depths: Seq<u32>,
    l: VertexBufferLayout,
    i: int,
)
    requires
        batch_fits(before, 51 * boxes.len() as int),
        staged_batch(before, after, region, batch_lanes(boxes, depths)),
        lays_out(l, formats(), VertexStepMode::Instance),
        0 <= i < boxes.len(),
    ensures
        l.step_mode == VertexStepMode::Instance,
        feeds(after.staged, region, l, i, 1u32, VertexFormat::Float32x4, boxes[i].base.rect@),
        feeds(after.staged, region, l, i, 2u32, VertexFormat::Float32x4, boxes[i].base.color@),
        feeds(after.staged, region, l, i, 3u32, VertexFormat::Float32x4, boxes[i].base.radii@),
        feeds(after.staged, region, l, i, 4u32, VertexFormat::Float32x4, boxes[i].border_color@),
        feeds(after.staged, region, l, i, 5u32, VertexFormat::Float32x4, boxes[i].shadow_color@),
        feeds(
            after.staged,
            region,
            l,
            i,
            6u32,
            VertexFormat::Float32x4,
            seq![boxes[i].border_width, boxes[i].shadow_dx, boxes[i].shadow_dy, boxes[i].shadow_blur],
        ),
        feeds(after.staged, region, l, i, 7u32, VertexFormat::Float32x4, seq![
            boxes[i].opacity,
            (if i < depths.len() {
            depths[i]
        } else {
            0x3f80_0000u32
        }),
            boxes[i].shadow_spread,
            boxes[i].base.smooth,
        ]),
        feeds(
            after.staged,
            region,
            l,
            i,
            8u32,
            VertexFormat::Float32x2,
            boxes[i].base.transform.translate@,
        ),
        feeds(
            after.staged,
            region,
            l,
            i,
            9u32,
            VertexFormat::Float32x2,
            boxes[i].base.transform.scale@,
        ),
        feeds(
            after.staged,
            region,
            l,
            i,
            10u32,
            VertexFormat::Float32,
            seq![boxes[i].base.transform.rotate],
        ),
        feeds(
            after.staged,
            region,
            l,
            i,
            11u32,
            VertexFormat::Float32x2,
            boxes[i].base.transform.origin@,
        ),
        feeds(after.staged, region, l, i, 12u32, VertexFormat::Float32x4, (if boxes[i].gradient is Some {
            boxes[i].gradient->0.from@
        } else {
            seq![0u32, 0u32, 0u32, 0u32]
        })),
        feeds(after.staged, region, l, i, 13u32, VertexFormat::Float32x4, (if boxes[i].gradient is Some {
            boxes[i].gradient->0.mid@
        } else {
            seq![0u32, 0u32, 0u32, 0u32]
        })),
        feeds(after.staged, region, l, i, 14u32, VertexFormat::Float32x4, (if boxes[i].gradient is Some {
            boxes[i].gradient->0.to@
        } else {
            seq![0u32, 0u32, 0u32, 0u32]
        })),
        feeds(after.staged, region, l, i, 15u32, VertexFormat::Float32x4, (if boxes[i].gradient is Some {
            boxes[i].gradient->0.axis@
        } else {
            seq![0u32, 0u32, 0u32, 0u32]
        })),
{
    let lanes = batch_lanes(boxes, depths);
    let record = instance_lanes(instance_of(boxes[i], depth_of(depths, i)));
    lemma_parts(instance_of(boxes[i], depth_of(depths, i)));
    lemma_batch_len(boxes, depths);
    lemma_record_at(boxes, depths, i);
    law_record_fills_its_stride(instance_of(boxes[i], depth_of(depths, i)), l);
    assert(record.len() == 51);
    lemma_locations(before, after, region, lanes, l, i, record);
    assert(record.subrange(0, 4) =~= boxes[i].base.rect@);
    assert(record.subrange(4, 8) =~= boxes[i].base.color@);
    assert(record.subrange(8, 12) =~= boxes[i].base.radii@);
    assert(record.subrange(12, 16) =~= boxes[i].border_color@);
    assert(record.subrange(16, 20) =~= boxes[i].shadow_color@);
    assert(record.subrange(20, 24) =~= seq![boxes[i].border_width, boxes[i].shadow_dx, boxes[i].shadow_dy, boxes[i].shadow_blur]);
    assert(record.subrange(24, 28) =~= seq![
            boxes[i].opacity,
            (if i < depths.len() {
            depths[i]
        } else {
            0x3f80_0000u32
        }),
            boxes[i].shadow_spread,
            boxes[i].base.smooth,
        ]);
    assert(record.subrange(28, 30) =~= boxes[i].base.transform.translate@);
    assert(record.subrange(30, 32) =~= boxes[i].base.transform.scale@);
    assert(record.subrange(32, 33) =~= seq![boxes[i].base.transform.rotate]);
    assert(record.subrange(33, 35) =~= boxes[i].base.transform.origin@);
    assert(record.subrange(35, 39) =~= (if boxes[i].gradient is Some {
            boxes[i].gradient->0.from@
        } else {
            seq![0u32, 0u32, 0u32, 0u32]
        }));
    assert(record.subrange(39, 43) =~= (if boxes[i].gradient is Some {
            boxes[i].gradient->0.mid@
        } else {
            seq![0u32, 0u32, 0u32, 0u32]
        }));
    assert(record.subrange(43, 47) =~= (if boxes[i].gradient is Some {
            boxes[i].gradient->0.to@
        } else {
            seq![0u32, 0u32, 0u32, 0u32]
        }));
    assert(record.subrange(47, 51) =~= (if boxes[i].gradient is Some {
            boxes[i].gradient->0.axis@
        } else {
            seq![0u32, 0u32, 0u32, 0u32]
        }));
}

} // verus!
