//! The `Ripple` pipeline: expanding, fading circles of ink.
//!
//! Ink is composited premultiplied, so it works on light and dark surfaces
//! alike. It is transparent geometry: it tests depth and never writes it.

use super::descriptor::{
    binds_viewport, draw_depth_stencil_no_write, lays_out, pack, packed_size, push_lanes,
    quad_lanes, quad_layout, transparent_depth, viewport_layout, BindLayout, Blend, Lanes,
    PipelineDesc, TextureFormat, Topology, VertexBufferLayout, VertexFormat, VertexStepMode,
};
use super::instance_arena::{ArenaView, InstanceArena, Region};
use super::staging::{batch_fits, stage_lanes, staged_batch};
use crate::frame::RippleInstance;
use super::records::{feeds, lemma_feeds, lemma_offset};
use vstd::prelude::*;

verus! {

/// The lanes of one ripple.
pub open spec fn ripple_lanes(r: RippleInstance) -> Seq<u32> {
    r.rect@ + r.params@ + r.color@ + r.radii@ + r.t_translate@ + r.t_scale@ + seq![r.t_rotate]
        + r.t_origin@ + seq![r.depth]
}

/// The lanes of a batch. The depth is already on each ripple.
pub open spec fn batch_lanes(ripples: Seq<RippleInstance>) -> Seq<u32>
    decreases ripples.len(),
{
    if ripples.len() == 0 {
        Seq::empty()
    } else {
        batch_lanes(ripples.drop_last()) + ripple_lanes(ripples.last())
    }
}

/// Locations and formats of a ripple.
pub open spec fn formats() -> Lanes {
    seq![
        (1u32, VertexFormat::Float32x4),
        (2u32, VertexFormat::Float32x4),
        (3u32, VertexFormat::Float32x4),
        (4u32, VertexFormat::Float32x4),
        (5u32, VertexFormat::Float32x2),
        (6u32, VertexFormat::Float32x2),
        (7u32, VertexFormat::Float32),
        (8u32, VertexFormat::Float32x2),
        (9u32, VertexFormat::Float32),
    ]
}

impl RippleInstance {
    /// The instance layout, locations 1 to 9.
    pub fn layout() -> (l: VertexBufferLayout)
        ensures
            lays_out(l, formats(), VertexStepMode::Instance),
    {
        let lanes: [(u32, VertexFormat); 9] = [
            (1, VertexFormat::Float32x4),
            (2, VertexFormat::Float32x4),
            (3, VertexFormat::Float32x4),
            (4, VertexFormat::Float32x4),
            (5, VertexFormat::Float32x2),
            (6, VertexFormat::Float32x2),
            (7, VertexFormat::Float32),
            (8, VertexFormat::Float32x2),
            (9, VertexFormat::Float32),
        ];
        assert(lanes@ =~= formats());
        pack(lanes.as_slice(), VertexStepMode::Instance)
    }
}

/// Appends one ripple's lanes.
fn push_ripple(out: &mut Vec<u32>, r: &RippleInstance)
    ensures
        final(out)@ == old(out)@ + ripple_lanes(*r),
{
    let ghost before = out@;
    push_lanes(out, r.rect.as_slice());
    push_lanes(out, r.params.as_slice());
    push_lanes(out, r.color.as_slice());
    push_lanes(out, r.radii.as_slice());
    push_lanes(out, r.t_translate.as_slice());
    push_lanes(out, r.t_scale.as_slice());
    out.push(r.t_rotate);
    push_lanes(out, r.t_origin.as_slice());
    out.push(r.depth);
    assert(out@ =~= before + ripple_lanes(*r));
}

/// A ripple is exactly as long as its layout's stride.
pub proof fn law_record_fills_its_stride(r: RippleInstance, l: VertexBufferLayout)
    requires
        lays_out(l, formats(), VertexStepMode::Instance),
    ensures
        4 * ripple_lanes(r).len() == l.array_stride,
        l.array_stride == 96,
{
    reveal_with_fuel(packed_size, 10);
    assert(packed_size(formats()) == 96);
}

/// A batch takes 24 lanes per ripple.
proof fn lemma_batch_len(ripples: Seq<RippleInstance>)
    ensures
        batch_lanes(ripples).len() == 24 * ripples.len(),
    decreases ripples.len(),
{
    if ripples.len() > 0 {
        lemma_batch_len(ripples.drop_last());
    }
}

/// Stages a batch of ripples as they are.
pub fn stage(arena: &mut InstanceArena, ripples: &[RippleInstance]) -> (r: Region)
    requires
        old(arena).wf(),
        batch_fits(old(arena)@, 24 * ripples@.len() as int),
    ensures
        final(arena).wf(),
        staged_batch(old(arena)@, final(arena)@, r, batch_lanes(ripples@)),
{
    let mut lanes: Vec<u32> = Vec::new();
    let mut i: usize = 0;
    while i < ripples.len()
        invariant
            i <= ripples@.len(),
            lanes@ == batch_lanes(ripples@.take(i as int)),
        decreases ripples@.len() - i,
    {
        proof {
            assert(ripples@.take(i as int + 1).drop_last() =~= ripples@.take(i as int));
        }
        push_ripple(&mut lanes, &ripples[i]);
        i = i + 1;
    }
    proof {
        assert(ripples@.take(i as int) =~= ripples@);
        lemma_batch_len(ripples@);
    }
    stage_lanes(arena, lanes.as_slice())
}

/// What the pipeline is made of.
pub open spec fn describes(d: PipelineDesc, surface: TextureFormat) -> bool {
    &&& d.name@ == "Ripple"@
    &&& d.buffers@.len() == 2
    &&& lays_out(d.buffers@[0], quad_lanes(), VertexStepMode::Vertex)
    &&& lays_out(d.buffers@[1], formats(), VertexStepMode::Instance)
    &&& d.groups@.len() == 1
    &&& binds_viewport(d.groups@[0])
    &&& d.target == surface
    &&& d.blend == Blend::PremultipliedAlpha
    &&& d.topology == Topology::TriangleStrip
    &&& d.depth == Some(transparent_depth())
    &&& d.samples == 1
}

/// Describes the pipeline.
pub fn pipeline(surface: TextureFormat) -> (d: PipelineDesc)
    ensures
        describes(d, surface),
{
    let mut buffers: Vec<VertexBufferLayout> = Vec::new();
    buffers.push(quad_layout());
    buffers.push(RippleInstance::layout());
    let mut groups: Vec<BindLayout> = Vec::new();
    groups.push(viewport_layout());
    PipelineDesc {
        name: "Ripple",
        buffers,
        groups,
        target: surface,
        blend: Blend::PremultipliedAlpha,
        topology: Topology::TriangleStrip,
        depth: Some(draw_depth_stencil_no_write()),
        samples: 1,
    }
}

/// Where each location of a record starts.
proof fn lemma_offsets()
    ensures
        packed_size(formats().take(0)) == 0,
        packed_size(formats().take(1)) == 16,
        packed_size(formats().take(2)) == 32,
        packed_size(formats().take(3)) == 48,
        packed_size(formats().take(4)) == 64,
        packed_size(formats().take(5)) == 72,
        packed_size(formats().take(6)) == 80,
        packed_size(formats().take(7)) == 84,
        packed_size(formats().take(8)) == 92,
{
    lemma_offset(formats(), 0);
    lemma_offset(formats(), 1);
    lemma_offset(formats(), 2);
    lemma_offset(formats(), 3);
    lemma_offset(formats(), 4);
    lemma_offset(formats(), 5);
    lemma_offset(formats(), 6);
    lemma_offset(formats(), 7);
    lemma_offset(formats(), 8);
}

/// Each location reads its own lanes of a record.
proof fn lemma_locations(
    before: ArenaView,
    after: ArenaView,
    region: Region,
    lanes: Seq<u32>,
    l: VertexBufferLayout,
    i: int,
    record: Seq<u32>,
)
    requires
        staged_batch(before, after, region, lanes),
        batch_fits(before, lanes.len() as int),
        lays_out(l, formats(), VertexStepMode::Instance),
        l.array_stride == 96,
        record.len() == 24,
        0 <= i,
        24 * (i + 1) <= lanes.len(),
        lanes.subrange(24 * i, 24 * (i + 1)) == record,
    ensures
        feeds(after.staged, region, l, i, 1u32, VertexFormat::Float32x4, record.subrange(0, 4)),
        feeds(after.staged, region, l, i, 2u32, VertexFormat::Float32x4, record.subrange(4, 8)),
        feeds(after.staged, region, l, i, 3u32, VertexFormat::Float32x4, record.subrange(8, 12)),
        feeds(after.staged, region, l, i, 4u32, VertexFormat::Float32x4, record.subrange(12, 16)),
        feeds(after.staged, region, l, i, 5u32, VertexFormat::Float32x2, record.subrange(16, 18)),
        feeds(after.staged, region, l, i, 6u32, VertexFormat::Float32x2, record.subrange(18, 20)),
        feeds(after.staged, region, l, i, 7u32, VertexFormat::Float32, record.subrange(20, 21)),
        feeds(after.staged, region, l, i, 8u32, VertexFormat::Float32x2, record.subrange(21, 23)),
        feeds(after.staged, region, l, i, 9u32, VertexFormat::Float32, record.subrange(23, 24)),
{
    lemma_offsets();
    assert(i * record.len() == 24 * i && (i + 1) * record.len() == 24 * (i + 1));
    lemma_feeds(
        before,
        after,
        region,
        lanes,
        l,
        formats(),
        VertexStepMode::Instance,
        i,
        record,
        0,
        0,
        record.subrange(0, 4),
    );
    lemma_feeds(
        before,
        after,
        region,
        lanes,
        l,
        formats(),
        VertexStepMode::Instance,
        i,
        record,
        1,
        4,
        record.subrange(4, 8),
    );
    lemma_feeds(
        before,
        after,
        region,
        lanes,
        l,
        formats(),
        VertexStepMode::Instance,
        i,
        record,
        2,
        8,
        record.subrange(8, 12),
    );
    lemma_feeds(
        before,
        after,
        region,
        lanes,
        l,
        formats(),
        VertexStepMode::Instance,
        i,
        record,
        3,
        12,
        record.subrange(12, 16),
    );
    lemma_feeds(
        before,
        after,
        region,
        lanes,
        l,
        formats(),
        VertexStepMode::Instance,
        i,
        record,
        4,
        16,
        record.subrange(16, 18),
    );
    lemma_feeds(
        before,
        after,
        region,
        lanes,
        l,
        formats(),
        VertexStepMode::Instance,
        i,
        record,
        5,
        18,
        record.subrange(18, 20),
    );
    lemma_feeds(
        before,
        after,
        region,
        lanes,
        l,
        formats(),
        VertexStepMode::Instance,
        i,
        record,
        6,
        20,
        record.subrange(20, 21),
    );
    lemma_feeds(
        before,
        after,
        region,
        lanes,
        l,
        formats(),
        VertexStepMode::Instance,
        i,
        record,
        7,
        21,
        record.subrange(21, 23),
    );
    lemma_feeds(
        before,
        after,
        region,
        lanes,
        l,
        formats(),
        VertexStepMode::Instance,
        i,
        record,
        8,
        23,
        record.subrange(23, 24),
    );
}

/// Record `i` of a batch lies behind the records before it.
proof fn lemma_record_at(ripples: Seq<RippleInstance>, i: int)
    requires
        0 <= i < ripples.len(),
    ensures
        batch_lanes(ripples).subrange(24 * i, 24 * (i + 1)) == ripple_lanes(ripples[i]),
    decreases ripples.len(),
{
    let rest = ripples.drop_last();
    lemma_batch_len(rest);
    lemma_batch_len(ripples);
    let all = batch_lanes(ripples);
    if i < rest.len() {
        lemma_record_at(rest, i);
        assert(rest[i] == ripples[i]);
        assert(all.subrange(24 * i, 24 * (i + 1)) =~= batch_lanes(rest).subrange(
            24 * i,
            24 * (i + 1),
        ));
    } else {
        assert(all.subrange(24 * i, 24 * (i + 1)) =~= ripple_lanes(ripples[i]));
    }
}

/// What the shader reads of ripple `i` of a staged batch, location by location:
/// each is one of the ripple's own properties.
pub proof fn law_staged_ripples_feed_their_locations(
    before: ArenaView,
    after: ArenaView,
    region: Region,
    ripples: Seq<RippleInstance>,
    l: VertexBufferLayout,
    i: int,
)
    requires
        batch_fits(before, 24 * ripples.len() as int),
        staged_batch(before, after, region, batch_lanes(ripples)),
        lays_out(l, formats(), VertexStepMode::Instance),
        0 <= i < ripples.len(),
    ensures
        l.step_mode == VertexStepMode::Instance,
        feeds(after.staged, region, l, i, 1u32, VertexFormat::Float32x4, ripples[i].rect@),
        feeds(after.staged, region, l, i, 2u32, VertexFormat::Float32x4, ripples[i].params@),
        feeds(after.staged, region, l, i, 3u32, VertexFormat::Float32x4, ripples[i].color@),
        feeds(after.staged, region, l, i, 4u32, VertexFormat::Float32x4, ripples[i].radii@),
        feeds(after.staged, region, l, i, 5u32, VertexFormat::Float32x2, ripples[i].t_translate@),
        feeds(after.staged, region, l, i, 6u32, VertexFormat::Float32x2, ripples[i].t_scale@),
        feeds(after.staged, region, l, i, 7u32, VertexFormat::Float32, seq![ripples[i].t_rotate]),
        feeds(after.staged, region, l, i, 8u32, VertexFormat::Float32x2, ripples[i].t_origin@),
        feeds(after.staged, region, l, i, 9u32, VertexFormat::Float32, seq![ripples[i].depth]),
{
    let lanes = batch_lanes(ripples);
    let record = ripple_lanes(ripples[i]);
    lemma_batch_len(ripples);
    lemma_record_at(ripples, i);
    law_record_fills_its_stride(ripples[i], l);
    assert(record.len() == 24);
    lemma_locations(before, after, region, lanes, l, i, record);
    assert(record.subrange(0, 4) =~= ripples[i].rect@);
    assert(record.subrange(4, 8) =~= ripples[i].params@);
    assert(record.subrange(8, 12) =~= ripples[i].color@);
    assert(record.subrange(12, 16) =~= ripples[i].radii@);
    assert(record.subrange(16, 18) =~= ripples[i].t_translate@);
    assert(record.subrange(18, 20) =~= ripples[i].t_scale@);
    assert(record.subrange(20, 21) =~= seq![ripples[i].t_rotate]);
    assert(record.subrange(21, 23) =~= ripples[i].t_origin@);
    assert(record.subrange(23, 24) =~= seq![ripples[i].depth]);
}

} // verus!
