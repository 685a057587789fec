//! The `CanvasShape` pipeline: arcs, circles, lines and rectangles evaluated
//! analytically in the shader. Transparent geometry.

use super::descriptor::{
    binds, binds_viewport, draw_depth_stencil_no_write, lays_out, pack, packed_size, push_lanes,
    quad_lanes, quad_layout, transparent_depth, viewport_layout, BindEntry, BindLayout, Binding,
    Blend, Lanes, PipelineDesc, TextureFormat, Topology, VertexBufferLayout, VertexFormat,
    VertexStepMode, Visibility,
};
use super::instance_arena::{no_region, ArenaView, InstanceArena, Region};
use super::staging::{
    batch_fits, depth_at, depth_of, ramp, ramp_axis, ramp_from, ramp_kind, ramp_mid, ramp_to,
    nothing, stage_lanes, staged_batch,
};
use crate::pattern::{real_of, stands_for};
use crate::frame::{CanvasShape, GROUP_NONE};
use crate::wide::{lemma_stands_for_its_value, nearest_to};
use super::records::{feeds, lemma_feeds, lemma_offset};
use vstd::prelude::*;

verus! {

/// One shape as the shader reads it.
#[derive(Clone, Copy, Debug, PartialEq, Eq)]
pub struct CanvasShapeInstance {
    /// Quad bounds.
    pub rect: [u32; 4],
    /// Shape parameters, first half.
    pub params0: [u32; 4],
    /// Shape parameters, second half.
    pub params1: [u32; 4],
    /// Stroke colour.
    pub stroke_color: [u32; 4],
    /// Fill colour.
    pub fill_color: [u32; 4],
    /// Stroke width, dash length, dash gap, dash phase.
    pub stroke_dash: [u32; 4],
    /// Opacity, depth, kind, cap.
    pub misc: [u32; 4],
    /// Transform translation.
    pub t_translate: [u32; 2],
    /// Transform scale.
    pub t_scale: [u32; 2],
    /// Transform rotation.
    pub t_rotate: u32,
    /// Transform pivot.
    pub t_origin: [u32; 2],
    /// Group mode, parameter, first member, member count.
    pub group: [u32; 4],
    /// Stroke-gradient start colour.
    pub grad_from: [u32; 4],
    /// Stroke-gradient middle colour.
    pub grad_mid: [u32; 4],
    /// Stroke-gradient end colour.
    pub grad_to: [u32; 4],
    /// Stroke-gradient control numbers.
    pub grad_axis: [u32; 4],
    /// Stroke-gradient kind.
    pub grad_kind: u32,
}

/// Whether `bits` is the real number nearest to the integer `n`.
pub open spec fn carries(bits: u32, n: u32) -> bool {
    &&& n == 0 ==> bits == 0
    &&& n > 0 ==> exists|k: int| 0 <= k < 32 && #[trigger] stands_for(bits, n as int, k)
}

/// Whether a record is that of shape `s` at a depth, its group's first member
/// at `first`.
pub open spec fn packs(r: CanvasShapeInstance, s: CanvasShape, depth: u32, first: u32) -> bool {
    &&& r.rect == s.bounds
    &&& r.params0@ == s.params@.subrange(0, 4)
    &&& r.params1@ == s.params@.subrange(4, 8)
    &&& r.stroke_color == s.stroke_color
    &&& r.fill_color == s.fill_color
    &&& r.stroke_dash@ == seq![s.stroke_width, s.dash[0], s.dash[1], s.dash_offset]
    &&& r.misc[0] == s.opacity
    &&& r.misc[1] == depth
    &&& carries(r.misc[2], s.kind)
    &&& carries(r.misc[3], s.cap)
    &&& r.t_translate == s.transform.translate
    &&& r.t_scale == s.transform.scale
    &&& r.t_rotate == s.transform.rotate
    &&& r.t_origin == s.transform.origin
    &&& carries(r.group[0], s.group_mode)
    &&& r.group[1] == s.group_param
    &&& carries(r.group[2], first)
    &&& carries(r.group[3], s.group_count)
    &&& r.grad_from == ramp_from(s.stroke_gradient)
    &&& r.grad_mid == ramp_mid(s.stroke_gradient)
    &&& r.grad_to == ramp_to(s.stroke_gradient)
    &&& r.grad_axis == ramp_axis(s.stroke_gradient)
    &&& r.grad_kind == ramp_kind(s.stroke_gradient)
}

/// The lanes of one record.
pub open spec fn instance_lanes(r: CanvasShapeInstance) -> Seq<u32> {
    r.rect@ + r.params0@ + r.params1@ + r.stroke_color@ + r.fill_color@ + r.stroke_dash@ + r.misc@
        + r.t_translate@ + r.t_scale@ + seq![r.t_rotate] + r.t_origin@ + r.group@ + r.grad_from@
        + r.grad_mid@ + r.grad_to@ + r.grad_axis@ + seq![r.grad_kind]
}

/// The lanes of a batch of records.
pub open spec fn batch_lanes(records: Seq<CanvasShapeInstance>) -> Seq<u32>
    decreases records.len(),
{
    if records.len() == 0 {
        Seq::empty()
    } else {
        batch_lanes(records.drop_last()) + instance_lanes(records.last())
    }
}

/// The first member a shape's record names: a group head's is taken from
/// where the frame's record pool landed, any other's is as it was.
pub open spec fn first_member(s: CanvasShape, record_base: u32) -> int {
    if s.group_mode != GROUP_NONE {
        record_base + s.group_first
    } else {
        s.group_first as int
    }
}

/// Locations and formats of a record: with the quad's, exactly as many
/// attributes as every adapter guarantees.
pub open spec fn formats() -> Lanes {
    seq![
        (1u32, VertexFormat::Float32x4),
        (2u32, VertexFormat::Float32x4),
        (3u32, VertexFormat::Float32x4),
        (4u32, VertexFormat::Float32x4),
        (5u32, VertexFormat::Float32x4),
        (6u32, VertexFormat::Float32x4),
        (7u32, VertexFormat::Float32x4),
        (8u32, VertexFormat::Float32x4),
        (9u32, VertexFormat::Float32x3),
        (10u32, VertexFormat::Float32x4),
        (11u32, VertexFormat::Float32x4),
        (12u32, VertexFormat::Float32x4),
        (13u32, VertexFormat::Float32x4),
        (14u32, VertexFormat::Float32x4),
        (15u32, VertexFormat::Uint32),
    ]
}

impl CanvasShapeInstance {
    /// The record of a shape at a depth. Kind, cap and group numbers are small
    /// integers carried as real numbers.
    pub fn new(s: &CanvasShape, depth: u32) -> (r: CanvasShapeInstance)
        ensures
            packs(r, *s, depth, s.group_first),
    {
        Self::placed(s, depth, s.group_first)
    }

    /// The record of a shape whose group's first member is at `first`.
    fn placed(s: &CanvasShape, depth: u32, first: u32) -> (r: CanvasShapeInstance)
        ensures
            packs(r, *s, depth, first),
    {
        let (grad_from, grad_mid, grad_to, grad_axis, grad_kind) = ramp(s.stroke_gradient);
        let r = CanvasShapeInstance {
            rect: s.bounds,
            params0: [s.params[0], s.params[1], s.params[2], s.params[3]],
            params1: [s.params[4], s.params[5], s.params[6], s.params[7]],
            stroke_color: s.stroke_color,
            fill_color: s.fill_color,
            stroke_dash: [s.stroke_width, s.dash[0], s.dash[1], s.dash_offset],
            misc: [s.opacity, depth, real_of(s.kind), real_of(s.cap)],
            t_translate: s.transform.translate,
            t_scale: s.transform.scale,
            t_rotate: s.transform.rotate,
            t_origin: s.transform.origin,
            group: [real_of(s.group_mode), s.group_param, real_of(first), real_of(s.group_count)],
            grad_from,
            grad_mid,
            grad_to,
            grad_axis,
            grad_kind,
        };
        assert(r.params0@ =~= s.params@.subrange(0, 4));
        assert(r.params1@ =~= s.params@.subrange(4, 8));
        assert(r.stroke_dash@ =~= seq![s.stroke_width, s.dash[0], s.dash[1], s.dash_offset]);
        r
    }

    /// The instance layout, locations 1 to 15.
    pub fn layout() -> (l: VertexBufferLayout)
        ensures
            lays_out(l, formats(), VertexStepMode::Instance),
    {
        let lanes: [(u32, VertexFormat); 15] = [
            (1, VertexFormat::Float32x4),
            (2, VertexFormat::Float32x4),
            (3, VertexFormat::Float32x4),
            (4, VertexFormat::Float32x4),
            (5, VertexFormat::Float32x4),
            (6, VertexFormat::Float32x4),
            (7, VertexFormat::Float32x4),
            (8, VertexFormat::Float32x4),
            (9, VertexFormat::Float32x3),
            (10, VertexFormat::Float32x4),
            (11, VertexFormat::Float32x4),
            (12, VertexFormat::Float32x4),
            (13, VertexFormat::Float32x4),
            (14, VertexFormat::Float32x4),
            (15, VertexFormat::Uint32),
        ];
        assert(lanes@ =~= formats());
        pack(lanes.as_slice(), VertexStepMode::Instance)
    }

    /// Appends the record's lanes.
    fn push(&self, out: &mut Vec<u32>)
        ensures
            final(out)@ == old(out)@ + instance_lanes(*self),
    {
        let ghost before = out@;
        push_lanes(out, self.rect.as_slice());
        push_lanes(out, self.params0.as_slice());
        push_lanes(out, self.params1.as_slice());
        push_lanes(out, self.stroke_color.as_slice());
        push_lanes(out, self.fill_color.as_slice());
        push_lanes(out, self.stroke_dash.as_slice());
        push_lanes(out, self.misc.as_slice());
        push_lanes(out, self.t_translate.as_slice());
        push_lanes(out, self.t_scale.as_slice());
        out.push(self.t_rotate);
        push_lanes(out, self.t_origin.as_slice());
        push_lanes(out, self.group.as_slice());
        push_lanes(out, self.grad_from.as_slice());
        push_lanes(out, self.grad_mid.as_slice());
        push_lanes(out, self.grad_to.as_slice());
        push_lanes(out, self.grad_axis.as_slice());
        out.push(self.grad_kind);
        assert(out@ =~= before + instance_lanes(*self));
    }
}

/// A record is exactly as long as its layout's stride.
pub proof fn law_record_fills_its_stride(r: CanvasShapeInstance, l: VertexBufferLayout)
    requires
        lays_out(l, formats(), VertexStepMode::Instance),
    ensures
        4 * instance_lanes(r).len() == l.array_stride,
        l.array_stride == 224,
{
    reveal_with_fuel(packed_size, 16);
    assert(packed_size(formats()) == 224);
}

/// A batch takes 56 lanes per record.
proof fn lemma_batch_len(records: Seq<CanvasShapeInstance>)
    ensures
        batch_lanes(records).len() == 56 * records.len(),
    decreases records.len(),
{
    if records.len() > 0 {
        lemma_batch_len(records.drop_last());
    }
}

/// Stages a batch. `record_base` is where the frame's record pool landed in
/// the arena, as an element index; a group head's first member is taken from
/// there. `records` holds the batch's records afterwards; an empty batch leaves
/// it alone.
pub fn stage(
    arena: &mut InstanceArena,
    records: &mut Vec<CanvasShapeInstance>,
    shapes: &[CanvasShape],
    depths: &[u32],
    record_base: u32,
) -> (r: Region)
    requires
        old(arena).wf(),
        batch_fits(old(arena)@, 56 * shapes@.len() as int),
        forall|i: int|
            0 <= i < shapes@.len() ==> first_member(#[trigger] shapes@[i], record_base) <= u32::MAX,
    ensures
        final(arena).wf(),
        shapes@.len() == 0 ==> {
            &&& final(records)@ == old(records)@
            &&& final(arena)@ == old(arena)@
            &&& r == no_region()
        },
        shapes@.len() > 0 ==> final(records)@.len() == shapes@.len(),
        forall|i: int|
            0 <= i < shapes@.len() ==> packs(
                #[trigger] final(records)@[i],
                shapes@[i],
                depth_of(depths@, i),
                first_member(shapes@[i], record_base) as u32,
            ),
        shapes@.len() > 0 ==> staged_batch(
            old(arena)@,
            final(arena)@,
            r,
            batch_lanes(final(records)@),
        ),
{
    if shapes.len() == 0 {
        return Region::default();
    }
    records.clear();
    let mut lanes: Vec<u32> = Vec::new();
    let mut i: usize = 0;
    while i < shapes.len()
        invariant
            i <= shapes@.len(),
            records@.len() == i,
            lanes@ == batch_lanes(records@),
            forall|j: int|
                0 <= j < shapes@.len() ==> first_member(#[trigger] shapes@[j], record_base)
                    <= u32::MAX,
            forall|j: int|
                0 <= j < i ==> packs(
                    #[trigger] records@[j],
                    shapes@[j],
                    depth_of(depths@, j),
                    first_member(shapes@[j], record_base) as u32,
                ),
        decreases shapes@.len() - i,
    {
        let s: &CanvasShape = &shapes[i];
        assert(first_member(shapes@[i as int], record_base) <= u32::MAX);
        let first: u32 = if s.group_mode != GROUP_NONE {
            record_base + s.group_first
        } else {
            s.group_first
        };
        let record: CanvasShapeInstance = CanvasShapeInstance::placed(s, depth_at(depths, i), first);
        record.push(&mut lanes);
        let ghost before = records@;
        records.push(record);
        proof {
            assert(records@.drop_last() =~= before);
        }
        i = i + 1;
    }
    proof {
        lemma_batch_len(records@);
    }
    stage_lanes(arena, lanes.as_slice())
}

/// The frame's record pool, read in the fragment stage.
pub open spec fn record_entries() -> Seq<BindEntry> {
    seq![BindEntry { binding: 0, visibility: Visibility::Fragment, kind: Binding::Storage }]
}

/// Whether a layout is that of the record pool.
pub open spec fn binds_records(l: BindLayout) -> bool {
    binds(l, "ByardCore - CanvasShape Records Layout"@, record_entries())
}

/// The record pool's bind-group layout. It is bound whole, at offset zero.
pub fn records_bind_group_layout() -> (l: BindLayout)
    ensures
        binds_records(l),
{
    let mut entries: Vec<BindEntry> = Vec::new();
    entries.push(
        BindEntry { binding: 0, visibility: Visibility::Fragment, kind: Binding::Storage },
    );
    assert(entries@ =~= record_entries());
    BindLayout { label: "ByardCore - CanvasShape Records Layout", entries }
}

/// What the pipeline is made of.
pub open spec fn describes(d: PipelineDesc, surface: TextureFormat) -> bool {
    &&& d.name@ == "CanvasShape"@
    &&& d.buffers@.len() == 2
    &&& lays_out(d.buffers@[0], quad_lanes(), VertexStepMode::Vertex)
    &&& lays_out(d.buffers@[1], formats(), VertexStepMode::Instance)
    &&& d.groups@.len() == 2
    &&& binds_viewport(d.groups@[0])
    &&& binds_records(d.groups@[1])
    &&& d.target == surface
    &&& d.blend == Blend::Alpha
    &&& d.topology == Topology::TriangleStrip
    &&& d.depth == Some(transparent_depth())
    &&& d.samples == 1
}

/// Describes the pipeline.
pub fn pipeline(surface: TextureFormat) -> (d: PipelineDesc)
    ensures
        describes(d, surface),
{
    let mut buffers: Vec<VertexBufferLayout> = Vec::new();
    buffers.push(quad_layout());
    buffers.push(CanvasShapeInstance::layout());
    let mut groups: Vec<BindLayout> = Vec::new();
    groups.push(viewport_layout());
    groups.push(records_bind_group_layout());
    PipelineDesc {
        name: "CanvasShape",
        buffers,
        groups,
        target: surface,
        blend: Blend::Alpha,
        topology: Topology::TriangleStrip,
        depth: Some(draw_depth_stencil_no_write()),
        samples: 1,
    }
}

/// Where each location of a record starts.
proof fn lemma_offsets()
    ensures
        packed_size(formats().take(0)) == 0,
        packed_size(formats().take(1)) == 16,
        packed_size(formats().take(2)) == 32,
        packed_size(formats().take(3)) == 48,
        packed_size(formats().take(4)) == 64,
        packed_size(formats().take(5)) == 80,
        packed_size(formats().take(6)) == 96,
        packed_size(formats().take(7)) == 112,
        packed_size(formats().take(8)) == 128,
        packed_size(formats().take(9)) == 140,
        packed_size(formats().take(10)) == 156,
        packed_size(formats().take(11)) == 172,
        packed_size(formats().take(12)) == 188,
        packed_size(formats().take(13)) == 204,
        packed_size(formats().take(14)) == 220,
{
    lemma_offset(formats(), 0);
    lemma_offset(formats(), 1);
    lemma_offset(formats(), 2);
    lemma_offset(formats(), 3);
    lemma_offset(formats(), 4);
    lemma_offset(formats(), 5);
    lemma_offset(formats(), 6);
    lemma_offset(formats(), 7);
    lemma_offset(formats(), 8);
    lemma_offset(formats(), 9);
    lemma_offset(formats(), 10);
    lemma_offset(formats(), 11);
    lemma_offset(formats(), 12);
    lemma_offset(formats(), 13);
    lemma_offset(formats(), 14);
}

/// Each location reads its own lanes of a record.
proof fn lemma_locations(
    before: ArenaView,
    after: ArenaView,
    region: Region,
    lanes: Seq<u32>,
    l: VertexBufferLayout,
    i: int,
    record: Seq<u32>,
)
    requires
        staged_batch(before, after, region, lanes),
        batch_fits(before, lanes.len() as int),
        lays_out(l, formats(), VertexStepMode::Instance),
        l.array_stride == 224,
        record.len() == 56,
        0 <= i,
        56 * (i + 1) <= lanes.len(),
        lanes.subrange(56 * i, 56 * (i + 1)) == record,
    ensures
        feeds(after.staged, region, l, i, 1u32, VertexFormat::Float32x4, record.subrange(0, 4)),
        feeds(after.staged, region, l, i, 2u32, VertexFormat::Float32x4, record.subrange(4, 8)),
        feeds(after.staged, region, l, i, 3u32, VertexFormat::Float32x4, record.subrange(8, 12)),
        feeds(after.staged, region, l, i, 4u32, VertexFormat::Float32x4, record.subrange(12, 16)),
        feeds(after.staged, region, l, i, 5u32, VertexFormat::Float32x4, record.subrange(16, 20)),
        feeds(after.staged, region, l, i, 6u32, VertexFormat::Float32x4, record.subrange(20, 24)),
        feeds(after.staged, region, l, i, 7u32, VertexFormat::Float32x4, record.subrange(24, 28)),
        feeds(after.staged, region, l, i, 8u32, VertexFormat::Float32x4, record.subrange(28, 32)),
        feeds(after.staged, region, l, i, 9u32, VertexFormat::Float32x3, record.subrange(32, 35)),
        feeds(after.staged, region, l, i, 10u32, VertexFormat::Float32x4, record.subrange(35, 39)),
        feeds(after.staged, region, l, i, 11u32, VertexFormat::Float32x4, record.subrange(39, 43)),
        feeds(after.staged, region, l, i, 12u32, VertexFormat::Float32x4, record.subrange(43, 47)),
        feeds(after.staged, region, l, i, 13u32, VertexFormat::Float32x4, record.subrange(47, 51)),
        feeds(after.staged, region, l, i, 14u32, VertexFormat::Float32x4, record.subrange(51, 55)),
        feeds(after.staged, region, l, i, 15u32, VertexFormat::Uint32, record.subrange(55, 56)),
{
    lemma_offsets();
    assert(i * record.len() == 56 * i && (i + 1) * record.len() == 56 * (i + 1));
    lemma_feeds(
        before,
        after,
        region,
        lanes,
        l,
        formats(),
        VertexStepMode::Instance,
        i,
        record,
        0,
        0,
        record.subrange(0, 4),
    );
    lemma_feeds(
        before,
        after,
        region,
        lanes,
        l,
        formats(),
        VertexStepMode::Instance,
        i,
        record,
        1,
        4,
        record.subrange(4, 8),
    );
    lemma_feeds(
        before,
        after,
        region,
        lanes,
        l,
        formats(),
        VertexStepMode::Instance,
        i,
        record,
        2,
        8,
        record.subrange(8, 12),
    );
    lemma_feeds(
        before,
        after,
        region,
        lanes,
        l,
        formats(),
        VertexStepMode::Instance,
        i,
        record,
        3,
        12,
        record.subrange(12, 16),
    );
    lemma_feeds(
        before,
        after,
        region,
        lanes,
        l,
        formats(),
        VertexStepMode::Instance,
        i,
        record,
        4,
        16,
        record.subrange(16, 20),
    );
    lemma_feeds(
        before,
        after,
        region,
        lanes,
        l,
        formats(),
        VertexStepMode::Instance,
        i,
        record,
        5,
        20,
        record.subrange(20, 24),
    );
    lemma_feeds(
        before,
        after,
        region,
        lanes,
        l,
        formats(),
        VertexStepMode::Instance,
        i,
        record,
        6,
        24,
        record.subrange(24, 28),
    );
    lemma_feeds(
        before,
        after,
        region,
        lanes,
        l,
        formats(),
        VertexStepMode::Instance,
        i,
        record,
        7,
        28,
        record.subrange(28, 32),
    );
    lemma_feeds(
        before,
        after,
        region,
        lanes,
        l,
        formats(),
        VertexStepMode::Instance,
        i,
        record,
        8,
        32,
        record.subrange(32, 35),
    );
    lemma_feeds(
        before,
        after,
        region,
        lanes,
        l,
        formats(),
        VertexStepMode::Instance,
        i,
        record,
        9,
        35,
        record.subrange(35, 39),
    );
    lemma_feeds(
        before,
        after,
        region,
        lanes,
        l,
        formats(),
        VertexStepMode::Instance,
        i,
        record,
        10,
        39,
        record.subrange(39, 43),
    );
    lemma_feeds(
        before,
        after,
        region,
        lanes,
        l,
        formats(),
        VertexStepMode::Instance,
        i,
        record,
        11,
        43,
        record.subrange(43, 47),
    );
    lemma_feeds(
        before,
        after,
        region,
        lanes,
        l,
        formats(),
        VertexStepMode::Instance,
        i,
        record,
        12,
        47,
        record.subrange(47, 51),
    );
    lemma_feeds(
        before,
        after,
        region,
        lanes,
        l,
        formats(),
        VertexStepMode::Instance,
        i,
        record,
        13,
        51,
        record.subrange(51, 55),
    );
    lemma_feeds(
        before,
        after,
        region,
        lanes,
        l,
        formats(),
        VertexStepMode::Instance,
        i,
        record,
        14,
        55,
        record.subrange(55, 56),
    );
}

/// The parts of a record, by lane.
#[verifier::rlimit(40)]
proof fn lemma_parts(r: CanvasShapeInstance)
    ensures
        instance_lanes(r).len() == 56,
        instance_lanes(r).subrange(0, 4) == r.rect@,
        instance_lanes(r).subrange(4, 8) == r.params0@,
        instance_lanes(r).subrange(8, 12) == r.params1@,
        instance_lanes(r).subrange(12, 16) == r.stroke_color@,
        instance_lanes(r).subrange(16, 20) == r.fill_color@,
        instance_lanes(r).subrange(20, 24) == r.stroke_dash@,
        instance_lanes(r).subrange(24, 28) == r.misc@,
        instance_lanes(r).subrange(28, 32) == r.t_translate@ + r.t_scale@,
        instance_lanes(r).subrange(32, 35) == seq![r.t_rotate] + r.t_origin@,
        instance_lanes(r).subrange(35, 39) == r.group@,
        instance_lanes(r).subrange(39, 43) == r.grad_from@,
        instance_lanes(r).subrange(43, 47) == r.grad_mid@,
        instance_lanes(r).subrange(47, 51) == r.grad_to@,
        instance_lanes(r).subrange(51, 55) == r.grad_axis@,
        instance_lanes(r).subrange(55, 56) == seq![r.grad_kind],
{
    assert(instance_lanes(r).subrange(0, 4) =~= r.rect@);
    assert(instance_lanes(r).subrange(4, 8) =~= r.params0@);
    assert(instance_lanes(r).subrange(8, 12) =~= r.params1@);
    assert(instance_lanes(r).subrange(12, 16) =~= r.stroke_color@);
    assert(instance_lanes(r).subrange(16, 20) =~= r.fill_color@);
    assert(instance_lanes(r).subrange(20, 24) =~= r.stroke_dash@);
    assert(instance_lanes(r).subrange(24, 28) =~= r.misc@);
    assert(instance_lanes(r).subrange(28, 32) =~= r.t_translate@ + r.t_scale@);
    assert(instance_lanes(r).subrange(32, 35) =~= seq![r.t_rotate] + r.t_origin@);
    assert(instance_lanes(r).subrange(35, 39) =~= r.group@);
    assert(instance_lanes(r).subrange(39, 43) =~= r.grad_from@);
    assert(instance_lanes(r).subrange(43, 47) =~= r.grad_mid@);
    assert(instance_lanes(r).subrange(47, 51) =~= r.grad_to@);
    assert(instance_lanes(r).subrange(51, 55) =~= r.grad_axis@);
    assert(instance_lanes(r).subrange(55, 56) =~= seq![r.grad_kind]);
}

/// A pattern that carries an integer has its value.
proof fn lemma_carried_is_nearest(bits: u32, n: u32)
    requires
        carries(bits, n),
    ensures
        nearest_to(bits, n as int),
{
    if n > 0 {
        let k = choose|k: int| 0 <= k < 32 && #[trigger] stands_for(bits, n as int, k);
        lemma_stands_for_its_value(bits, n as int, k);
    } else {
        assert(0 * vstd::arithmetic::power2::pow2(2) == 0) by (nonlinear_arith);
        assert(0 * vstd::arithmetic::power2::pow2(151) == 0) by (nonlinear_arith);
    }
}

/// Record `i` of a batch lies behind the records before it.
proof fn lemma_record_at(records: Seq<CanvasShapeInstance>, i: int)
    requires
        0 <= i < records.len(),
    ensures
        batch_lanes(records).subrange(56 * i, 56 * (i + 1)) == instance_lanes(records[i]),
    decreases records.len(),
{
    let rest = records.drop_last();
    lemma_batch_len(rest);
    lemma_batch_len(records);
    let all = batch_lanes(records);
    if i < rest.len() {
        lemma_record_at(rest, i);
        assert(rest[i] == records[i]);
        assert(all.subrange(56 * i, 56 * (i + 1)) =~= batch_lanes(rest).subrange(
            56 * i,
            56 * (i + 1),
        ));
    } else {
        assert(all.subrange(56 * i, 56 * (i + 1)) =~= instance_lanes(records[i]));
    }
}

/// Each location reads the field of a record that it stands for.
#[verifier::rlimit(50)]
proof fn lemma_record_feeds(
    before: ArenaView,
    after: ArenaView,
    region: Region,
    records: Seq<CanvasShapeInstance>,
    l: VertexBufferLayout,
    i: int,
)
    requires
        batch_fits(before, 56 * records.len() as int),
        staged_batch(before, after, region, batch_lanes(records)),
        lays_out(l, formats(), VertexStepMode::Instance),
        0 <= i < records.len(),
    ensures
        feeds(after.staged, region, l, i, 1u32, VertexFormat::Float32x4, records[i].rect@),
        feeds(after.staged, region, l, i, 2u32, VertexFormat::Float32x4, records[i].params0@),
        feeds(after.staged, region, l, i, 3u32, VertexFormat::Float32x4, records[i].params1@),
        feeds(after.staged, region, l, i, 4u32, VertexFormat::Float32x4, records[i].stroke_color@),
        feeds(after.staged, region, l, i, 5u32, VertexFormat::Float32x4, records[i].fill_color@),
        feeds(after.staged, region, l, i, 6u32, VertexFormat::Float32x4, records[i].stroke_dash@),
        feeds(after.staged, region, l, i, 7u32, VertexFormat::Float32x4, records[i].misc@),
        feeds(
            after.staged,
            region,
            l,
            i,
            8u32,
            VertexFormat::Float32x4,
            records[i].t_translate@ + records[i].t_scale@,
        ),
        feeds(
            after.staged,
            region,
            l,
            i,
            9u32,
            VertexFormat::Float32x3,
            seq![records[i].t_rotate] + records[i].t_origin@,
        ),
        feeds(after.staged, region, l, i, 10u32, VertexFormat::Float32x4, records[i].group@),
        feeds(after.staged, region, l, i, 11u32, VertexFormat::Float32x4, records[i].grad_from@),
        feeds(after.staged, region, l, i, 12u32, VertexFormat::Float32x4, records[i].grad_mid@),
        feeds(after.staged, region, l, i, 13u32, VertexFormat::Float32x4, records[i].grad_to@),
        feeds(after.staged, region, l, i, 14u32, VertexFormat::Float32x4, records[i].grad_axis@),
        feeds(after.staged, region, l, i, 15u32, VertexFormat::Uint32, seq![records[i].grad_kind]),
{
    lemma_parts(records[i]);
    lemma_batch_len(records);
    lemma_record_at(records, i);
    law_record_fills_its_stride(records[i], l);
    lemma_locations(
        before,
        after,
        region,
        batch_lanes(records),
        l,
        i,
        instance_lanes(records[i]),
    );
}

/// What the shader reads of shape `i` of a staged batch, location by location:
/// each is one of the shape's own properties, the small integers among them as
/// the real numbers of that value.
#[verifier::rlimit(50)]
pub proof fn law_staged_shapes_feed_their_locations(
    before: ArenaView,
    after: ArenaView,
    region: Region,
    records: Seq<CanvasShapeInstance>,
    shapes: Seq<CanvasShape>,
    depths: Seq<u32>,
    record_base: u32,
    l: VertexBufferLayout,
    i: int,
)
    requires
        batch_fits(before, 56 * shapes.len() as int),
        records.len() == shapes.len(),
        forall|k: int|
            0 <= k < shapes.len() ==> first_member(#[trigger] shapes[k], record_base) <= u32::MAX,
        forall|k: int|
            0 <= k < shapes.len() ==> packs(
                #[trigger] records[k],
                shapes[k],
                depth_of(depths, k),
                first_member(shapes[k], record_base) as u32,
            ),
        staged_batch(before, after, region, batch_lanes(records)),
        lays_out(l, formats(), VertexStepMode::Instance),
        0 <= i < shapes.len(),
    ensures
        l.step_mode == VertexStepMode::Instance,
        feeds(after.staged, region, l, i, 1u32, VertexFormat::Float32x4, shapes[i].bounds@),
        feeds(
            after.staged,
            region,
            l,
            i,
            2u32,
            VertexFormat::Float32x4,
            shapes[i].params@.subrange(0, 4),
        ),
        feeds(
            after.staged,
            region,
            l,
            i,
            3u32,
            VertexFormat::Float32x4,
            shapes[i].params@.subrange(4, 8),
        ),
        feeds(after.staged, region, l, i, 4u32, VertexFormat::Float32x4, shapes[i].stroke_color@),
        feeds(after.staged, region, l, i, 5u32, VertexFormat::Float32x4, shapes[i].fill_color@),
        feeds(
            after.staged,
            region,
            l,
            i,
            6u32,
            VertexFormat::Float32x4,
            seq![shapes[i].stroke_width, shapes[i].dash[0], shapes[i].dash[1], shapes[i].dash_offset],
        ),
        feeds(after.staged, region, l, i, 7u32, VertexFormat::Float32x4, seq![
            shapes[i].opacity,
            (if i < depths.len() {
            depths[i]
        } else {
            0x3f80_0000u32
        }),
            records[i].misc[2],
            records[i].misc[3],
        ]),
        feeds(
            after.staged,
            region,
            l,
            i,
            8u32,
            VertexFormat::Float32x4,
            shapes[i].transform.translate@ + shapes[i].transform.scale@,
        ),
        feeds(
            after.staged,
            region,
            l,
            i,
            9u32,
            VertexFormat::Float32x3,
            seq![shapes[i].transform.rotate] + shapes[i].transform.origin@,
        ),
        feeds(after.staged, region, l, i, 10u32, VertexFormat::Float32x4, seq![
            records[i].group[0],
            shapes[i].group_param,
            records[i].group[2],
            records[i].group[3],
        ]),
        feeds(after.staged, region, l, i, 11u32, VertexFormat::Float32x4, (if shapes[i].stroke_gradient is Some {
            shapes[i].stroke_gradient->0.from@
        } else {
            seq![0u32, 0u32, 0u32, 0u32]
        })),
        feeds(after.staged, region, l, i, 12u32, VertexFormat::Float32x4, (if shapes[i].stroke_gradient is Some {
            shapes[i].stroke_gradient->0.mid@
        } else {
            seq![0u32, 0u32, 0u32, 0u32]
        })),
        feeds(after.staged, region, l, i, 13u32, VertexFormat::Float32x4, (if shapes[i].stroke_gradient is Some {
            shapes[i].stroke_gradient->0.to@
        } else {
            seq![0u32, 0u32, 0u32, 0u32]
        })),
        feeds(after.staged, region, l, i, 14u32, VertexFormat::Float32x4, (if shapes[i].stroke_gradient is Some {
            shapes[i].stroke_gradient->0.axis@
        } else {
            seq![0u32, 0u32, 0u32, 0u32]
        })),
        feeds(after.staged, region, l, i, 15u32, VertexFormat::Uint32, seq![if shapes[i].stroke_gradient is Some {
            shapes[i].stroke_gradient->0.kind
        } else {
            0xffff_ffffu32
        }]),
        nearest_to(records[i].misc[2], shapes[i].kind as int),
        nearest_to(records[i].misc[3], shapes[i].cap as int),
        nearest_to(records[i].group[0], shapes[i].group_mode as int),
        nearest_to(
            records[i].group[2],
            if shapes[i].group_mode == 0 {
                shapes[i].group_first as int
            } else {
                shapes[i].group_first + record_base
            },
        ),
        nearest_to(records[i].group[3], shapes[i].group_count as int),
{
    let r = records[i];
    let s = shapes[i];
    let first = first_member(s, record_base) as u32;
    assert(packs(r, s, depth_of(depths, i), first));
    lemma_record_feeds(before, after, region, records, l, i);
    lemma_carried_is_nearest(r.misc[2], s.kind);
    lemma_carried_is_nearest(r.misc[3], s.cap);
    lemma_carried_is_nearest(r.group[0], s.group_mode);
    lemma_carried_is_nearest(r.group[2], first);
    lemma_carried_is_nearest(r.group[3], s.group_count);
    assert(r.misc@ =~= seq![
        s.opacity,
        (if i < depths.len() {
            depths[i]
        } else {
            0x3f80_0000u32
        }),
        r.misc[2],
        r.misc[3],
    ]);
    assert(r.group@ =~= seq![r.group[0], s.group_param, r.group[2], r.group[3]]);
    assert(nothing()@ =~= seq![0u32, 0u32, 0u32, 0u32]);
    assert(first == (if s.group_mode == 0 {
        s.group_first as int
    } else {
        s.group_first + record_base
    }));
}

} // verus!
