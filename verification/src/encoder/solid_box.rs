//! The `SolidBox` pipeline: axis-aligned rectangles with per-corner radii.

use super::descriptor::{
    binds_viewport, clear_depth, clear_depth_stencil, draw_depth_stencil, lays_out, opaque_depth,
    pack, packed_size, push_lanes, quad_lanes, quad_layout, viewport_layout, BindLayout, Blend, DepthState,
    Lanes, PipelineDesc, TextureFormat, Topology, VertexBufferLayout, VertexFormat, VertexStepMode,
};
use super::instance_arena::{ArenaView, InstanceArena, Region};
use super::staging::{
    batch_fits, depth_at, depth_of, lemma_staged_len, stage_lanes, staged_batch,
};
use crate::frame::{identity_spec, BoxInstance, Transform, DRAW_DEPTH_CLEAR, ONE};
use super::records::{feeds, lemma_batch_extends, lemma_feeds, lemma_feeds_kept, lemma_offset};
use crate::wide::{law_values_follow_their_patterns, value, UNIT_EXPONENT};
use vstd::arithmetic::power2::pow2;
use vstd::prelude::*;

verus! {

/// The lanes of one box record.
pub open spec fn box_lanes(b: BoxInstance) -> Seq<u32> {
    b.rect@ + b.color@ + b.radii@ + b.transform.translate@ + b.transform.scale@ + seq![
        b.transform.rotate,
    ] + b.transform.origin@ + seq![b.transform.opacity, b.smooth]
}

/// The lanes of a batch of boxes.
pub open spec fn boxes_lanes(boxes: Seq<BoxInstance>) -> Seq<u32>
    decreases boxes.len(),
{
    if boxes.len() == 0 {
        Seq::empty()
    } else {
        boxes_lanes(boxes.drop_last()) + box_lanes(boxes.last())
    }
}

/// The depths of a batch, one per box.
pub open spec fn batch_depths(depths: Seq<u32>, count: nat) -> Seq<u32> {
    Seq::new(count, |i: int| depth_of(depths, i))
}

/// Locations and formats of a box record.
pub open spec fn box_formats() -> Lanes {
    seq![
        (1u32, VertexFormat::Float32x4),
        (2u32, VertexFormat::Float32x4),
        (3u32, VertexFormat::Float32x4),
        (4u32, VertexFormat::Float32x2),
        (5u32, VertexFormat::Float32x2),
        (6u32, VertexFormat::Float32),
        (7u32, VertexFormat::Float32x2),
        (8u32, VertexFormat::Float32),
        (10u32, VertexFormat::Float32),
    ]
}

/// Location and format of the parallel depth buffer.
pub open spec fn depth_formats() -> Lanes {
    seq![(9u32, VertexFormat::Float32)]
}

impl BoxInstance {
    /// The instance layout: rectangle, colour and radii, the transform's five
    /// parts, then the smoothing; location 9 is the depth buffer's.
    pub fn layout() -> (l: VertexBufferLayout)
        ensures
            lays_out(l, box_formats(), VertexStepMode::Instance),
    {
        let lanes: [(u32, VertexFormat); 9] = [
            (1, VertexFormat::Float32x4),
            (2, VertexFormat::Float32x4),
            (3, VertexFormat::Float32x4),
            (4, VertexFormat::Float32x2),
            (5, VertexFormat::Float32x2),
            (6, VertexFormat::Float32),
            (7, VertexFormat::Float32x2),
            (8, VertexFormat::Float32),
            (10, VertexFormat::Float32),
        ];
        assert(lanes@ =~= box_formats());
        pack(lanes.as_slice(), VertexStepMode::Instance)
    }
}

/// The layout of the parallel draw-order depth buffer.
pub fn solid_depth_layout() -> (l: VertexBufferLayout)
    ensures
        lays_out(l, depth_formats(), VertexStepMode::Instance),
{
    let lanes: [(u32, VertexFormat); 1] = [(9, VertexFormat::Float32)];
    assert(lanes@ =~= depth_formats());
    pack(lanes.as_slice(), VertexStepMode::Instance)
}

/// The corners of the shared unit quad, as a triangle strip.
pub open spec fn quad_corners() -> Seq<u32> {
    seq![0, 0, ONE, 0, 0, ONE, ONE, ONE]
}

/// The vertices of the shared unit quad: top-left, top-right, bottom-left,
/// bottom-right.
pub fn quad_vertices() -> (v: [u32; 8])
    ensures
        v@ == quad_corners(),
{
    let v: [u32; 8] = [0, 0, ONE, 0, 0, ONE, ONE, ONE];
    assert(v@ =~= quad_corners());
    v
}

/// Appends one box record.
fn push_box(out: &mut Vec<u32>, b: &BoxInstance)
    ensures
        final(out)@ == old(out)@ + box_lanes(*b),
{
    let ghost before = out@;
    push_lanes(out, b.rect.as_slice());
    push_lanes(out, b.color.as_slice());
    push_lanes(out, b.radii.as_slice());
    push_lanes(out, b.transform.translate.as_slice());
    push_lanes(out, b.transform.scale.as_slice());
    out.push(b.transform.rotate);
    push_lanes(out, b.transform.origin.as_slice());
    out.push(b.transform.opacity);
    out.push(b.smooth);
    assert(out@ =~= before + box_lanes(*b));
}

/// A batch takes 21 lanes per box.
proof fn lemma_boxes_len(boxes: Seq<BoxInstance>)
    ensures
        boxes_lanes(boxes).len() == 21 * boxes.len(),
    decreases boxes.len(),
{
    if boxes.len() > 0 {
        lemma_boxes_len(boxes.drop_last());
    }
}

/// A record is exactly as long as its layout's stride.
pub proof fn law_box_record_fills_its_stride(b: BoxInstance, l: VertexBufferLayout)
    requires
        lays_out(l, box_formats(), VertexStepMode::Instance),
    ensures
        l.array_stride == 84,
        4 * box_lanes(b).len() == l.array_stride,
{
    reveal_with_fuel(super::descriptor::packed_size, 10);
    assert(super::descriptor::packed_size(box_formats()) == 84);
}

/// Whether a batch of boxes was staged, and behind it one depth per box.
pub open spec fn staged_boxes(
    before: ArenaView,
    after: ArenaView,
    r: (Region, Region),
    boxes: Seq<BoxInstance>,
    depths: Seq<u32>,
) -> bool {
    exists|mid: ArenaView|
        {
            &&& #[trigger] staged_batch(before, mid, r.0, boxes_lanes(boxes))
            &&& staged_batch(mid, after, r.1, batch_depths(depths, boxes.len()))
        }
}

/// Boxes staged first and depths staged behind them.
proof fn lemma_staged_boxes(
    before: ArenaView,
    mid: ArenaView,
    after: ArenaView,
    r: (Region, Region),
    boxes: Seq<BoxInstance>,
    depths: Seq<u32>,
)
    requires
        staged_batch(before, mid, r.0, boxes_lanes(boxes)),
        staged_batch(mid, after, r.1, batch_depths(depths, boxes.len())),
    ensures
        staged_boxes(before, after, r, boxes, depths),
{
}

/// Stages a segment's boxes and, beside them, one depth per box.
pub fn stage(arena: &mut InstanceArena, boxes: &[BoxInstance], depths: &[u32]) -> (r: (Region, Region))
    requires
        old(arena).wf(),
        batch_fits(old(arena)@, 22 * boxes@.len() as int),
    ensures
        final(arena).wf(),
        staged_boxes(old(arena)@, final(arena)@, r, boxes@, depths@),
{
    let mut lanes: Vec<u32> = Vec::new();
    let mut z: Vec<u32> = Vec::new();
    let mut i: usize = 0;
    while i < boxes.len()
        invariant
            i <= boxes@.len(),
            lanes@ == boxes_lanes(boxes@.take(i as int)),
            z@ == batch_depths(depths@, i as nat),
        decreases boxes@.len() - i,
    {
        push_box(&mut lanes, &boxes[i]);
        z.push(depth_at(depths, i));
        proof {
            assert(boxes@.take(i as int + 1).drop_last() =~= boxes@.take(i as int));
            assert(z@ =~= batch_depths(depths@, (i + 1) as nat));
        }
        i = i + 1;
    }
    proof {
        assert(boxes@.take(i as int) =~= boxes@);
        lemma_boxes_len(boxes@);
    }
    let instances: Region = stage_lanes(arena, lanes.as_slice());
    let ghost mid = arena@;
    proof {
        lemma_staged_len(old(arena)@, mid, instances, lanes@);
    }
    let depth: Region = stage_lanes(arena, z.as_slice());
    proof {
        assert(lanes@ == boxes_lanes(boxes@));
        assert(z@ == batch_depths(depths@, boxes@.len()));
        assert(staged_batch(old(arena)@, mid, instances, boxes_lanes(boxes@)));
        assert(staged_batch(mid, arena@, depth, batch_depths(depths@, boxes@.len())));
        lemma_staged_boxes(old(arena)@, mid, arena@, (instances, depth), boxes@, depths@);
    }
    (instances, depth)
}

/// The instance a clear quad is drawn with: fully transparent, untransformed.
pub open spec fn clear_box(rect: [u32; 4]) -> BoxInstance {
    BoxInstance {
        rect,
        color: [0, 0, 0, 0],
        radii: [0, 0, 0, 0],
        transform: identity_spec(),
        smooth: 0,
    }
}

/// The instance that wipes `rect` before it is repainted, and its depth, which
/// the clear pipeline neither tests nor writes.
pub fn clear_quad(rect: [u32; 4]) -> (r: (BoxInstance, u32))
    ensures
        r.0 == clear_box(rect),
        r.1 == DRAW_DEPTH_CLEAR,
{
    (
        BoxInstance {
            rect,
            color: [0, 0, 0, 0],
            radii: [0, 0, 0, 0],
            transform: Transform::identity(),
            smooth: 0,
        },
        DRAW_DEPTH_CLEAR,
    )
}

/// What both `SolidBox` pipelines share.
pub open spec fn solid_desc(d: PipelineDesc, surface: TextureFormat) -> bool {
    &&& d.buffers@.len() == 3
    &&& lays_out(d.buffers@[0], quad_lanes(), VertexStepMode::Vertex)
    &&& lays_out(d.buffers@[1], box_formats(), VertexStepMode::Instance)
    &&& lays_out(d.buffers@[2], depth_formats(), VertexStepMode::Instance)
    &&& d.groups@.len() == 1
    &&& binds_viewport(d.groups@[0])
    &&& d.target == surface
    &&& d.topology == Topology::TriangleStrip
    &&& d.samples == 1
}

/// Describes a `SolidBox`-shaped pipeline with the given blending and depth.
fn solid_box_pipeline(
    surface: TextureFormat,
    blend: Blend,
    depth: DepthState,
    name: &'static str,
) -> (d: PipelineDesc)
    ensures
        solid_desc(d, surface),
        d.blend == blend,
        d.depth == Some(depth),
        d.name@ == name@,
{
    let mut buffers: Vec<VertexBufferLayout> = Vec::new();
    buffers.push(quad_layout());
    buffers.push(BoxInstance::layout());
    buffers.push(solid_depth_layout());
    let mut groups: Vec<BindLayout> = Vec::new();
    groups.push(viewport_layout());
    PipelineDesc {
        name,
        buffers,
        groups,
        target: surface,
        blend,
        topology: Topology::TriangleStrip,
        depth: Some(depth),
        samples: 1,
    }
}

/// What the drawing pipeline is made of.
pub open spec fn describes_draw(d: PipelineDesc, surface: TextureFormat) -> bool {
    &&& solid_desc(d, surface)
    &&& d.blend == Blend::Alpha
    &&& d.depth == Some(opaque_depth())
    &&& d.name@ == "ByardCore - SolidBox Render Pipeline"@
}

/// The pipeline boxes are drawn with: opaque geometry, alpha blended.
pub fn draw_pipeline(surface: TextureFormat) -> (d: PipelineDesc)
    ensures
        describes_draw(d, surface),
{
    solid_box_pipeline(
        surface,
        Blend::Alpha,
        draw_depth_stencil(),
        "ByardCore - SolidBox Render Pipeline",
    )
}

/// What the clearing pipeline is made of.
pub open spec fn describes_clear(d: PipelineDesc, surface: TextureFormat) -> bool {
    &&& solid_desc(d, surface)
    &&& d.blend == Blend::Replace
    &&& d.depth == Some(clear_depth())
    &&& d.name@ == "ByardCore - SolidBox Clear Pipeline"@
}

/// The pipeline a dirty region is wiped with: its output replaces what was
/// there, and it leaves depth alone. Blending over old content could never
/// erase it.
pub fn clear_pipeline(surface: TextureFormat) -> (d: PipelineDesc)
    ensures
        describes_clear(d, surface),
{
    solid_box_pipeline(
        surface,
        Blend::Replace,
        clear_depth_stencil(),
        "ByardCore - SolidBox Clear Pipeline",
    )
}

/// Where each location of a record starts.
proof fn lemma_offsets()
    ensures
        packed_size(box_formats().take(0)) == 0,
        packed_size(box_formats().take(1)) == 16,
        packed_size(box_formats().take(2)) == 32,
        packed_size(box_formats().take(3)) == 48,
        packed_size(box_formats().take(4)) == 56,
        packed_size(box_formats().take(5)) == 64,
        packed_size(box_formats().take(6)) == 68,
        packed_size(box_formats().take(7)) == 76,
        packed_size(box_formats().take(8)) == 80,
{
    lemma_offset(box_formats(), 0);
    lemma_offset(box_formats(), 1);
    lemma_offset(box_formats(), 2);
    lemma_offset(box_formats(), 3);
    lemma_offset(box_formats(), 4);
    lemma_offset(box_formats(), 5);
    lemma_offset(box_formats(), 6);
    lemma_offset(box_formats(), 7);
    lemma_offset(box_formats(), 8);
}

/// Each location reads its own lanes of a record.
proof fn lemma_locations(
    before: ArenaView,
    after: ArenaView,
    region: Region,
    lanes: Seq<u32>,
    l: VertexBufferLayout,
    i: int,
    record: Seq<u32>,
)
    requires
        staged_batch(before, after, region, lanes),
        batch_fits(before, lanes.len() as int),
        lays_out(l, box_formats(), VertexStepMode::Instance),
        l.array_stride == 84,
        record.len() == 21,
        0 <= i,
        21 * (i + 1) <= lanes.len(),
        lanes.subrange(21 * i, 21 * (i + 1)) == record,
    ensures
        feeds(after.staged, region, l, i, 1u32, VertexFormat::Float32x4, record.subrange(0, 4)),
        feeds(after.staged, region, l, i, 2u32, VertexFormat::Float32x4, record.subrange(4, 8)),
        feeds(after.staged, region, l, i, 3u32, VertexFormat::Float32x4, record.subrange(8, 12)),
        feeds(after.staged, region, l, i, 4u32, VertexFormat::Float32x2, record.subrange(12, 14)),
        feeds(after.staged, region, l, i, 5u32, VertexFormat::Float32x2, record.subrange(14, 16)),
        feeds(after.staged, region, l, i, 6u32, VertexFormat::Float32, record.subrange(16, 17)),
        feeds(after.staged, region, l, i, 7u32, VertexFormat::Float32x2, record.subrange(17, 19)),
        feeds(after.staged, region, l, i, 8u32, VertexFormat::Float32, record.subrange(19, 20)),
        feeds(after.staged, region, l, i, 10u32, VertexFormat::Float32, record.subrange(20, 21)),
{
    lemma_offsets();
    assert(i * record.len() == 21 * i && (i + 1) * record.len() == 21 * (i + 1));
    lemma_feeds(
        before,
        after,
        region,
        lanes,
        l,
        box_formats(),
        VertexStepMode::Instance,
        i,
        record,
        0,
        0,
        record.subrange(0, 4),
    );
    lemma_feeds(
        before,
        after,
        region,
        lanes,
        l,
        box_formats(),
        VertexStepMode::Instance,
        i,
        record,
        1,
        4,
        record.subrange(4, 8),
    );
    lemma_feeds(
        before,
        after,
        region,
        lanes,
        l,
        box_formats(),
        VertexStepMode::Instance,
        i,
        record,
        2,
        8,
        record.subrange(8, 12),
    );
    lemma_feeds(
        before,
        after,
        region,
        lanes,
        l,
        box_formats(),
        VertexStepMode::Instance,
        i,
        record,
        3,
        12,
        record.subrange(12, 14),
    );
    lemma_feeds(
        before,
        after,
        region,
        lanes,
        l,
        box_formats(),
        VertexStepMode::Instance,
        i,
        record,
        4,
        14,
        record.subrange(14, 16),
    );
    lemma_feeds(
        before,
        after,
        region,
        lanes,
        l,
        box_formats(),
        VertexStepMode::Instance,
        i,
        record,
        5,
        16,
        record.subrange(16, 17),
    );
    lemma_feeds(
        before,
        after,
        region,
        lanes,
        l,
        box_formats(),
        VertexStepMode::Instance,
        i,
        record,
        6,
        17,
        record.subrange(17, 19),
    );
    lemma_feeds(
        before,
        after,
        region,
        lanes,
        l,
        box_formats(),
        VertexStepMode::Instance,
        i,
        record,
        7,
        19,
        record.subrange(19, 20),
    );
    lemma_feeds(
        before,
        after,
        region,
        lanes,
        l,
        box_formats(),
        VertexStepMode::Instance,
        i,
        record,
        8,
        20,
        record.subrange(20, 21),
    );
}

/// Record `i` of a batch lies behind the records before it.
proof fn lemma_record_at(boxes: Seq<BoxInstance>, i: int)
    requires
        0 <= i < boxes.len(),
    ensures
        boxes_lanes(boxes).subrange(21 * i, 21 * (i + 1)) == box_lanes(boxes[i]),
    decreases boxes.len(),
{
    let rest = boxes.drop_last();
    lemma_boxes_len(rest);
    lemma_boxes_len(boxes);
    let all = boxes_lanes(boxes);
    if i < rest.len() {
        lemma_record_at(rest, i);
        assert(rest[i] == boxes[i]);
        assert(all.subrange(21 * i, 21 * (i + 1)) =~= boxes_lanes(rest).subrange(
            21 * i,
            21 * (i + 1),
        ));
    } else {
        assert(all.subrange(21 * i, 21 * (i + 1)) =~= box_lanes(boxes[i]));
    }
}

/// What the shader reads of box `i` of a staged batch, location by location: each
/// is one of the box's own properties, and its depth comes from the buffer beside
/// it.
#[verifier::rlimit(50)]
pub proof fn law_staged_boxes_feed_their_locations(
    before: ArenaView,
    after: ArenaView,
    r: (Region, Region),
    boxes: Seq<BoxInstance>,
    depths: Seq<u32>,
    l: VertexBufferLayout,
    z: VertexBufferLayout,
    i: int,
)
    requires
        batch_fits(before, 22 * boxes.len() as int),
        staged_boxes(before, after, r, boxes, depths),
        lays_out(l, box_formats(), VertexStepMode::Instance),
        lays_out(z, depth_formats(), VertexStepMode::Instance),
        0 <= i < boxes.len(),
    ensures
        l.step_mode == VertexStepMode::Instance,
        z.step_mode == VertexStepMode::Instance,
        feeds(after.staged, r.0, l, i, 1u32, VertexFormat::Float32x4, boxes[i].rect@),
        feeds(after.staged, r.0, l, i, 2u32, VertexFormat::Float32x4, boxes[i].color@),
        feeds(after.staged, r.0, l, i, 3u32, VertexFormat::Float32x4, boxes[i].radii@),
        feeds(
            after.staged,
            r.0,
            l,
            i,
            4u32,
            VertexFormat::Float32x2,
            boxes[i].transform.translate@,
        ),
        feeds(after.staged, r.0, l, i, 5u32, VertexFormat::Float32x2, boxes[i].transform.scale@),
        feeds(
            after.staged,
            r.0,
            l,
            i,
            6u32,
            VertexFormat::Float32,
            seq![boxes[i].transform.rotate],
        ),
        feeds(after.staged, r.0, l, i, 7u32, VertexFormat::Float32x2, boxes[i].transform.origin@),
        feeds(
            after.staged,
            r.0,
            l,
            i,
            8u32,
            VertexFormat::Float32,
            seq![boxes[i].transform.opacity],
        ),
        feeds(after.staged, r.0, l, i, 10u32, VertexFormat::Float32, seq![boxes[i].smooth]),
        feeds(
            after.staged,
            r.1,
            z,
            i,
            9u32,
            VertexFormat::Float32,
            seq![
                if i < depths.len() {
                    depths[i]
                } else {
                    0x3f80_0000u32
                },
            ],
        ),
{
    let mid = choose|mid: ArenaView|
        {
            &&& #[trigger] staged_batch(before, mid, r.0, boxes_lanes(boxes))
            &&& staged_batch(mid, after, r.1, batch_depths(depths, boxes.len()))
        };
    let lanes = boxes_lanes(boxes);
    let record = box_lanes(boxes[i]);
    lemma_boxes_len(boxes);
    lemma_record_at(boxes, i);
    law_box_record_fills_its_stride(boxes[i], l);
    lemma_staged_len(before, mid, r.0, lanes);
    lemma_locations(before, mid, r.0, lanes, l, i, record);
    assert(record.subrange(0, 4) =~= boxes[i].rect@);
    assert(record.subrange(4, 8) =~= boxes[i].color@);
    assert(record.subrange(8, 12) =~= boxes[i].radii@);
    assert(record.subrange(12, 14) =~= boxes[i].transform.translate@);
    assert(record.subrange(14, 16) =~= boxes[i].transform.scale@);
    assert(record.subrange(16, 17) =~= seq![boxes[i].transform.rotate]);
    assert(record.subrange(17, 19) =~= boxes[i].transform.origin@);
    assert(record.subrange(19, 20) =~= seq![boxes[i].transform.opacity]);
    assert(record.subrange(20, 21) =~= seq![boxes[i].smooth]);
    lemma_batch_extends(mid, after, r.1, batch_depths(depths, boxes.len()));
    lemma_feeds_kept(
        mid.staged,
        after.staged,
        r.0,
        l,
        i,
        1u32,
        VertexFormat::Float32x4,
        boxes[i].rect@,
    );
    lemma_feeds_kept(
        mid.staged,
        after.staged,
        r.0,
        l,
        i,
        2u32,
        VertexFormat::Float32x4,
        boxes[i].color@,
    );
    lemma_feeds_kept(
        mid.staged,
        after.staged,
        r.0,
        l,
        i,
        3u32,
        VertexFormat::Float32x4,
        boxes[i].radii@,
    );
    lemma_feeds_kept(
        mid.staged,
        after.staged,
        r.0,
        l,
        i,
        4u32,
        VertexFormat::Float32x2,
        boxes[i].transform.translate@,
    );
    lemma_feeds_kept(
        mid.staged,
        after.staged,
        r.0,
        l,
        i,
        5u32,
        VertexFormat::Float32x2,
        boxes[i].transform.scale@,
    );
    lemma_feeds_kept(
        mid.staged,
        after.staged,
        r.0,
        l,
        i,
        6u32,
        VertexFormat::Float32,
        seq![boxes[i].transform.rotate],
    );
    lemma_feeds_kept(
        mid.staged,
        after.staged,
        r.0,
        l,
        i,
        7u32,
        VertexFormat::Float32x2,
        boxes[i].transform.origin@,
    );
    lemma_feeds_kept(
        mid.staged,
        after.staged,
        r.0,
        l,
        i,
        8u32,
        VertexFormat::Float32,
        seq![boxes[i].transform.opacity],
    );
    lemma_feeds_kept(
        mid.staged,
        after.staged,
        r.0,
        l,
        i,
        10u32,
        VertexFormat::Float32,
        seq![boxes[i].smooth],
    );
    let stamps = batch_depths(depths, boxes.len());
    let stamp = seq![depth_of(depths, i)];
    assert(stamps.subrange(i, i + 1) =~= stamp);
    assert(stamp.subrange(0, 1) =~= stamp);
    lemma_offset(depth_formats(), 0);
    assert(depth_formats().take(1) =~= depth_formats());
    assert(z.array_stride == 4);
    assert(i * stamp.len() == i && (i + 1) * stamp.len() == i + 1);
    lemma_feeds(
        mid,
        after,
        r.1,
        stamps,
        z,
        depth_formats(),
        VertexStepMode::Instance,
        i,
        stamp,
        0,
        0,
        stamp,
    );
}

/// What wipes a region covers exactly that region, paints nothing into it, and is
/// neither moved, scaled, turned nor rounded.
pub proof fn law_wiping_paints_nothing(rect: [u32; 4])
    ensures
        ({
            let b = clear_box(rect);
            &&& b.rect == rect
            &&& forall|c: int| 0 <= c < 4 ==> #[trigger] b.color[c] == 0
            &&& forall|c: int| 0 <= c < 4 ==> #[trigger] b.radii[c] == 0
            &&& b.transform.translate[0] == 0 && b.transform.translate[1] == 0
            &&& value(b.transform.scale[0]) == pow2(UNIT_EXPONENT as nat) && value(
                b.transform.scale[1],
            ) == pow2(UNIT_EXPONENT as nat)
            &&& b.transform.rotate == 0
            &&& b.smooth == 0
        }),
{
    law_values_follow_their_patterns(0, 0);
}

/// The quad's four corners are those of the unit square, in the order a strip of two
/// triangles takes them: left and right above, left and right below.
pub proof fn law_quad_is_the_unit_square(k: int)
    requires
        0 <= k < 4,
    ensures
        quad_corners().len() == 8,
        value(quad_corners()[2 * k]) == (k % 2) * pow2(UNIT_EXPONENT as nat),
        value(quad_corners()[2 * k + 1]) == (k / 2) * pow2(UNIT_EXPONENT as nat),
{
    law_values_follow_their_patterns(0, 0);
    assert(0 * pow2(UNIT_EXPONENT as nat) == 0 && 1 * pow2(UNIT_EXPONENT as nat) == pow2(
        UNIT_EXPONENT as nat,
    )) by (nonlinear_arith);
}

} // verus!
