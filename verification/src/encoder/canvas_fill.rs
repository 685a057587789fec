//! The `CanvasFill` pipeline: filled paths as triangle meshes, one instance
//! and one indexed draw per path.

use super::descriptor::{
    binds_viewport, lays_out, pack, packed_size, push_lanes, viewport_layout, BindLayout, Blend,
    DepthState, Lanes, PipelineDesc, TextureFormat, Topology, VertexBufferLayout, VertexFormat,
    VertexStepMode,
};
use super::instance_arena::{
    law_padded_is_aligned, next_offset, no_region, ArenaView, InstanceArena, Region,
};
use super::staging::{
    batch_fits, depth_at, depth_of, lemma_staged_len, ramp, ramp_axis, ramp_from, ramp_kind,
    ramp_mid, ramp_to, stage_lanes, staged_batch,
};
use crate::frame::{min_int, CanvasFill, FillVertex};
use super::records::{
    extends, feeds, holds, lemma_batch_extends, lemma_batch_holds, lemma_feeds, lemma_feeds_kept,
    lemma_holds_kept, lemma_offset,
};
use vstd::prelude::*;

verus! {

/// The per-path record: what to paint the mesh with, and where it sits.
#[derive(Clone, Copy, Debug, PartialEq, Eq)]
pub struct FillInstance {
    /// Solid colour.
    pub color: [u32; 4],
    /// Gradient start colour.
    pub grad_from: [u32; 4],
    /// Gradient middle colour.
    pub grad_mid: [u32; 4],
    /// Gradient end colour.
    pub grad_to: [u32; 4],
    /// Gradient control numbers.
    pub grad_axis: [u32; 4],
    /// Opacity and depth.
    pub misc: [u32; 4],
    /// Transform translation.
    pub t_translate: [u32; 2],
    /// Transform scale.
    pub t_scale: [u32; 2],
    /// Transform rotation.
    pub t_rotate: u32,
    /// Transform pivot.
    pub t_origin: [u32; 2],
    /// Gradient kind; a solid fill says that it has none.
    pub grad_kind: u32,
}

/// The record of a path at a depth.
pub open spec fn instance_of(fill: CanvasFill, depth: u32) -> FillInstance {
    FillInstance {
        color: fill.color,
        grad_from: ramp_from(fill.gradient),
        grad_mid: ramp_mid(fill.gradient),
        grad_to: ramp_to(fill.gradient),
        grad_axis: ramp_axis(fill.gradient),
        misc: [fill.opacity, depth, 0, 0],
        t_translate: fill.transform.translate,
        t_scale: fill.transform.scale,
        t_rotate: fill.transform.rotate,
        t_origin: fill.transform.origin,
        grad_kind: ramp_kind(fill.gradient),
    }
}

/// The lanes of one record.
pub open spec fn instance_lanes(r: FillInstance) -> Seq<u32> {
    r.color@ + r.grad_from@ + r.grad_mid@ + r.grad_to@ + r.grad_axis@ + r.misc@ + r.t_translate@
        + r.t_scale@ + seq![r.t_rotate] + r.t_origin@ + seq![r.grad_kind]
}

/// The lanes of a mesh's vertices.
pub open spec fn vertex_lanes(vertices: Seq<FillVertex>) -> Seq<u32>
    decreases vertices.len(),
{
    if vertices.len() == 0 {
        Seq::empty()
    } else {
        vertex_lanes(vertices.drop_last()) + vertices.last().pos@ + vertices.last().uv@
    }
}

/// Locations and formats of a mesh vertex.
pub open spec fn mesh_formats() -> Lanes {
    seq![(0u32, VertexFormat::Float32x2), (1u32, VertexFormat::Float32x2)]
}

/// Locations and formats of a record.
pub open spec fn formats() -> Lanes {
    seq![
        (2u32, VertexFormat::Float32x4),
        (3u32, VertexFormat::Float32x4),
        (4u32, VertexFormat::Float32x4),
        (5u32, VertexFormat::Float32x4),
        (6u32, VertexFormat::Float32x4),
        (7u32, VertexFormat::Float32x4),
        (8u32, VertexFormat::Float32x4),
        (9u32, VertexFormat::Float32x3),
        (10u32, VertexFormat::Uint32),
    ]
}

impl FillInstance {
    /// The record of one path, with its draw-order depth stamped in.
    pub fn new(fill: &CanvasFill, depth: u32) -> (r: FillInstance)
        ensures
            r == instance_of(*fill, depth),
    {
        let (grad_from, grad_mid, grad_to, grad_axis, grad_kind) = ramp(fill.gradient);
        FillInstance {
            color: fill.color,
            grad_from,
            grad_mid,
            grad_to,
            grad_axis,
            misc: [fill.opacity, depth, 0, 0],
            t_translate: fill.transform.translate,
            t_scale: fill.transform.scale,
            t_rotate: fill.transform.rotate,
            t_origin: fill.transform.origin,
            grad_kind,
        }
    }

    /// The layout of the mesh itself, per vertex.
    pub fn mesh_layout() -> (l: VertexBufferLayout)
        ensures
            lays_out(l, mesh_formats(), VertexStepMode::Vertex),
    {
        let lanes: [(u32, VertexFormat); 2] = [
            (0, VertexFormat::Float32x2),
            (1, VertexFormat::Float32x2),
        ];
        assert(lanes@ =~= mesh_formats());
        pack(lanes.as_slice(), VertexStepMode::Vertex)
    }

    /// The layout of the per-path record, per instance.
    pub fn layout() -> (l: VertexBufferLayout)
        ensures
            lays_out(l, formats(), VertexStepMode::Instance),
    {
        let lanes: [(u32, VertexFormat); 9] = [
            (2, VertexFormat::Float32x4),
            (3, VertexFormat::Float32x4),
            (4, VertexFormat::Float32x4),
            (5, VertexFormat::Float32x4),
            (6, VertexFormat::Float32x4),
            (7, VertexFormat::Float32x4),
            (8, VertexFormat::Float32x4),
            (9, VertexFormat::Float32x3),
            (10, VertexFormat::Uint32),
        ];
        assert(lanes@ =~= formats());
        pack(lanes.as_slice(), VertexStepMode::Instance)
    }

    /// The record's lanes.
    fn lanes(&self) -> (out: Vec<u32>)
        ensures
            out@ == instance_lanes(*self),
    {
        let mut out: Vec<u32> = Vec::new();
        push_lanes(&mut out, self.color.as_slice());
        push_lanes(&mut out, self.grad_from.as_slice());
        push_lanes(&mut out, self.grad_mid.as_slice());
        push_lanes(&mut out, self.grad_to.as_slice());
        push_lanes(&mut out, self.grad_axis.as_slice());
        push_lanes(&mut out, self.misc.as_slice());
        push_lanes(&mut out, self.t_translate.as_slice());
        push_lanes(&mut out, self.t_scale.as_slice());
        out.push(self.t_rotate);
        push_lanes(&mut out, self.t_origin.as_slice());
        out.push(self.grad_kind);
        assert(out@ =~= instance_lanes(*self));
        out
    }
}

/// A record and a vertex are exactly as long as their layouts' strides.
pub proof fn law_records_fill_their_strides(
    r: FillInstance,
    v: FillVertex,
    l: VertexBufferLayout,
    m: VertexBufferLayout,
)
    requires
        lays_out(l, formats(), VertexStepMode::Instance),
        lays_out(m, mesh_formats(), VertexStepMode::Vertex),
    ensures
        4 * instance_lanes(r).len() == l.array_stride,
        l.array_stride == 128,
        4 * vertex_lanes(seq![v]).len() == m.array_stride,
        m.array_stride == 16,
        l.attributes@.len() + m.attributes@.len() <= 16,
{
    reveal_with_fuel(packed_size, 10);
    assert(packed_size(formats()) == 128);
    assert(packed_size(mesh_formats()) == 16);
    assert(seq![v].drop_last() =~= Seq::empty());
    reveal_with_fuel(vertex_lanes, 2);
}

/// A mesh takes four lanes per vertex.
pub proof fn lemma_vertex_len(vertices: Seq<FillVertex>)
    ensures
        vertex_lanes(vertices).len() == 4 * vertices.len(),
    decreases vertices.len(),
{
    if vertices.len() > 0 {
        lemma_vertex_len(vertices.drop_last());
    }
}

/// Appends a mesh's vertices.
pub fn push_vertices(out: &mut Vec<u32>, vertices: &[FillVertex])
    ensures
        final(out)@ == old(out)@ + vertex_lanes(vertices@),
{
    let ghost before = out@;
    let mut i: usize = 0;
    while i < vertices.len()
        invariant
            i <= vertices@.len(),
            out@ == before + vertex_lanes(vertices@.take(i as int)),
        decreases vertices@.len() - i,
    {
        push_lanes(out, vertices[i].pos.as_slice());
        push_lanes(out, vertices[i].uv.as_slice());
        proof {
            assert(vertices@.take(i as int + 1).drop_last() =~= vertices@.take(i as int));
            assert(out@ =~= before + vertex_lanes(vertices@.take(i as int + 1)));
        }
        i = i + 1;
    }
    proof {
        assert(vertices@.take(i as int) =~= vertices@);
    }
}

/// One filled path, staged and ready to draw.
#[derive(Debug, Clone, Copy, PartialEq, Eq)]
pub struct StagedFill {
    /// The mesh's vertices.
    pub vertices: Region,
    /// The mesh's indices.
    pub indices: Region,
    /// The per-path record.
    pub record: Region,
    /// How many indices to draw.
    pub index_count: u32,
}

impl Default for StagedFill {
    /// A path of which nothing is staged.
    fn default() -> (s: StagedFill)
        ensures
            s == (StagedFill {
                vertices: no_region(),
                indices: no_region(),
                record: no_region(),
                index_count: 0,
            }),
    {
        StagedFill {
            vertices: Region::default(),
            indices: Region::default(),
            record: Region::default(),
            index_count: 0,
        }
    }
}

/// Whether a path was staged as three regions: its vertices, its indices, its
/// record.
pub open spec fn staged_path(
    before: ArenaView,
    after: ArenaView,
    fill: CanvasFill,
    depth: u32,
    s: StagedFill,
) -> bool {
    exists|a: ArenaView, b: ArenaView|
        {
            &&& #[trigger] staged_batch(before, a, s.vertices, vertex_lanes(fill.mesh.vertices@))
            &&& #[trigger] staged_batch(a, b, s.indices, fill.mesh.indices@)
            &&& staged_batch(b, after, s.record, instance_lanes(instance_of(fill, depth)))
            &&& s.index_count == (if fill.mesh.indices@.len() > u32::MAX {
                u32::MAX as int
            } else {
                fill.mesh.indices@.len() as int
            })
        }
}

/// Whether the paths were staged one behind the other, those without indices
/// left out.
pub open spec fn staged_fills(
    before: ArenaView,
    after: ArenaView,
    out: Seq<StagedFill>,
    fills: Seq<CanvasFill>,
    depths: Seq<u32>,
) -> bool
    decreases fills.len(),
{
    if fills.len() == 0 {
        before == after && out.len() == 0
    } else if fills.last().mesh.indices@.len() == 0 {
        staged_fills(before, after, out, fills.drop_last(), depths)
    } else {
        out.len() > 0 && exists|mid: ArenaView|
            {
                &&& staged_fills(before, mid, out.drop_last(), fills.drop_last(), depths)
                &&& #[trigger] staged_path(
                    mid,
                    after,
                    fills.last(),
                    depth_of(depths, fills.len() - 1),
                    out.last(),
                )
            }
    }
}

/// The lanes a list of paths takes together.
pub open spec fn fill_lanes(fills: Seq<CanvasFill>) -> int
    decreases fills.len(),
{
    if fills.len() == 0 {
        0
    } else {
        fill_lanes(fills.drop_last()) + (if fills.last().mesh.indices@.len() == 0 {
            0
        } else {
            4 * fills.last().mesh.vertices@.len() + fills.last().mesh.indices@.len() + 32
        })
    }
}

/// A prefix of a list of paths takes no more lanes than the list.
proof fn lemma_fill_lanes_grow(fills: Seq<CanvasFill>, n: int)
    requires
        0 <= n <= fills.len(),
    ensures
        0 <= fill_lanes(fills.take(n)) <= fill_lanes(fills),
    decreases fills.len(),
{
    if n < fills.len() {
        lemma_fill_lanes_grow(fills.drop_last(), n);
        assert(fills.drop_last().take(n) =~= fills.take(n));
    } else {
        assert(fills.take(n) =~= fills);
        if n > 0 {
            lemma_fill_lanes_grow(fills.drop_last(), n - 1);
            assert(fills.drop_last().take(n - 1) =~= fills.drop_last());
        }
    }
}

/// Stages one path that has indices.
fn stage_path(arena: &mut InstanceArena, fill: &CanvasFill, depth: u32) -> (s: StagedFill)
    requires
        old(arena).wf(),
        batch_fits(
            old(arena)@,
            (4 * fill.mesh.vertices@.len() + fill.mesh.indices@.len() + 32) as int,
        ),
        fill.mesh.indices@.len() > 0,
    ensures
        final(arena).wf(),
        staged_path(old(arena)@, final(arena)@, *fill, depth, s),
        final(arena)@.staged.len() == next_offset(old(arena)@.staged.len() as int, 4) + 4 * (4
            * fill.mesh.vertices@.len() + fill.mesh.indices@.len() + 32),
        final(arena)@.staged.len() % 4 == 0,
{
    let mut lanes: Vec<u32> = Vec::new();
    push_vertices(&mut lanes, fill.mesh.vertices.as_slice());
    proof {
        assert(lanes@ =~= vertex_lanes(fill.mesh.vertices@));
        lemma_vertex_len(fill.mesh.vertices@);
        law_padded_is_aligned(arena@.staged.len() as int, 4);
    }
    let vertices: Region = stage_lanes(arena, lanes.as_slice());
    let ghost a = arena@;
    proof {
        lemma_staged_len(old(arena)@, a, vertices, lanes@);
    }
    let indices: Region = stage_lanes(arena, fill.mesh.indices.as_slice());
    let ghost b = arena@;
    proof {
        lemma_staged_len(a, b, indices, fill.mesh.indices@);
    }
    let record_lanes: Vec<u32> = FillInstance::new(fill, depth).lanes();
    let record: Region = stage_lanes(arena, record_lanes.as_slice());
    proof {
        lemma_staged_len(b, arena@, record, record_lanes@);
    }
    let index_count: u32 = if fill.mesh.indices.len() > 0xffff_ffff {
        0xffff_ffff
    } else {
        fill.mesh.indices.len() as u32
    };
    let s: StagedFill = StagedFill { vertices, indices, record, index_count };
    proof {
        lemma_staged_path(old(arena)@, a, b, arena@, *fill, depth, s);
    }
    s
}

/// Vertices, indices and record staged one behind the other.
proof fn lemma_staged_path(
    before: ArenaView,
    a: ArenaView,
    b: ArenaView,
    after: ArenaView,
    fill: CanvasFill,
    depth: u32,
    s: StagedFill,
)
    requires
        staged_batch(before, a, s.vertices, vertex_lanes(fill.mesh.vertices@)),
        staged_batch(a, b, s.indices, fill.mesh.indices@),
        staged_batch(b, after, s.record, instance_lanes(instance_of(fill, depth))),
        s.index_count == (if fill.mesh.indices@.len() > u32::MAX {
            u32::MAX as int
        } else {
            fill.mesh.indices@.len() as int
        }),
    ensures
        staged_path(before, after, fill, depth, s),
{
}

/// Paths staged up to one and that one staged behind them.
proof fn lemma_staged_fills_step(
    before: ArenaView,
    mid: ArenaView,
    after: ArenaView,
    out: Seq<StagedFill>,
    s: StagedFill,
    fills: Seq<CanvasFill>,
    depths: Seq<u32>,
)
    requires
        fills.len() > 0,
        fills.last().mesh.indices@.len() > 0,
        staged_fills(before, mid, out, fills.drop_last(), depths),
        staged_path(mid, after, fills.last(), depth_of(depths, fills.len() - 1), s),
    ensures
        staged_fills(before, after, out.push(s), fills, depths),
{
    assert(out.push(s).drop_last() =~= out);
    assert(out.push(s).last() == s);
}

/// Stages a segment's filled paths: three regions per path, because a mesh has
/// no fixed stride. A path without indices draws nothing and is left out.
pub fn stage(
    arena: &mut InstanceArena,
    out: &mut Vec<StagedFill>,
    fills: &[CanvasFill],
    depths: &[u32],
)
    requires
        old(arena).wf(),
        batch_fits(old(arena)@, fill_lanes(fills@)),
    ensures
        final(arena).wf(),
        final(out)@.len() >= old(out)@.len(),
        final(out)@.take(old(out)@.len() as int) == old(out)@,
        staged_fills(
            old(arena)@,
            final(arena)@,
            final(out)@.skip(old(out)@.len() as int),
            fills@,
            depths@,
        ),
{
    let ghost start = arena@;
    let ghost n = out@.len() as int;
    let ghost kept = out@;
    let mut i: usize = 0;
    proof {
        assert(out@.skip(n) =~= Seq::empty());
        assert(fills@.take(0) =~= Seq::empty());
    }
    while i < fills.len()
        invariant
            i <= fills@.len(),
            arena.wf(),
            n == kept.len(),
            out@.len() >= n,
            out@.take(n) == kept,
            batch_fits(start, fill_lanes(fills@)),
            staged_fills(start, arena@, out@.skip(n), fills@.take(i as int), depths@),
            fill_lanes(fills@.take(i as int)) == 0 ==> arena@ == start,
            fill_lanes(fills@.take(i as int)) > 0 ==> {
                &&& arena@.staged.len() == next_offset(start.staged.len() as int, 4) + 4
                    * fill_lanes(fills@.take(i as int))
                &&& arena@.staged.len() % 4 == 0
            },
        decreases fills@.len() - i,
    {
        proof {
            assert(fills@.take(i as int + 1).drop_last() =~= fills@.take(i as int));
            assert(fills@.take(i as int + 1).last() == fills@[i as int]);
            lemma_fill_lanes_grow(fills@, i as int);
            lemma_fill_lanes_grow(fills@, i as int + 1);
        }
        if fills[i].mesh.indices.len() > 0 {
            let ghost mid = arena@;
            let ghost sofar = out@;
            let s: StagedFill = stage_path(arena, &fills[i], depth_at(depths, i));
            out.push(s);
            proof {
                lemma_staged_fills_step(
                    start,
                    mid,
                    arena@,
                    sofar.skip(n),
                    s,
                    fills@.take(i as int + 1),
                    depths@,
                );
                assert(out@.skip(n) =~= sofar.skip(n).push(s));
                assert(out@.take(n) =~= kept);
            }
        }
        i = i + 1;
    }
    proof {
        assert(fills@.take(i as int) =~= fills@);
    }
}

/// What the pipeline is made of.
pub open spec fn describes(d: PipelineDesc, surface: TextureFormat, depth: DepthState) -> bool {
    &&& d.name@ == "CanvasFill"@
    &&& d.buffers@.len() == 2
    &&& lays_out(d.buffers@[0], mesh_formats(), VertexStepMode::Vertex)
    &&& lays_out(d.buffers@[1], formats(), VertexStepMode::Instance)
    &&& d.groups@.len() == 1
    &&& binds_viewport(d.groups@[0])
    &&& d.target == surface
    &&& d.blend == Blend::Alpha
    &&& d.topology == Topology::TriangleList
    &&& d.depth == Some(depth)
    &&& d.samples == 1
}

/// Describes the pipeline. A tessellator emits both windings, so nothing is
/// culled.
pub fn pipeline(surface: TextureFormat, depth: DepthState) -> (d: PipelineDesc)
    ensures
        describes(d, surface, depth),
{
    let mut buffers: Vec<VertexBufferLayout> = Vec::new();
    buffers.push(FillInstance::mesh_layout());
    buffers.push(FillInstance::layout());
    let mut groups: Vec<BindLayout> = Vec::new();
    groups.push(viewport_layout());
    PipelineDesc {
        name: "CanvasFill",
        buffers,
        groups,
        target: surface,
        blend: Blend::Alpha,
        topology: Topology::TriangleList,
        depth: Some(depth),
        samples: 1,
    }
}

/// Where each location of a record starts.
proof fn lemma_offsets()
    ensures
        packed_size(formats().take(0)) == 0,
        packed_size(formats().take(1)) == 16,
        packed_size(formats().take(2)) == 32,
        packed_size(formats().take(3)) == 48,
        packed_size(formats().take(4)) == 64,
        packed_size(formats().take(5)) == 80,
        packed_size(formats().take(6)) == 96,
        packed_size(formats().take(7)) == 112,
        packed_size(formats().take(8)) == 124,
{
    lemma_offset(formats(), 0);
    lemma_offset(formats(), 1);
    lemma_offset(formats(), 2);
    lemma_offset(formats(), 3);
    lemma_offset(formats(), 4);
    lemma_offset(formats(), 5);
    lemma_offset(formats(), 6);
    lemma_offset(formats(), 7);
    lemma_offset(formats(), 8);
}

/// Each location reads its own lanes of a record.
proof fn lemma_locations(
    before: ArenaView,
    after: ArenaView,
    region: Region,
    lanes: Seq<u32>,
    l: VertexBufferLayout,
    i: int,
    record: Seq<u32>,
)
    requires
        staged_batch(before, after, region, lanes),
        batch_fits(before, lanes.len() as int),
        lays_out(l, formats(), VertexStepMode::Instance),
        l.array_stride == 128,
        record.len() == 32,
        0 <= i,
        32 * (i + 1) <= lanes.len(),
        lanes.subrange(32 * i, 32 * (i + 1)) == record,
    ensures
        feeds(after.staged, region, l, i, 2u32, VertexFormat::Float32x4, record.subrange(0, 4)),
        feeds(after.staged, region, l, i, 3u32, VertexFormat::Float32x4, record.subrange(4, 8)),
        feeds(after.staged, region, l, i, 4u32, VertexFormat::Float32x4, record.subrange(8, 12)),
        feeds(after.staged, region, l, i, 5u32, VertexFormat::Float32x4, record.subrange(12, 16)),
        feeds(after.staged, region, l, i, 6u32, VertexFormat::Float32x4, record.subrange(16, 20)),
        feeds(after.staged, region, l, i, 7u32, VertexFormat::Float32x4, record.subrange(20, 24)),
        feeds(after.staged, region, l, i, 8u32, VertexFormat::Float32x4, record.subrange(24, 28)),
        feeds(after.staged, region, l, i, 9u32, VertexFormat::Float32x3, record.subrange(28, 31)),
        feeds(after.staged, region, l, i, 10u32, VertexFormat::Uint32, record.subrange(31, 32)),
{
    lemma_offsets();
    assert(i * record.len() == 32 * i && (i + 1) * record.len() == 32 * (i + 1));
    lemma_feeds(
        before,
        after,
        region,
        lanes,
        l,
        formats(),
        VertexStepMode::Instance,
        i,
        record,
        0,
        0,
        record.subrange(0, 4),
    );
    lemma_feeds(
        before,
        after,
        region,
        lanes,
        l,
        formats(),
        VertexStepMode::Instance,
        i,
        record,
        1,
        4,
        record.subrange(4, 8),
    );
    lemma_feeds(
        before,
        after,
        region,
        lanes,
        l,
        formats(),
        VertexStepMode::Instance,
        i,
        record,
        2,
        8,
        record.subrange(8, 12),
    );
    lemma_feeds(
        before,
        after,
        region,
        lanes,
        l,
        formats(),
        VertexStepMode::Instance,
        i,
        record,
        3,
        12,
        record.subrange(12, 16),
    );
    lemma_feeds(
        before,
        after,
        region,
        lanes,
        l,
        formats(),
        VertexStepMode::Instance,
        i,
        record,
        4,
        16,
        record.subrange(16, 20),
    );
    lemma_feeds(
        before,
        after,
        region,
        lanes,
        l,
        formats(),
        VertexStepMode::Instance,
        i,
        record,
        5,
        20,
        record.subrange(20, 24),
    );
    lemma_feeds(
        before,
        after,
        region,
        lanes,
        l,
        formats(),
        VertexStepMode::Instance,
        i,
        record,
        6,
        24,
        record.subrange(24, 28),
    );
    lemma_feeds(
        before,
        after,
        region,
        lanes,
        l,
        formats(),
        VertexStepMode::Instance,
        i,
        record,
        7,
        28,
        record.subrange(28, 31),
    );
    lemma_feeds(
        before,
        after,
        region,
        lanes,
        l,
        formats(),
        VertexStepMode::Instance,
        i,
        record,
        8,
        31,
        record.subrange(31, 32),
    );
}

/// Where each location of a record starts.
proof fn lemma_mesh_offsets()
    ensures
        packed_size(mesh_formats().take(0)) == 0,
        packed_size(mesh_formats().take(1)) == 8,
{
    lemma_offset(mesh_formats(), 0);
    lemma_offset(mesh_formats(), 1);
}

/// Each location reads its own lanes of a record.
proof fn lemma_mesh_locations(
    before: ArenaView,
    after: ArenaView,
    region: Region,
    lanes: Seq<u32>,
    l: VertexBufferLayout,
    i: int,
    record: Seq<u32>,
)
    requires
        staged_batch(before, after, region, lanes),
        batch_fits(before, lanes.len() as int),
        lays_out(l, mesh_formats(), VertexStepMode::Vertex),
        l.array_stride == 16,
        record.len() == 4,
        0 <= i,
        4 * (i + 1) <= lanes.len(),
        lanes.subrange(4 * i, 4 * (i + 1)) == record,
    ensures
        feeds(after.staged, region, l, i, 0u32, VertexFormat::Float32x2, record.subrange(0, 2)),
        feeds(after.staged, region, l, i, 1u32, VertexFormat::Float32x2, record.subrange(2, 4)),
{
    lemma_mesh_offsets();
    assert(i * record.len() == 4 * i && (i + 1) * record.len() == 4 * (i + 1));
    lemma_feeds(
        before,
        after,
        region,
        lanes,
        l,
        mesh_formats(),
        VertexStepMode::Vertex,
        i,
        record,
        0,
        0,
        record.subrange(0, 2),
    );
    lemma_feeds(
        before,
        after,
        region,
        lanes,
        l,
        mesh_formats(),
        VertexStepMode::Vertex,
        i,
        record,
        1,
        2,
        record.subrange(2, 4),
    );
}

/// Vertex `j` of a mesh lies behind the vertices before it.
proof fn lemma_vertex_at(vertices: Seq<FillVertex>, j: int)
    requires
        0 <= j < vertices.len(),
    ensures
        vertex_lanes(vertices).subrange(4 * j, 4 * (j + 1)) == vertices[j].pos@ + vertices[j].uv@,
    decreases vertices.len(),
{
    let rest = vertices.drop_last();
    lemma_vertex_len(rest);
    lemma_vertex_len(vertices);
    let all = vertex_lanes(vertices);
    if j < rest.len() {
        lemma_vertex_at(rest, j);
        assert(rest[j] == vertices[j]);
        assert(all.subrange(4 * j, 4 * (j + 1)) =~= vertex_lanes(rest).subrange(4 * j, 4 * (j + 1)));
    } else {
        assert(all.subrange(4 * j, 4 * (j + 1)) =~= vertices[j].pos@ + vertices[j].uv@);
    }
}

/// Whether the shader reads vertex `j` of a mesh at `region` as it is: its position
/// and its place within the path's bounds.
pub open spec fn shows_vertex(
    staged: Seq<u8>,
    region: Region,
    m: VertexBufferLayout,
    vertices: Seq<FillVertex>,
    j: int,
) -> bool {
    &&& feeds(staged, region, m, j, 0u32, VertexFormat::Float32x2, vertices[j].pos@)
    &&& feeds(staged, region, m, j, 1u32, VertexFormat::Float32x2, vertices[j].uv@)
}

/// Whether a staged path is drawn as it is: its vertices, its indices, how many of
/// them, and of its record each location one of the path's own properties.
pub open spec fn shows(
    staged: Seq<u8>,
    s: StagedFill,
    l: VertexBufferLayout,
    m: VertexBufferLayout,
    fill: CanvasFill,
    depth: u32,
) -> bool {
    &&& forall|j: int|
        0 <= j < fill.mesh.vertices@.len() ==> #[trigger] shows_vertex(
            staged,
            s.vertices,
            m,
            fill.mesh.vertices@,
            j,
        )
    &&& holds(staged, s.indices.offset as int, fill.mesh.indices@)
    &&& s.index_count == min_int(fill.mesh.indices@.len() as int, u32::MAX as int)
    &&& feeds(staged, s.record, l, 0, 2u32, VertexFormat::Float32x4, fill.color@)
    &&& feeds(staged, s.record, l, 0, 3u32, VertexFormat::Float32x4, (if fill.gradient is Some {
            fill.gradient->0.from@
        } else {
            seq![0u32, 0u32, 0u32, 0u32]
        }))
    &&& feeds(staged, s.record, l, 0, 4u32, VertexFormat::Float32x4, (if fill.gradient is Some {
            fill.gradient->0.mid@
        } else {
            seq![0u32, 0u32, 0u32, 0u32]
        }))
    &&& feeds(staged, s.record, l, 0, 5u32, VertexFormat::Float32x4, (if fill.gradient is Some {
            fill.gradient->0.to@
        } else {
            seq![0u32, 0u32, 0u32, 0u32]
        }))
    &&& feeds(staged, s.record, l, 0, 6u32, VertexFormat::Float32x4, (if fill.gradient is Some {
            fill.gradient->0.axis@
        } else {
            seq![0u32, 0u32, 0u32, 0u32]
        }))
    &&& feeds(
        staged,
        s.record,
        l,
        0,
        7u32,
        VertexFormat::Float32x4,
        seq![fill.opacity, depth, 0u32, 0u32],
    )
    &&& feeds(
        staged,
        s.record,
        l,
        0,
        8u32,
        VertexFormat::Float32x4,
        fill.transform.translate@ + fill.transform.scale@,
    )
    &&& feeds(
        staged,
        s.record,
        l,
        0,
        9u32,
        VertexFormat::Float32x3,
        seq![fill.transform.rotate] + fill.transform.origin@,
    )
    &&& feeds(staged, s.record, l, 0, 10u32, VertexFormat::Uint32, seq![if fill.gradient is Some {
            fill.gradient->0.kind
        } else {
            0xffff_ffffu32
        }])
}

/// A mesh staged on its own is read as it is.
proof fn lemma_staged_mesh_shows(
    before: ArenaView,
    after: ArenaView,
    region: Region,
    m: VertexBufferLayout,
    vertices: Seq<FillVertex>,
    j: int,
)
    requires
        batch_fits(before, 4 * vertices.len() as int),
        staged_batch(before, after, region, vertex_lanes(vertices)),
        lays_out(m, mesh_formats(), VertexStepMode::Vertex),
        0 <= j < vertices.len(),
    ensures
        shows_vertex(after.staged, region, m, vertices, j),
{
    let v = vertices[j];
    let record = v.pos@ + v.uv@;
    lemma_vertex_len(vertices);
    lemma_vertex_at(vertices, j);
    lemma_mesh_offsets();
    lemma_offset(mesh_formats(), 1);
    assert(mesh_formats().take(2) =~= mesh_formats());
    lemma_mesh_locations(before, after, region, vertex_lanes(vertices), m, j, record);
    assert(record.subrange(0, 2) =~= v.pos@);
    assert(record.subrange(2, 4) =~= v.uv@);
}

/// A record staged on its own is read as it is.
#[verifier::rlimit(50)]
proof fn lemma_staged_record_shows(
    b: ArenaView,
    after: ArenaView,
    s: StagedFill,
    l: VertexBufferLayout,
    fill: CanvasFill,
    depth: u32,
)
    requires
        batch_fits(b, 32),
        staged_batch(b, after, s.record, instance_lanes(instance_of(fill, depth))),
        lays_out(l, formats(), VertexStepMode::Instance),
    ensures
        feeds(after.staged, s.record, l, 0, 2u32, VertexFormat::Float32x4, fill.color@),
        feeds(after.staged, s.record, l, 0, 3u32, VertexFormat::Float32x4, (if fill.gradient is Some {
            fill.gradient->0.from@
        } else {
            seq![0u32, 0u32, 0u32, 0u32]
        })),
        feeds(after.staged, s.record, l, 0, 4u32, VertexFormat::Float32x4, (if fill.gradient is Some {
            fill.gradient->0.mid@
        } else {
            seq![0u32, 0u32, 0u32, 0u32]
        })),
        feeds(after.staged, s.record, l, 0, 5u32, VertexFormat::Float32x4, (if fill.gradient is Some {
            fill.gradient->0.to@
        } else {
            seq![0u32, 0u32, 0u32, 0u32]
        })),
        feeds(after.staged, s.record, l, 0, 6u32, VertexFormat::Float32x4, (if fill.gradient is Some {
            fill.gradient->0.axis@
        } else {
            seq![0u32, 0u32, 0u32, 0u32]
        })),
        feeds(
            after.staged,
            s.record,
            l,
            0,
            7u32,
            VertexFormat::Float32x4,
            seq![fill.opacity, depth, 0u32, 0u32],
        ),
        feeds(
            after.staged,
            s.record,
            l,
            0,
            8u32,
            VertexFormat::Float32x4,
            fill.transform.translate@ + fill.transform.scale@,
        ),
        feeds(
            after.staged,
            s.record,
            l,
            0,
            9u32,
            VertexFormat::Float32x3,
            seq![fill.transform.rotate] + fill.transform.origin@,
        ),
        feeds(after.staged, s.record, l, 0, 10u32, VertexFormat::Uint32, seq![if fill.gradient is Some {
            fill.gradient->0.kind
        } else {
            0xffff_ffffu32
        }]),
{
    let lanes = instance_lanes(instance_of(fill, depth));
    let record = lanes;
    lemma_offsets();
    lemma_offset(formats(), 8);
    assert(formats().take(9) =~= formats());
    assert(lanes.subrange(0, 32) =~= record);
    lemma_locations(b, after, s.record, lanes, l, 0, record);
    assert(record.subrange(0, 4) =~= fill.color@);
    assert(record.subrange(4, 8) =~= (if fill.gradient is Some {
            fill.gradient->0.from@
        } else {
            seq![0u32, 0u32, 0u32, 0u32]
        }));
    assert(record.subrange(8, 12) =~= (if fill.gradient is Some {
            fill.gradient->0.mid@
        } else {
            seq![0u32, 0u32, 0u32, 0u32]
        }));
    assert(record.subrange(12, 16) =~= (if fill.gradient is Some {
            fill.gradient->0.to@
        } else {
            seq![0u32, 0u32, 0u32, 0u32]
        }));
    assert(record.subrange(16, 20) =~= (if fill.gradient is Some {
            fill.gradient->0.axis@
        } else {
            seq![0u32, 0u32, 0u32, 0u32]
        }));
    assert(record.subrange(20, 24) =~= seq![fill.opacity, depth, 0u32, 0u32]);
    assert(record.subrange(24, 28) =~= fill.transform.translate@ + fill.transform.scale@);
    assert(record.subrange(28, 31) =~= seq![fill.transform.rotate] + fill.transform.origin@);
    assert(record.subrange(31, 32) =~= seq![if fill.gradient is Some {
            fill.gradient->0.kind
        } else {
            0xffff_ffffu32
        }]);
}

/// A path stays drawn as it is while more is staged.
proof fn lemma_shown_stays(
    staged: Seq<u8>,
    later: Seq<u8>,
    s: StagedFill,
    l: VertexBufferLayout,
    m: VertexBufferLayout,
    fill: CanvasFill,
    depth: u32,
)
    requires
        shows(staged, s, l, m, fill, depth),
        extends(later, staged),
    ensures
        shows(later, s, l, m, fill, depth),
{
    let vertices = fill.mesh.vertices@;
    assert forall|j: int| 0 <= j < vertices.len() implies #[trigger] shows_vertex(
        later,
        s.vertices,
        m,
        vertices,
        j,
    ) by {
        assert(shows_vertex(staged, s.vertices, m, vertices, j));
        lemma_feeds_kept(
            staged,
            later,
            s.vertices,
            m,
            j,
            0u32,
            VertexFormat::Float32x2,
            vertices[j].pos@,
        );
        lemma_feeds_kept(
            staged,
            later,
            s.vertices,
            m,
            j,
            1u32,
            VertexFormat::Float32x2,
            vertices[j].uv@,
        );
    }
    lemma_holds_kept(staged, later, s.indices.offset as int, fill.mesh.indices@);
    lemma_feeds_kept(
        staged,
        later,
        s.record,
        l,
        0,
        2u32,
        VertexFormat::Float32x4,
        fill.color@,
    );
    lemma_feeds_kept(
        staged,
        later,
        s.record,
        l,
        0,
        3u32,
        VertexFormat::Float32x4,
        (if fill.gradient is Some {
            fill.gradient->0.from@
        } else {
            seq![0u32, 0u32, 0u32, 0u32]
        }),
    );
    lemma_feeds_kept(
        staged,
        later,
        s.record,
        l,
        0,
        4u32,
        VertexFormat::Float32x4,
        (if fill.gradient is Some {
            fill.gradient->0.mid@
        } else {
            seq![0u32, 0u32, 0u32, 0u32]
        }),
    );
    lemma_feeds_kept(
        staged,
        later,
        s.record,
        l,
        0,
        5u32,
        VertexFormat::Float32x4,
        (if fill.gradient is Some {
            fill.gradient->0.to@
        } else {
            seq![0u32, 0u32, 0u32, 0u32]
        }),
    );
    lemma_feeds_kept(
        staged,
        later,
        s.record,
        l,
        0,
        6u32,
        VertexFormat::Float32x4,
        (if fill.gradient is Some {
            fill.gradient->0.axis@
        } else {
            seq![0u32, 0u32, 0u32, 0u32]
        }),
    );
    lemma_feeds_kept(
        staged,
        later,
        s.record,
        l,
        0,
        7u32,
        VertexFormat::Float32x4,
        seq![fill.opacity, depth, 0u32, 0u32],
    );
    lemma_feeds_kept(
        staged,
        later,
        s.record,
        l,
        0,
        8u32,
        VertexFormat::Float32x4,
        fill.transform.translate@ + fill.transform.scale@,
    );
    lemma_feeds_kept(
        staged,
        later,
        s.record,
        l,
        0,
        9u32,
        VertexFormat::Float32x3,
        seq![fill.transform.rotate] + fill.transform.origin@,
    );
    lemma_feeds_kept(
        staged,
        later,
        s.record,
        l,
        0,
        10u32,
        VertexFormat::Uint32,
        seq![if fill.gradient is Some {
            fill.gradient->0.kind
        } else {
            0xffff_ffffu32
        }],
    );
}

/// A path staged behind others is drawn as it is, and nothing before it is
/// touched.
pub proof fn law_staged_path_is_drawn_as_it_is(
    before: ArenaView,
    after: ArenaView,
    fill: CanvasFill,
    depth: u32,
    s: StagedFill,
    l: VertexBufferLayout,
    m: VertexBufferLayout,
)
    requires
        fill.mesh.indices@.len() > 0,
        batch_fits(
            before,
            (4 * fill.mesh.vertices@.len() + fill.mesh.indices@.len() + 32) as int,
        ),
        staged_path(before, after, fill, depth, s),
        lays_out(l, formats(), VertexStepMode::Instance),
        lays_out(m, mesh_formats(), VertexStepMode::Vertex),
    ensures
        shows(after.staged, s, l, m, fill, depth),
        extends(after.staged, before.staged),
        after.staged.len() == next_offset(before.staged.len() as int, 4) + 4 * (4
            * fill.mesh.vertices@.len() + fill.mesh.indices@.len() + 32),
        after.staged.len() % 4 == 0,
{
    let vertices = fill.mesh.vertices@;
    let indices = fill.mesh.indices@;
    let lanes = instance_lanes(instance_of(fill, depth));
    let (a, b) = choose|a: ArenaView, b: ArenaView|
        {
            &&& #[trigger] staged_batch(before, a, s.vertices, vertex_lanes(vertices))
            &&& #[trigger] staged_batch(a, b, s.indices, indices)
            &&& staged_batch(b, after, s.record, lanes)
        };
    lemma_vertex_len(vertices);
    law_padded_is_aligned(before.staged.len() as int, 4);
    lemma_staged_len(before, a, s.vertices, vertex_lanes(vertices));
    law_padded_is_aligned(a.staged.len() as int, 4);
    lemma_staged_len(a, b, s.indices, indices);
    assert(lanes.len() == 32);
    lemma_staged_len(b, after, s.record, lanes);
    lemma_batch_extends(before, a, s.vertices, vertex_lanes(vertices));
    lemma_batch_extends(a, b, s.indices, indices);
    lemma_batch_extends(b, after, s.record, lanes);
    lemma_extends_further(before.staged, a.staged, b.staged);
    lemma_extends_further(before.staged, b.staged, after.staged);
    lemma_extends_further(a.staged, b.staged, after.staged);
    assert forall|j: int| 0 <= j < vertices.len() implies #[trigger] shows_vertex(
        after.staged,
        s.vertices,
        m,
        vertices,
        j,
    ) by {
        lemma_staged_mesh_shows(before, a, s.vertices, m, vertices, j);
        lemma_feeds_kept(
            a.staged,
            after.staged,
            s.vertices,
            m,
            j,
            0u32,
            VertexFormat::Float32x2,
            vertices[j].pos@,
        );
        lemma_feeds_kept(
            a.staged,
            after.staged,
            s.vertices,
            m,
            j,
            1u32,
            VertexFormat::Float32x2,
            vertices[j].uv@,
        );
    }
    lemma_batch_holds(a, b, s.indices, indices, 0, indices.len() as int);
    assert(indices.subrange(0, indices.len() as int) =~= indices);
    lemma_holds_kept(b.staged, after.staged, s.indices.offset as int, indices);
    lemma_staged_record_shows(b, after, s, l, fill, depth);
}

/// A buffer behind a buffer behind a buffer.
proof fn lemma_extends_further(a: Seq<u8>, b: Seq<u8>, c: Seq<u8>)
    requires
        extends(b, a),
        extends(c, b),
    ensures
        extends(c, a),
{
    assert(c.subrange(0, a.len() as int) =~= a) by {
        assert forall|j: int| 0 <= j < a.len() implies c[j] == a[j] by {
            assert(c.subrange(0, b.len() as int)[j] == b[j]);
            assert(b.subrange(0, a.len() as int)[j] == a[j]);
        }
    }
}

/// How many of the first `n` paths have something to draw.
pub open spec fn drawn_among(fills: Seq<CanvasFill>, n: int) -> int
    decreases n,
{
    if n <= 0 {
        0
    } else {
        drawn_among(fills, n - 1) + if fills[n - 1].mesh.indices@.len() > 0 {
            1int
        } else {
            0int
        }
    }
}

/// The paths among the first `n` of a list are those of the list.
proof fn lemma_drawn_among(a: Seq<CanvasFill>, b: Seq<CanvasFill>, n: int)
    requires
        0 <= n <= a.len() <= b.len(),
        a == b.take(a.len() as int),
    ensures
        drawn_among(a, n) == drawn_among(b, n),
        0 <= drawn_among(b, n) <= n,
    decreases n,
{
    if n > 0 {
        lemma_drawn_among(a, b, n - 1);
        assert(a[n - 1] == b[n - 1]);
    }
}

/// Every path that has something to draw is staged, in order, and drawn as it is
/// at its own depth; the others are left out.
#[verifier::rlimit(50)]
pub proof fn law_drawn_paths_are_staged_as_they_are(
    before: ArenaView,
    after: ArenaView,
    out: Seq<StagedFill>,
    fills: Seq<CanvasFill>,
    depths: Seq<u32>,
    l: VertexBufferLayout,
    m: VertexBufferLayout,
)
    requires
        batch_fits(before, fill_lanes(fills)),
        staged_fills(before, after, out, fills, depths),
        lays_out(l, formats(), VertexStepMode::Instance),
        lays_out(m, mesh_formats(), VertexStepMode::Vertex),
    ensures
        out.len() == drawn_among(fills, fills.len() as int),
        forall|i: int| #![trigger fills[i]]
            0 <= i < fills.len() && fills[i].mesh.indices@.len() > 0 ==> {
                &&& 0 <= drawn_among(fills, i) < out.len()
                &&& shows(
                    after.staged,
                    out[drawn_among(fills, i)],
                    l,
                    m,
                    fills[i],
                    if i < depths.len() {
                        depths[i]
                    } else {
                        0x3f80_0000u32
                    },
                )
            },
        extends(after.staged, before.staged),
        fill_lanes(fills) == 0 ==> after == before,
        fill_lanes(fills) > 0 ==> after.staged.len() == next_offset(
            before.staged.len() as int,
            4,
        ) + 4 * fill_lanes(fills) && after.staged.len() % 4 == 0,
    decreases fills.len(),
{
    if fills.len() == 0 {
        assert(before.staged.subrange(0, before.staged.len() as int) =~= before.staged);
    } else {
        let n = fills.len() as int;
        let rest = fills.drop_last();
        assert(rest =~= fills.take(n - 1));
        lemma_drawn_among(rest, fills, n - 1);
        lemma_fill_lanes_grow(fills, n - 1);
        law_padded_is_aligned(before.staged.len() as int, 4);
        if fills.last().mesh.indices@.len() == 0 {
            law_drawn_paths_are_staged_as_they_are(before, after, out, rest, depths, l, m);
            assert forall|i: int| #![trigger fills[i]]
                0 <= i < fills.len() && fills[i].mesh.indices@.len() > 0 implies {
                &&& 0 <= drawn_among(fills, i) < out.len()
                &&& shows(
                    after.staged,
                    out[drawn_among(fills, i)],
                    l,
                    m,
                    fills[i],
                    depth_of(depths, i),
                )
            } by {
                assert(rest[i] == fills[i]);
                lemma_drawn_among(rest, fills, i);
            }
        } else {
            let depth = depth_of(depths, n - 1);
            let mid = choose|mid: ArenaView|
                {
                    &&& staged_fills(before, mid, out.drop_last(), rest, depths)
                    &&& #[trigger] staged_path(mid, after, fills.last(), depth, out.last())
                };
            let head = out.drop_last();
            law_drawn_paths_are_staged_as_they_are(before, mid, head, rest, depths, l, m);
            law_padded_is_aligned(mid.staged.len() as int, 4);
            law_staged_path_is_drawn_as_it_is(mid, after, fills.last(), depth, out.last(), l, m);
            lemma_extends_further(before.staged, mid.staged, after.staged);
            assert forall|i: int| #![trigger fills[i]]
                0 <= i < fills.len() && fills[i].mesh.indices@.len() > 0 implies {
                &&& 0 <= drawn_among(fills, i) < out.len()
                &&& shows(
                    after.staged,
                    out[drawn_among(fills, i)],
                    l,
                    m,
                    fills[i],
                    depth_of(depths, i),
                )
            } by {
                if i < n - 1 {
                    assert(rest[i] == fills[i]);
                    lemma_drawn_among(rest, fills, i);
                    let at = drawn_among(fills, i);
                    assert(out[at] == head[at]);
                    lemma_shown_stays(
                        mid.staged,
                        after.staged,
                        out[at],
                        l,
                        m,
                        fills[i],
                        depth_of(depths, i),
                    );
                } else {
                    assert(out[out.len() - 1] == out.last());
                }
            }
        }
    }
}

} // verus!
