//! The `VectorMSDF` pipeline: monochrome glyphs sampled from a distance-field
//! atlas, crisp at any scale.

use super::descriptor::{
    binds, binds_viewport, draw_depth_stencil, lays_out, opaque_depth, pack, packed_size,
    push_lanes, quad_lanes, quad_layout, sampled_entries, sampled_layout, viewport_layout,
    BindLayout, Binding, Blend, Lanes, PipelineDesc, TextureFormat, Topology, VertexBufferLayout,
    VertexFormat, VertexStepMode,
};
use super::instance_arena::{ArenaView, InstanceArena, Region};
use super::staging::{batch_fits, stage_lanes, staged_batch};
use crate::frame::{AtlasUpload, VectorInstance};
use super::records::{feeds, lemma_feeds, lemma_offset};
use vstd::prelude::*;

verus! {

/// Edge length of one atlas layer, in texels.
pub const ATLAS_SIZE: u32 = 2048;

/// Layers the atlas is created with. Never fewer than two: on the GL backend a
/// texture with a single layer is not an array texture, and sampling it as one
/// reads nothing.
pub const ATLAS_LAYERS: u32 = 2;

/// The lanes of one glyph.
pub open spec fn vector_lanes(v: VectorInstance) -> Seq<u32> {
    v.atlas_uv@ + v.screen_rect@ + v.color@ + seq![v.px_range, v.atlas_layer, v.depth]
}

/// The lanes of a batch. The depth is already on each glyph.
pub open spec fn batch_lanes(vectors: Seq<VectorInstance>) -> Seq<u32>
    decreases vectors.len(),
{
    if vectors.len() == 0 {
        Seq::empty()
    } else {
        batch_lanes(vectors.drop_last()) + vector_lanes(vectors.last())
    }
}

/// Locations and formats of a glyph.
pub open spec fn formats() -> Lanes {
    seq![
        (1u32, VertexFormat::Float32x4),
        (2u32, VertexFormat::Float32x4),
        (3u32, VertexFormat::Float32x4),
        (4u32, VertexFormat::Float32),
        (5u32, VertexFormat::Uint32),
        (6u32, VertexFormat::Float32),
    ]
}

/// The instance layout, locations 1 to 6.
pub fn instance_layout() -> (l: VertexBufferLayout)
    ensures
        lays_out(l, formats(), VertexStepMode::Instance),
{
    let lanes: [(u32, VertexFormat); 6] = [
        (1, VertexFormat::Float32x4),
        (2, VertexFormat::Float32x4),
        (3, VertexFormat::Float32x4),
        (4, VertexFormat::Float32),
        (5, VertexFormat::Uint32),
        (6, VertexFormat::Float32),
    ];
    assert(lanes@ =~= formats());
    pack(lanes.as_slice(), VertexStepMode::Instance)
}

/// A glyph is exactly as long as its layout's stride.
pub proof fn law_record_fills_its_stride(v: VectorInstance, l: VertexBufferLayout)
    requires
        lays_out(l, formats(), VertexStepMode::Instance),
    ensures
        4 * vector_lanes(v).len() == l.array_stride,
        l.array_stride == 60,
{
    reveal_with_fuel(packed_size, 7);
    assert(packed_size(formats()) == 60);
}

/// Appends one glyph's lanes.
fn push_vector(out: &mut Vec<u32>, v: &VectorInstance)
    ensures
        final(out)@ == old(out)@ + vector_lanes(*v),
{
    let ghost before = out@;
    push_lanes(out, v.atlas_uv.as_slice());
    push_lanes(out, v.screen_rect.as_slice());
    push_lanes(out, v.color.as_slice());
    out.push(v.px_range);
    out.push(v.atlas_layer);
    out.push(v.depth);
    assert(out@ =~= before + vector_lanes(*v));
}

/// A batch takes 15 lanes per glyph.
proof fn lemma_batch_len(vectors: Seq<VectorInstance>)
    ensures
        batch_lanes(vectors).len() == 15 * vectors.len(),
    decreases vectors.len(),
{
    if vectors.len() > 0 {
        lemma_batch_len(vectors.drop_last());
    }
}

/// Stages a batch of glyphs as they are.
pub fn stage(arena: &mut InstanceArena, vectors: &[VectorInstance]) -> (r: Region)
    requires
        old(arena).wf(),
        batch_fits(old(arena)@, 15 * vectors@.len() as int),
    ensures
        final(arena).wf(),
        staged_batch(old(arena)@, final(arena)@, r, batch_lanes(vectors@)),
{
    let mut lanes: Vec<u32> = Vec::new();
    let mut i: usize = 0;
    while i < vectors.len()
        invariant
            i <= vectors@.len(),
            lanes@ == batch_lanes(vectors@.take(i as int)),
        decreases vectors@.len() - i,
    {
        proof {
            assert(vectors@.take(i as int + 1).drop_last() =~= vectors@.take(i as int));
        }
        push_vector(&mut lanes, &vectors[i]);
        i = i + 1;
    }
    proof {
        assert(vectors@.take(i as int) =~= vectors@);
        lemma_batch_len(vectors@);
    }
    stage_lanes(arena, lanes.as_slice())
}

/// One write into the atlas.
#[derive(Clone, Copy, Debug, PartialEq, Eq)]
pub struct AtlasWrite {
    /// Which upload of the batch it takes its pixels from.
    pub upload: usize,
    /// Destination column, row and layer.
    pub origin: (u32, u32, u32),
    /// Bytes from one row to the next.
    pub bytes_per_row: u32,
    /// Rows written.
    pub rows_per_image: u32,
    /// Width and height written.
    pub extent: (u32, u32),
}

/// Whether an atlas of that edge length and so many layers takes an upload: into
/// a layer it has, of at least one texel, inside the layer, with every byte of
/// the rectangle present.
pub open spec fn takes(size: u32, layers: u32, up: AtlasUpload) -> bool {
    &&& up.layer < layers
    &&& up.x + up.width <= size
    &&& up.y + up.height <= size
    &&& up.width > 0
    &&& up.height > 0
    &&& up.width * up.height * 4 <= up.bytes@.len()
}

/// The write an upload becomes.
pub open spec fn write_of(uploads: Seq<AtlasUpload>, i: int) -> AtlasWrite {
    let up = uploads[i];
    AtlasWrite {
        upload: i as usize,
        origin: (up.x, up.y, up.layer),
        bytes_per_row: (up.width * 4) as u32,
        rows_per_image: up.height,
        extent: (up.width, up.height),
    }
}

/// The identities of the uploads the atlas takes, in their order.
pub open spec fn taken_ids(size: u32, layers: u32, uploads: Seq<AtlasUpload>) -> Seq<u64>
    decreases uploads.len(),
{
    if uploads.len() == 0 {
        Seq::empty()
    } else if takes(size, layers, uploads.last()) {
        taken_ids(size, layers, uploads.drop_last()).push(uploads.last().id)
    } else {
        taken_ids(size, layers, uploads.drop_last())
    }
}

/// The writes of the uploads the atlas takes, in their order.
pub open spec fn taken_writes(size: u32, layers: u32, uploads: Seq<AtlasUpload>) -> Seq<AtlasWrite>
    decreases uploads.len(),
{
    if uploads.len() == 0 {
        Seq::empty()
    } else if takes(size, layers, uploads.last()) {
        taken_writes(size, layers, uploads.drop_last()).push(write_of(uploads, uploads.len() - 1))
    } else {
        taken_writes(size, layers, uploads.drop_last())
    }
}

/// Whether an upload holds the whole rectangle it names.
fn holds_rectangle(up: &AtlasUpload) -> (yes: bool)
    ensures
        yes == (up.width * up.height * 4 <= up.bytes@.len()),
{
    let width: u128 = up.width as u128;
    let height: u128 = up.height as u128;
    assert(width * height <= 0xffff_ffff * 0xffff_ffff) by (nonlinear_arith)
        requires
            width <= 0xffff_ffff,
            height <= 0xffff_ffff,
    ;
    assert(width * height == up.width * up.height);
    width * height * 4 <= up.bytes.len() as u128
}

/// The distance-field atlas.
pub struct VectorAtlas {
    size: u32,
    layers: u32,
}

impl VectorAtlas {
    /// Its edge length.
    pub closed spec fn size_spec(&self) -> u32 {
        self.size
    }

    /// Its layer count.
    pub closed spec fn layers_spec(&self) -> u32 {
        self.layers
    }

    /// An empty atlas, of at least one layer.
    pub fn new(size: u32, layers: u32) -> (a: VectorAtlas)
        ensures
            a.size_spec() == size,
            a.layers_spec() == if layers == 0 {
                1
            } else {
                layers
            },
    {
        VectorAtlas {
            size,
            layers: if layers == 0 {
                1
            } else {
                layers
            },
        }
    }

    /// The edge length of each layer.
    pub fn size(&self) -> (n: u32)
        ensures
            n == self.size_spec(),
    {
        self.size
    }

    /// The number of layers.
    pub fn layers(&self) -> (n: u32)
        ensures
            n == self.layers_spec(),
    {
        self.layers
    }

    /// Plans the writes of a batch of uploads. Uploads out of bounds or too
    /// short are left out. The identities returned are those of the uploads
    /// taken, so that whoever resends the unconfirmed ones can stop.
    pub fn apply_uploads(&self, uploads: &[AtlasUpload]) -> (r: (Vec<u64>, Vec<AtlasWrite>))
        requires
            4 * self.size_spec() <= u32::MAX,
        ensures
            r.0@ == taken_ids(self.size_spec(), self.layers_spec(), uploads@),
            r.1@ == taken_writes(self.size_spec(), self.layers_spec(), uploads@),
    {
        let mut ids: Vec<u64> = Vec::new();
        let mut writes: Vec<AtlasWrite> = Vec::new();
        let mut i: usize = 0;
        while i < uploads.len()
            invariant
                i <= uploads@.len(),
                4 * self.size_spec() <= u32::MAX,
                ids@ == taken_ids(self.size_spec(), self.layers_spec(), uploads@.take(i as int)),
                writes@ == taken_writes(self.size_spec(), self.layers_spec(), uploads@.take(i as int)),
            decreases uploads@.len() - i,
        {
            let up: &AtlasUpload = &uploads[i];
            let ghost next = uploads@.take(i as int + 1);
            proof {
                assert(next.drop_last() =~= uploads@.take(i as int));
                assert(next.last() == uploads@[i as int]);
            }
            if up.layer < self.layers && up.width > 0 && up.height > 0 && up.width <= self.size
                && up.x <= self.size - up.width && up.height <= self.size && up.y <= self.size
                - up.height && holds_rectangle(up) {
                assert(takes(self.size_spec(), self.layers_spec(), uploads@[i as int]));
                ids.push(up.id);
                writes.push(
                    AtlasWrite {
                        upload: i,
                        origin: (up.x, up.y, up.layer),
                        bytes_per_row: up.width * 4,
                        rows_per_image: up.height,
                        extent: (up.width, up.height),
                    },
                );
                assert(writes@.last() == write_of(next, i as int));
            }
            i = i + 1;
        }
        proof {
            assert(uploads@.take(i as int) =~= uploads@);
        }
        (ids, writes)
    }
}

/// The number of uploads the atlas takes.
pub open spec fn taken_count(size: u32, layers: u32, uploads: Seq<AtlasUpload>) -> nat
    decreases uploads.len(),
{
    if uploads.len() == 0 {
        0
    } else {
        taken_count(size, layers, uploads.drop_last()) + if takes(size, layers, uploads.last()) {
            1nat
        } else {
            0nat
        }
    }
}

/// An upload is acknowledged exactly when it is written: there is one identity
/// per write, and it is the identity of the upload the write takes its pixels
/// from.
pub proof fn law_acknowledged_means_written(size: u32, layers: u32, uploads: Seq<AtlasUpload>)
    requires
        uploads.len() <= usize::MAX,
    ensures
        taken_ids(size, layers, uploads).len() == taken_count(size, layers, uploads),
        taken_writes(size, layers, uploads).len() == taken_count(size, layers, uploads),
        forall|k: int| #![trigger taken_writes(size, layers, uploads)[k]]
            0 <= k < taken_count(size, layers, uploads) ==> {
                let w = taken_writes(size, layers, uploads)[k];
                &&& w.upload < uploads.len()
                &&& takes(size, layers, uploads[w.upload as int])
                &&& taken_ids(size, layers, uploads)[k] == uploads[w.upload as int].id
            },
    decreases uploads.len(),
{
    if uploads.len() > 0 {
        let rest = uploads.drop_last();
        law_acknowledged_means_written(size, layers, rest);
        assert forall|k: int| #![trigger taken_writes(size, layers, uploads)[k]] 0 <= k < taken_count(
            size,
            layers,
            uploads,
        ) implies {
            let w = taken_writes(size, layers, uploads)[k];
            &&& w.upload < uploads.len()
            &&& takes(size, layers, uploads[w.upload as int])
            &&& taken_ids(size, layers, uploads)[k] == uploads[w.upload as int].id
        } by {
            if k < taken_count(size, layers, rest) {
                let w = taken_writes(size, layers, rest)[k];
                assert(taken_writes(size, layers, uploads)[k] == w);
                assert(rest[w.upload as int] == uploads[w.upload as int]);
            }
        }
    }
}

/// Whether a layout is that of the atlas and its sampler.
pub open spec fn binds_atlas(l: BindLayout) -> bool {
    binds(
        l,
        "ByardCore - VectorMSDF Atlas Bind Group Layout"@,
        sampled_entries(Binding::TextureArray),
    )
}

/// The atlas and its sampler, at group 1.
pub fn bind_group_layout() -> (l: BindLayout)
    ensures
        binds_atlas(l),
{
    sampled_layout("ByardCore - VectorMSDF Atlas Bind Group Layout", Binding::TextureArray)
}

/// What the pipeline is made of.
pub open spec fn describes(d: PipelineDesc, surface: TextureFormat) -> bool {
    &&& d.name@ == "VectorMSDF"@
    &&& d.buffers@.len() == 2
    &&& lays_out(d.buffers@[0], quad_lanes(), VertexStepMode::Vertex)
    &&& lays_out(d.buffers@[1], formats(), VertexStepMode::Instance)
    &&& d.groups@.len() == 2
    &&& binds_viewport(d.groups@[0])
    &&& binds_atlas(d.groups@[1])
    &&& d.target == surface
    &&& d.blend == Blend::PremultipliedAlpha
    &&& d.topology == Topology::TriangleStrip
    &&& d.depth == Some(opaque_depth())
    &&& d.samples == 1
}

/// Describes the pipeline. Its output carries premultiplied colour.
pub fn pipeline(surface: TextureFormat) -> (d: PipelineDesc)
    ensures
        describes(d, surface),
{
    let mut buffers: Vec<VertexBufferLayout> = Vec::new();
    buffers.push(quad_layout());
    buffers.push(instance_layout());
    let mut groups: Vec<BindLayout> = Vec::new();
    groups.push(viewport_layout());
    groups.push(bind_group_layout());
    PipelineDesc {
        name: "VectorMSDF",
        buffers,
        groups,
        target: surface,
        blend: Blend::PremultipliedAlpha,
        topology: Topology::TriangleStrip,
        depth: Some(draw_depth_stencil()),
        samples: 1,
    }
}

/// Where each location of a record starts.
proof fn lemma_offsets()
    ensures
        packed_size(formats().take(0)) == 0,
        packed_size(formats().take(1)) == 16,
        packed_size(formats().take(2)) == 32,
        packed_size(formats().take(3)) == 48,
        packed_size(formats().take(4)) == 52,
        packed_size(formats().take(5)) == 56,
{
    lemma_offset(formats(), 0);
    lemma_offset(formats(), 1);
    lemma_offset(formats(), 2);
    lemma_offset(formats(), 3);
    lemma_offset(formats(), 4);
    lemma_offset(formats(), 5);
}

/// Each location reads its own lanes of a record.
proof fn lemma_locations(
    before: ArenaView,
    after: ArenaView,
    region: Region,
    lanes: Seq<u32>,
    l: VertexBufferLayout,
    i: int,
    record: Seq<u32>,
)
    requires
        staged_batch(before, after, region, lanes),
        batch_fits(before, lanes.len() as int),
        lays_out(l, formats(), VertexStepMode::Instance),
        l.array_stride == 60,
        record.len() == 15,
        0 <= i,
        15 * (i + 1) <= lanes.len(),
        lanes.subrange(15 * i, 15 * (i + 1)) == record,
    ensures
        feeds(after.staged, region, l, i, 1u32, VertexFormat::Float32x4, record.subrange(0, 4)),
        feeds(after.staged, region, l, i, 2u32, VertexFormat::Float32x4, record.subrange(4, 8)),
        feeds(after.staged, region, l, i, 3u32, VertexFormat::Float32x4, record.subrange(8, 12)),
        feeds(after.staged, region, l, i, 4u32, VertexFormat::Float32, record.subrange(12, 13)),
        feeds(after.staged, region, l, i, 5u32, VertexFormat::Uint32, record.subrange(13, 14)),
        feeds(after.staged, region, l, i, 6u32, VertexFormat::Float32, record.subrange(14, 15)),
{
    lemma_offsets();
    assert(i * record.len() == 15 * i && (i + 1) * record.len() == 15 * (i + 1));
    lemma_feeds(
        before,
        after,
        region,
        lanes,
        l,
        formats(),
        VertexStepMode::Instance,
        i,
        record,
        0,
        0,
        record.subrange(0, 4),
    );
    lemma_feeds(
        before,
        after,
        region,
        lanes,
        l,
        formats(),
        VertexStepMode::Instance,
        i,
        record,
        1,
        4,
        record.subrange(4, 8),
    );
    lemma_feeds(
        before,
        after,
        region,
        lanes,
        l,
        formats(),
        VertexStepMode::Instance,
        i,
        record,
        2,
        8,
        record.subrange(8, 12),
    );
    lemma_feeds(
        before,
        after,
        region,
        lanes,
        l,
        formats(),
        VertexStepMode::Instance,
        i,
        record,
        3,
        12,
        record.subrange(12, 13),
    );
    lemma_feeds(
        before,
        after,
        region,
        lanes,
        l,
        formats(),
        VertexStepMode::Instance,
        i,
        record,
        4,
        13,
        record.subrange(13, 14),
    );
    lemma_feeds(
        before,
        after,
        region,
        lanes,
        l,
        formats(),
        VertexStepMode::Instance,
        i,
        record,
        5,
        14,
        record.subrange(14, 15),
    );
}

/// Record `i` of a batch lies behind the records before it.
proof fn lemma_record_at(vectors: Seq<VectorInstance>, i: int)
    requires
        0 <= i < vectors.len(),
    ensures
        batch_lanes(vectors).subrange(15 * i, 15 * (i + 1)) == vector_lanes(vectors[i]),
    decreases vectors.len(),
{
    let rest = vectors.drop_last();
    lemma_batch_len(rest);
    lemma_batch_len(vectors);
    let all = batch_lanes(vectors);
    if i < rest.len() {
        lemma_record_at(rest, i);
        assert(rest[i] == vectors[i]);
        assert(all.subrange(15 * i, 15 * (i + 1)) =~= batch_lanes(rest).subrange(
            15 * i,
            15 * (i + 1),
        ));
    } else {
        assert(all.subrange(15 * i, 15 * (i + 1)) =~= vector_lanes(vectors[i]));
    }
}

/// What the shader reads of glyph `i` of a staged batch, location by location:
/// each is one of the glyph's own properties.
pub proof fn law_staged_glyphs_feed_their_locations(
    before: ArenaView,
    after: ArenaView,
    region: Region,
    vectors: Seq<VectorInstance>,
    l: VertexBufferLayout,
    i: int,
)
    requires
        batch_fits(before, 15 * vectors.len() as int),
        staged_batch(before, after, region, batch_lanes(vectors)),
        lays_out(l, formats(), VertexStepMode::Instance),
        0 <= i < vectors.len(),
    ensures
        l.step_mode == VertexStepMode::Instance,
        feeds(after.staged, region, l, i, 1u32, VertexFormat::Float32x4, vectors[i].atlas_uv@),
        feeds(after.staged, region, l, i, 2u32, VertexFormat::Float32x4, vectors[i].screen_rect@),
        feeds(after.staged, region, l, i, 3u32, VertexFormat::Float32x4, vectors[i].color@),
        feeds(after.staged, region, l, i, 4u32, VertexFormat::Float32, seq![vectors[i].px_range]),
        feeds(after.staged, region, l, i, 5u32, VertexFormat::Uint32, seq![vectors[i].atlas_layer]),
        feeds(after.staged, region, l, i, 6u32, VertexFormat::Float32, seq![vectors[i].depth]),
{
    let lanes = batch_lanes(vectors);
    let record = vector_lanes(vectors[i]);
    lemma_batch_len(vectors);
    lemma_record_at(vectors, i);
    law_record_fills_its_stride(vectors[i], l);
    assert(record.len() == 15);
    lemma_locations(before, after, region, lanes, l, i, record);
    assert(record.subrange(0, 4) =~= vectors[i].atlas_uv@);
    assert(record.subrange(4, 8) =~= vectors[i].screen_rect@);
    assert(record.subrange(8, 12) =~= vectors[i].color@);
    assert(record.subrange(12, 13) =~= seq![vectors[i].px_range]);
    assert(record.subrange(13, 14) =~= seq![vectors[i].atlas_layer]);
    assert(record.subrange(14, 15) =~= seq![vectors[i].depth]);
}

/// Whether an upload's rectangle lies inside a layer of the atlas, with a byte for
/// each channel of each of its texels.
pub open spec fn lands(size: u32, layers: u32, up: AtlasUpload) -> bool {
    &&& up.layer < layers
    &&& 0 < up.width && up.x + up.width <= size
    &&& 0 < up.height && up.y + up.height <= size
    &&& 4 * (up.width * up.height) <= up.bytes@.len()
}

/// Exactly the uploads that land in the atlas are written, in order and once each:
/// every write puts its upload's own rectangle where the upload says, row by row,
/// and acknowledges it.
pub proof fn law_uploads_are_written_where_they_say(
    size: u32,
    layers: u32,
    uploads: Seq<AtlasUpload>,
)
    requires
        4 * size <= u32::MAX,
        uploads.len() <= usize::MAX,
    ensures
        ({
            let writes = taken_writes(size, layers, uploads);
            let ids = taken_ids(size, layers, uploads);
            &&& ids.len() == writes.len()
            &&& forall|k: int| #![trigger writes[k]]
                0 <= k < writes.len() ==> {
                    let up = uploads[writes[k].upload as int];
                    &&& writes[k].upload < uploads.len()
                    &&& lands(size, layers, up)
                    &&& ids[k] == up.id
                    &&& writes[k].origin.0 == up.x && writes[k].origin.1 == up.y
                        && writes[k].origin.2 == up.layer
                    &&& writes[k].extent.0 == up.width && writes[k].extent.1 == up.height
                    &&& writes[k].bytes_per_row == 4 * up.width
                    &&& writes[k].rows_per_image == up.height
                }
            &&& forall|k: int, m: int| #![trigger writes[k], writes[m]]
                0 <= k < m < writes.len() ==> writes[k].upload < writes[m].upload
            &&& forall|i: int| #![trigger uploads[i]]
                0 <= i < uploads.len() && lands(size, layers, uploads[i]) ==> exists|k: int|
                    0 <= k < writes.len() && (#[trigger] writes[k]).upload == i
        }),
    decreases uploads.len(),
{
    if uploads.len() > 0 {
        let rest = uploads.drop_last();
        let last = uploads.len() - 1;
        law_uploads_are_written_where_they_say(size, layers, rest);
        let writes = taken_writes(size, layers, uploads);
        let before = taken_writes(size, layers, rest);
        let ids = taken_ids(size, layers, uploads);
        assert(takes(size, layers, uploads.last()) == lands(size, layers, uploads[last]));
        assert forall|k: int| #![trigger writes[k]] 0 <= k < writes.len() implies {
            let up = uploads[writes[k].upload as int];
            &&& writes[k].upload < uploads.len()
            &&& lands(size, layers, up)
            &&& ids[k] == up.id
            &&& writes[k].origin.0 == up.x && writes[k].origin.1 == up.y && writes[k].origin.2
                == up.layer
            &&& writes[k].extent.0 == up.width && writes[k].extent.1 == up.height
            &&& writes[k].bytes_per_row == 4 * up.width
            &&& writes[k].rows_per_image == up.height
        } by {
            if k < before.len() {
                assert(writes[k] == before[k]);
                assert(rest[before[k].upload as int] == uploads[before[k].upload as int]);
            } else {
                assert(writes[k] == write_of(uploads, last));
            }
        }
        assert forall|k: int, m: int| #![trigger writes[k], writes[m]]
            0 <= k < m < writes.len() implies writes[k].upload < writes[m].upload by {
            assert(writes[k] == before[k]);
            if m < before.len() {
                assert(writes[m] == before[m]);
            } else {
                assert(before[k].upload < rest.len());
            }
        }
        assert forall|i: int| #![trigger uploads[i]]
            0 <= i < uploads.len() && lands(size, layers, uploads[i]) implies exists|k: int|
            0 <= k < writes.len() && (#[trigger] writes[k]).upload == i by {
            if i < last {
                assert(rest[i] == uploads[i]);
                let k = choose|k: int| 0 <= k < before.len() && (#[trigger] before[k]).upload == i;
                assert(writes[k] == before[k]);
            } else {
                assert(writes[writes.len() - 1] == write_of(uploads, last));
            }
        }
    }
}

} // verus!
