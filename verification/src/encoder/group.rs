//! Opacity groups: a translucent container faded as one picture.
//!
//! A group's primitives are drawn into one offscreen target of the frame's
//! size, and a single composite puts that picture back at the group's opacity
//! and depth. One target serves every group of a frame.

use super::descriptor::{
    binds, draw_depth_stencil, lays_out, opaque_depth, pack, packed_size, quad_lanes, quad_layout,
    BindEntry, BindLayout, Binding, Blend, Lanes, PipelineDesc, TextureFormat, Topology,
    VertexBufferLayout, VertexFormat, VertexStepMode, Visibility,
};
use super::instance_arena::{ArenaView, InstanceArena, Region};
use super::staging::{batch_fits, stage_lanes, staged_batch};
use super::records::{feeds, lemma_feeds, lemma_offset};
use vstd::prelude::*;

verus! {

/// One group: the alpha its picture is composited at, and its depth.
#[derive(Copy, Clone, Debug, PartialEq, Eq)]
pub struct GroupInstance {
    /// Opacity and draw-order depth.
    pub params: [u32; 2],
}

/// Locations and formats of a group.
pub open spec fn formats() -> Lanes {
    seq![(1u32, VertexFormat::Float32x2)]
}

impl GroupInstance {
    /// The instance layout, location 1.
    pub fn layout() -> (l: VertexBufferLayout)
        ensures
            lays_out(l, formats(), VertexStepMode::Instance),
    {
        let lanes: [(u32, VertexFormat); 1] = [(1, VertexFormat::Float32x2)];
        assert(lanes@ =~= formats());
        pack(lanes.as_slice(), VertexStepMode::Instance)
    }
}

/// A group is exactly as long as its layout's stride.
pub proof fn law_record_fills_its_stride(g: GroupInstance, l: VertexBufferLayout)
    requires
        lays_out(l, formats(), VertexStepMode::Instance),
    ensures
        4 * g.params@.len() == l.array_stride,
        l.array_stride == 8,
{
    reveal_with_fuel(packed_size, 2);
    assert(packed_size(formats()) == 8);
}

/// Stages one group's record.
pub fn stage(arena: &mut InstanceArena, g: &GroupInstance) -> (r: Region)
    requires
        old(arena).wf(),
        batch_fits(old(arena)@, 2),
    ensures
        final(arena).wf(),
        staged_batch(old(arena)@, final(arena)@, r, g.params@),
{
    stage_lanes(arena, g.params.as_slice())
}

/// The offscreen target, once a frame asked for one.
#[derive(Debug)]
pub struct GroupCompositor {
    target: Option<(u32, u32)>,
}

/// The extent a target of a size is allocated with: no axis empty.
pub open spec fn target_extent(size: (u32, u32)) -> (u32, u32) {
    (
        if size.0 == 0 {
            1
        } else {
            size.0
        },
        if size.1 == 0 {
            1
        } else {
            size.1
        },
    )
}

impl GroupCompositor {
    /// The size the target was asked for with.
    pub closed spec fn size(&self) -> Option<(u32, u32)> {
        self.target
    }

    /// A compositor without a target: an application with no translucent
    /// container holds no offscreen texture at all.
    pub fn new() -> (c: GroupCompositor)
        ensures
            c.size() is None,
    {
        GroupCompositor { target: None }
    }

    /// Makes sure a target of `size` is held. Returns the extent of the one to
    /// allocate: on the first request, and again only when the size changes.
    pub fn ensure(&mut self, size: (u32, u32)) -> (allocate: Option<(u32, u32)>)
        ensures
            final(self).size() == Some(size),
            allocate == (if old(self).size() == Some(size) {
                None
            } else {
                Some(target_extent(size))
            }),
    {
        if let Some(held) = self.target {
            if held.0 == size.0 && held.1 == size.1 {
                return None;
            }
        }
        self.target = Some(size);
        Some(
            (
                if size.0 == 0 {
                    1
                } else {
                    size.0
                },
                if size.1 == 0 {
                    1
                } else {
                    size.1
                },
            ),
        )
    }

    /// Whether a target is held. A composite without one draws nothing.
    pub fn has_target(&self) -> (yes: bool)
        ensures
            yes == (self.size() is Some),
    {
        self.target.is_some()
    }
}

/// The composite's only entry: the picture, read texel by texel.
pub open spec fn entries() -> Seq<BindEntry> {
    seq![
        BindEntry {
            binding: 0,
            visibility: Visibility::Fragment,
            kind: Binding::Texture { filterable: false },
        },
    ]
}

/// Whether a layout is that of a group's picture.
pub open spec fn binds_picture(l: BindLayout) -> bool {
    binds(l, "ByardCore - Group Layout"@, entries())
}

/// The picture, at group 0.
pub fn bind_group_layout() -> (l: BindLayout)
    ensures
        binds_picture(l),
{
    let mut list: Vec<BindEntry> = Vec::new();
    list.push(
        BindEntry {
            binding: 0,
            visibility: Visibility::Fragment,
            kind: Binding::Texture { filterable: false },
        },
    );
    assert(list@ =~= entries());
    BindLayout { label: "ByardCore - Group Layout", entries: list }
}

/// What the pipeline is made of.
pub open spec fn describes(d: PipelineDesc, surface: TextureFormat) -> bool {
    &&& d.name@ == "Group"@
    &&& d.buffers@.len() == 2
    &&& lays_out(d.buffers@[0], quad_lanes(), VertexStepMode::Vertex)
    &&& lays_out(d.buffers@[1], formats(), VertexStepMode::Instance)
    &&& d.groups@.len() == 1
    &&& binds_picture(d.groups@[0])
    &&& d.target == surface
    &&& d.blend == Blend::PremultipliedAlpha
    &&& d.topology == Topology::TriangleStrip
    &&& d.depth == Some(opaque_depth())
    &&& d.samples == 1
}

/// Describes the composite. The picture's colour already carries its alpha.
pub fn pipeline(surface: TextureFormat) -> (d: PipelineDesc)
    ensures
        describes(d, surface),
{
    let mut buffers: Vec<VertexBufferLayout> = Vec::new();
    buffers.push(quad_layout());
    buffers.push(GroupInstance::layout());
    let mut groups: Vec<BindLayout> = Vec::new();
    groups.push(bind_group_layout());
    PipelineDesc {
        name: "Group",
        buffers,
        groups,
        target: surface,
        blend: Blend::PremultipliedAlpha,
        topology: Topology::TriangleStrip,
        depth: Some(draw_depth_stencil()),
        samples: 1,
    }
}

/// What the shader reads of a staged group: its opacity and its depth.
pub proof fn law_staged_group_feeds_its_location(
    before: ArenaView,
    after: ArenaView,
    region: Region,
    g: GroupInstance,
    l: VertexBufferLayout,
)
    requires
        batch_fits(before, 2),
        staged_batch(before, after, region, g.params@),
        lays_out(l, formats(), VertexStepMode::Instance),
    ensures
        l.step_mode == VertexStepMode::Instance,
        feeds(after.staged, region, l, 0, 1u32, VertexFormat::Float32x2, g.params@),
{
    lemma_offset(formats(), 0);
    law_record_fills_its_stride(g, l);
    assert(g.params@.subrange(0, 2) =~= g.params@);
    lemma_feeds(
        before,
        after,
        region,
        g.params@,
        l,
        formats(),
        VertexStepMode::Instance,
        0,
        g.params@,
        0,
        0,
        g.params@,
    );
}

/// A group's target is never empty and otherwise as large as asked for.
pub proof fn law_group_targets_are_never_empty(size: (u32, u32))
    ensures
        target_extent(size).0 >= 1 && target_extent(size).1 >= 1,
        size.0 > 0 ==> target_extent(size).0 == size.0,
        size.1 > 0 ==> target_extent(size).1 == size.1,
{
}

} // verus!
