//! Coverage masks: subtrees clipped to the outline of a path.
//!
//! Every mask of a frame is rasterised into one strip, laid out from left to
//! right at each mask's own size. The strip grows to fit and never shrinks.

use super::canvas_fill::{lemma_vertex_len, mesh_formats, push_vertices, vertex_lanes, FillInstance};
use super::descriptor::{
    binds, lays_out, push_lanes, BindEntry, BindLayout, Binding, Blend, PipelineDesc, TextureFormat,
    Topology, VertexBufferLayout, VertexStepMode, Visibility,
};
use super::instance_arena::{grown_capacity, law_growth_doubles};
use super::scissor::{law_physical_extent_covers_the_logical_one, physical, physical_of};
use crate::frame::{max_int, ClipMask};
use vstd::arithmetic::power2::pow2;
use vstd::prelude::*;

verus! {

/// Samples per pixel of the attachment the masks are drawn into.
pub const SAMPLES: u32 = 4;

/// The largest strip, on either axis: what every adapter guarantees.
pub const MAX_DIM: u32 = 8192;

/// Bytes from one mask's uniform to the next.
pub const UNIFORM_STRIDE: u64 = 256;

/// Where one mask stands in the strip, in physical pixels.
#[derive(Clone, Copy, Debug, PartialEq, Eq)]
pub struct MaskSlot {
    /// Left edge.
    pub x: u32,
    /// Width.
    pub width: u32,
    /// Height.
    pub height: u32,
}

/// Whether the largest strip has room for a mask beside masks of that width.
pub open spec fn room_beside(width: int, mask: ClipMask, scale: u32) -> bool {
    &&& width + physical_of(mask.bounds[2], scale) <= MAX_DIM
    &&& physical_of(mask.bounds[3], scale) <= MAX_DIM
}

/// The width the masks take side by side, those the strip has no room for left
/// out.
pub open spec fn strip_width(masks: Seq<ClipMask>, scale: u32) -> int
    decreases masks.len(),
{
    if masks.len() == 0 {
        0
    } else {
        let before = strip_width(masks.drop_last(), scale);
        if room_beside(before, masks.last(), scale) {
            before + physical_of(masks.last().bounds[2], scale)
        } else {
            before
        }
    }
}

/// Whether the last of `masks` stands in the strip. One that does not is
/// refused.
pub open spec fn admitted(masks: Seq<ClipMask>, scale: u32) -> bool {
    room_beside(strip_width(masks.drop_last(), scale), masks.last(), scale)
}

/// The height of the tallest mask, at least one.
pub open spec fn strip_height(masks: Seq<ClipMask>, scale: u32) -> int
    decreases masks.len(),
{
    if masks.len() == 0 {
        1
    } else if admitted(masks, scale) {
        max_int(
            strip_height(masks.drop_last(), scale),
            physical_of(masks.last().bounds[3], scale),
        )
    } else {
        strip_height(masks.drop_last(), scale)
    }
}

/// Where the last of `masks` stands: right of all the others, without extent if
/// it is refused.
pub open spec fn last_slot(masks: Seq<ClipMask>, scale: u32) -> MaskSlot {
    let x = strip_width(masks.drop_last(), scale) as u32;
    if admitted(masks, scale) {
        MaskSlot {
            x,
            width: physical_of(masks.last().bounds[2], scale) as u32,
            height: physical_of(masks.last().bounds[3], scale) as u32,
        }
    } else {
        MaskSlot { x, width: 0, height: 0 }
    }
}

/// Where each mask stands.
pub open spec fn slots_of(masks: Seq<ClipMask>, scale: u32) -> Seq<MaskSlot> {
    Seq::new(masks.len(), |i: int| last_slot(masks.take(i + 1), scale))
}

/// The strip the masks need.
pub open spec fn needed(masks: Seq<ClipMask>, scale: u32) -> (int, int) {
    (max_int(strip_width(masks, scale), 1), strip_height(masks, scale))
}

/// The smallest power of two that is at least `n`.
pub open spec fn power_of_two_above(n: int) -> int {
    grown_capacity(1, n)
}

/// The strip's size once the masks are laid out: unchanged if they fit, else
/// grown on both axes to the power of two above the larger of what it was and
/// what is needed.
pub open spec fn strip_after(size: (u32, u32), masks: Seq<ClipMask>, scale: u32) -> (int, int) {
    let need = needed(masks, scale);
    if need.0 > size.0 || need.1 > size.1 {
        (
            power_of_two_above(max_int(need.0, size.0 as int)),
            power_of_two_above(max_int(need.1, size.1 as int)),
        )
    } else {
        (size.0 as int, size.1 as int)
    }
}

/// How many indices the masks' meshes have together.
pub open spec fn index_total(masks: Seq<ClipMask>) -> int
    decreases masks.len(),
{
    if masks.len() == 0 {
        0
    } else {
        index_total(masks.drop_last()) + masks.last().mesh.indices@.len()
    }
}

/// How many vertices the masks' meshes have together.
pub open spec fn vertex_total(masks: Seq<ClipMask>) -> int
    decreases masks.len(),
{
    if masks.len() == 0 {
        0
    } else {
        vertex_total(masks.drop_last()) + masks.last().mesh.vertices@.len()
    }
}

/// The lanes of all vertices, mesh behind mesh.
pub open spec fn mask_vertices(masks: Seq<ClipMask>) -> Seq<u32>
    decreases masks.len(),
{
    if masks.len() == 0 {
        Seq::empty()
    } else {
        mask_vertices(masks.drop_last()) + vertex_lanes(masks.last().mesh.vertices@)
    }
}

/// All indices, mesh behind mesh.
pub open spec fn mask_indices(masks: Seq<ClipMask>) -> Seq<u32>
    decreases masks.len(),
{
    if masks.len() == 0 {
        Seq::empty()
    } else {
        mask_indices(masks.drop_last()) + masks.last().mesh.indices@
    }
}

/// One uniform per mask: its bounds, padded to the stride.
pub open spec fn mask_uniforms_of(masks: Seq<ClipMask>) -> Seq<u32>
    decreases masks.len(),
{
    if masks.len() == 0 {
        Seq::empty()
    } else {
        mask_uniforms_of(masks.drop_last()) + masks.last().bounds@ + Seq::new(60, |i: int| 0u32)
    }
}

/// One mask drawn into the strip.
#[derive(Clone, Copy, Debug, PartialEq, Eq)]
pub struct MaskDraw {
    /// The part of the strip it is drawn into.
    pub slot: MaskSlot,
    /// Where its uniform lies.
    pub uniform_offset: u32,
    /// Its first index.
    pub first_index: u32,
    /// How many indices it has.
    pub index_count: u32,
    /// What is added to each of its indices.
    pub base_vertex: i32,
}

/// The vertex offset a draw can hold; zero where it cannot hold it.
pub open spec fn base_of(vertices: int) -> int {
    if vertices <= i32::MAX {
        vertices
    } else {
        0
    }
}

/// The draws of the masks that stand in the strip and have triangles, in order.
pub open spec fn draws_of(masks: Seq<ClipMask>, scale: u32) -> Seq<MaskDraw>
    decreases masks.len(),
{
    if masks.len() == 0 {
        Seq::empty()
    } else {
        let before = masks.drop_last();
        if masks.last().mesh.indices@.len() == 0 || !admitted(masks, scale) {
            draws_of(before, scale)
        } else {
            draws_of(before, scale).push(
                MaskDraw {
                    slot: last_slot(masks, scale),
                    uniform_offset: (UNIFORM_STRIDE * before.len()) as u32,
                    first_index: index_total(before) as u32,
                    index_count: masks.last().mesh.indices@.len() as u32,
                    base_vertex: base_of(vertex_total(before)) as i32,
                },
            )
        }
    }
}

/// Everything done for a frame's masks. There is a pass exactly when there is
/// an index to draw.
#[derive(Debug)]
pub struct MaskPlan {
    /// The strip to allocate in place of the present one.
    pub reallocate: Option<(u32, u32)>,
    /// Lanes of the uniforms.
    pub uniforms: Vec<u32>,
    /// Lanes of the vertices.
    pub vertices: Vec<u32>,
    /// The indices.
    pub indices: Vec<u32>,
    /// The draws of the pass.
    pub draws: Vec<MaskDraw>,
}

/// A total only grows with more masks.
proof fn lemma_totals_grow(masks: Seq<ClipMask>, i: int)
    requires
        0 <= i <= masks.len(),
    ensures
        0 <= index_total(masks.take(i)) <= index_total(masks),
        0 <= vertex_total(masks.take(i)) <= vertex_total(masks),
    decreases masks.len(),
{
    if i == masks.len() {
        assert(masks.take(i) =~= masks);
        if masks.len() > 0 {
            assert(masks.drop_last().take(i - 1) =~= masks.drop_last());
            lemma_totals_grow(masks.drop_last(), i - 1);
        }
    } else {
        assert(masks.drop_last().take(i) =~= masks.take(i));
        lemma_totals_grow(masks.drop_last(), i);
    }
}

/// The concatenated buffers are as long as the totals say.
proof fn lemma_buffer_lengths(masks: Seq<ClipMask>)
    ensures
        mask_vertices(masks).len() == 4 * vertex_total(masks),
        mask_indices(masks).len() == index_total(masks),
        mask_uniforms_of(masks).len() == 64 * masks.len(),
    decreases masks.len(),
{
    if masks.len() > 0 {
        lemma_buffer_lengths(masks.drop_last());
        lemma_vertex_len(masks.last().mesh.vertices@);
    }
}

/// The strip's width and height stay within the largest strip.
proof fn lemma_strip_bounds(masks: Seq<ClipMask>, scale: u32)
    ensures
        0 <= strip_width(masks, scale) <= MAX_DIM,
        1 <= strip_height(masks, scale) <= MAX_DIM,
    decreases masks.len(),
{
    if masks.len() > 0 {
        lemma_strip_bounds(masks.drop_last(), scale);
    }
}

/// Doubling from one to at least `n`, for an `n` no strip exceeds.
fn next_power_of_two(n: u32) -> (p: u32)
    requires
        1 <= n <= MAX_DIM,
    ensures
        p == power_of_two_above(n as int),
        n <= p <= MAX_DIM,
{
    let mut p: u32 = 1;
    while p < n
        invariant
            n <= MAX_DIM,
            p == 1 || p == 2 || p == 4 || p == 8 || p == 16 || p == 32 || p == 64 || p == 128 || p
                == 256 || p == 512 || p == 1024 || p == 2048 || p == 4096 || p == 8192,
            grown_capacity(p as int, n as int) == grown_capacity(1, n as int),
        decreases 2 * MAX_DIM - p,
    {
        p = 2 * p;
    }
    p
}

/// The masks of a frame and the strip they stand in.
pub struct ClipMaskAtlas {
    size: (u32, u32),
    slots: Vec<MaskSlot>,
}

impl ClipMaskAtlas {
    /// The strip's size.
    pub closed spec fn strip(&self) -> (u32, u32) {
        self.size
    }

    /// Where the masks last prepared stand.
    pub closed spec fn placed(&self) -> Seq<MaskSlot> {
        self.slots@
    }

    /// The strip is never empty and never larger than every adapter allows.
    pub open spec fn wf(&self) -> bool {
        &&& 1 <= self.strip().0 <= MAX_DIM
        &&& 1 <= self.strip().1 <= MAX_DIM
    }

    /// A strip of a single texel: the binding always exists, though a frame
    /// without masks never draws into it.
    pub fn new() -> (a: ClipMaskAtlas)
        ensures
            a.wf(),
            a.strip() == (1u32, 1u32),
            a.placed().len() == 0,
    {
        ClipMaskAtlas { size: (1, 1), slots: Vec::new() }
    }

    /// Where each of the masks last prepared stands.
    pub fn slots(&self) -> (s: &[MaskSlot])
        ensures
            s@ == self.placed(),
    {
        self.slots.as_slice()
    }

    /// The strip's size in physical pixels.
    pub fn size(&self) -> (s: (u32, u32))
        ensures
            s == self.strip(),
    {
        self.size
    }

    /// Lays the masks out from left to right and grows the strip if they no
    /// longer fit. Returns the size to allocate when it grew.
    fn layout_strip(&mut self, masks: &[ClipMask], scale: u32) -> (grown: Option<(u32, u32)>)
        requires
            old(self).wf(),
        ensures
            final(self).wf(),
            final(self).placed() == slots_of(masks@, scale),
            final(self).strip().0 == strip_after(old(self).strip(), masks@, scale).0,
            final(self).strip().1 == strip_after(old(self).strip(), masks@, scale).1,
            grown == (if needed(masks@, scale).0 > old(self).strip().0 || needed(masks@, scale).1
                > old(self).strip().1 {
                Some(final(self).strip())
            } else {
                None
            }),
    {
        let mut slots: Vec<MaskSlot> = Vec::new();
        let mut x: u32 = 0;
        let mut height: u32 = 1;
        let mut i: usize = 0;
        proof {
            assert(slots@ =~= slots_of(masks@, scale).take(0));
        }
        while i < masks.len()
            invariant
                i <= masks@.len(),
                slots@ == slots_of(masks@, scale).take(i as int),
                x == strip_width(masks@.take(i as int), scale),
                height == strip_height(masks@.take(i as int), scale),
                x <= MAX_DIM,
                1 <= height <= MAX_DIM,
            decreases masks@.len() - i,
        {
            let w: u32 = physical(masks[i].bounds[2], scale);
            let h: u32 = physical(masks[i].bounds[3], scale);
            let ghost next = masks@.take(i as int + 1);
            proof {
                assert(next.drop_last() =~= masks@.take(i as int));
                assert(next.last() == masks@[i as int]);
            }
            if w <= MAX_DIM - x && h <= MAX_DIM {
                assert(admitted(next, scale));
                slots.push(MaskSlot { x, width: w, height: h });
                x = x + w;
                if h > height {
                    height = h;
                }
            } else {
                assert(!admitted(next, scale));
                slots.push(MaskSlot { x, width: 0, height: 0 });
            }
            assert(slots@.last() == last_slot(next, scale));
            i = i + 1;
            assert(slots@ =~= slots_of(masks@, scale).take(i as int));
        }
        proof {
            assert(masks@.take(i as int) =~= masks@);
            assert(slots_of(masks@, scale).take(i as int) =~= slots_of(masks@, scale));
            lemma_strip_bounds(masks@, scale);
        }
        self.slots = slots;
        let need_w: u32 = if x < 1 {
            1
        } else {
            x
        };
        let need_h: u32 = height;
        if need_w > self.size.0 || need_h > self.size.1 {
            let w: u32 = next_power_of_two(
                if need_w > self.size.0 {
                    need_w
                } else {
                    self.size.0
                },
            );
            let h: u32 = next_power_of_two(
                if need_h > self.size.1 {
                    need_h
                } else {
                    self.size.1
                },
            );
            self.size = (w, h);
            Some((w, h))
        } else {
            None
        }
    }

    /// Plans a frame's masks: the strip, one uniform and one draw per mask, and
    /// all meshes in one vertex and one index buffer. A mask that the largest
    /// strip has no room for is refused: it has no extent and is not drawn. A
    /// frame without masks draws and allocates nothing.
    pub fn prepare(&mut self, masks: &[ClipMask], scale: u32) -> (plan: MaskPlan)
        requires
            old(self).wf(),
            masks@.len() <= 0x100_0000,
            index_total(masks@) <= u32::MAX,
        ensures
            final(self).wf(),
            final(self).placed() == slots_of(masks@, scale),
            masks@.len() == 0 ==> plan.reallocate is None && final(self).strip() == old(
                self,
            ).strip(),
            masks@.len() > 0 ==> {
                &&& final(self).strip().0 == strip_after(old(self).strip(), masks@, scale).0
                &&& final(self).strip().1 == strip_after(old(self).strip(), masks@, scale).1
                &&& plan.reallocate == (if needed(masks@, scale).0 > old(self).strip().0 || needed(
                    masks@,
                    scale,
                ).1 > old(self).strip().1 {
                    Some(final(self).strip())
                } else {
                    None
                })
            },
            plan.uniforms@ == mask_uniforms_of(masks@),
            plan.vertices@ == mask_vertices(masks@),
            plan.indices@ == mask_indices(masks@),
            plan.draws@ == draws_of(masks@, scale),
            forall|i: int|
                0 <= i < final(self).placed().len() ==> {
                    &&& (#[trigger] final(self).placed()[i]).x + final(self).placed()[i].width
                        <= final(self).strip().0
                    &&& final(self).placed()[i].height <= final(self).strip().1
                },
    {
        let ghost size = self.size;
        let mut uniforms: Vec<u32> = Vec::new();
        let mut vertices: Vec<u32> = Vec::new();
        let mut indices: Vec<u32> = Vec::new();
        let mut draws: Vec<MaskDraw> = Vec::new();
        if masks.len() == 0 {
            self.slots = Vec::new();
            assert(self.slots@ =~= slots_of(masks@, scale));
            return MaskPlan { reallocate: None, uniforms, vertices, indices, draws };
        }
        let reallocate: Option<(u32, u32)> = self.layout_strip(masks, scale);
        let mut i: usize = 0;
        while i < masks.len()
            invariant
                i <= masks@.len(),
                masks@.len() <= 0x100_0000,
                index_total(masks@) <= u32::MAX,
                self.slots@ == slots_of(masks@, scale),
                self.size.0 == strip_after(size, masks@, scale).0,
                self.size.1 == strip_after(size, masks@, scale).1,
                uniforms@ == mask_uniforms_of(masks@.take(i as int)),
                vertices@ == mask_vertices(masks@.take(i as int)),
                indices@ == mask_indices(masks@.take(i as int)),
                draws@ == draws_of(masks@.take(i as int), scale),
            decreases masks@.len() - i,
        {
            let mask: &ClipMask = &masks[i];
            let ghost before = masks@.take(i as int);
            let ghost next = masks@.take(i as int + 1);
            proof {
                assert(next.drop_last() =~= before);
                assert(next.last() == masks@[i as int]);
                lemma_buffer_lengths(before);
                lemma_totals_grow(masks@, i as int);
                lemma_totals_grow(masks@, i as int + 1);
            }
            let count: usize = vertices.len() / 4;
            let base_vertex: i32 = if count <= 0x7fff_ffff {
                count as i32
            } else {
                0
            };
            let first_index: u32 = indices.len() as u32;
            let index_count: u32 = mask.mesh.indices.len() as u32;
            push_lanes(&mut uniforms, mask.bounds.as_slice());
            push_zeros(&mut uniforms);
            assert(uniforms@ =~= mask_uniforms_of(next));
            push_vertices(&mut vertices, mask.mesh.vertices.as_slice());
            push_lanes(&mut indices, mask.mesh.indices.as_slice());
            assert(self.slots@[i as int] == last_slot(next, scale));
            if index_count > 0 && self.slots[i].width > 0 {
                draws.push(
                    MaskDraw {
                        slot: self.slots[i],
                        uniform_offset: 256 * i as u32,
                        first_index,
                        index_count,
                        base_vertex,
                    },
                );
            }
            assert(draws@ =~= draws_of(next, scale));
            i = i + 1;
        }
        proof {
            assert(masks@.take(i as int) =~= masks@);
            assert forall|k: int| 0 <= k < self.placed().len() implies {
                &&& (#[trigger] self.placed()[k]).x + self.placed()[k].width <= self.strip().0
                &&& self.placed()[k].height <= self.strip().1
            } by {
                law_strip_never_shrinks_and_holds_every_mask(size, masks@, scale, k);
            }
        }
        MaskPlan { reallocate, uniforms, vertices, indices, draws }
    }
}

/// Appends the padding between two uniforms.
fn push_zeros(out: &mut Vec<u32>)
    ensures
        final(out)@ == old(out)@ + Seq::new(60, |i: int| 0u32),
{
    let ghost before = out@;
    let mut k: usize = 0;
    while k < 60
        invariant
            k <= 60,
            out@ == before + Seq::new(k as nat, |i: int| 0u32),
        decreases 60 - k,
    {
        out.push(0);
        k = k + 1;
        assert(out@ =~= before + Seq::new(k as nat, |i: int| 0u32));
    }
}

/// The strip's width so far only grows.
proof fn lemma_width_grows(masks: Seq<ClipMask>, scale: u32, i: int, j: int)
    requires
        0 <= i <= j <= masks.len(),
    ensures
        strip_width(masks.take(i), scale) <= strip_width(masks.take(j), scale),
    decreases j - i,
{
    if i < j {
        lemma_width_grows(masks, scale, i, j - 1);
        assert(masks.take(j).drop_last() =~= masks.take(j - 1));
        lemma_strip_bounds(masks.take(j - 1), scale);
    }
}

/// The masks stand side by side in their order: none reaches into one to its
/// right.
pub proof fn law_masks_stand_side_by_side(masks: Seq<ClipMask>, scale: u32, i: int, j: int)
    requires
        0 <= i < j < masks.len(),
    ensures
        slots_of(masks, scale)[i].x + slots_of(masks, scale)[i].width <= slots_of(
            masks,
            scale,
        )[j].x,
{
    let upto = masks.take(i + 1);
    assert(masks.take(masks.len() as int) =~= masks);
    lemma_width_grows(masks, scale, i + 1, j);
    lemma_width_grows(masks, scale, j, masks.len() as int);
    assert(upto.drop_last() =~= masks.take(i));
    assert(masks.take(j + 1).drop_last() =~= masks.take(j));
    lemma_strip_bounds(masks.take(i), scale);
    lemma_strip_bounds(masks.take(j), scale);
}

/// Each axis of the strip holds what is needed of it, and never shrinks.
proof fn lemma_axis_grows(size: int, need: int)
    requires
        1 <= size <= MAX_DIM,
        1 <= need <= MAX_DIM,
    ensures
        size <= power_of_two_above(max_int(need, size)),
        need <= power_of_two_above(max_int(need, size)),
{
    let n = max_int(need, size);
    if n > 1 {
        law_growth_doubles(1, n);
    }
}

/// The strip never shrinks, and every mask of a frame lies inside it.
pub proof fn law_strip_never_shrinks_and_holds_every_mask(
    size: (u32, u32),
    masks: Seq<ClipMask>,
    scale: u32,
    i: int,
)
    requires
        1 <= size.0 <= MAX_DIM,
        1 <= size.1 <= MAX_DIM,
        0 <= i < masks.len(),
    ensures
        strip_after(size, masks, scale).0 >= size.0,
        strip_after(size, masks, scale).1 >= size.1,
        slots_of(masks, scale)[i].x + slots_of(masks, scale)[i].width <= strip_after(
            size,
            masks,
            scale,
        ).0,
        slots_of(masks, scale)[i].height <= strip_after(size, masks, scale).1,
{
    let need = needed(masks, scale);
    lemma_strip_bounds(masks, scale);
    lemma_axis_grows(size.0 as int, need.0);
    lemma_axis_grows(size.1 as int, need.1);
    let upto = masks.take(i + 1);
    assert(masks.take(masks.len() as int) =~= masks);
    lemma_width_grows(masks, scale, i + 1, masks.len() as int);
    assert(upto.drop_last() =~= masks.take(i));
    lemma_strip_bounds(masks.take(i), scale);
    lemma_tallest(masks, scale, i);
}

/// No mask is taller than the strip.
proof fn lemma_tallest(masks: Seq<ClipMask>, scale: u32, i: int)
    requires
        0 <= i < masks.len(),
    ensures
        last_slot(masks.take(i + 1), scale).height <= strip_height(masks, scale),
    decreases masks.len(),
{
    if i < masks.len() - 1 {
        assert(masks.drop_last().take(i + 1) =~= masks.take(i + 1));
        lemma_tallest(masks.drop_last(), scale, i);
    } else {
        assert(masks.take(i + 1) =~= masks);
        lemma_strip_bounds(masks.drop_last(), scale);
    }
}

/// The draws read the buffers mesh behind mesh: the triangles of each mask are
/// exactly the indices of its range.
pub proof fn law_each_mask_draws_its_own_triangles(masks: Seq<ClipMask>, i: int)
    requires
        0 <= i < masks.len(),
    ensures
        mask_indices(masks).subrange(
            index_total(masks.take(i)),
            index_total(masks.take(i)) + masks[i].mesh.indices@.len(),
        ) == masks[i].mesh.indices@,
        mask_vertices(masks).subrange(
            4 * vertex_total(masks.take(i)),
            4 * (vertex_total(masks.take(i)) + masks[i].mesh.vertices@.len()),
        ) == vertex_lanes(masks[i].mesh.vertices@),
    decreases masks.len(),
{
    let rest = masks.drop_last();
    lemma_buffer_lengths(rest);
    lemma_buffer_lengths(masks);
    lemma_vertex_len(masks[i].mesh.vertices@);
    if i == masks.len() - 1 {
        assert(masks.take(i) =~= rest);
    } else {
        law_each_mask_draws_its_own_triangles(rest, i);
        assert(rest.take(i) =~= masks.take(i));
        lemma_totals_grow(rest, i + 1);
        assert(rest.take(i + 1).drop_last() =~= rest.take(i));
        lemma_totals_grow(rest, i);
    }
    assert(mask_indices(masks).subrange(
        index_total(masks.take(i)),
        index_total(masks.take(i)) + masks[i].mesh.indices@.len(),
    ) =~= masks[i].mesh.indices@);
    assert(mask_vertices(masks).subrange(
        4 * vertex_total(masks.take(i)),
        4 * (vertex_total(masks.take(i)) + masks[i].mesh.vertices@.len()),
    ) =~= vertex_lanes(masks[i].mesh.vertices@));
}

/// What a mask's draw binds: its uniform, at an offset given at draw time.
pub open spec fn entries() -> Seq<BindEntry> {
    seq![
        BindEntry {
            binding: 0,
            visibility: Visibility::Vertex,
            kind: Binding::Uniform { dynamic: true, min_size: UNIFORM_STRIDE },
        },
    ]
}

/// Whether a layout is that of a mask's uniform.
pub open spec fn binds_mask(l: BindLayout) -> bool {
    binds(l, "ByardCore - ClipMask Layout"@, entries())
}

/// The layout of a mask's bindings.
pub fn bind_group_layout() -> (l: BindLayout)
    ensures
        binds_mask(l),
{
    let mut list: Vec<BindEntry> = Vec::new();
    list.push(
        BindEntry {
            binding: 0,
            visibility: Visibility::Vertex,
            kind: Binding::Uniform { dynamic: true, min_size: UNIFORM_STRIDE },
        },
    );
    assert(list@ =~= entries());
    BindLayout { label: "ByardCore - ClipMask Layout", entries: list }
}

/// What the pipeline is made of.
pub open spec fn describes(d: PipelineDesc) -> bool {
    &&& d.name@ == "ClipMask"@
    &&& d.buffers@.len() == 1
    &&& lays_out(d.buffers@[0], mesh_formats(), VertexStepMode::Vertex)
    &&& d.groups@.len() == 1
    &&& binds_mask(d.groups@[0])
    &&& d.target == TextureFormat::R8Unorm
    &&& d.blend == Blend::Replace
    &&& d.topology == Topology::TriangleList
    &&& d.depth is None
    &&& d.samples == SAMPLES
}

/// Describes the pipeline that writes coverage. Nothing is blended, so that
/// overlapping triangles count once.
pub fn build_pipeline() -> (d: PipelineDesc)
    ensures
        describes(d),
{
    let mut buffers: Vec<VertexBufferLayout> = Vec::new();
    buffers.push(FillInstance::mesh_layout());
    let mut groups: Vec<BindLayout> = Vec::new();
    groups.push(bind_group_layout());
    PipelineDesc {
        name: "ClipMask",
        buffers,
        groups,
        target: TextureFormat::R8Unorm,
        blend: Blend::Replace,
        topology: Topology::TriangleList,
        depth: None,
        samples: SAMPLES,
    }
}

/// How wide the first `n` slots are together.
pub open spec fn widths(slots: Seq<MaskSlot>, n: int) -> int
    decreases n,
{
    if n <= 0 {
        0
    } else {
        widths(slots, n - 1) + slots[n - 1].width
    }
}

/// The slots before a mask take the strip's width so far.
proof fn lemma_widths(masks: Seq<ClipMask>, scale: u32, n: int)
    requires
        0 <= n <= masks.len(),
    ensures
        widths(slots_of(masks, scale), n) == strip_width(masks.take(n), scale),
    decreases n,
{
    if n > 0 {
        lemma_widths(masks, scale, n - 1);
        assert(masks.take(n).drop_last() =~= masks.take(n - 1));
        lemma_strip_bounds(masks.take(n), scale);
        lemma_strip_bounds(masks.take(n - 1), scale);
    }
}

/// Mask `i` stands right behind the masks before it, as wide and as tall as its own
/// bounds in physical pixels, or, where that would reach past 8192 pixels, has no
/// extent at all.
pub proof fn law_masks_take_their_own_room(masks: Seq<ClipMask>, scale: u32, i: int)
    requires
        0 <= i < masks.len(),
    ensures
        ({
            let slots = slots_of(masks, scale);
            let w = physical_of(masks[i].bounds[2], scale);
            let h = physical_of(masks[i].bounds[3], scale);
            &&& slots.len() == masks.len()
            &&& slots[i].x == widths(slots, i)
            &&& widths(slots, i) + w <= 8192 && h <= 8192 ==> slots[i].width == w && slots[i].height
                == h
            &&& widths(slots, i) + w > 8192 || h > 8192 ==> slots[i].width == 0 && slots[i].height
                == 0
        }),
{
    lemma_widths(masks, scale, i);
    lemma_strip_bounds(masks.take(i), scale);
    assert(masks.take(i + 1).drop_last() =~= masks.take(i));
    law_physical_extent_covers_the_logical_one(masks[i].bounds[2], scale);
    law_physical_extent_covers_the_logical_one(masks[i].bounds[3], scale);
}

/// The uniform of mask `i` lies 256 bytes, or 64 lanes, per mask before it, and is
/// that mask's own bounds.
pub proof fn law_each_mask_has_its_own_uniform(masks: Seq<ClipMask>, i: int)
    requires
        0 <= i < masks.len(),
    ensures
        mask_uniforms_of(masks).len() == 64 * masks.len(),
        mask_uniforms_of(masks).subrange(64 * i, 64 * i + 4) == masks[i].bounds@,
    decreases masks.len(),
{
    let rest = masks.drop_last();
    lemma_buffer_lengths(rest);
    lemma_buffer_lengths(masks);
    if i < rest.len() {
        law_each_mask_has_its_own_uniform(rest, i);
        assert(mask_uniforms_of(masks).subrange(64 * i, 64 * i + 4) =~= mask_uniforms_of(
            rest,
        ).subrange(64 * i, 64 * i + 4));
    } else {
        assert(mask_uniforms_of(masks).subrange(64 * i, 64 * i + 4) =~= masks[i].bounds@);
    }
}

/// Exactly the masks that have triangles and an extent are drawn, in order: each into
/// its own slot, with its own uniform, and with exactly its own triangles, whose
/// corners are its own vertices.
pub proof fn law_masks_are_drawn_into_their_slots(masks: Seq<ClipMask>, scale: u32, i: int)
    requires
        0 <= i < masks.len() <= 0x100_0000,
        index_total(masks) <= u32::MAX,
        vertex_total(masks) <= i32::MAX,
    ensures
        ({
            let draws = draws_of(masks, scale);
            let slot = slots_of(masks, scale)[i];
            let mesh = masks[i].mesh;
            &&& (exists|k: int| 0 <= k < draws.len() && (#[trigger] draws[k]).uniform_offset == 256 * i)
                <==> (mesh.indices@.len() > 0 && slot.width > 0)
            &&& forall|k: int| #![trigger draws[k]]
                0 <= k < draws.len() && draws[k].uniform_offset == 256 * i ==> {
                    let d = draws[k];
                    &&& d.slot == slot
                    &&& d.index_count == mesh.indices@.len()
                    &&& d.first_index + d.index_count <= mask_indices(masks).len()
                    &&& mask_indices(masks).subrange(
                        d.first_index as int,
                        d.first_index + d.index_count,
                    ) == mesh.indices@
                    &&& 0 <= d.base_vertex
                    &&& 4 * (d.base_vertex + mesh.vertices@.len()) <= mask_vertices(masks).len()
                    &&& mask_vertices(masks).subrange(
                        4 * d.base_vertex,
                        4 * (d.base_vertex + mesh.vertices@.len()),
                    ) == vertex_lanes(mesh.vertices@)
                }
            &&& forall|k: int, m: int| #![trigger draws[k], draws[m]]
                0 <= k < m < draws.len() ==> draws[k].uniform_offset < draws[m].uniform_offset
        }),
{
    lemma_draw_list(masks, scale, masks.len() as int, i);
    assert(masks.take(masks.len() as int) =~= masks);
    law_each_mask_draws_its_own_triangles(masks, i);
    lemma_totals_grow(masks, i);
    lemma_totals_grow(masks, i + 1);
    assert(masks.take(i + 1).drop_last() =~= masks.take(i));
    lemma_buffer_lengths(masks);
}

/// What the list of draws of the first `n` masks holds.
#[verifier::rlimit(50)]
proof fn lemma_draw_list(masks: Seq<ClipMask>, scale: u32, n: int, i: int)
    requires
        0 <= n <= masks.len() <= 0x100_0000,
        index_total(masks) <= u32::MAX,
        vertex_total(masks) <= i32::MAX,
    ensures
        ({
            let draws = draws_of(masks.take(n), scale);
            &&& 0 <= i < n ==> ((exists|k: int|
                0 <= k < draws.len() && (#[trigger] draws[k]).uniform_offset == 256 * i) <==> (
            masks[i].mesh.indices@.len() > 0 && slots_of(masks, scale)[i].width > 0))
            &&& forall|k: int| #![trigger draws[k]]
                0 <= k < draws.len() && 0 <= i < n && draws[k].uniform_offset == 256 * i ==> {
                    &&& draws[k].slot == slots_of(masks, scale)[i]
                    &&& draws[k].index_count == masks[i].mesh.indices@.len()
                    &&& draws[k].first_index == index_total(masks.take(i))
                    &&& draws[k].base_vertex == vertex_total(masks.take(i))
                }
            &&& forall|k: int, m: int| #![trigger draws[k], draws[m]]
                0 <= k < m < draws.len() ==> draws[k].uniform_offset < draws[m].uniform_offset
            &&& forall|k: int| #![trigger draws[k]]
                0 <= k < draws.len() ==> draws[k].uniform_offset < 256 * n
        }),
    decreases n,
{
    let draws = draws_of(masks.take(n), scale);
    if n > 0 {
        lemma_draw_list(masks, scale, n - 1, i);
        let before = draws_of(masks.take(n - 1), scale);
        assert(masks.take(n).drop_last() =~= masks.take(n - 1));
        lemma_totals_grow(masks, n - 1);
        lemma_totals_grow(masks, n);
        law_masks_take_their_own_room(masks, scale, n - 1);
        law_physical_extent_covers_the_logical_one(masks[n - 1].bounds[2], scale);
        let slot = slots_of(masks, scale)[n - 1];
        assert(slot == last_slot(masks.take(n), scale));
        assert(admitted(masks.take(n), scale) == (slot.width > 0));
        assert forall|k: int, m: int| #![trigger draws[k], draws[m]]
            0 <= k < m < draws.len() implies draws[k].uniform_offset < draws[m].uniform_offset by {
            assert(draws[k] == before[k]);
            if m < before.len() {
                assert(draws[m] == before[m]);
            }
        }
        assert forall|k: int| #![trigger draws[k]] 0 <= k < draws.len() implies draws[k].uniform_offset
            < 256 * n by {
            if k < before.len() {
                assert(draws[k] == before[k]);
            }
        }
        assert forall|k: int| #![trigger draws[k]]
            0 <= k < draws.len() && 0 <= i < n && draws[k].uniform_offset == 256 * i implies {
            &&& draws[k].slot == slots_of(masks, scale)[i]
            &&& draws[k].index_count == masks[i].mesh.indices@.len()
            &&& draws[k].first_index == index_total(masks.take(i))
            &&& draws[k].base_vertex == vertex_total(masks.take(i))
        } by {
            if k < before.len() {
                assert(draws[k] == before[k]);
            }
        }
        if 0 <= i < n {
            if i < n - 1 {
                if exists|k: int|
                    0 <= k < before.len() && (#[trigger] before[k]).uniform_offset == 256 * i {
                    let k = choose|k: int|
                        0 <= k < before.len() && (#[trigger] before[k]).uniform_offset == 256 * i;
                    assert(draws[k] == before[k]);
                }
                if exists|k: int|
                    0 <= k < draws.len() && (#[trigger] draws[k]).uniform_offset == 256 * i {
                    let k = choose|k: int|
                        0 <= k < draws.len() && (#[trigger] draws[k]).uniform_offset == 256 * i;
                    assert(k < before.len());
                    assert(before[k] == draws[k]);
                }
            } else {
                if draws.len() > before.len() {
                    assert(draws[before.len() as int].uniform_offset == 256 * i);
                } else {
                    assert forall|k: int| 0 <= k < draws.len() implies (
                    #[trigger] draws[k]).uniform_offset != 256 * i by {
                        assert(before[k] == draws[k]);
                    }
                }
            }
        }
    }
}

/// The strip grows only where the masks need more of an axis than it has. Then each
/// axis becomes a power of two: the smallest that holds both what it had and what
/// is needed.
pub proof fn law_strip_grows_to_the_next_power_of_two(
    size: (u32, u32),
    masks: Seq<ClipMask>,
    scale: u32,
    i: int,
)
    requires
        1 <= size.0 <= MAX_DIM,
        1 <= size.1 <= MAX_DIM,
        0 <= i < masks.len(),
    ensures
        ({
            let slots = slots_of(masks, scale);
            let wide = max_int(widths(slots, masks.len() as int), 1);
            let now = strip_after(size, masks, scale);
            &&& slots[i].height <= needed(masks, scale).1
            &&& needed(masks, scale).1 == 1 || exists|k: int|
                0 <= k < slots.len() && (#[trigger] slots[k]).height == needed(masks, scale).1
            &&& wide <= size.0 && needed(masks, scale).1 <= size.1 ==> now == (
                size.0 as int,
                size.1 as int,
            )
            &&& wide > size.0 || needed(masks, scale).1 > size.1 ==> {
                &&& is_power_above(now.0, max_int(wide, size.0 as int))
                &&& is_power_above(now.1, max_int(needed(masks, scale).1, size.1 as int))
            }
        }),
{
    lemma_strip_bounds(masks, scale);
    lemma_widths(masks, scale, masks.len() as int);
    assert(masks.take(masks.len() as int) =~= masks);
    lemma_tallest(masks, scale, i);
    lemma_tallest_is_one_of_them(masks, scale, masks.len() as int);
    lemma_power_above(max_int(needed(masks, scale).0, size.0 as int));
    lemma_power_above(max_int(needed(masks, scale).1, size.1 as int));
}

/// Whether `p` is the smallest power of two that is at least `n`.
pub open spec fn is_power_above(p: int, n: int) -> bool {
    &&& n <= p
    &&& exists|k: nat| p == #[trigger] pow2(k)
    &&& p == 1 || p < 2 * n
}

/// Doubling from one gives the smallest power of two.
proof fn lemma_power_above(n: int)
    requires
        n >= 1,
    ensures
        is_power_above(power_of_two_above(n), n),
{
    vstd::arithmetic::power2::lemma2_to64();
    if n > 1 {
        law_growth_doubles(1, n);
        let k = choose|k: nat| k >= 1 && grown_capacity(1, n) == 1 * #[trigger] pow2(k);
        assert(power_of_two_above(n) == pow2(k));
    } else {
        assert(power_of_two_above(n) == pow2(0));
    }
}

/// The tallest of the first `n` masks is one of them.
proof fn lemma_tallest_is_one_of_them(masks: Seq<ClipMask>, scale: u32, n: int)
    requires
        0 <= n <= masks.len(),
    ensures
        strip_height(masks.take(n), scale) == 1 || exists|k: int|
            0 <= k < n && (#[trigger] slots_of(masks, scale)[k]).height == strip_height(
                masks.take(n),
                scale,
            ),
    decreases n,
{
    if n > 0 {
        lemma_tallest_is_one_of_them(masks, scale, n - 1);
        assert(masks.take(n).drop_last() =~= masks.take(n - 1));
        lemma_strip_bounds(masks.take(n), scale);
        lemma_strip_bounds(masks.take(n - 1), scale);
        if strip_height(masks.take(n), scale) != strip_height(masks.take(n - 1), scale) {
            assert(slots_of(masks, scale)[n - 1].height == strip_height(masks.take(n), scale));
        } else if strip_height(masks.take(n), scale) != 1 {
            let k = choose|k: int|
                0 <= k < n - 1 && (#[trigger] slots_of(masks, scale)[k]).height == strip_height(
                    masks.take(n - 1),
                    scale,
                );
            assert(slots_of(masks, scale)[k].height == strip_height(masks.take(n), scale));
        }
    }
}

} // verus!
