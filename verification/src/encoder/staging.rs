//! What every pipeline's staging shares.

use super::descriptor::{lays_out, packed, Lanes, VertexBufferLayout, VertexStepMode};
use super::instance_arena::{
    appended, fits, law_padded_is_aligned, next_offset, no_region, region_after, ArenaView,
    InstanceArena, Region, VERTEX_ALIGNMENT,
};
use super::pipeline::{first_outside, portable};
use crate::frame::{Gradient, DRAW_DEPTH_CLEAR, GRADIENT_NONE};
use vstd::prelude::*;

verus! {

/// The draw-order depth of primitive `i`; a missing one is the far plane, so
/// that it cannot push a primitive in front of others.
pub open spec fn depth_of(depths: Seq<u32>, i: int) -> u32 {
    if 0 <= i < depths.len() {
        depths[i]
    } else {
        DRAW_DEPTH_CLEAR
    }
}

/// Looks up a draw-order depth.
pub fn depth_at(depths: &[u32], i: usize) -> (d: u32)
    ensures
        d == depth_of(depths@, i as int),
{
    if i < depths.len() {
        depths[i]
    } else {
        DRAW_DEPTH_CLEAR
    }
}

/// No colour.
pub open spec fn nothing() -> [u32; 4] {
    [0, 0, 0, 0]
}

/// A ramp's start colour, nothing without one.
pub open spec fn ramp_from(g: Option<Gradient>) -> [u32; 4] {
    match g {
        Some(g) => g.from,
        None => nothing(),
    }
}

/// A ramp's middle colour, nothing without one.
pub open spec fn ramp_mid(g: Option<Gradient>) -> [u32; 4] {
    match g {
        Some(g) => g.mid,
        None => nothing(),
    }
}

/// A ramp's end colour, nothing without one.
pub open spec fn ramp_to(g: Option<Gradient>) -> [u32; 4] {
    match g {
        Some(g) => g.to,
        None => nothing(),
    }
}

/// A ramp's control numbers, nothing without one.
pub open spec fn ramp_axis(g: Option<Gradient>) -> [u32; 4] {
    match g {
        Some(g) => g.axis,
        None => nothing(),
    }
}

/// A ramp's kind; a primitive without one says so.
pub open spec fn ramp_kind(g: Option<Gradient>) -> u32 {
    match g {
        Some(g) => g.kind,
        None => GRADIENT_NONE,
    }
}

/// The lanes a primitive's gradient fills: start, middle, end, control
/// numbers, kind.
pub fn ramp(g: Option<Gradient>) -> (r: ([u32; 4], [u32; 4], [u32; 4], [u32; 4], u32))
    ensures
        r.0 == ramp_from(g),
        r.1 == ramp_mid(g),
        r.2 == ramp_to(g),
        r.3 == ramp_axis(g),
        r.4 == ramp_kind(g),
{
    match g {
        Some(g) => (g.from, g.mid, g.to, g.axis, g.kind),
        None => ([0, 0, 0, 0], [0, 0, 0, 0], [0, 0, 0, 0], [0, 0, 0, 0], GRADIENT_NONE),
    }
}

/// Whether a batch of lanes was staged as one vertex region, or, being empty,
/// was not staged at all.
pub open spec fn staged_batch(
    before: ArenaView,
    after: ArenaView,
    region: Region,
    lanes: Seq<u32>,
) -> bool {
    &&& appended(before, after, lanes, VERTEX_ALIGNMENT as int, false)
    &&& region == region_after(
        before.staged.len() as int,
        4 * lanes.len() as int,
        VERTEX_ALIGNMENT as int,
        false,
    )
}

/// Whether a batch of `lanes` lanes fits behind what is staged.
pub open spec fn batch_fits(arena: ArenaView, lanes: int) -> bool {
    fits(arena.staged.len() as int, 4 * lanes, VERTEX_ALIGNMENT as int, false)
}

/// Stages a batch of lanes. An empty batch stages nothing and its region is
/// empty.
pub fn stage_lanes(arena: &mut InstanceArena, lanes: &[u32]) -> (r: Region)
    requires
        old(arena).wf(),
        batch_fits(old(arena)@, lanes@.len() as int),
    ensures
        final(arena).wf(),
        staged_batch(old(arena)@, final(arena)@, r, lanes@),
        lanes@.len() == 0 ==> r == no_region() && final(arena)@ == old(arena)@,
{
    arena.push_vertex(lanes)
}

/// A staged batch ends on a lane boundary, right behind its own lanes.
pub proof fn lemma_staged_len(
    before: ArenaView,
    after: ArenaView,
    region: Region,
    lanes: Seq<u32>,
)
    requires
        staged_batch(before, after, region, lanes),
    ensures
        lanes.len() == 0 ==> after == before,
        lanes.len() > 0 ==> {
            &&& after.staged.len() == next_offset(before.staged.len() as int, 4) + 4 * lanes.len()
            &&& after.staged.len() % 4 == 0
            &&& after.uniform_alignment == before.uniform_alignment
        },
{
    law_padded_is_aligned(before.staged.len() as int, 4);
}

/// A list of locations all inside the guaranteed range has none outside it.
proof fn lemma_none_outside(lanes: Lanes)
    requires
        forall|i: int| 0 <= i < lanes.len() ==> (#[trigger] lanes[i]).0 < 16,
    ensures
        first_outside(packed(lanes)) is None,
    decreases lanes.len(),
{
    if lanes.len() > 0 {
        let rest = lanes.drop_last();
        assert forall|i: int| 0 <= i < rest.len() implies (#[trigger] rest[i]).0 < 16 by {
            assert(rest[i] == lanes[i]);
        }
        lemma_none_outside(rest);
        assert(packed(lanes).drop_last() =~= packed(rest)) by {
            assert forall|i: int| 0 <= i < rest.len() implies packed(lanes)[i] == packed(rest)[i] by {
                assert(lanes.take(i) =~= rest.take(i));
            }
        }
    }
}

/// A layout whose locations all lie in the guaranteed range, and which leaves
/// room for the shared quad, is portable.
pub proof fn law_packed_layout_is_portable(
    layout: VertexBufferLayout,
    lanes: Lanes,
    step: VertexStepMode,
)
    requires
        lays_out(layout, lanes, step),
        lanes.len() <= 15,
        forall|i: int| 0 <= i < lanes.len() ==> (#[trigger] lanes[i]).0 < 16,
    ensures
        portable(layout),
{
    lemma_none_outside(lanes);
}

} // verus!
