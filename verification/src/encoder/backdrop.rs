//! Backdrop blur: frosted panes that sample what is drawn behind them.
//!
//! A pane is a barrier. Between the pass that draws what is behind it and the
//! pass that goes on, the region behind the pane is copied out of the target,
//! blurred into a downsampled scratch texture with a separable Gaussian, and
//! then composited back inside the pane's rounded rectangle.
//!
//! A blur radius in physical pixels is held exactly: as the product of the
//! logical radius and the scale factor's significand, with [`pixel_units`] to
//! the pixel.

use super::descriptor::{
    binds, binds_viewport, draw_depth_stencil_no_write, lays_out, pack, packed_size, push_lanes,
    quad_lanes, quad_layout, sampled_entries, transparent_depth, viewport_layout, BindEntry,
    BindLayout, Binding, Blend, Lanes, PipelineDesc, TextureFormat, Topology, VertexBufferLayout,
    VertexFormat, VertexStepMode, Visibility,
};
use super::instance_arena::{
    fits, law_region_is_fresh_and_aligned, no_region, region_after, staged_after, zeros, ArenaView,
    InstanceArena, Region, VERTEX_ALIGNMENT,
};
use super::scissor::{
    ceil_div, clip_runs, floor_div, lemma_pixel_between, lemma_rounded_against, lemma_scale, pixel,
    pixel_units, runs_from, scale_factor,
    scale_parts, scale_shift, ClipCtx, ClipRun,
};
use crate::pattern::{is_nan, nan};
use crate::frame::{max_int, min_int, BackdropInstance, BLUR_QUALITY_HIGH, BLUR_QUALITY_LOW};
use crate::wide::{
    beyond, farthest, group_wide, held, lemma_power_fits, lemma_value_reach, near, scaled_down, scaled_up, value, wide,
    Wide,
};
use std::collections::HashMap;
use vstd::arithmetic::power2::pow2;
use super::records::{lemma_offset, lemma_reads_lanes, reads_lanes};
use vstd::prelude::*;

verus! {

broadcast use {group_wide, vstd::std_specs::hash::group_hash_axioms};

/// Bytes of one composite quad.
pub const QUAD_BYTES: u64 = 108;

/// Bytes of one blur pass's parameters.
pub const PARAMS_BYTES: u64 = 32;

/// The lanes of a composite quad: the pane, and where the copied region lies
/// (its origin and the reciprocals of its extent, in physical pixels).
pub open spec fn composite_lanes(b: BackdropInstance, region: [u32; 4]) -> Seq<u32> {
    b.rect@ + b.radii@ + b.tint@ + seq![b.saturation, b.opacity, b.depth, b.smooth] + region@
        + b.transform.translate@ + b.transform.scale@ + seq![b.transform.rotate]
        + b.transform.origin@
}

/// Builds a composite quad's lanes.
pub fn composite_quad(b: &BackdropInstance, region: [u32; 4]) -> (out: Vec<u32>)
    ensures
        out@ == composite_lanes(*b, region),
{
    let mut out: Vec<u32> = Vec::new();
    push_lanes(&mut out, b.rect.as_slice());
    push_lanes(&mut out, b.radii.as_slice());
    push_lanes(&mut out, b.tint.as_slice());
    out.push(b.saturation);
    out.push(b.opacity);
    out.push(b.depth);
    out.push(b.smooth);
    push_lanes(&mut out, region.as_slice());
    push_lanes(&mut out, b.transform.translate.as_slice());
    push_lanes(&mut out, b.transform.scale.as_slice());
    out.push(b.transform.rotate);
    push_lanes(&mut out, b.transform.origin.as_slice());
    assert(out@ =~= composite_lanes(*b, region));
    out
}

/// Locations and formats of a composite quad.
pub open spec fn formats() -> Lanes {
    seq![
        (1u32, VertexFormat::Float32x4),
        (2u32, VertexFormat::Float32x4),
        (3u32, VertexFormat::Float32x4),
        (4u32, VertexFormat::Float32x4),
        (5u32, VertexFormat::Float32x4),
        (6u32, VertexFormat::Float32x2),
        (7u32, VertexFormat::Float32x2),
        (8u32, VertexFormat::Float32),
        (9u32, VertexFormat::Float32x2),
    ]
}

/// The composite's instance layout, locations 1 to 9.
pub fn composite_instance_layout() -> (l: VertexBufferLayout)
    ensures
        lays_out(l, formats(), VertexStepMode::Instance),
{
    let lanes: [(u32, VertexFormat); 9] = [
        (1, VertexFormat::Float32x4),
        (2, VertexFormat::Float32x4),
        (3, VertexFormat::Float32x4),
        (4, VertexFormat::Float32x4),
        (5, VertexFormat::Float32x4),
        (6, VertexFormat::Float32x2),
        (7, VertexFormat::Float32x2),
        (8, VertexFormat::Float32),
        (9, VertexFormat::Float32x2),
    ];
    assert(lanes@ =~= formats());
    pack(lanes.as_slice(), VertexStepMode::Instance)
}

/// A composite quad is exactly as long as its layout's stride, and as the
/// space reserved for it.
pub proof fn law_record_fills_its_stride(
    b: BackdropInstance,
    region: [u32; 4],
    l: VertexBufferLayout,
)
    requires
        lays_out(l, formats(), VertexStepMode::Instance),
    ensures
        4 * composite_lanes(b, region).len() == l.array_stride,
        l.array_stride == QUAD_BYTES,
{
    reveal_with_fuel(packed_size, 10);
    assert(packed_size(formats()) == 108);
}

/// The lanes of one blur pass's parameters: texel size, direction, sigma and
/// padding.
pub fn blur_params(texel: [u32; 2], dir: [u32; 2], sigma: u32) -> (out: [u32; 8])
    ensures
        out@ == texel@ + dir@ + seq![sigma, 0, 0, 0],
        4 * out@.len() == PARAMS_BYTES,
{
    let out: [u32; 8] = [texel[0], texel[1], dir[0], dir[1], sigma, 0, 0, 0];
    assert(out@ =~= texel@ + dir@ + seq![sigma, 0, 0, 0]);
    out
}

/// The arena regions one backdrop needs, reserved while the frame is staged
/// and filled once what is behind the pane has been drawn.
#[derive(Debug, Clone, Copy, PartialEq, Eq)]
pub struct BackdropRegions {
    /// The composite quad's instance.
    pub instance: Region,
    /// Parameters of the horizontal pass.
    pub blur_h: Region,
    /// Parameters of the vertical pass.
    pub blur_v: Region,
}

impl Default for BackdropRegions {
    /// Nothing reserved.
    fn default() -> (r: BackdropRegions)
        ensures
            r == (BackdropRegions {
                instance: no_region(),
                blur_h: no_region(),
                blur_v: no_region(),
            }),
    {
        BackdropRegions {
            instance: Region { offset: 0, len: 0 },
            blur_h: Region { offset: 0, len: 0 },
            blur_v: Region { offset: 0, len: 0 },
        }
    }
}

/// The staging buffer with the quad reserved.
pub open spec fn with_quad(staged: Seq<u8>) -> Seq<u8> {
    staged_after(staged, zeros(QUAD_BYTES as int), VERTEX_ALIGNMENT as int, false)
}

/// The staging buffer with one more set of parameters reserved.
pub open spec fn with_params(staged: Seq<u8>, alignment: int) -> Seq<u8> {
    staged_after(staged, zeros(PARAMS_BYTES as int), alignment, true)
}

/// Whether one backdrop's regions fit behind what is staged.
pub open spec fn reserve_fits(v: ArenaView) -> bool {
    let quad = with_quad(v.staged);
    let first = with_params(quad, v.uniform_alignment);
    &&& fits(v.staged.len() as int, QUAD_BYTES as int, VERTEX_ALIGNMENT as int, false)
    &&& fits(quad.len() as int, PARAMS_BYTES as int, v.uniform_alignment, true)
    &&& fits(first.len() as int, PARAMS_BYTES as int, v.uniform_alignment, true)
}

/// The regions one backdrop takes behind what is staged.
pub open spec fn reserved(v: ArenaView) -> BackdropRegions {
    let quad = with_quad(v.staged);
    let first = with_params(quad, v.uniform_alignment);
    BackdropRegions {
        instance: region_after(
            v.staged.len() as int,
            QUAD_BYTES as int,
            VERTEX_ALIGNMENT as int,
            false,
        ),
        blur_h: region_after(quad.len() as int, PARAMS_BYTES as int, v.uniform_alignment, true),
        blur_v: region_after(first.len() as int, PARAMS_BYTES as int, v.uniform_alignment, true),
    }
}

/// Reserves one backdrop's regions. The parameters are uniforms, so they are
/// padded to the device's own alignment.
pub fn reserve(arena: &mut InstanceArena) -> (r: BackdropRegions)
    requires
        old(arena).wf(),
        reserve_fits(old(arena)@),
    ensures
        final(arena).wf(),
        r == reserved(old(arena)@),
        final(arena)@ == (ArenaView {
            staged: with_params(
                with_params(with_quad(old(arena)@.staged), old(arena)@.uniform_alignment),
                old(arena)@.uniform_alignment,
            ),
            ..old(arena)@
        }),
{
    BackdropRegions {
        instance: arena.reserve_vertex(QUAD_BYTES),
        blur_h: arena.reserve_uniform(PARAMS_BYTES),
        blur_v: arena.reserve_uniform(PARAMS_BYTES),
    }
}

/// The three regions of a backdrop lie one behind the other past everything
/// staged before, the parameters on the device's uniform alignment and each
/// region long enough for what is written into it later.
pub proof fn law_reserved_regions_are_apart_and_aligned(v: ArenaView)
    requires
        v.uniform_alignment > 0,
        reserve_fits(v),
    ensures
        ({
            let r = reserved(v);
            &&& v.staged.len() <= r.instance.offset
            &&& r.instance.offset + r.instance.len <= r.blur_h.offset
            &&& r.blur_h.offset + r.blur_h.len <= r.blur_v.offset
            &&& r.instance.offset as int % VERTEX_ALIGNMENT as int == 0
            &&& r.blur_h.offset as int % v.uniform_alignment == 0
            &&& r.blur_v.offset as int % v.uniform_alignment == 0
            &&& QUAD_BYTES <= r.instance.len
            &&& PARAMS_BYTES <= r.blur_h.len
            &&& PARAMS_BYTES <= r.blur_v.len
        }),
{
    let quad = with_quad(v.staged);
    let first = with_params(quad, v.uniform_alignment);
    law_region_is_fresh_and_aligned(
        v.staged,
        zeros(QUAD_BYTES as int),
        VERTEX_ALIGNMENT as int,
        false,
    );
    law_region_is_fresh_and_aligned(quad, zeros(PARAMS_BYTES as int), v.uniform_alignment, true);
    law_region_is_fresh_and_aligned(first, zeros(PARAMS_BYTES as int), v.uniform_alignment, true);
}

/// Quarters of the full resolution a tier blurs at before the radius is taken
/// into account: high three, low one, automatic two on a capable adapter and
/// one on any other.
pub open spec fn base_quarters(quality: u32, auto_capable: bool) -> int {
    if quality == BLUR_QUALITY_HIGH {
        3
    } else if quality == BLUR_QUALITY_LOW {
        1
    } else if auto_capable {
        2
    } else {
        1
    }
}

/// The base resolution of a backdrop's scratch targets, in quarters.
pub fn base_downsample(b: &BackdropInstance, auto_capable: bool) -> (q: u32)
    ensures
        q == base_quarters(b.quality, auto_capable),
        1 <= q <= 3,
{
    if b.quality == BLUR_QUALITY_HIGH {
        3
    } else if b.quality == BLUR_QUALITY_LOW {
        1
    } else if auto_capable {
        2
    } else {
        1
    }
}

/// The blur radius, [`pixel_units`] to the physical pixel, never negative.
pub open spec fn sigma_phys(blur: u32, scale: u32) -> int {
    max_int(value(blur) * scale_factor(scale), 0)
}

/// The largest radius, in scaled texels times quarters, the kernel covers
/// without leaving gaps between its taps: eight texels. `one` is a pixel.
pub open spec fn quarter_cap(one: int) -> int {
    32 * one
}

/// The downsample factor as a fraction: the tier's own, deepened until the
/// radius is eight scaled texels, but never below a sixteenth.
pub open spec fn downsample(sigma: int, quarters: int, one: int) -> (int, int) {
    if sigma * quarters <= quarter_cap(one) {
        (quarters, 4)
    } else if sigma <= 128 * one {
        (8 * one, sigma)
    } else {
        (1, 16)
    }
}

/// The radius in scaled texels times quarters, at most [`quarter_cap`].
pub open spec fn sigma_scaled(sigma: int, quarters: int, one: int) -> int {
    min_int(sigma * quarters, quarter_cap(one))
}

/// An extent at a downsample factor, rounded up.
pub open spec fn scaled(extent: int, factor: (int, int)) -> int {
    ceil_div(extent * factor.0, factor.1)
}

/// The radius handed to the kernel never exceeds the eight scaled texels it
/// covers cleanly, and it is the physical radius at the downsample factor
/// wherever the factor was not held at a sixteenth.
pub proof fn law_taps_never_spread_too_far(sigma: int, quarters: int, one: int)
    requires
        0 <= sigma,
        0 < one,
        1 <= quarters <= 3,
    ensures
        0 <= sigma_scaled(sigma, quarters, one) <= quarter_cap(one),
        sigma <= 128 * one ==> sigma_scaled(sigma, quarters, one) * downsample(
            sigma,
            quarters,
            one,
        ).1 == 4 * sigma * downsample(sigma, quarters, one).0,
{
    assert(0 <= sigma * quarters) by (nonlinear_arith)
        requires
            0 <= sigma,
            1 <= quarters,
    ;
    if sigma * quarters <= quarter_cap(one) {
        assert((sigma * quarters) * 4 == 4 * sigma * quarters) by (nonlinear_arith);
    } else if sigma <= 128 * one {
        assert((32 * one) * sigma == 4 * sigma * (8 * one)) by (nonlinear_arith);
    }
}

/// A downsampled extent is never empty and never larger than the original.
pub proof fn law_scaled_extent_fits(extent: int, sigma: int, quarters: int, one: int)
    requires
        0 < extent,
        0 <= sigma,
        0 < one,
        1 <= quarters <= 3,
    ensures
        1 <= scaled(extent, downsample(sigma, quarters, one)) <= extent,
{
    let (num, den) = downsample(sigma, quarters, one);
    if sigma * quarters > quarter_cap(one) && sigma <= 128 * one {
        assert(8 * one < sigma) by (nonlinear_arith)
            requires
                sigma * quarters > 32 * one,
                0 < one,
                0 <= sigma,
                1 <= quarters <= 3,
        ;
    }
    assert(0 < num <= den);
    lemma_shrunk(extent, num, den);
}

/// A positive extent times a fraction of at most one, rounded up.
proof fn lemma_shrunk(extent: int, num: int, den: int)
    requires
        0 < extent,
        0 < num <= den,
    ensures
        1 <= ceil_div(extent * num, den) <= extent,
{
    let n = extent * num;
    assert(0 < n <= extent * den) by (nonlinear_arith)
        requires
            n == extent * num,
            0 < extent,
            0 < num <= den,
    ;
    let q = (-n) / den;
    vstd::arithmetic::div_mod::lemma_fundamental_div_mod(-n, den);
    let r = (-n) % den;
    assert(q <= -1) by (nonlinear_arith)
        requires
            -n == den * q + r,
            0 < n,
            0 <= r,
            0 < den,
    ;
    assert(-extent <= q) by (nonlinear_arith)
        requires
            -n == den * q + r,
            n <= extent * den,
            r < den,
            0 < den,
    ;
}

/// The least of four.
pub open spec fn least(a: int, b: int, c: int, d: int) -> int {
    min_int(min_int(a, b), min_int(c, d))
}

/// The greatest of four.
pub open spec fn greatest(a: int, b: int, c: int, d: int) -> int {
    max_int(max_int(a, b), max_int(c, d))
}

/// A corner's coordinate as it counts towards the nearest edge: one that is not
/// a number is left out.
pub open spec fn near_corner(bits: u32) -> int {
    if is_nan(bits) {
        beyond()
    } else {
        value(bits)
    }
}

/// A corner's coordinate as it counts towards the farthest edge.
pub open spec fn far_corner(bits: u32) -> int {
    if is_nan(bits) {
        -beyond()
    } else {
        value(bits)
    }
}

/// A pane's nearest edge along an axis (0 for x, 1 for y).
pub open spec fn near_edge(b: BackdropInstance, axis: int) -> int {
    least(
        near_corner(b.corners[0][axis]),
        near_corner(b.corners[1][axis]),
        near_corner(b.corners[2][axis]),
        near_corner(b.corners[3][axis]),
    )
}

/// A pane's farthest edge along an axis.
pub open spec fn far_edge(b: BackdropInstance, axis: int) -> int {
    greatest(
        far_corner(b.corners[0][axis]),
        far_corner(b.corners[1][axis]),
        far_corner(b.corners[2][axis]),
        far_corner(b.corners[3][axis]),
    )
}

/// The first pixel a pane samples along an axis: two and a half radii before
/// its near edge, not before the target.
pub open spec fn sample_start(b: BackdropInstance, scale: u32, axis: int) -> int {
    max_int(
        floor_div(
            2 * (near_edge(b, axis) * scale_factor(scale)) - 5 * sigma_phys(b.blur, scale),
            2 * pixel_units(scale),
        ),
        0,
    )
}

/// The pixel past the last one a pane samples along an axis: two and a half
/// radii past its far edge, not past the target.
pub open spec fn sample_end(b: BackdropInstance, scale: u32, axis: int, phys: u32) -> int {
    min_int(
        max_int(
            ceil_div(
                2 * (far_edge(b, axis) * scale_factor(scale)) + 5 * sigma_phys(b.blur, scale),
                2 * pixel_units(scale),
            ),
            0,
        ),
        phys as int,
    )
}

/// The physical region a pane samples, `(x0, y0, x1, y1)`; nothing for a pane
/// that is off the target.
pub open spec fn sample_region_of(
    b: BackdropInstance,
    scale: u32,
    phys: (u32, u32),
) -> Option<(u32, u32, u32, u32)> {
    let x0 = sample_start(b, scale, 0);
    let y0 = sample_start(b, scale, 1);
    let x1 = sample_end(b, scale, 0, phys.0);
    let y1 = sample_end(b, scale, 1, phys.1);
    if x0 < x1 && y0 < y1 {
        Some((x0 as u32, y0 as u32, x1 as u32, y1 as u32))
    } else {
        None
    }
}

/// A coordinate times a scale factor stays far within range.
proof fn lemma_scaled_reach(v: int, m: int)
    requires
        -beyond() <= v <= beyond(),
        -0x100_0000 < m < 0x100_0000,
    ensures
        -0x100_0000 * beyond() <= v * m <= 0x100_0000 * beyond(),
{
    let r = beyond();
    assert(-0x100_0000 * r <= v * m <= 0x100_0000 * r) by (nonlinear_arith)
        requires
            -r <= v <= r,
            -0x100_0000 < m < 0x100_0000,
            r > 0,
    ;
}

/// A blur radius, as [`sigma_phys`] counts it.
fn sigma_units(blur: u32, scale: u32) -> (s: Wide)
    ensures
        s@ == sigma_phys(blur, scale),
        0 <= s@ <= 0x100_0000 * beyond(),
{
    let (m, _): (i32, u32) = scale_parts(scale);
    let radius: Wide = Wide::of(blur);
    proof {
        lemma_scaled_reach(radius@, m as int);
    }
    radius.scaled_by(m).greater(Wide::zero())
}

/// A corner's coordinate, `left_out` standing for what is not a number.
fn corner(bits: u32, left_out: Wide) -> (w: Wide)
    requires
        left_out@ == beyond() || left_out@ == -beyond(),
    ensures
        left_out@ == beyond() ==> w@ == near_corner(bits),
        left_out@ == -beyond() ==> w@ == far_corner(bits),
        -beyond() <= w@ <= beyond(),
{
    if nan(bits) {
        left_out
    } else {
        Wide::of(bits)
    }
}

/// The first pixel sampled along an axis.
fn start_along(b: &BackdropInstance, scale: u32, axis: usize) -> (x: i64)
    requires
        axis < 2,
    ensures
        x == near(sample_start(*b, scale, axis as int)),
        0 <= x,
{
    let none: Wide = Wide::past_all();
    let edge: Wide = corner(b.corners[0][axis], none).lesser(corner(b.corners[1][axis], none)).lesser(
        corner(b.corners[2][axis], none).lesser(corner(b.corners[3][axis], none)),
    );
    assert(edge@ == near_edge(*b, axis as int));
    let (m, shift): (i32, u32) = scale_parts(scale);
    let sigma: Wide = sigma_units(b.blur, scale);
    proof {
        lemma_scaled_reach(edge@, m as int);
        vstd::arithmetic::power2::lemma_pow2_unfold((shift + 1) as nat);
    }
    let scaled: Wide = edge.scaled_by(m);
    let n: Wide = scaled.plus(scaled).plus(sigma.times(5).negated());
    let x: i64 = scaled_down(n, 1, shift + 1);
    if x >= 0 {
        x
    } else {
        0
    }
}

/// The pixel past the last one sampled along an axis.
fn end_along(b: &BackdropInstance, scale: u32, axis: usize, phys: u32) -> (x: i64)
    requires
        axis < 2,
    ensures
        x == sample_end(*b, scale, axis as int, phys),
        0 <= x <= phys,
{
    let none: Wide = Wide::past_all().negated();
    let edge: Wide = corner(b.corners[0][axis], none).greater(corner(b.corners[1][axis], none)).greater(
        corner(b.corners[2][axis], none).greater(corner(b.corners[3][axis], none)),
    );
    assert(edge@ == far_edge(*b, axis as int));
    let (m, shift): (i32, u32) = scale_parts(scale);
    let sigma: Wide = sigma_units(b.blur, scale);
    proof {
        lemma_scaled_reach(edge@, m as int);
        vstd::arithmetic::power2::lemma_pow2_unfold((shift + 1) as nat);
    }
    let scaled: Wide = edge.scaled_by(m);
    let n: Wide = scaled.plus(scaled).plus(sigma.times(5));
    let x: i64 = scaled_up(n, 1, shift + 1);
    if x < 0 {
        0
    } else if x < phys as i64 {
        x
    } else {
        phys as i64
    }
}

/// The physical region behind a pane: where its corners appear on screen, and
/// two and a half radii more on every side, inside the target.
pub fn sample_region(b: &BackdropInstance, scale: u32, phys: (u32, u32)) -> (r: Option<
    (u32, u32, u32, u32),
>)
    ensures
        r == sample_region_of(*b, scale, phys),
{
    let x0: i64 = start_along(b, scale, 0);
    let y0: i64 = start_along(b, scale, 1);
    let x1: i64 = end_along(b, scale, 0, phys.0);
    let y1: i64 = end_along(b, scale, 1, phys.1);
    if x0 < x1 && y0 < y1 {
        Some((x0 as u32, y0 as u32, x1 as u32, y1 as u32))
    } else {
        None
    }
}

/// The sampled region reaches every pixel of the target that two and a half
/// radii round the pane touch, along either axis: a pixel `p` covers `p` to
/// `p + 1`.
pub proof fn law_region_reaches_the_halo(b: BackdropInstance, scale: u32, axis: int, phys: u32, p: int)
    requires
        axis == 0 || axis == 1,
        0 <= p < phys,
        (p + 1) * (2 * pixel_units(scale)) > 2 * (near_edge(b, axis) * scale_factor(scale)) - 5
            * sigma_phys(b.blur, scale),
        p * (2 * pixel_units(scale)) < 2 * (far_edge(b, axis) * scale_factor(scale)) + 5
            * sigma_phys(b.blur, scale),
    ensures
        sample_start(b, scale, axis) <= p < sample_end(b, scale, axis, phys),
{
    vstd::arithmetic::power2::lemma_pow2_pos(scale_shift(scale) as nat);
    lemma_pixel_between(
        2 * (near_edge(b, axis) * scale_factor(scale)) - 5 * sigma_phys(b.blur, scale),
        2 * (far_edge(b, axis) * scale_factor(scale)) + 5 * sigma_phys(b.blur, scale),
        2 * pixel_units(scale),
        p,
    );
}

/// A backdrop slot's scratch textures: the copied region, and the two
/// downsampled targets the blur goes back and forth between.
#[derive(Debug, Clone, Copy, PartialEq, Eq)]
pub struct BlurScratch {
    /// Size of the copied region.
    pub src_size: (u32, u32),
    /// Size of the downsampled targets.
    pub scaled_size: (u32, u32),
}

/// Scratch textures by backdrop slot.
pub type ScratchCache = HashMap<usize, BlurScratch>;

/// Makes sure a slot's textures have exactly the sizes needed. `true` when they
/// are to be created: the slot held none, or of other sizes. Other slots are
/// never touched.
pub fn ensure_scratch(
    scratch: &mut ScratchCache,
    slot: usize,
    src_size: (u32, u32),
    scaled_size: (u32, u32),
) -> (create: bool)
    ensures
        create == !(old(scratch)@.contains_key(slot) && old(scratch)@[slot] == (BlurScratch {
            src_size,
            scaled_size,
        })),
        final(scratch)@ == old(scratch)@.insert(slot, BlurScratch { src_size, scaled_size }),
{
    if let Some(held) = scratch.get(&slot) {
        if held.src_size.0 == src_size.0 && held.src_size.1 == src_size.1 && held.scaled_size.0
            == scaled_size.0 && held.scaled_size.1 == scaled_size.1 {
            assert(scratch@ =~= scratch@.insert(slot, BlurScratch { src_size, scaled_size }));
            return false;
        }
    }
    scratch.insert(slot, BlurScratch { src_size, scaled_size });
    true
}

/// A steady pane allocates nothing after the first frame: once a slot holds the
/// sizes a frame needs, asking again creates nothing and changes nothing.
pub proof fn law_steady_pane_allocates_once(
    held: Map<usize, BlurScratch>,
    slot: usize,
    sizes: BlurScratch,
)
    ensures
        held.insert(slot, sizes).contains_key(slot),
        held.insert(slot, sizes)[slot] == sizes,
        held.insert(slot, sizes).insert(slot, sizes) == held.insert(slot, sizes),
{
    assert(held.insert(slot, sizes).insert(slot, sizes) =~= held.insert(slot, sizes));
}

/// One of a slot's textures.
#[derive(Debug, Clone, Copy, PartialEq, Eq)]
pub enum ScratchTexture {
    /// The copied region.
    Source,
    /// The first downsampled target.
    First,
    /// The second downsampled target, which ends up with the result.
    Second,
}

/// One pass of the blur.
#[derive(Debug, Clone, Copy, PartialEq, Eq)]
pub struct BlurPass {
    /// What it samples.
    pub from: ScratchTexture,
    /// What it draws into.
    pub to: ScratchTexture,
    /// Whether its taps run along x.
    pub horizontal: bool,
    /// Where its parameters lie.
    pub params: Region,
}

/// Everything done between two segments for one backdrop.
#[derive(Debug, Clone, Copy, PartialEq, Eq)]
pub struct BlurPlan {
    /// The region copied, `(x0, y0, x1, y1)`.
    pub region: (u32, u32, u32, u32),
    /// The sizes of the slot's textures.
    pub sizes: BlurScratch,
    /// Whether those textures are to be created first.
    pub create: bool,
    /// The kernel's radius in scaled texels, times `2^sigma_shift`.
    pub sigma: Wide,
    /// How far the radius is shifted.
    pub sigma_shift: u32,
    /// The horizontal pass, then the vertical one.
    pub passes: (BlurPass, BlurPass),
    /// Where the composite quad is written.
    pub instance: Region,
}

/// The plan for one backdrop, given whether its textures are to be created.
pub open spec fn plan_of(
    b: BackdropInstance,
    regions: BackdropRegions,
    scale: u32,
    phys: (u32, u32),
    auto_capable: bool,
    create: bool,
) -> Option<BlurPlan> {
    match sample_region_of(b, scale, phys) {
        None => None,
        Some(r) => {
            let sigma = sigma_phys(b.blur, scale);
            let quarters = base_quarters(b.quality, auto_capable);
            let one = pixel_units(scale);
            let factor = downsample(sigma, quarters, one);
            let width = r.2 - r.0;
            let height = r.3 - r.1;
            Some(
                BlurPlan {
                    region: r,
                    sizes: BlurScratch {
                        src_size: (width as u32, height as u32),
                        scaled_size: (scaled(width, factor) as u32, scaled(height, factor) as u32),
                    },
                    create,
                    sigma: wide(sigma_scaled(sigma, quarters, one)),
                    sigma_shift: (scale_shift(scale) + 2) as u32,
                    passes: (
                        BlurPass {
                            from: ScratchTexture::Source,
                            to: ScratchTexture::First,
                            horizontal: true,
                            params: regions.blur_h,
                        },
                        BlurPass {
                            from: ScratchTexture::First,
                            to: ScratchTexture::Second,
                            horizontal: false,
                            params: regions.blur_v,
                        },
                    ),
                    instance: regions.instance,
                },
            )
        },
    }
}

/// Powers of two a few bits above a pixel.
proof fn lemma_above_a_pixel(shift: nat)
    ensures
        pow2(shift) > 0,
        pow2(shift + 3) == 8 * pow2(shift),
        pow2(shift + 5) == 32 * pow2(shift),
        pow2(shift + 7) == 128 * pow2(shift),
{
    vstd::arithmetic::power2::lemma2_to64();
    vstd::arithmetic::power2::lemma_pow2_pos(shift);
    vstd::arithmetic::power2::lemma_pow2_adds(shift, 3);
    vstd::arithmetic::power2::lemma_pow2_adds(shift, 5);
    vstd::arithmetic::power2::lemma_pow2_adds(shift, 7);
}

/// An extent at the downsample factor of a radius.
fn scale_extent(extent: u32, sigma: Wide, quarters: u32, shift: u32) -> (r: u32)
    requires
        0 < extent,
        0 <= sigma@ <= 0x100_0000 * beyond(),
        1 <= quarters <= 3,
        46 <= shift <= 300,
    ensures
        r == scaled(
            extent as int,
            downsample(sigma@, quarters as int, pow2(shift as nat) as int),
        ),
{
    let ghost one = pow2(shift as nat) as int;
    proof {
        lemma_above_a_pixel(shift as nat);
        law_scaled_extent_fits(extent as int, sigma@, quarters as int, one);
        assert(0 <= sigma@ * quarters <= 3 * sigma@) by (nonlinear_arith)
            requires
                0 <= sigma@,
                1 <= quarters <= 3,
        ;
    }
    if sigma.times(quarters as u128).at_most(Wide::power(shift + 5)) {
        let n: u64 = extent as u64 * quarters as u64;
        proof {
            assert(ceil_div(n as int, 4) == (n + 3) / 4);
        }
        ((n + 3) / 4) as u32
    } else if sigma.at_most(Wide::power(shift + 7)) {
        let unit: Wide = Wide::power(shift + 3);
        proof {
            lemma_eight_pixels(extent as int, shift as nat);
            assert(extent * (8 * one) == unit@ * extent) by (nonlinear_arith)
                requires
                    unit@ == 8 * one,
            ;
        }
        unit.times(extent as u128).divided_up(sigma) as u32
    } else {
        proof {
            assert(ceil_div(extent * 1, 16) == (extent + 15) / 16);
        }
        ((extent as u64 + 15) / 16) as u32
    }
}

/// Eight pixels times an extent stay within range.
proof fn lemma_eight_pixels(extent: int, shift: nat)
    requires
        0 <= extent <= 0xffff_ffff,
        shift <= 300,
    ensures
        0 <= pow2(shift + 3) * extent <= farthest(),
{
    vstd::arithmetic::power2::lemma_pow2_pos(shift + 3);
    vstd::arithmetic::power2::lemma2_to64();
    vstd::arithmetic::power2::lemma_pow2_adds(shift + 3, 32);
    lemma_power_fits(shift + 35);
    let p = pow2(shift + 3) as int;
    assert(0 <= p * extent <= p * 0x1_0000_0000) by (nonlinear_arith)
        requires
            0 < p,
            0 <= extent <= 0xffff_ffff,
    ;
}

/// Plans the blur of one backdrop: which region is copied, into textures of
/// which sizes, and the two passes. Nothing, and the cache untouched, for a
/// pane that is off the target.
pub fn prepare(
    scratch: &mut ScratchCache,
    slot: usize,
    b: &BackdropInstance,
    regions: BackdropRegions,
    scale: u32,
    phys: (u32, u32),
    auto_capable: bool,
) -> (plan: Option<BlurPlan>)
    ensures
        match plan {
            None => {
                &&& sample_region_of(*b, scale, phys) is None
                &&& final(scratch)@ == old(scratch)@
            },
            Some(p) => {
                &&& plan_of(*b, regions, scale, phys, auto_capable, p.create) == Some(p)
                &&& p.create == !(old(scratch)@.contains_key(slot) && old(scratch)@[slot]
                    == p.sizes)
                &&& final(scratch)@ == old(scratch)@.insert(slot, p.sizes)
            },
        },
{
    let region: (u32, u32, u32, u32) = match sample_region(b, scale, phys) {
        Some(r) => r,
        None => return None,
    };
    let src_size: (u32, u32) = (region.2 - region.0, region.3 - region.1);
    let sigma: Wide = sigma_units(b.blur, scale);
    let quarters: u32 = base_downsample(b, auto_capable);
    let (_, shift): (i32, u32) = scale_parts(scale);
    let scaled_size: (u32, u32) = (
        scale_extent(src_size.0, sigma, quarters, shift),
        scale_extent(src_size.1, sigma, quarters, shift),
    );
    let create: bool = ensure_scratch(scratch, slot, src_size, scaled_size);
    proof {
        lemma_above_a_pixel(shift as nat);
        assert(0 <= sigma@ * quarters <= 3 * sigma@) by (nonlinear_arith)
            requires
                0 <= sigma@,
                1 <= quarters <= 3,
        ;
    }
    let capped: Wide = sigma.times(quarters as u128).lesser(Wide::power(shift + 5));
    Some(
        BlurPlan {
            region,
            sizes: BlurScratch { src_size, scaled_size },
            create,
            sigma: capped,
            sigma_shift: shift + 2,
            passes: (
                BlurPass {
                    from: ScratchTexture::Source,
                    to: ScratchTexture::First,
                    horizontal: true,
                    params: regions.blur_h,
                },
                BlurPass {
                    from: ScratchTexture::First,
                    to: ScratchTexture::Second,
                    horizontal: false,
                    params: regions.blur_v,
                },
            ),
            instance: regions.instance,
        },
    )
}

/// How a prepared backdrop is drawn: once under its content clip, or not at all
/// when the clip leaves nothing.
pub fn draw_composite(clip: Option<u16>, ctx: ClipCtx<'_>) -> (runs: Vec<ClipRun>)
    requires
        super::scissor::bounded(ctx.base),
    ensures
        runs@ == runs_from(ctx, seq![clip], 0, 1),
{
    let clips: [Option<u16>; 1] = [clip];
    assert(clips@ =~= seq![clip]);
    clip_runs(1, clips.as_slice(), ctx)
}

/// What a texture pass binds: the texture, its sampler and, for a blur pass,
/// its parameters.
pub open spec fn texture_entries(with_uniform: bool) -> Seq<BindEntry> {
    let sampled = sampled_entries(Binding::Texture { filterable: true });
    if with_uniform {
        sampled.push(
            BindEntry {
                binding: 2,
                visibility: Visibility::Fragment,
                kind: Binding::Uniform { dynamic: false, min_size: 0 },
            },
        )
    } else {
        sampled
    }
}

/// Whether a layout is that of a texture pass, with its parameters or without.
pub open spec fn binds_texture(l: BindLayout, with_uniform: bool) -> bool {
    binds(l, "ByardCore - Backdrop Texture BGL"@, texture_entries(with_uniform))
}

/// The layout of a texture pass's bindings.
pub fn texture_bgl(with_uniform: bool) -> (l: BindLayout)
    ensures
        binds_texture(l, with_uniform),
{
    let mut l: BindLayout = super::descriptor::sampled_layout(
        "ByardCore - Backdrop Texture BGL",
        Binding::Texture { filterable: true },
    );
    if with_uniform {
        l.entries.push(
            BindEntry {
                binding: 2,
                visibility: Visibility::Fragment,
                kind: Binding::Uniform { dynamic: false, min_size: 0 },
            },
        );
    }
    l
}

/// What a blur pass is made of.
pub open spec fn describes_blur(d: PipelineDesc, surface: TextureFormat) -> bool {
    &&& d.name@ == "Backdrop"@
    &&& d.buffers@.len() == 0
    &&& d.groups@.len() == 1
    &&& binds_texture(d.groups@[0], true)
    &&& d.target == surface
    &&& d.blend == Blend::Replace
    &&& d.topology == Topology::TriangleList
    &&& d.depth is None
    &&& d.samples == 1
}

/// Describes a blur pass: one triangle over the whole target, no depth.
pub fn blur_pipeline(surface: TextureFormat) -> (d: PipelineDesc)
    ensures
        describes_blur(d, surface),
{
    let mut groups: Vec<BindLayout> = Vec::new();
    groups.push(texture_bgl(true));
    PipelineDesc {
        name: "Backdrop",
        buffers: Vec::new(),
        groups,
        target: surface,
        blend: Blend::Replace,
        topology: Topology::TriangleList,
        depth: None,
        samples: 1,
    }
}

/// What the composite is made of.
pub open spec fn describes_composite(d: PipelineDesc, surface: TextureFormat) -> bool {
    &&& d.name@ == "Backdrop"@
    &&& d.buffers@.len() == 2
    &&& lays_out(d.buffers@[0], quad_lanes(), VertexStepMode::Vertex)
    &&& lays_out(d.buffers@[1], formats(), VertexStepMode::Instance)
    &&& d.groups@.len() == 2
    &&& binds_viewport(d.groups@[0])
    &&& binds_texture(d.groups@[1], false)
    &&& d.target == surface
    &&& d.blend == Blend::Alpha
    &&& d.topology == Topology::TriangleStrip
    &&& d.depth == Some(transparent_depth())
    &&& d.samples == 1
}

/// Describes the composite: transparent geometry.
pub fn composite_pipeline(surface: TextureFormat) -> (d: PipelineDesc)
    ensures
        describes_composite(d, surface),
{
    let mut buffers: Vec<VertexBufferLayout> = Vec::new();
    buffers.push(quad_layout());
    buffers.push(composite_instance_layout());
    let mut groups: Vec<BindLayout> = Vec::new();
    groups.push(viewport_layout());
    groups.push(texture_bgl(false));
    PipelineDesc {
        name: "Backdrop",
        buffers,
        groups,
        target: surface,
        blend: Blend::Alpha,
        topology: Topology::TriangleStrip,
        depth: Some(draw_depth_stencil_no_write()),
        samples: 1,
    }
}

/// Where each location of a record starts.
proof fn lemma_offsets()
    ensures
        packed_size(formats().take(0)) == 0,
        packed_size(formats().take(1)) == 16,
        packed_size(formats().take(2)) == 32,
        packed_size(formats().take(3)) == 48,
        packed_size(formats().take(4)) == 64,
        packed_size(formats().take(5)) == 80,
        packed_size(formats().take(6)) == 88,
        packed_size(formats().take(7)) == 96,
        packed_size(formats().take(8)) == 100,
{
    lemma_offset(formats(), 0);
    lemma_offset(formats(), 1);
    lemma_offset(formats(), 2);
    lemma_offset(formats(), 3);
    lemma_offset(formats(), 4);
    lemma_offset(formats(), 5);
    lemma_offset(formats(), 6);
    lemma_offset(formats(), 7);
    lemma_offset(formats(), 8);
}

/// What the shader reads of a composite quad, location by location: each is one of
/// the pane's own properties, or the part of the target it samples.
pub proof fn law_quad_feeds_its_locations(
    b: BackdropInstance,
    region: [u32; 4],
    l: VertexBufferLayout,
)
    requires
        lays_out(l, formats(), VertexStepMode::Instance),
    ensures
        l.step_mode == VertexStepMode::Instance,
        reads_lanes(
            composite_lanes(b, region),
            l,
            1u32,
            VertexFormat::Float32x4,
            b.rect@,
        ),
        reads_lanes(
            composite_lanes(b, region),
            l,
            2u32,
            VertexFormat::Float32x4,
            b.radii@,
        ),
        reads_lanes(
            composite_lanes(b, region),
            l,
            3u32,
            VertexFormat::Float32x4,
            b.tint@,
        ),
        reads_lanes(
            composite_lanes(b, region),
            l,
            4u32,
            VertexFormat::Float32x4,
            seq![b.saturation, b.opacity, b.depth, b.smooth],
        ),
        reads_lanes(
            composite_lanes(b, region),
            l,
            5u32,
            VertexFormat::Float32x4,
            region@,
        ),
        reads_lanes(
            composite_lanes(b, region),
            l,
            6u32,
            VertexFormat::Float32x2,
            b.transform.translate@,
        ),
        reads_lanes(
            composite_lanes(b, region),
            l,
            7u32,
            VertexFormat::Float32x2,
            b.transform.scale@,
        ),
        reads_lanes(
            composite_lanes(b, region),
            l,
            8u32,
            VertexFormat::Float32,
            seq![b.transform.rotate],
        ),
        reads_lanes(
            composite_lanes(b, region),
            l,
            9u32,
            VertexFormat::Float32x2,
            b.transform.origin@,
        ),
{
    lemma_offsets();
    let record = composite_lanes(b, region);
    assert(record.subrange(0, 4) =~= b.rect@);
    lemma_reads_lanes(record, l, formats(), VertexStepMode::Instance, 0, 0, b.rect@);
    assert(record.subrange(4, 8) =~= b.radii@);
    lemma_reads_lanes(record, l, formats(), VertexStepMode::Instance, 1, 4, b.radii@);
    assert(record.subrange(8, 12) =~= b.tint@);
    lemma_reads_lanes(record, l, formats(), VertexStepMode::Instance, 2, 8, b.tint@);
    assert(record.subrange(12, 16) =~= seq![b.saturation, b.opacity, b.depth, b.smooth]);
    lemma_reads_lanes(record, l, formats(), VertexStepMode::Instance, 3, 12, seq![b.saturation, b.opacity, b.depth, b.smooth]);
    assert(record.subrange(16, 20) =~= region@);
    lemma_reads_lanes(record, l, formats(), VertexStepMode::Instance, 4, 16, region@);
    assert(record.subrange(20, 22) =~= b.transform.translate@);
    lemma_reads_lanes(record, l, formats(), VertexStepMode::Instance, 5, 20, b.transform.translate@);
    assert(record.subrange(22, 24) =~= b.transform.scale@);
    lemma_reads_lanes(record, l, formats(), VertexStepMode::Instance, 6, 22, b.transform.scale@);
    assert(record.subrange(24, 25) =~= seq![b.transform.rotate]);
    lemma_reads_lanes(record, l, formats(), VertexStepMode::Instance, 7, 24, seq![b.transform.rotate]);
    assert(record.subrange(25, 27) =~= b.transform.origin@);
    lemma_reads_lanes(record, l, formats(), VertexStepMode::Instance, 8, 25, b.transform.origin@);
}

/// Five times a blur radius times a scale factor, both counted in units; a
/// negative radius is none.
pub open spec fn five_radii(b: BackdropInstance, scale: u32) -> int {
    5 * max_int(value(b.blur) * value(scale), 0)
}

/// Whether pixel `p` ends past what lies two and a half radii before corner `i`; a corner that
/// is not a number does not count.
pub open spec fn past_the_halo_of(
    b: BackdropInstance,
    scale: u32,
    axis: int,
    p: int,
    i: int,
) -> bool {
    &&& !is_nan(b.corners[i][axis])
    &&& 2 * (value(b.corners[i][axis]) * value(scale)) - five_radii(b, scale) < (p + 1) * (2
        * pixel())
}

/// Whether pixel `p` starts before what lies two and a half radii past corner `i`; a corner
/// that is not a number does not count.
pub open spec fn before_the_halo_of(
    b: BackdropInstance,
    scale: u32,
    axis: int,
    p: int,
    i: int,
) -> bool {
    &&& !is_nan(b.corners[i][axis])
    &&& p * (2 * pixel()) < 2 * (value(b.corners[i][axis]) * value(scale)) + five_radii(b, scale)
}

/// Two and a half radii round a scaled coordinate, against pixels.
proof fn lemma_halo_against(edge: int, blur: u32, scale: u32, k: int)
    ensures
        ({
            let f = scale_factor(scale);
            let u = pixel_units(scale);
            let five = 5 * max_int(value(blur) * value(scale), 0);
            &&& (2 * (edge * f) - 5 * sigma_phys(blur, scale) < k * (2 * u)) == (2 * (edge * value(
                scale,
            )) - five < k * (2 * pixel()))
            &&& (k * (2 * u) < 2 * (edge * f) + 5 * sigma_phys(blur, scale)) == (k * (2 * pixel())
                < 2 * (edge * value(scale)) + five)
        }),
{
    let t = lemma_scale(scale);
    let f = scale_factor(scale);
    let u = pixel_units(scale);
    let v = value(blur);
    let a = edge * f;
    let s = v * f;
    let w = k * (2 * u);
    assert(edge * (f * t) == a * t) by (nonlinear_arith)
        requires
            a == edge * f,
    ;
    assert(v * (f * t) == s * t) by (nonlinear_arith)
        requires
            s == v * f,
    ;
    assert((s >= 0) == (s * t >= 0)) by (nonlinear_arith)
        requires
            t > 0,
    ;
    assert(k * (2 * (u * t)) == w * t) by (nonlinear_arith)
        requires
            w == k * (2 * u),
    ;
    let sigma = max_int(s, 0);
    assert(max_int(s * t, 0) == sigma * t) by {
        assert(0 * t == 0);
    }
    let lo = 2 * a - 5 * sigma;
    let hi = 2 * a + 5 * sigma;
    assert(lo * t == 2 * (a * t) - 5 * (sigma * t)) by (nonlinear_arith)
        requires
            lo == 2 * a - 5 * sigma,
    ;
    assert(hi * t == 2 * (a * t) + 5 * (sigma * t)) by (nonlinear_arith)
        requires
            hi == 2 * a + 5 * sigma,
    ;
    assert((lo < w) == (lo * t < w * t)) by (nonlinear_arith)
        requires
            t > 0,
    ;
    assert((w < hi) == (w * t < hi * t)) by (nonlinear_arith)
        requires
            t > 0,
    ;
}

/// A larger coordinate is larger once it is scaled.
proof fn lemma_scaled_order(a: int, b: int, scale: u32)
    requires
        a <= b,
        value(scale) >= 0,
    ensures
        a * value(scale) <= b * value(scale),
{
    let s = value(scale);
    assert(a * s <= b * s) by (nonlinear_arith)
        requires
            a <= b,
            s >= 0,
    ;
}

/// Along an axis the pixels sampled are those of the target between the halo of
/// some corner and the halo of some corner.
proof fn lemma_sampled_along(b: BackdropInstance, scale: u32, axis: int, phys: u32, p: int)
    requires
        axis == 0 || axis == 1,
        value(scale) >= 0,
        !is_nan(b.corners[0][axis]) || !is_nan(b.corners[1][axis]) || !is_nan(b.corners[2][axis])
            || !is_nan(b.corners[3][axis]),
    ensures
        (sample_start(b, scale, axis) <= p < sample_end(b, scale, axis, phys)) <==> {
            &&& 0 <= p < phys
            &&& exists|i: int| 0 <= i < 4 && #[trigger] past_the_halo_of(b, scale, axis, p, i)
            &&& exists|i: int| 0 <= i < 4 && #[trigger] before_the_halo_of(b, scale, axis, p, i)
        },
{
    let t = lemma_scale(scale);
    let sigma = sigma_phys(b.blur, scale);
    let near = near_edge(b, axis);
    let far = far_edge(b, axis);
    let u = pixel_units(scale);
    lemma_value_reach(b.corners[0][axis]);
    lemma_value_reach(b.corners[1][axis]);
    lemma_value_reach(b.corners[2][axis]);
    lemma_value_reach(b.corners[3][axis]);
    lemma_rounded_against(2 * (near * scale_factor(scale)) - 5 * sigma, 2 * u, p);
    lemma_rounded_against(2 * (far * scale_factor(scale)) + 5 * sigma, 2 * u, p);
    lemma_halo_against(near, b.blur, scale, p + 1);
    lemma_halo_against(far, b.blur, scale, p);
    let first = 2 * (near * value(scale)) - five_radii(b, scale) < (p + 1) * (2 * pixel());
    let last = p * (2 * pixel()) < 2 * (far * value(scale)) + five_radii(b, scale);
    assert(first ==> exists|i: int| 0 <= i < 4 && #[trigger] past_the_halo_of(b, scale, axis, p, i))
        by {
        if first {
            if !is_nan(b.corners[0][axis]) && near == value(b.corners[0][axis]) {
                assert(past_the_halo_of(b, scale, axis, p, 0));
            } else if !is_nan(b.corners[1][axis]) && near == value(b.corners[1][axis]) {
                assert(past_the_halo_of(b, scale, axis, p, 1));
            } else if !is_nan(b.corners[2][axis]) && near == value(b.corners[2][axis]) {
                assert(past_the_halo_of(b, scale, axis, p, 2));
            } else {
                assert(near == value(b.corners[3][axis]));
                assert(past_the_halo_of(b, scale, axis, p, 3));
            }
        }
    }
    assert(last ==> exists|i: int|
        0 <= i < 4 && #[trigger] before_the_halo_of(b, scale, axis, p, i)) by {
        if last {
            if !is_nan(b.corners[0][axis]) && far == value(b.corners[0][axis]) {
                assert(before_the_halo_of(b, scale, axis, p, 0));
            } else if !is_nan(b.corners[1][axis]) && far == value(b.corners[1][axis]) {
                assert(before_the_halo_of(b, scale, axis, p, 1));
            } else if !is_nan(b.corners[2][axis]) && far == value(b.corners[2][axis]) {
                assert(before_the_halo_of(b, scale, axis, p, 2));
            } else {
                assert(far == value(b.corners[3][axis]));
                assert(before_the_halo_of(b, scale, axis, p, 3));
            }
        }
    }
    assert forall|i: int| 0 <= i < 4 && #[trigger] past_the_halo_of(b, scale, axis, p, i) implies first
        by {
        lemma_scaled_order(near, value(b.corners[i][axis]), scale);
    }
    assert forall|i: int| 0 <= i < 4 && #[trigger] before_the_halo_of(
        b,
        scale,
        axis,
        p,
        i,
    ) implies last by {
        lemma_scaled_order(value(b.corners[i][axis]), far, scale);
    }
}

/// A pane samples exactly the pixels of the target round the place where it appears
/// on screen: those between its on-screen corners along both axes, and those no
/// further than two and a half radii from them. Where there is no such pixel it
/// samples nothing.
pub proof fn law_panes_sample_where_they_appear(
    b: BackdropInstance,
    scale: u32,
    phys: (u32, u32),
    x: int,
    y: int,
)
    requires
        value(scale) >= 0,
        !is_nan(b.corners[0][0]) || !is_nan(b.corners[1][0]) || !is_nan(b.corners[2][0]) || !is_nan(
            b.corners[3][0],
        ),
        !is_nan(b.corners[0][1]) || !is_nan(b.corners[1][1]) || !is_nan(b.corners[2][1]) || !is_nan(
            b.corners[3][1],
        ),
    ensures
        (sample_region_of(b, scale, phys) matches Some(r) && r.0 <= x < r.2 && r.1 <= y < r.3) <==> {
            &&& 0 <= x < phys.0
            &&& 0 <= y < phys.1
            &&& exists|i: int| 0 <= i < 4 && #[trigger] past_the_halo_of(b, scale, 0, x, i)
            &&& exists|i: int| 0 <= i < 4 && #[trigger] before_the_halo_of(b, scale, 0, x, i)
            &&& exists|i: int| 0 <= i < 4 && #[trigger] past_the_halo_of(b, scale, 1, y, i)
            &&& exists|i: int| 0 <= i < 4 && #[trigger] before_the_halo_of(b, scale, 1, y, i)
        },
        sample_region_of(b, scale, phys) matches Some(r) ==> r.0 < r.2 <= phys.0 && r.1 < r.3
            <= phys.1,
{
    lemma_sampled_along(b, scale, 0, phys.0, x);
    lemma_sampled_along(b, scale, 1, phys.1, y);
}

/// What is blurred for a pane, from its properties: the region it samples, copied at
/// full size; targets that hold that region at a resolution of three, two or one
/// quarters, or lower where the radius would otherwise exceed eight of their
/// texels, down to a sixteenth; and a kernel radius of the physical one at that
/// resolution, up to eight.
#[verifier::rlimit(50)]
pub proof fn law_blur_follows_the_pane(
    b: BackdropInstance,
    regions: BackdropRegions,
    scale: u32,
    phys: (u32, u32),
    auto_capable: bool,
    create: bool,
)
    requires
        sample_region_of(b, scale, phys) is Some,
    ensures
        plan_of(b, regions, scale, phys, auto_capable, create) matches Some(p) && {
            let r = sample_region_of(b, scale, phys)->0;
            let quarters: int = if b.quality == 1 {
                3
            } else if b.quality == 2 {
                1
            } else if auto_capable {
                2
            } else {
                1
            };
            let radius = max_int(value(b.blur) * value(scale), 0);
            let (w, h) = (p.sizes.src_size.0, p.sizes.src_size.1);
            let (tw, th) = (p.sizes.scaled_size.0, p.sizes.scaled_size.1);
            &&& p.region == r
            &&& w == r.2 - r.0 && h == r.3 - r.1
            &&& radius * quarters <= 32 * pixel() ==> at_resolution(tw as int, w as int, quarters, 4)
                && at_resolution(th as int, h as int, quarters, 4)
            &&& radius * quarters > 32 * pixel() && radius <= 128 * pixel() ==> at_resolution(
                tw as int,
                w as int,
                8 * pixel(),
                radius,
            ) && at_resolution(th as int, h as int, 8 * pixel(), radius)
            &&& radius > 128 * pixel() ==> at_resolution(tw as int, w as int, 1, 16)
                && at_resolution(th as int, h as int, 1, 16)
            &&& p.sigma@ * pixel() == min_int(radius * quarters, 32 * pixel()) * (pow2(
                p.sigma_shift as nat,
            ) as int / 4)
            &&& p.create == create
            &&& p.instance == regions.instance
            &&& p.passes.0.horizontal && !p.passes.1.horizontal
            &&& p.passes.0.params == regions.blur_h && p.passes.1.params == regions.blur_v
            &&& p.passes.0.from == ScratchTexture::Source && p.passes.0.to == p.passes.1.from
                && p.passes.1.to == ScratchTexture::Second && p.passes.0.to
                == ScratchTexture::First
        },
{
    let t = lemma_scale(scale);
    let r = sample_region_of(b, scale, phys)->0;
    let q = base_quarters(b.quality, auto_capable);
    let sigma = sigma_phys(b.blur, scale);
    let one = pixel_units(scale);
    let f = scale_factor(scale);
    let s = value(b.blur) * f;
    let radius = max_int(value(b.blur) * value(scale), 0);
    assert(value(b.blur) * (f * t) == s * t) by (nonlinear_arith)
        requires
            s == value(b.blur) * f,
    ;
    assert((s >= 0) == (s * t >= 0)) by (nonlinear_arith)
        requires
            t > 0,
    ;
    assert(0 * t == 0);
    assert(radius == sigma * t);
    let factor = downsample(sigma, q, one);
    let capped = 32 * one;
    let n = sigma * q;
    assert(radius * q == n * t) by (nonlinear_arith)
        requires
            radius == sigma * t,
            n == sigma * q,
    ;
    assert((n <= capped) == (n * t <= capped * t)) by (nonlinear_arith)
        requires
            t > 0,
    ;
    assert(capped * t == 32 * pixel()) by (nonlinear_arith)
        requires
            capped == 32 * one,
            pixel() == one * t,
    ;
    assert((sigma <= 128 * one) == (sigma * t <= (128 * one) * t)) by (nonlinear_arith)
        requires
            t > 0,
    ;
    assert((128 * one) * t == 128 * pixel()) by (nonlinear_arith)
        requires
            pixel() == one * t,
    ;
    let w = (r.2 - r.0) as int;
    let h = (r.3 - r.1) as int;
    law_scaled_extent_fits(w, sigma, q, one);
    law_scaled_extent_fits(h, sigma, q, one);
    if n <= capped {
        lemma_at_resolution(w, q, 4);
        lemma_at_resolution(h, q, 4);
    } else if sigma <= 128 * one {
        assert(sigma > 0) by (nonlinear_arith)
            requires
                sigma * q > 32 * one,
                one > 0,
                1 <= q <= 3,
        ;
        lemma_at_resolution(w, 8 * one, sigma);
        lemma_at_resolution(h, 8 * one, sigma);
        lemma_resolution_times(scaled(w, factor), w, 8 * one, sigma, t);
        lemma_resolution_times(scaled(h, factor), h, 8 * one, sigma, t);
        assert((8 * one) * t == 8 * pixel()) by (nonlinear_arith)
            requires
                pixel() == one * t,
        ;
    } else {
        assert(n > capped) by (nonlinear_arith)
            requires
                n == sigma * q,
                sigma > 128 * one,
                capped == 32 * one,
                one > 0,
                q >= 1,
        ;
        lemma_at_resolution(w, 1, 16);
        lemma_at_resolution(h, 1, 16);
    }
    let m = sigma_scaled(sigma, q, one);
    let (f2, shift): (int, int) = (f, scale_shift(scale));
    vstd::arithmetic::power2::lemma_pow2_adds(shift as nat, 2);
    vstd::arithmetic::power2::lemma2_to64();
    assert(pow2((shift + 2) as nat) as int / 4 == one);
    assert(m * t == min_int(n * t, capped * t)) by (nonlinear_arith)
        requires
            m == min_int(n, capped),
            t > 0,
    ;
    assert(m * (one * t) == (m * t) * one) by (nonlinear_arith);
    assert(0 <= n) by (nonlinear_arith)
        requires
            n == sigma * q,
            sigma >= 0,
            q >= 1,
    ;
    lemma_above_a_pixel(shift as nat);
    lemma_power_fits((shift + 5) as nat);
    assert(wide(m)@ == m);
}

/// Whether `n` texels are the fewest that hold `extent` at a resolution of `num` in
/// `den`.
pub open spec fn at_resolution(n: int, extent: int, num: int, den: int) -> bool {
    &&& n >= 1
    &&& extent * num <= n * den
    &&& (n - 1) * den < extent * num
}

/// An extent at a resolution, rounded up.
proof fn lemma_at_resolution(extent: int, num: int, den: int)
    requires
        0 < extent,
        0 < num,
        0 < den,
        scaled(extent, (num, den)) >= 1,
    ensures
        at_resolution(scaled(extent, (num, den)), extent, num, den),
{
    let n = scaled(extent, (num, den));
    lemma_rounded_against(extent * num, den, n);
    lemma_rounded_against(extent * num, den, n - 1);
}

/// A resolution is a ratio.
proof fn lemma_resolution_times(n: int, extent: int, num: int, den: int, t: int)
    requires
        at_resolution(n, extent, num, den),
        t > 0,
    ensures
        at_resolution(n, extent, num * t, den * t),
{
    assert(extent * (num * t) == (extent * num) * t) by (nonlinear_arith);
    assert(n * (den * t) == (n * den) * t) by (nonlinear_arith);
    assert((n - 1) * (den * t) == ((n - 1) * den) * t) by (nonlinear_arith);
    let a = extent * num;
    let b = n * den;
    let c = (n - 1) * den;
    assert(a * t <= b * t && c * t < a * t) by (nonlinear_arith)
        requires
            a <= b,
            c < a,
            t > 0,
    ;
}

} // verus!
