//! Backdrops, coverage masks, group targets and the glyph atlas.

use byard_core::encoder::backdrop::{
    BackdropRegions, BlurPlan, BlurScratch, ScratchCache, ScratchTexture, base_downsample,
    blur_params, composite_quad, draw_composite, ensure_scratch, prepare, reserve, sample_region,
};
use byard_core::encoder::clip_mask::{ClipMaskAtlas, MAX_DIM, MaskSlot};
use byard_core::encoder::group::{GroupCompositor, GroupInstance};
use byard_core::encoder::instance_arena::{InstanceArena, Region};
use byard_core::encoder::scissor::{ClipCtx, ClipRun};
use byard_core::encoder::vector_msdf::{AtlasWrite, VectorAtlas};
use byard_core::encoder::{group, vector_msdf};
use byard_core::frame::{
    AtlasUpload, BLUR_QUALITY_HIGH, BLUR_QUALITY_LOW, BackdropInstance, ClipMask, ClipRect,
    FillMesh, FillVertex, Transform, VectorInstance,
};

fn f(x: f32) -> u32 {
    x.to_bits()
}

fn f4(v: [f32; 4]) -> [u32; 4] {
    v.map(f32::to_bits)
}

/// An upright pane.
fn pane(x: f32, y: f32, w: f32, h: f32, blur: f32, quality: u32) -> BackdropInstance {
    BackdropInstance {
        rect: f4([x, y, w, h]),
        corners: [
            [f(x), f(y)],
            [f(x + w), f(y)],
            [f(x + w), f(y + h)],
            [f(x), f(y + h)],
        ],
        radii: f4([1.0, 2.0, 3.0, 4.0]),
        tint: f4([0.1, 0.2, 0.3, 0.4]),
        saturation: f(1.5),
        opacity: f(0.9),
        depth: f(0.25),
        smooth: f(0.6),
        blur: f(blur),
        quality,
        transform: Transform::identity(),
    }
}

/// The kernel's radius in scaled texels.
fn radius(plan: &BlurPlan) -> f64 {
    let (hi, mid, lo) = plan.sigma.parts();
    let digit = 2f64.powi(128);
    ((hi as f64 * digit + mid as f64) * digit + lo as f64) / 2f64.powi(plan.sigma_shift as i32)
}

#[test]
fn a_panes_regions_lie_apart_and_aligned() {
    let mut arena = InstanceArena::new(256);
    arena.begin_frame();
    let _ = arena.push_vertex(&[1]);
    let r = reserve(&mut arena);
    assert_eq!(r.instance, Region { offset: 4, len: 108 });
    assert_eq!(r.blur_h, Region { offset: 256, len: 256 });
    assert_eq!(r.blur_v, Region { offset: 512, len: 256 });
    assert_eq!(arena.staged_len(), 768);
    assert_eq!(BackdropRegions::default().instance, Region::default());
}

#[test]
fn a_tier_fixes_the_base_resolution() {
    let auto = pane(0.0, 0.0, 10.0, 10.0, 1.0, 0);
    let high = pane(0.0, 0.0, 10.0, 10.0, 1.0, BLUR_QUALITY_HIGH);
    let low = pane(0.0, 0.0, 10.0, 10.0, 1.0, BLUR_QUALITY_LOW);
    assert_eq!(base_downsample(&auto, true), 2);
    assert_eq!(base_downsample(&auto, false), 1);
    assert_eq!(base_downsample(&high, false), 3);
    assert_eq!(base_downsample(&low, true), 1);
}

#[test]
fn a_pane_samples_two_and_a_half_radii_round_it() {
    let b = pane(50.0, 60.0, 20.0, 10.0, 4.0, 0);
    assert_eq!(
        sample_region(&b, f(1.0), (200, 200)),
        Some((40, 50, 80, 80))
    );
    assert_eq!(
        sample_region(&b, f(2.0), (200, 200)),
        Some((80, 100, 160, 160))
    );
    // It is held inside the target, and a pane off it samples nothing.
    assert_eq!(sample_region(&b, f(1.0), (60, 70)), Some((40, 50, 60, 70)));
    assert_eq!(sample_region(&b, f(1.0), (40, 200)), None);
}

#[test]
fn a_moderate_blur_runs_at_its_tier() {
    // Four pixels at half the resolution: two scaled texels.
    let b = pane(50.0, 60.0, 20.0, 10.0, 4.0, 0);
    let mut scratch = ScratchCache::new();
    let regions = BackdropRegions {
        instance: Region { offset: 0, len: 108 },
        blur_h: Region { offset: 256, len: 256 },
        blur_v: Region { offset: 512, len: 256 },
    };
    let plan = prepare(&mut scratch, 3, &b, regions, f(1.0), (200, 200), true).unwrap();
    assert_eq!(plan.region, (40, 50, 80, 80));
    assert_eq!(
        plan.sizes,
        BlurScratch {
            src_size: (40, 30),
            scaled_size: (20, 15)
        }
    );
    assert!(plan.create);
    assert_eq!(radius(&plan), 2.0);
    assert_eq!(plan.passes.0.from, ScratchTexture::Source);
    assert_eq!(plan.passes.0.to, ScratchTexture::First);
    assert!(plan.passes.0.horizontal);
    assert_eq!(plan.passes.0.params, regions.blur_h);
    assert_eq!(plan.passes.1.from, ScratchTexture::First);
    assert_eq!(plan.passes.1.to, ScratchTexture::Second);
    assert!(!plan.passes.1.horizontal);
    assert_eq!(plan.passes.1.params, regions.blur_v);
    assert_eq!(plan.instance, regions.instance);
    // The same pane a frame later creates nothing.
    let again = prepare(&mut scratch, 3, &b, regions, f(1.0), (200, 200), true).unwrap();
    assert!(!again.create);
}

#[test]
fn a_wide_blur_is_downsampled_until_its_taps_meet() {
    // Sixty-four pixels: an eighth of the resolution, eight scaled texels.
    let b = pane(500.0, 500.0, 80.0, 80.0, 64.0, BLUR_QUALITY_HIGH);
    let mut scratch = ScratchCache::new();
    let plan = prepare(
        &mut scratch,
        0,
        &b,
        BackdropRegions::default(),
        f(1.0),
        (2000, 2000),
        true,
    )
    .unwrap();
    assert_eq!(plan.sizes.src_size, (400, 400));
    assert_eq!(plan.sizes.scaled_size, (50, 50));
    assert_eq!(radius(&plan), 8.0);
    // A thousand pixels are held at a sixteenth, and at eight texels.
    let huge = pane(500.0, 500.0, 80.0, 80.0, 1000.0, BLUR_QUALITY_HIGH);
    let plan = prepare(
        &mut scratch,
        0,
        &huge,
        BackdropRegions::default(),
        f(1.0),
        (2000, 2000),
        true,
    )
    .unwrap();
    assert_eq!(plan.sizes.src_size, (2000, 2000));
    assert_eq!(plan.sizes.scaled_size, (125, 125));
    assert_eq!(radius(&plan), 8.0);
}

#[test]
fn scratch_textures_are_made_anew_only_for_other_sizes() {
    let mut scratch = ScratchCache::new();
    assert!(ensure_scratch(&mut scratch, 0, (8, 8), (4, 4)));
    assert!(!ensure_scratch(&mut scratch, 0, (8, 8), (4, 4)));
    assert!(ensure_scratch(&mut scratch, 1, (8, 8), (4, 4)));
    assert!(ensure_scratch(&mut scratch, 0, (8, 8), (2, 2)));
    assert_eq!(scratch.len(), 2);
}

#[test]
fn the_composite_quad_carries_the_pane() {
    let b = pane(50.0, 60.0, 20.0, 10.0, 4.0, 0);
    let lanes = composite_quad(&b, [1, 2, 3, 4]);
    assert_eq!(lanes.len(), 27);
    assert_eq!(lanes[0..4], b.rect);
    assert_eq!(lanes[4..8], b.radii);
    assert_eq!(lanes[8..12], b.tint);
    assert_eq!(lanes[12..16], f4([1.5, 0.9, 0.25, 0.6]));
    assert_eq!(lanes[16..20], [1, 2, 3, 4]);
    assert_eq!(
        blur_params([1, 2], [3, 4], 5),
        [1, 2, 3, 4, 5, 0, 0, 0]
    );
}

#[test]
fn a_clipped_pane_is_composited_under_its_clip() {
    let clips = [ClipRect {
        rect: f4([10.0, 10.0, 20.0, 20.0]),
    }];
    let ctx = ClipCtx {
        clips: &clips,
        base: (0, 0, 20, 100),
        scale: f(1.0),
        phys_w: 100,
        phys_h: 100,
    };
    assert_eq!(
        draw_composite(Some(0), ctx),
        vec![ClipRun {
            scissor: (10, 10, 10, 20),
            start: 0,
            end: 1
        }]
    );
    assert_eq!(draw_composite(Some(9), ctx), vec![], "no such clip");
}

fn mask(w: f32, h: f32, indices: Vec<u32>) -> ClipMask {
    let v = |x: f32, y: f32| FillVertex {
        pos: [f(x), f(y)],
        uv: [0, 0],
    };
    ClipMask {
        bounds: f4([5.0, 6.0, w, h]),
        mesh: FillMesh {
            vertices: vec![v(0.0, 0.0), v(w, 0.0), v(0.0, h)],
            indices,
        },
    }
}

#[test]
fn masks_stand_side_by_side_in_a_strip_that_only_grows() {
    let mut atlas = ClipMaskAtlas::new();
    assert_eq!(atlas.size(), (1, 1));
    let masks = [
        mask(10.0, 20.0, vec![0, 1, 2]),
        mask(4.0, 4.0, vec![]),
        mask(30.0, 5.0, vec![2, 1, 0, 0, 1, 2]),
    ];
    let plan = atlas.prepare(&masks, f(2.0));
    assert_eq!(
        atlas.slots(),
        &[
            MaskSlot {
                x: 0,
                width: 20,
                height: 40
            },
            MaskSlot {
                x: 20,
                width: 8,
                height: 8
            },
            MaskSlot {
                x: 28,
                width: 60,
                height: 10
            },
        ]
    );
    assert_eq!(plan.reallocate, Some((128, 64)));
    assert_eq!(atlas.size(), (128, 64));
    assert_eq!(plan.draws.len(), 2, "a mask without triangles draws nothing");
    assert_eq!(plan.draws[0].first_index, 0);
    assert_eq!(plan.draws[0].index_count, 3);
    assert_eq!(plan.draws[0].base_vertex, 0);
    assert_eq!(plan.draws[0].uniform_offset, 0);
    assert_eq!(plan.draws[1].first_index, 3);
    assert_eq!(plan.draws[1].index_count, 6);
    assert_eq!(plan.draws[1].base_vertex, 6);
    assert_eq!(plan.draws[1].uniform_offset, 512);
    assert_eq!(plan.indices, vec![0, 1, 2, 2, 1, 0, 0, 1, 2]);
    assert_eq!(plan.uniforms.len(), 3 * 64);
    assert_eq!(plan.uniforms[128..132], f4([5.0, 6.0, 30.0, 5.0]));
    // A smaller frame keeps the strip.
    let plan = atlas.prepare(&masks[1..2], f(1.0));
    assert_eq!(plan.reallocate, None);
    assert_eq!(atlas.size(), (128, 64));
}

#[test]
fn a_strip_is_held_to_what_every_adapter_allows() {
    let mut atlas = ClipMaskAtlas::new();
    let masks = [
        mask(9000.0, 10.0, vec![0, 1, 2]),
        mask(8192.0, 20.0, vec![0, 1, 2]),
        mask(1.0, 10.0, vec![0, 1, 2]),
    ];
    let plan = atlas.prepare(&masks, f(1.0));
    assert_eq!(plan.reallocate, Some((MAX_DIM, 32)));
    let extents: Vec<(u32, u32, u32)> = atlas
        .slots()
        .iter()
        .map(|s| (s.x, s.width, s.height))
        .collect();
    assert_eq!(extents, vec![(0, 0, 0), (0, 8192, 20), (8192, 0, 0)]);
    assert_eq!(plan.draws.len(), 1, "what does not fit is not drawn");
    assert_eq!(plan.draws[0].first_index, 3);
    assert_eq!(plan.draws[0].uniform_offset, 256);
}

#[test]
fn a_group_target_is_allocated_once_per_size() {
    let mut groups = GroupCompositor::new();
    assert!(!groups.has_target());
    assert_eq!(groups.ensure((640, 480)), Some((640, 480)));
    assert_eq!(groups.ensure((640, 480)), None);
    assert_eq!(groups.ensure((0, 480)), Some((1, 480)));
    assert!(groups.has_target());
    let mut arena = InstanceArena::new(256);
    arena.begin_frame();
    let r = group::stage(
        &mut arena,
        &GroupInstance {
            params: [f(0.5), f(0.25)],
        },
    );
    assert_eq!(r.len, 8);
    assert_eq!(arena.staged()[4..8], 0.25f32.to_ne_bytes());
}

fn upload(id: u64, layer: u32, width: u32, height: u32, bytes: usize) -> AtlasUpload {
    AtlasUpload {
        id,
        layer,
        x: 7,
        y: 9,
        width,
        height,
        bytes: vec![0; bytes],
    }
}

#[test]
fn only_uploads_that_can_be_written_are_acknowledged() {
    let atlas = VectorAtlas::new(2048, 2);
    let uploads = [
        upload(10, 1, 4, 2, 32),
        upload(11, 2, 4, 2, 32),
        upload(12, 0, 4, 2, 31),
        upload(13, 0, 1, 1, 4),
    ];
    let past = AtlasUpload {
        x: 2040,
        ..upload(7, 0, 16, 16, 1024)
    };
    assert_eq!(atlas.apply_uploads(&[past]), (vec![], vec![]), "past the edge");
    let corner = AtlasUpload {
        x: 2032,
        y: 2032,
        ..upload(8, 0, 16, 16, 1024)
    };
    assert_eq!(atlas.apply_uploads(&[corner]).0, vec![8]);
    let low = AtlasUpload {
        y: u32::MAX,
        ..upload(9, 0, 16, 16, 1024)
    };
    assert_eq!(atlas.apply_uploads(&[low]).0, Vec::<u64>::new());
    let (ids, writes) = atlas.apply_uploads(&uploads);
    assert_eq!(ids.len(), writes.len());
    assert_eq!(ids[0], 10);
    assert!(!ids.contains(&11), "there is no third layer");
    assert_eq!(
        writes[0],
        AtlasWrite {
            upload: 0,
            origin: (7, 9, 1),
            bytes_per_row: 16,
            rows_per_image: 2,
            extent: (4, 2)
        }
    );
    assert_eq!(*ids.last().unwrap(), 13);
    assert_eq!(VectorAtlas::new(64, 0).layers(), 1, "never without a layer");
}

#[test]
fn a_glyph_record_is_sixty_bytes() {
    let glyph = VectorInstance {
        atlas_uv: [1, 2, 3, 4],
        screen_rect: [5, 6, 7, 8],
        color: [9, 10, 11, 12],
        px_range: 13,
        atlas_layer: 14,
        depth: 15,
    };
    let mut arena = InstanceArena::new(256);
    arena.begin_frame();
    let r = vector_msdf::stage(&mut arena, &[glyph, glyph]);
    assert_eq!(r, Region { offset: 0, len: 120 });
    assert_eq!(arena.staged()[60 + 56..120], 15u32.to_ne_bytes());
    assert_eq!(vector_msdf::instance_layout().array_stride, 60);
}
