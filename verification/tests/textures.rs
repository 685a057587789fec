//! The texture cache, image fits and staged images.

use byard_core::encoder::descriptor::TextureFormat;
use byard_core::encoder::instance_arena::{InstanceArena, Region};
use byard_core::encoder::scissor::ClipCtx;
use byard_core::encoder::texture_sampler::{
    DecodedImage, DecodedRgba, Ratio, TextureCache, TextureEntry, TextureUpload, UvTransform,
    request_textures, stage, upload_rgba, uv_transform,
};
use byard_core::frame::{ImageFit, TextureSampler};

fn f(x: f32) -> u32 {
    x.to_bits()
}

fn path(s: &str) -> String {
    s.to_string()
}

fn decoded(src: &str, width: u32, height: u32) -> DecodedImage {
    DecodedImage {
        src: path(src),
        result: Ok(DecodedRgba {
            width,
            height,
            bytes: vec![0; (4 * width * height) as usize],
        }),
    }
}

fn image(src: &str) -> TextureSampler {
    TextureSampler {
        rect: [0.0, 0.0, 40.0, 20.0].map(f32::to_bits),
        src: path(src),
        fit: ImageFit::Fill,
        radii: [0; 4],
        opacity: f(0.5),
        smooth: 0,
        dirty: false,
    }
}

#[test]
fn ensure_does_not_block_when_decoding_a_slow_fixture() {
    // Asking for an image only says that its decoding has to start; nothing
    // is ready until the result is handed back.
    let mut cache = TextureCache::new();
    let src = path("slow.png");
    assert!(cache.ensure(&src));
    assert!(
        cache.get(&src).is_none(),
        "image must be pending (not ready) immediately after ensure"
    );
}

#[test]
fn ensure_called_twice_for_the_same_pending_path_spawns_one_decode_task() {
    let mut cache = TextureCache::new();
    let src = path("dedup.png");
    assert!(cache.ensure(&src));
    assert!(
        !cache.ensure(&src),
        "a second decode task must not have been spawned"
    );
}

#[test]
fn texture_becomes_ready_after_io_result_drain() {
    let mut cache = TextureCache::new();
    let src = path("ready.png");
    cache.ensure(&src);
    assert!(cache.get(&src).is_none(), "pending before drain, no draw");
    cache.apply_decoded(&decoded("ready.png", 16, 16), 7);
    assert_eq!(
        cache.get(&src),
        Some(TextureEntry {
            handle: 7,
            width: 16,
            height: 16
        }),
        "ready after drain, entry available to draw"
    );
}

#[test]
fn missing_image_resolves_to_failed_not_panic() {
    let mut cache = TextureCache::new();
    let src = path("/no/such/byard/image.png");
    let failed = DecodedImage {
        src: src.clone(),
        result: Err(path("no such file")),
    };
    assert!(failed.result.is_err(), "missing file must fail to decode");
    cache.apply_decoded(&failed, 0);
    assert!(cache.get(&src).is_none());
    assert!(!cache.ensure(&src), "a failed image is not tried again");
}

#[test]
fn a_failure_is_worth_one_warning() {
    let mut cache = TextureCache::new();
    let src = path("gone.png");
    let failed = DecodedImage {
        src: src.clone(),
        result: Err(path("no such file")),
    };
    cache.ensure(&src);
    assert!(cache.apply_decoded(&failed, 0));
    assert!(!cache.apply_decoded(&failed, 0));
    assert!(!cache.apply_decoded(&decoded("gone.png", 2, 3), 5));
    assert!(!cache.apply_decoded(&decoded("gone.png", 2, 3), 5));
    assert_eq!(
        cache.get(&src),
        Some(TextureEntry {
            handle: 5,
            width: 2,
            height: 3
        })
    );
    assert!(cache.apply_decoded(&failed, 0), "it worked in between");
    assert!(cache.get(&src).is_none());
}

#[test]
fn each_new_source_is_requested_once_per_frame() {
    let mut cache = TextureCache::new();
    cache.ensure(&path("old.png"));
    let frame = [image("a.png"), image("old.png"), image("b.png"), image("a.png")];
    assert_eq!(request_textures(&mut cache, &frame), vec![0, 2]);
    assert_eq!(
        request_textures(&mut cache, &frame),
        Vec::<usize>::new(),
        "known sources start no decode"
    );
}

#[test]
fn only_ready_images_are_staged() {
    let mut cache = TextureCache::new();
    cache.apply_decoded(&decoded("ready.png", 4, 4), 1);
    cache.ensure(&path("pending.png"));
    let frame = [image("pending.png"), image("ready.png"), image("ready.png")];
    let uvs = [[f(1.0); 4]; 3];
    let ctx = ClipCtx {
        clips: &[],
        base: (0, 0, 100, 100),
        scale: f(1.0),
        phys_w: 100,
        phys_h: 100,
    };
    let mut arena = InstanceArena::new(256);
    arena.begin_frame();
    let staged = stage(&mut arena, &cache, &frame, &uvs, &[0, f(0.25)], &[], ctx);
    assert_eq!(staged.len(), 2);
    assert_eq!(staged[0].index, 1);
    assert_eq!(staged[0].scissor, (0, 0, 100, 100));
    assert_eq!(staged[0].region, Region { offset: 0, len: 64 });
    assert_eq!(staged[1].region, Region { offset: 64, len: 64 });
    // Opacity and depth stand in the last four lanes.
    assert_eq!(arena.staged()[48..52], 0.5f32.to_ne_bytes());
    assert_eq!(arena.staged()[52..56], 0.25f32.to_ne_bytes());
    assert_eq!(arena.staged()[64 + 52..64 + 56], 1.0f32.to_ne_bytes());
}

#[test]
fn an_upload_is_four_bytes_a_texel() {
    let rgba = DecodedRgba {
        width: 3,
        height: 2,
        bytes: vec![0; 24],
    };
    assert_eq!(
        upload_rgba(&rgba),
        TextureUpload {
            width: 3,
            height: 2,
            format: TextureFormat::Rgba8UnormSrgb,
            bytes_per_row: 12,
            rows_per_image: 2
        }
    );
}

fn ratio(r: Ratio) -> f64 {
    r.num as f64 / r.den as f64 * 2f64.powi(r.exp)
}

fn fit(fit: ImageFit) -> UvTransform {
    // A wide image in a square rectangle.
    uv_transform(fit, 200, 100, f(50.0), f(50.0))
}

#[test]
fn a_filled_image_is_stretched() {
    let t = fit(ImageFit::Fill);
    assert_eq!((ratio(t.x), ratio(t.y)), (1.0, 1.0));
}

#[test]
fn a_covering_image_is_cropped_along_its_longer_axis() {
    let t = fit(ImageFit::Cover);
    assert_eq!((ratio(t.x), ratio(t.y)), (0.5, 1.0));
    assert!(t.centred);
}

#[test]
fn a_contained_image_leaves_room_along_its_shorter_axis() {
    let t = fit(ImageFit::Contain);
    assert_eq!((ratio(t.x), ratio(t.y)), (1.0, 2.0));
    assert!(t.centred);
}

#[test]
fn a_natural_image_is_drawn_texel_for_pixel() {
    let t = fit(ImageFit::Natural);
    assert_eq!((ratio(t.x), ratio(t.y)), (0.25, 0.5));
    assert!(!t.centred, "from the top left");
}

#[test]
fn a_sliver_keeps_its_aspect() {
    // Far below a pixel, and far apart.
    let w = f32::from_bits(3);
    let h = 2f32.powi(-100);
    let t = uv_transform(ImageFit::Cover, 10, 10, f(w), f(h));
    assert_eq!(ratio(t.x), w as f64 / h as f64);
    assert_eq!(ratio(t.y), 1.0);
    let t = uv_transform(ImageFit::Contain, 10, 10, f(w), f(h));
    assert_eq!(ratio(t.x), 1.0);
    assert_eq!(ratio(t.y), h as f64 / w as f64);
}

#[test]
fn an_image_or_rectangle_without_extent_is_stretched() {
    for t in [
        uv_transform(ImageFit::Cover, 0, 100, f(50.0), f(50.0)),
        uv_transform(ImageFit::Cover, 100, 0, f(50.0), f(50.0)),
        uv_transform(ImageFit::Contain, 10, 10, f(0.0), f(50.0)),
        uv_transform(ImageFit::Natural, 10, 10, f(50.0), f(-1.0)),
    ] {
        assert_eq!((ratio(t.x), ratio(t.y)), (1.0, 1.0));
    }
}

/// The lanes a fit gives a square image of ten texels.
fn lanes(fit: ImageFit, w: f32, h: f32) -> [f64; 2] {
    let t = uv_transform(fit, 10, 10, f(w), f(h));
    [ratio(t.x), ratio(t.y)]
}

#[test]
fn a_rectangle_that_is_not_a_number_has_no_aspect() {
    for (w, h) in [
        (f32::NAN, 50.0),
        (50.0, f32::NAN),
        (f32::NAN, f32::NAN),
        (f32::INFINITY, f32::INFINITY),
    ] {
        let cover = lanes(ImageFit::Cover, w, h);
        assert!(cover[0] == 1.0 && cover[1].is_nan());
        let contain = lanes(ImageFit::Contain, w, h);
        assert!(contain[0].is_nan() && contain[1] == 1.0);
        assert_eq!(lanes(ImageFit::Fill, w, h), [1.0, 1.0]);
    }
    let natural = lanes(ImageFit::Natural, f32::NAN, 50.0);
    assert!(natural[0].is_nan() && natural[1] == 5.0);
    // Without an extent along the other axis it is stretched after all.
    assert_eq!(lanes(ImageFit::Cover, f32::NAN, 0.0), [1.0, 1.0]);
    assert_eq!(lanes(ImageFit::Contain, -1.0, f32::NAN), [1.0, 1.0]);
}

#[test]
fn an_infinite_rectangle_divides_as_real_numbers_do() {
    let far = f32::INFINITY;
    assert_eq!(lanes(ImageFit::Cover, far, 50.0), [1.0, 0.0]);
    assert_eq!(lanes(ImageFit::Cover, 50.0, far), [0.0, 1.0]);
    assert_eq!(lanes(ImageFit::Contain, far, 50.0), [f64::INFINITY, 1.0]);
    assert_eq!(lanes(ImageFit::Contain, 50.0, far), [1.0, f64::INFINITY]);
    assert_eq!(lanes(ImageFit::Natural, far, 50.0), [f64::INFINITY, 5.0]);
}
