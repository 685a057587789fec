//! The pipeline registry and the portability rule.

use byard_core::encoder::canvas_shape::CanvasShapeInstance;
use byard_core::encoder::catalog::core_pipelines;
use byard_core::encoder::decorated_box::DecoratedInstance;
use byard_core::encoder::descriptor::{
    TextureFormat, VertexAttribute, VertexBufferLayout, VertexFormat, VertexStepMode,
};
use byard_core::encoder::pipeline::{
    GUARANTEED_ATTRIBUTES, PipelineOrder, PipelineRecord, PipelineRegistry, build_error,
    build_outcome, check_portable_layout,
};
use byard_core::encoder::texture_sampler::TextureInstance;
use byard_core::encoder::vector_msdf;
use byard_core::error::ByardError;
use byard_core::frame::{BoxInstance, RippleInstance};

fn layout(array_stride: u64, locations: &[u32]) -> VertexBufferLayout {
    let attributes = locations
        .iter()
        .enumerate()
        .map(|(i, l)| VertexAttribute {
            format: VertexFormat::Float32,
            offset: 4 * i as u64,
            shader_location: *l,
        })
        .collect();
    VertexBufferLayout {
        array_stride,
        step_mode: VertexStepMode::Instance,
        attributes,
    }
}

/// A pipeline that draws nothing.
fn probe(key: u64) -> PipelineRecord {
    PipelineRecord {
        name: "probe",
        instance_size: 16,
        layout: layout(16, &[]),
        key,
    }
}

#[test]
fn core_pipelines_draw_before_package_pipelines() {
    let mut registry = PipelineRegistry::new();
    registry.register(PipelineOrder::Package, probe(1)).unwrap();
    registry.register_core(probe(2)).unwrap();
    registry.register(PipelineOrder::Package, probe(3)).unwrap();
    let order: Vec<usize> = registry
        .iter()
        .iter()
        .map(|e| match e.order {
            PipelineOrder::Core => 0,
            PipelineOrder::Package => 1,
        })
        .collect();
    assert_eq!(order, vec![0, 1, 1], "core first, then packages");
    let keys: Vec<u64> = registry.iter().iter().map(|e| e.pipeline.key).collect();
    assert_eq!(keys, vec![2, 1, 3]);
}

#[test]
fn registration_order_breaks_ties_and_is_reproducible() {
    let build = || {
        let mut r = PipelineRegistry::new();
        r.register_core(probe(1)).unwrap();
        r.register_core(probe(2)).unwrap();
        r.register(PipelineOrder::Package, probe(3)).unwrap();
        r.iter()
            .iter()
            .map(|e| (e.order, e.seq))
            .collect::<Vec<_>>()
    };
    assert_eq!(build(), build());
    assert_eq!(
        build(),
        vec![
            (PipelineOrder::Core, 0),
            (PipelineOrder::Core, 1),
            (PipelineOrder::Package, 2),
        ]
    );
}

#[test]
fn a_pipeline_that_could_not_run_everywhere_is_refused_at_registration() {
    let mut registry = PipelineRegistry::new();
    let overrun = PipelineRecord {
        name: "overrun",
        instance_size: 16,
        layout: layout(16, &[16]),
        key: 0,
    };
    let err = registry
        .register(PipelineOrder::Package, overrun)
        .expect_err("a lane past the guaranteed range must be refused");
    let text = err.message();
    assert!(
        text.contains("overrun"),
        "the error names the pipeline: {text}"
    );
    assert!(text.contains("16"), "the error names the lane: {text}");
    assert!(
        registry.is_empty(),
        "a refused pipeline is not in the order"
    );
}

#[test]
fn the_shared_quad_is_counted_against_the_budget() {
    // Fifteen attributes and the quad's make exactly sixteen; sixteen of a
    // pipeline's own are one too many, though every location is in range.
    let mut registry = PipelineRegistry::new();
    let sixteen: Vec<u32> = (0..16).collect();
    let too_many = PipelineRecord {
        name: "too_many",
        instance_size: 64,
        layout: layout(64, &sixteen),
        key: 0,
    };
    let err = registry
        .register(PipelineOrder::Package, too_many)
        .expect_err("sixteen declared attributes plus the quad is seventeen");
    assert!(err.message().contains("too_many"));
    assert!(check_portable_layout("fifteen", &layout(60, &sixteen[1..])).is_ok());
}

#[test]
fn every_core_pipeline_layout_passes_the_portability_rule() {
    for (name, layout) in [
        ("solid_box", BoxInstance::layout()),
        ("decorated_box", DecoratedInstance::layout()),
        ("ripple", RippleInstance::layout()),
        ("canvas_shape", CanvasShapeInstance::layout()),
        ("texture_sampler", TextureInstance::layout()),
        ("vector_msdf", vector_msdf::instance_layout()),
    ] {
        check_portable_layout(name, &layout)
            .unwrap_or_else(|e| panic!("{name} is not portable: {e:?}"));
    }
}

#[test]
fn an_erased_pipeline_still_knows_its_instance_size() {
    let mut registry = PipelineRegistry::new();
    registry.register_core(probe(1)).unwrap();
    let p = &registry.iter()[0].pipeline;
    assert_eq!(p.instance_size, 16);
    assert_eq!(p.name, "probe");
    assert_eq!(registry.order(), vec!["probe"]);
    assert_eq!(registry.len(), 1);
}

#[test]
fn a_batch_draws_through_the_first_pipeline_of_its_key() {
    let mut registry = PipelineRegistry::new();
    registry.register(PipelineOrder::Package, probe(7)).unwrap();
    registry.register_core(probe(5)).unwrap();
    registry.register_core(probe(7)).unwrap();
    registry.begin_frame();
    assert_eq!(registry.draw_batch(7), Some(1));
    assert_eq!(registry.draw_batch(9), None, "no such pipeline");
    assert_eq!(registry.dispatches(), 1, "a batch of nobody dispatches nothing");
    assert_eq!(registry.draw_segment(), vec![5, 7, 7]);
    assert_eq!(registry.dispatches(), 4);
    registry.begin_frame();
    assert_eq!(registry.dispatches(), 0);
}

#[test]
fn a_build_failure_names_its_pipeline() {
    let e = build_error("solid_box", "unknown identifier");
    assert_eq!(
        e,
        ByardError::PipelineCompilation {
            pipeline: "solid_box".to_string(),
            reason: "unknown identifier".to_string(),
        }
    );
    assert_eq!(
        e.message(),
        "pipeline `solid_box` failed to build: unknown identifier"
    );
    assert!(build_outcome("solid_box", None).is_ok());
    assert_eq!(
        build_outcome("solid_box", Some("unknown identifier".to_string())),
        Err(e)
    );
}

#[test]
fn every_error_says_what_failed() {
    assert_eq!(
        ByardError::UnsupportedBackend.message(),
        "no supported GPU backend"
    );
    assert_eq!(
        ByardError::TextPrepare("a".to_string()).message(),
        "text prepare failed: a"
    );
    assert_eq!(
        ByardError::TextRender("b".to_string()).message(),
        "text render failed: b"
    );
    assert_eq!(
        ByardError::RenderSurface("c".to_string()).message(),
        "render surface failed: c"
    );
    assert_eq!(
        ByardError::ThreadSpawn("d".to_string()).message(),
        "logic thread failed to start: d"
    );
}

#[test]
fn the_guaranteed_number_is_the_one_the_gpu_library_promises() {
    assert_eq!(
        wgpu::Limits::default().max_vertex_attributes,
        GUARANTEED_ATTRIBUTES
    );
    assert!(check_portable_layout("last", &layout(4, &[15])).is_ok());
    assert!(check_portable_layout("past", &layout(4, &[16])).is_err());
}

#[test]
fn the_catalog_holds_twelve_portable_pipelines() {
    let list = core_pipelines(TextureFormat::Bgra8UnormSrgb);
    assert_eq!(list.len(), 12);
    for p in &list {
        let attributes: usize = p.buffers.iter().map(|b| b.attributes.len()).sum();
        assert!(attributes <= 16, "{} declares {attributes}", p.name);
    }
    assert!(
        list[..11]
            .iter()
            .all(|p| p.target == TextureFormat::Bgra8UnormSrgb)
    );
    assert_eq!(list[11].target, TextureFormat::R8Unorm);
    let labels: Vec<Vec<&str>> = list
        .iter()
        .map(|p| p.groups.iter().map(|g| g.label).collect())
        .collect();
    let viewport = "ByardCore - Viewport Bind Group Layout";
    assert_eq!(labels[0], [viewport]);
    assert_eq!(labels[3], [viewport, "ByardCore - Texture Bind Group Layout"]);
    assert_eq!(
        labels[4],
        [viewport, "ByardCore - VectorMSDF Atlas Bind Group Layout"]
    );
    assert_eq!(labels[5], [viewport, "ByardCore - CanvasShape Records Layout"]);
    assert_eq!(labels[8], ["ByardCore - Backdrop Texture BGL"]);
    assert_eq!(labels[9], [viewport, "ByardCore - Backdrop Texture BGL"]);
    assert_eq!(labels[10], ["ByardCore - Group Layout"]);
    assert_eq!(labels[11], ["ByardCore - ClipMask Layout"]);
}
