//! Every pipeline the encoder builds, and what they have in common.

use super::descriptor::{
    attribute_count, draw_depth_stencil_no_write, transparent_depth, BindEntry, Binding, Blend,
    DepthTest, PipelineDesc, TextureFormat, Topology, Visibility,
};
use super::pipeline::GUARANTEED_ATTRIBUTES;
use super::{
    backdrop, canvas_fill, canvas_shape, clip_mask, decorated_box, group, ripple, solid_box,
    texture_sampler, vector_msdf,
};
use vstd::prelude::*;

verus! {

/// The names of the pipelines, in the order they are built.
pub open spec fn core_names() -> Seq<Seq<char>> {
    seq![
        "ByardCore - SolidBox Render Pipeline"@,
        "ByardCore - SolidBox Clear Pipeline"@,
        "DecoratedBox"@,
        "TextureSampler"@,
        "VectorMSDF"@,
        "CanvasShape"@,
        "CanvasFill"@,
        "Ripple"@,
        "Backdrop"@,
        "Backdrop"@,
        "Group"@,
        "ClipMask"@,
    ]
}

/// Describes every pipeline of the encoder for a surface, each as its own
/// module does, in the order they are built. None of them asks for more vertex
/// attributes than every adapter guarantees.
pub fn core_pipelines(surface: TextureFormat) -> (list: Vec<PipelineDesc>)
    ensures
        list@.len() == core_names().len(),
        forall|i: int|
            0 <= i < list@.len() ==> (#[trigger] list@[i]).name@ == core_names()[i],
        forall|i: int|
            0 <= i < list@.len() ==> attribute_count((#[trigger] list@[i]).buffers@)
                <= GUARANTEED_ATTRIBUTES,
        solid_box::describes_draw(list@[0], surface),
        solid_box::describes_clear(list@[1], surface),
        decorated_box::describes(list@[2], surface),
        texture_sampler::describes(list@[3], surface),
        vector_msdf::describes(list@[4], surface),
        canvas_shape::describes(list@[5], surface),
        canvas_fill::describes(list@[6], surface, transparent_depth()),
        ripple::describes(list@[7], surface),
        backdrop::describes_blur(list@[8], surface),
        backdrop::describes_composite(list@[9], surface),
        group::describes(list@[10], surface),
        clip_mask::describes(list@[11]),
{
    let mut list: Vec<PipelineDesc> = Vec::new();
    list.push(solid_box::draw_pipeline(surface));
    list.push(solid_box::clear_pipeline(surface));
    list.push(decorated_box::pipeline(surface));
    list.push(texture_sampler::pipeline(surface));
    list.push(vector_msdf::pipeline(surface));
    list.push(canvas_shape::pipeline(surface));
    list.push(canvas_fill::pipeline(surface, draw_depth_stencil_no_write()));
    list.push(ripple::pipeline(surface));
    list.push(backdrop::blur_pipeline(surface));
    list.push(backdrop::composite_pipeline(surface));
    list.push(group::pipeline(surface));
    list.push(clip_mask::build_pipeline());
    proof {
        reveal_with_fuel(attribute_count, 4);
    }
    list
}

/// What the encoder's pipelines are for, by the fields that decide it: those that draw
/// opaque geometry write depth, transparent ones only test it, the one that wipes
/// leaves it alone, and those off screen have none; what is already multiplied by its
/// alpha is not multiplied again; and only masks are drawn with several samples, into
/// coverage alone.
pub proof fn law_pipelines_are_what_they_are_for(list: Seq<PipelineDesc>, surface: TextureFormat)
    requires
        list.len() == 12,
        solid_box::describes_draw(list[0], surface),
        solid_box::describes_clear(list[1], surface),
        decorated_box::describes(list[2], surface),
        texture_sampler::describes(list[3], surface),
        vector_msdf::describes(list[4], surface),
        canvas_shape::describes(list[5], surface),
        canvas_fill::describes(list[6], surface, transparent_depth()),
        ripple::describes(list[7], surface),
        backdrop::describes_blur(list[8], surface),
        backdrop::describes_composite(list[9], surface),
        group::describes(list[10], surface),
        clip_mask::describes(list[11]),
    ensures
        forall|i: int|
            0 <= i < 12 ==> ((#[trigger] list[i]).depth matches Some(d) && d.write) == (i == 0 || i
                == 3 || i == 4 || i == 10),
        forall|i: int|
            0 <= i < 12 ==> ((#[trigger] list[i]).depth matches Some(d) && d.test
                == DepthTest::LessEqual) == (i != 1 && i != 8 && i != 11),
        forall|i: int| 0 <= i < 12 ==> (#[trigger] list[i]).depth is None == (i == 8 || i == 11),
        forall|i: int|
            0 <= i < 12 ==> ((#[trigger] list[i]).depth matches Some(d) ==> d.format
                == TextureFormat::Depth32Float),
        forall|i: int|
            0 <= i < 12 ==> ((#[trigger] list[i]).blend == Blend::Replace) == (i == 1 || i == 8 || i
                == 11),
        forall|i: int|
            0 <= i < 12 ==> ((#[trigger] list[i]).blend == Blend::PremultipliedAlpha) == (i == 4 || i
                == 7 || i == 10),
        forall|i: int|
            0 <= i < 12 ==> ((#[trigger] list[i]).topology == Topology::TriangleList) == (i == 6 || i
                == 8 || i == 11),
        forall|i: int| 0 <= i < 12 ==> ((#[trigger] list[i]).samples == 1) == (i != 11),
        list[11].samples == 4,
        forall|i: int| 0 <= i < 11 ==> (#[trigger] list[i]).target == surface,
        list[11].target == TextureFormat::R8Unorm,
{
}

/// What every UI pipeline binds first is the viewport: one uniform of at least sixteen
/// bytes, seen by both stages. The pipelines that sample bind a texture and the sampler
/// it is read with behind it, the canvas shapes their records.
pub proof fn law_pipelines_bind_what_they_read(list: Seq<PipelineDesc>, surface: TextureFormat)
    requires
        list.len() == 12,
        solid_box::describes_draw(list[0], surface),
        solid_box::describes_clear(list[1], surface),
        decorated_box::describes(list[2], surface),
        texture_sampler::describes(list[3], surface),
        vector_msdf::describes(list[4], surface),
        canvas_shape::describes(list[5], surface),
        canvas_fill::describes(list[6], surface, transparent_depth()),
        ripple::describes(list[7], surface),
        backdrop::describes_blur(list[8], surface),
        backdrop::describes_composite(list[9], surface),
        group::describes(list[10], surface),
        clip_mask::describes(list[11]),
    ensures
        forall|i: int| #![trigger list[i]]
            0 <= i <= 9 && i != 8 ==> list[i].groups@.len() >= 1 && list[i].groups@[0].entries@
                == seq![
                BindEntry {
                    binding: 0,
                    visibility: Visibility::Both,
                    kind: Binding::Uniform { dynamic: false, min_size: 16 },
                },
            ],
        forall|i: int| #![trigger list[i]]
            0 <= i < 12 ==> list[i].groups@.len() == (if i == 3 || i == 4 || i == 5 || i == 9 {
                2int
            } else {
                1
            }),
        forall|i: int| #![trigger list[i]]
            i == 3 || i == 4 || i == 9 ==> {
                let e = list[i].groups@[1].entries@;
                &&& e.len() == 2
                &&& e[0].binding == 0 && e[1].binding == 1
                &&& e[0].visibility == Visibility::Fragment && e[1].visibility
                    == Visibility::Fragment
                &&& e[1].kind == Binding::Sampler
                &&& e[0].kind == (if i == 4 {
                    Binding::TextureArray
                } else {
                    Binding::Texture { filterable: true }
                })
            },
        ({
            let e = list[5].groups@[1].entries@;
            e.len() == 1 && e[0].binding == 0 && e[0].kind == Binding::Storage && e[0].visibility
                == Visibility::Fragment
        }),
        ({
            let e = list[8].groups@[0].entries@;
            &&& e.len() == 3
            &&& e[0].kind == (Binding::Texture { filterable: true }) && e[1].kind == Binding::Sampler
                && e[2].kind == (Binding::Uniform { dynamic: false, min_size: 0 })
            &&& e[0].binding == 0 && e[1].binding == 1 && e[2].binding == 2
        }),
        ({
            let e = list[10].groups@[0].entries@;
            e.len() == 1 && e[0].binding == 0 && e[0].kind == (Binding::Texture {
                filterable: false,
            }) && e[0].visibility == Visibility::Fragment
        }),
        ({
            let e = list[11].groups@[0].entries@;
            e.len() == 1 && e[0].binding == 0 && e[0].kind == (Binding::Uniform {
                dynamic: true,
                min_size: 256,
            }) && e[0].visibility == Visibility::Vertex
        }),
{
}

} // verus!
