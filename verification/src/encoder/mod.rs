//! The encoder: from a frame's primitives to the passes that draw them.

pub mod segments;
pub mod scissor;
pub mod dirty;
pub mod instance_arena;
pub mod descriptor;
pub mod pipeline;
pub mod staging;
pub mod records;
pub mod solid_box;
pub mod canvas_shape;
pub mod decorated_box;
pub mod ripple;
pub mod canvas_fill;
pub mod texture_sampler;
pub mod vector_msdf;
pub mod group;
pub mod backdrop;
pub mod clip_mask;
pub mod gpu_timer;
pub mod text_glyph;
pub mod passes;
pub mod subsystem;
pub mod catalog;
