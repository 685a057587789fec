//! The decision logic of a retained, multi-pipeline UI encoder.
//!
//! The crate holds everything the encoder decides between a published frame
//! and the command buffer that draws it, as verified functions over plain
//! values: how the draw stream is cut into passes, which region of the target
//! is repainted, how instance data is staged, which text runs are re-shaped,
//! and how pipelines are ordered and described.
//!
//! Real numbers travel as IEEE-754 single bit patterns (`u32`); where geometry
//! has to be compared or scaled, [`wide`] does so exactly.

pub mod pattern;
pub mod wide;
pub mod lanes;
pub mod frame;
pub mod encoder;
pub mod error;
pub mod engine;
