//! Turns an ordered stream of layout draw commands into a plan of backend
//! primitive calls: rounded rectangles decomposed into bands and disks or
//! drawn through an alpha mask, stroked borders, styled text runs parsed
//! from inline markup with per-run animation records, and clip regions
//! tracked across the stream.
pub mod color;
pub mod draw;
pub mod geometry;
pub mod border;
pub mod markup;
pub mod animation;
pub mod text;
pub mod render;
