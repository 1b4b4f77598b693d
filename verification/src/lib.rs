//! A verified pixel-sorting engine.
//!
//! Given a raster image and sort settings, the engine reorders runs of
//! pixels along a chosen axis by brightness, producing a glitch-art
//! effect. The library decodes the input bytes, corrects the EXIF
//! orientation, segments each line of the grid into sortable spans
//! separated by boundary pixels, sorts each span by a brightness key,
//! and re-encodes the result as JPEG, reporting progress along the way.

pub mod pixel;
pub mod settings;
pub mod span;
pub mod line;
pub mod grid;
pub mod codec;
pub mod pipeline;
