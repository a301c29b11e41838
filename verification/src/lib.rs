//! A pixel-art editing core: a textual pixel-image codec, a viewport-clipped
//! blit algorithm, a fixed-size glyph atlas with text layout, and the small
//! pieces of editor state (channel selection, frame pacing, argument parsing)
//! that drive them. Rendering, input polling and file access are left to the
//! surrounding application; this crate computes what to draw and proves it.

pub mod cli;
pub mod clock;
pub mod color;
pub mod editor;
pub mod font;
pub mod geometry;
pub mod ppt;
pub mod sprite;
