//! Compositing of small sprites and widgets into a flat RGBA8 frame buffer.
pub mod renderer;
pub mod bitmap;
pub mod entities;
pub mod window;
