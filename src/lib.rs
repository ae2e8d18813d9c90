//! A small software rasterizer: RGBA canvases, alpha compositing, clipped
//! primitive drawing and export of canvas sequences as looping animations.

pub mod rect;
pub mod color;
pub mod canvas;
pub mod shapes;
pub mod drawing;
pub mod text;
pub mod resample;
pub mod blit;
mod gif_stream;
pub mod animation;
pub mod ansi;
