//! Reduction of raw pixel buffers to grids of characters.
//!
//! A frame is cut into square blocks, and each block becomes one glyph of a
//! brightness-ordered palette: by the mean brightness of its pixels
//! ([`process_frame`], [`process_frame_with_color`]) or by the strength of the
//! edge at its centre ([`apply_edge_detection`]). [`apply_contrast`] maps the
//! colour levels of a buffer through a tone curve. All four are pure
//! functions of their arguments, and none reads outside the buffer it is
//! given, whatever dimensions are declared for it.

pub mod color;
pub mod contrast;
pub mod edge;
pub mod gray;
pub mod grid;
pub mod palette;

pub use color::{process_frame_with_color, ProcessedFrame};
pub use contrast::{apply_contrast, ContrastCurve};
pub use edge::apply_edge_detection;
pub use gray::process_frame;
