//! Translation of a vector-graphics document tree into an ordered log of
//! drawing commands: layers, fills, strokes and images.
//!
//! The document model and the command log are generic over the scalar type
//! used for coordinates, so the translation never computes with coordinates:
//! it moves them into place, and the renderer that consumes the log does the
//! arithmetic.

pub mod geometry;
pub mod paint;
pub mod style;
pub mod tree;
pub mod raster;
pub mod scene;
pub mod render;

pub use geometry::{to_affine, to_bez_path};
pub use paint::to_brush;
pub use render::{append_tree, append_tree_with, render_tree};
pub use style::to_stroke;
