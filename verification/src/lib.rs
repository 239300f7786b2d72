//! Core geometry and color policy for rendering hand-drawn ink strokes.
//!
//! A page of strokes arrives as a tree of layers, lines and pressure-sampled
//! points. This crate turns each line into flat quadrilateral geometry, folds
//! pages into an axis-aligned bounding box for auto-cropping, and resolves the
//! semantic pen color of each line to a concrete CSS color string.
//!
//! All coordinates, widths and distances are integer coordinate units; callers
//! choose the resolution when they build the model (for example by scaling
//! floating-point samples to fixed point), so every computation here is exact.

pub mod bbox;
pub mod color;
pub mod geom;
pub mod model;
