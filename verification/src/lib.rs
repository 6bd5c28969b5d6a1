//! Styling-and-layout core of a small document renderer.
//!
//! The pipeline has four stages: cascade resolution (matching style rules to
//! elements), box-tree construction (with anonymous block wrappers), box-model
//! layout (widths top-down, heights bottom-up), and painting (rectangles,
//! borders, and word-wrapped text) onto a raster or textual surface.

pub mod css;
pub mod dom;
pub mod html;
pub mod strutil;
pub mod style;
pub mod layout;
pub mod render;
