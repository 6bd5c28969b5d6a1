//! Painting: a display list of draw commands, a textual canvas
//! renderer, a raster renderer, and greedy word-wrap.

pub mod text_drawer;
pub mod text_renderer;
pub mod display_list;
pub mod image_renderer;

use vstd::prelude::*;

verus! {

/// Entry point of the painting stage.
pub struct RenderEngine;

impl RenderEngine {
    pub fn new() -> (e: RenderEngine) {
        RenderEngine
    }
}

} // verus!
