//! The raster backend of the layer renderer.

use vstd::prelude::*;

verus! {

/// The Skia raster renderer of page layer trees (it holds no state).
pub struct SkiaLayerRenderer;

impl SkiaLayerRenderer {
    pub fn new() -> (r: Self)
        ensures
            r == SkiaLayerRenderer,
    {
        SkiaLayerRenderer
    }
}

} // verus!
