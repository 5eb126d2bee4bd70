use vstd::prelude::*;

verus! {

/// Failures of loading, measuring and rendering.
#[derive(Clone, Copy, Debug, PartialEq, Eq, Structural)]
pub enum FontError {
    /// The rasterizer library could not be initialised (its status code).
    InitFailed(i32),
    /// A font file could not be opened or parsed (the engine's status code).
    FontLoadFailed(i32),
    /// A sizing, glyph-load or glyph-render call failed (the engine's status code).
    Engine(i32),
    /// A glyph bitmap came in a pixel format that cannot be decoded.
    UnsupportedPixelFormat,
}

} // verus!
