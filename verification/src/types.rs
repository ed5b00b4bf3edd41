use vstd::prelude::*;

verus! {

/// A colour packed as `0xRRGGBBAA`.
pub type ColorRGBA = u32;

/// How a line is rasterised.
#[derive(Debug, Clone, Copy, PartialEq, Eq, Structural)]
pub enum LineDrawAlgorithm {
    /// Bresenham: every pixel written at full coverage.
    Aliased,
    /// Xiaolin Wu: coverage-weighted, blended pixels.
    Antialiased,
}

impl Default for LineDrawAlgorithm {
    fn default() -> (r: Self)
        ensures
            r == LineDrawAlgorithm::Aliased,
    {
        LineDrawAlgorithm::Aliased
    }
}

/// How a line is clipped against the canvas before it is rasterised.
#[derive(Debug, Clone, Copy, PartialEq, Eq, Structural)]
pub enum LineClipAlgorithm {
    /// No clipping.
    NoClip,
    /// Liang-Barsky.
    Parametric,
    /// Cohen-Sutherland.
    RegionCode,
}

impl Default for LineClipAlgorithm {
    fn default() -> (r: Self)
        ensures
            r == LineClipAlgorithm::Parametric,
    {
        LineClipAlgorithm::Parametric
    }
}

/// Timing strategy of the main loop.
#[derive(Debug, Clone, Copy, PartialEq, Eq, Structural)]
pub enum LoopMode {
    /// Render as fast as the CPU allows. No sleep, no sync.
    Uncapped,
    /// Synchronise presentation with the monitor refresh rate.
    Vsync,
    /// Cap rendering to at most `fps` frames per second.
    MaxFps(u32),
    /// Fixed-step update of `step_ms` milliseconds, decoupled from rendering.
    DeltaTime { step_ms: u32 },
}

impl Default for LoopMode {
    fn default() -> (r: Self)
        ensures
            r == LoopMode::Vsync,
    {
        LoopMode::Vsync
    }
}

} // verus!
