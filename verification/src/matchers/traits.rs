use super::image::LumaImage;
use vstd::prelude::*;

verus! {

/// The similarity measure used to compare a template with an image window.
#[derive(Debug, Clone, Copy, PartialEq, Eq, Structural)]
pub enum MatcherAlgorithm {
    SAD,
    ZNCC,
    Chamfer,
}

/// Whether the vectorised or the plain scalar kernels are used.
#[derive(Debug, Clone, Copy, PartialEq, Eq, Structural)]
pub enum ExecutionMode {
    Simd,
    Normal,
}

/// An axis-aligned rectangle in pixel coordinates.
#[derive(Debug, Clone, Copy, PartialEq, Eq, Structural)]
pub struct Rect {
    pub x: u32,
    pub y: u32,
    pub width: u32,
    pub height: u32,
}

impl Rect {
    pub fn new(x: u32, y: u32, width: u32, height: u32) -> (r: Self)
        ensures
            r == (Rect { x, y, width, height }),
    {
        Self { x, y, width, height }
    }

    /// First column to the right of the rectangle.
    pub fn right(&self) -> (r: u32)
        requires
            self.x + self.width <= u32::MAX,
        ensures
            r == self.x + self.width,
    {
        self.x + self.width
    }

    /// First row below the rectangle.
    pub fn bottom(&self) -> (r: u32)
        requires
            self.y + self.height <= u32::MAX,
        ensures
            r == self.y + self.height,
    {
        self.y + self.height
    }
}

/// How a template search is run.
pub struct MatchTemplateParams<'a> {
    pub algorithm: MatcherAlgorithm,
    pub mode: ExecutionMode,
    pub mask: Option<&'a LumaImage>,
    pub sample_step: u32,
}

} // verus!
