//! Plain image containers shared by the processing stages.

use vstd::prelude::*;

verus! {

/// Width and height of an image, in pixels.
#[derive(Debug, Clone, Copy, PartialEq, Eq)]
pub struct Size {
    pub width: u32,
    pub height: u32,
}

/// A pixel position.
#[derive(Debug, Clone, Copy, PartialEq, Eq)]
pub struct Point {
    pub x: u32,
    pub y: u32,
}

/// An axis-aligned rectangle: its top-left corner and its extent.
#[derive(Debug, Clone, Copy, PartialEq, Eq)]
pub struct Rect {
    pub origin: Point,
    pub size: Size,
}

/// The 2x2 Bayer colour filter layouts, named by their top-left row pair.
#[derive(Debug, Clone, Copy, PartialEq, Eq)]
pub enum CfaPattern {
    Rggb,
    Grbg,
    Gbrg,
    Bggr,
}

impl Size {
    pub fn new(width: u32, height: u32) -> (s: Size)
        ensures
            s.width == width,
            s.height == height,
    {
        Size { width, height }
    }
}

impl Rect {
    /// The rectangle spanning from corner `(x0, y0)` (inclusive) to `(x1, y1)` (exclusive).
    pub fn from_coords(x0: u32, y0: u32, x1: u32, y1: u32) -> (r: Rect)
        requires
            x0 <= x1,
            y0 <= y1,
        ensures
            r.origin.x == x0,
            r.origin.y == y0,
            r.size.width == x1 - x0,
            r.size.height == y1 - y0,
    {
        Rect { origin: Point { x: x0, y: y0 }, size: Size { width: x1 - x0, height: y1 - y0 } }
    }
}

/// Raw sensor data: one `u16` sample per photosite, row-major over `size`.
#[derive(Debug, Clone)]
pub struct RawImage {
    /// Full sensor dimensions.
    pub size: Size,
    /// The region holding image data.
    pub active_area: Rect,
    /// Bits per sample of the sensor data.
    pub bit_depth: u8,
    /// Layout of the colour filter array.
    pub cfa_pattern: CfaPattern,
    /// Black level per 2x2 Bayer position, indexed `(y % 2) * 2 + (x % 2)`.
    pub black_levels: [u16; 4],
    /// Row-major samples.
    pub data: Vec<u16>,
}

impl RawImage {
    /// A zero-filled raw image with zero black levels.
    pub fn new(size: Size, active_area: Rect, bit_depth: u8, cfa_pattern: CfaPattern) -> (r: RawImage)
        requires
            size.width * size.height <= usize::MAX,
        ensures
            r.size == size,
            r.active_area == active_area,
            r.bit_depth == bit_depth,
            r.cfa_pattern == cfa_pattern,
            r.black_levels@ == seq![0u16, 0u16, 0u16, 0u16],
            r.data@ == Seq::new((size.width * size.height) as nat, |i: int| 0u16),
            r.well_formed(),
    {
        let n: usize = (size.width as usize) * (size.height as usize);
        let data = vec![0u16; n];
        RawImage { size, active_area, bit_depth, cfa_pattern, black_levels: [0, 0, 0, 0], data }
    }

    /// The samples hold exactly one row-major sensor frame.
    pub open spec fn well_formed(&self) -> bool {
        self.data@.len() == self.size.width * self.size.height
    }
}

/// Interleaved 16-bit RGB pixels (`R, G, B, R, G, B, ...`), row-major.
#[derive(Debug, Clone)]
pub struct RgbImage {
    pub width: u32,
    pub height: u32,
    pub data: Vec<u16>,
}

} // verus!
