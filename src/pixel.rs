use vstd::prelude::*;

verus! {

/// An 8-bit RGBA pixel.
#[derive(Clone, Copy, Debug, PartialEq, Eq, Structural)]
pub struct Rgba {
    pub r: u8,
    pub g: u8,
    pub b: u8,
    pub a: u8,
}

impl Rgba {
    pub fn new(r: u8, g: u8, b: u8, a: u8) -> (p: Rgba)
        ensures
            p == (Rgba { r, g, b, a }),
    {
        Rgba { r, g, b, a }
    }
}

/// Difference reported when either pixel is fully transparent.
pub const MAX_COLOR_DIFF: u32 = 390150;

pub open spec fn sq(x: int) -> int {
    x * x
}

/// Weighted squared distance of two pixels; fully transparent pixels are
/// maximally different from everything.
pub open spec fn color_diff(a: Rgba, b: Rgba) -> int {
    if a.a == 0 || b.a == 0 {
        MAX_COLOR_DIFF as int
    } else {
        2 * sq(a.r - b.r) + 3 * sq(a.g - b.g) + sq(a.b - b.b)
    }
}

proof fn lemma_sq_channel(x: int, y: int)
    requires
        0 <= x <= 255,
        0 <= y <= 255,
    ensures
        0 <= sq(x - y) <= 65025,
{
    assert(0 <= (x - y) * (x - y) <= 65025) by (nonlinear_arith)
        requires
            -255 <= x - y <= 255,
    ;
}

fn channel_sq(x: u8, y: u8) -> (r: u32)
    ensures
        r == sq(x - y),
        r <= 65025,
{
    let d: i32 = x as i32 - y as i32;
    proof {
        lemma_sq_channel(x as int, y as int);
    }
    (d * d) as u32
}

pub fn colordiff(a: Rgba, b: Rgba) -> (r: u32)
    ensures
        r == color_diff(a, b),
        r <= MAX_COLOR_DIFF,
{
    if a.a == 0 || b.a == 0 {
        return MAX_COLOR_DIFF;
    }
    channel_sq(a.r, b.r) * 2 + channel_sq(a.g, b.g) * 3 + channel_sq(a.b, b.b)
}

/// An RGBA raster stored row by row.
#[derive(Clone, Debug)]
pub struct RgbaImage {
    pub width: usize,
    pub height: usize,
    pub pixels: Vec<Rgba>,
}

impl RgbaImage {
    pub open spec fn wf(&self) -> bool {
        self.pixels@.len() == self.width * self.height
    }

    pub fn new(pixels: Vec<Rgba>, width: usize, height: usize) -> (img: RgbaImage)
        ensures
            img.pixels@ == pixels@,
            img.width == width,
            img.height == height,
    {
        RgbaImage { width, height, pixels }
    }
}

/// A raster of palette indices stored row by row.
#[derive(Clone, Debug)]
pub struct IndexedImage {
    pub width: usize,
    pub height: usize,
    pub pixels: Vec<u8>,
}

impl IndexedImage {
    pub open spec fn wf(&self) -> bool {
        self.pixels@.len() == self.width * self.height
    }

    pub fn new(pixels: Vec<u8>, width: usize, height: usize) -> (img: IndexedImage)
        ensures
            img.pixels@ == pixels@,
            img.width == width,
            img.height == height,
    {
        IndexedImage { width, height, pixels }
    }
}

} // verus!
