//! Decoded sprite images and the points of their visible pixels.

use vstd::prelude::*;
use crate::geometry::Vec2;

verus! {

/// The encodings a pixel buffer can declare.
#[derive(Clone, Copy, Debug, PartialEq, Eq, Structural)]
pub enum PixelFormat {
    /// Four bytes per pixel, red, green, blue and straight alpha, eight bits
    /// each.
    Rgba8UnormSrgb,
    /// Any other encoding.
    Other,
}

/// The longest side of an image whose pixels still have coordinates.
pub const MAX_SIDE: u32 = 0x4000_0000;

/// A decoded image: `width` by `height` pixels, row after row from the top,
/// in the encoding that `format` names.
#[derive(Clone, Debug)]
pub struct RasterBuffer {
    pub width: u32,
    pub height: u32,
    pub format: PixelFormat,
    pub data: Vec<u8>,
}

impl RasterBuffer {
    /// The buffer declares the one accepted encoding and holds a byte for
    /// every channel of every pixel, and its sides are within `MAX_SIDE`.
    pub open spec fn is_usable(&self) -> bool {
        &&& self.format == PixelFormat::Rgba8UnormSrgb
        &&& self.width <= MAX_SIDE
        &&& self.height <= MAX_SIDE
        &&& self.data.len() >= 4 * self.width * self.height
    }

    /// The alpha channel of the pixel in column `x` of row `y`.
    pub open spec fn alpha(&self, x: int, y: int) -> u8 {
        self.data@[(y * self.width + x) * 4 + 3]
    }

    /// The point that stands for the pixel in column `x` of row `y`. Points
    /// are counted in half pixels from the centre of the image, `y` upwards,
    /// so that the centre is the origin also where a side is odd.
    pub open spec fn point(&self, x: int, y: int) -> Vec2 {
        Vec2 { x: (2 * x - self.width) as i32, y: (self.height - 2 * y) as i32 }
    }

    /// The points of the visible pixels among the first `n` of row `y`.
    pub open spec fn visible_in_row(&self, y: int, n: int) -> Seq<Vec2>
        decreases n,
    {
        if n <= 0 {
            Seq::empty()
        } else if self.alpha(n - 1, y) > 0 {
            self.visible_in_row(y, n - 1).push(self.point(n - 1, y))
        } else {
            self.visible_in_row(y, n - 1)
        }
    }

    /// The points of the visible pixels of the first `m` rows.
    pub open spec fn visible_in_rows(&self, m: int) -> Seq<Vec2>
        decreases m,
    {
        if m <= 0 {
            Seq::empty()
        } else {
            self.visible_in_rows(m - 1) + self.visible_in_row(m - 1, self.width as int)
        }
    }

    /// The points of all pixels whose alpha is not zero, row after row; none
    /// where the buffer is not usable.
    pub open spec fn visible_points(&self) -> Seq<Vec2> {
        if self.is_usable() {
            self.visible_in_rows(self.height as int)
        } else {
            Seq::empty()
        }
    }

    /// Whether the buffer can be read as an image.
    pub fn usable(&self) -> (r: bool)
        ensures
            r == self.is_usable(),
    {
        if self.format != PixelFormat::Rgba8UnormSrgb || self.width > MAX_SIDE || self.height
            > MAX_SIDE {
            return false;
        }
        let w: u64 = self.width as u64;
        let h: u64 = self.height as u64;
        assert(w * h <= 0x4000_0000 * 0x4000_0000) by (nonlinear_arith)
            requires
                0 <= w <= 0x4000_0000,
                0 <= h <= 0x4000_0000,
        ;
        assert(4 * self.width * self.height == 4 * (w * h)) by (nonlinear_arith)
            requires
                w == self.width,
                h == self.height,
        ;
        let need: u64 = 4 * (w * h);
        self.data.len() as u64 >= need
    }
}

/// The points of the visible pixels of `image`, in half pixels from its
/// centre with `y` upwards; none where the buffer is not usable.
pub fn extract_visible_pixels(image: &RasterBuffer) -> (points: Vec<Vec2>)
    ensures
        points@ == image.visible_points(),
{
    let mut visible_points: Vec<Vec2> = Vec::new();
    if !image.usable() {
        return visible_points;
    }
    let width: usize = image.width as usize;
    let height: usize = image.height as usize;
    let mut y: usize = 0;
    while y < height
        invariant
            image.is_usable(),
            width == image.width,
            height == image.height,
            y <= height,
            visible_points@ == image.visible_in_rows(y as int),
        decreases height - y,
    {
        let ghost before_row = visible_points@;
        let mut x: usize = 0;
        while x < width
            invariant
                image.is_usable(),
                width == image.width,
                height == image.height,
                y < height,
                x <= width,
                visible_points@ == before_row + image.visible_in_row(y as int, x as int),
            decreases width - x,
        {
            assert((y * width + x) * 4 + 3 < 4 * width * height) by (nonlinear_arith)
                requires
                    y < height,
                    x < width,
            ;
            assert(y * width >= 0) by (nonlinear_arith)
                requires
                    y >= 0,
                    width >= 0,
            ;
            let pixel_index = (y * width + x) * 4;
            let pixel_alpha = image.data[pixel_index + 3];
            if pixel_alpha > 0 {
                let px: i64 = 2 * (x as i64) - (width as i64);
                let py: i64 = (height as i64) - 2 * (y as i64);
                visible_points.push(Vec2 { x: px as i32, y: py as i32 });
                assert(visible_points@ == before_row + image.visible_in_row(
                    y as int,
                    x as int + 1,
                ));
            }
            x += 1;
        }
        y += 1;
    }
    visible_points
}

} // verus!
