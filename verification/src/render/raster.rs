//! An RGBA image buffer of plain bytes: the decoded form every raster takes
//! inside the engine. Pixels are stored row-major, one `[r, g, b, a]` array
//! per pixel, with straight (non-premultiplied) alpha.

use vstd::prelude::*;

verus! {

/// An RGBA image buffer.
#[derive(Debug)]
pub struct Raster {
    /// The width in pixels.
    pub width: u32,
    /// The height in pixels.
    pub height: u32,
    /// The pixel rows, top to bottom, each row left to right.
    pub pixels: Vec<[u8; 4]>,
}

/// Two pixel values are equal channel for channel.
pub open spec fn px_eq(a: [u8; 4], b: [u8; 4]) -> bool {
    a[0] == b[0] && a[1] == b[1] && a[2] == b[2] && a[3] == b[3]
}

/// Two rasters hold the same dimensions and the same pixels.
pub open spec fn raster_eq(a: Raster, b: Raster) -> bool {
    a.width == b.width && a.height == b.height && a.pixels@ == b.pixels@
}

impl Raster {
    /// The buffer holds exactly one pixel per raster position.
    pub open spec fn wf(self) -> bool {
        self.pixels@.len() == (self.width as int) * (self.height as int)
    }

    /// The flat index of the pixel at `(x, y)`.
    pub open spec fn spec_index_of(self, x: int, y: int) -> int {
        y * (self.width as int) + x
    }

    /// Builds a raster from its dimensions and pixel buffer; refuses a
    /// buffer whose length is not exactly `width * height`.
    pub fn from_pixels(width: u32, height: u32, pixels: Vec<[u8; 4]>) -> (r: Option<Raster>)
        ensures
            r is Some <==> pixels@.len() == (width as int) * (height as int),
            r is Some ==> {
                let img = r->0;
                &&& img.width == width
                &&& img.height == height
                &&& img.pixels@ == pixels@
                &&& img.wf()
            },
    {
        proof {
            vstd::arithmetic::mul::lemma_mul_upper_bound(
                width as int,
                u32::MAX as int,
                height as int,
                u32::MAX as int,
            );
        }
        if pixels.len() as u64 == (width as u64) * (height as u64) {
            Some(Raster { width, height, pixels })
        } else {
            None
        }
    }

    /// The width in pixels.
    pub fn get_width(&self) -> (r: u32)
        ensures
            r == self.width,
    {
        self.width
    }

    /// The height in pixels.
    pub fn get_height(&self) -> (r: u32)
        ensures
            r == self.height,
    {
        self.height
    }

    /// The flat index of `(x, y)`, fit for indexing the pixel buffer.
    fn index_of(&self, x: u32, y: u32) -> (r: usize)
        requires
            self.wf(),
            x < self.width,
            y < self.height,
        ensures
            r == self.spec_index_of(x as int, y as int),
            r < self.pixels@.len(),
    {
        let n = self.pixels.len();
        proof {
            lemma_pixel_index_in_range(
                self.width as int,
                self.height as int,
                x as int,
                y as int,
            );
            assert((y as int) * (self.width as int) + (x as int) < n);
        }
        let idx: u64 = (y as u64) * (self.width as u64) + (x as u64);
        idx as usize
    }

    /// The pixel at `(x, y)`.
    pub fn get_pixel(&self, x: u32, y: u32) -> (r: [u8; 4])
        requires
            self.wf(),
            x < self.width,
            y < self.height,
        ensures
            px_eq(r, self.pixels@[self.spec_index_of(x as int, y as int)]),
    {
        let idx = self.index_of(x, y);
        self.pixels[idx]
    }

    /// The raster cropped to at most `w` by `h` pixels, anchored at the
    /// top-left corner: whatever overflows on the right or at the bottom is
    /// discarded, and a bound larger than the raster is clamped to it.
    pub fn crop_to(&self, w: u32, h: u32) -> (r: Raster)
        requires
            self.wf(),
        ensures
            r.wf(),
            r.width == vstd::math::min(w as int, self.width as int),
            r.height == vstd::math::min(h as int, self.height as int),
            forall|x: int, y: int|
                0 <= x < r.width && 0 <= y < r.height ==> #[trigger] r.pixels@[y * (r.width as int)
                    + x] == self.pixels@[y * (self.width as int) + x],
    {
        let nw: u32 = if w < self.width {
            w
        } else {
            self.width
        };
        let nh: u32 = if h < self.height {
            h
        } else {
            self.height
        };
        let mut pixels: Vec<[u8; 4]> = Vec::new();
        let mut y: u32 = 0;
        while y < nh
            invariant
                y <= nh,
                nw <= self.width,
                nh <= self.height,
                self.wf(),
                pixels@.len() == (y as int) * (nw as int),
                forall|xx: int, yy: int|
                    0 <= xx < nw && 0 <= yy < y ==> #[trigger] pixels@[yy * (nw as int) + xx]
                        == self.pixels@[yy * (self.width as int) + xx],
            decreases nh - y,
        {
            let mut x: u32 = 0;
            while x < nw
                invariant
                    x <= nw,
                    y < nh,
                    nw <= self.width,
                    nh <= self.height,
                    self.wf(),
                    pixels@.len() == (y as int) * (nw as int) + (x as int),
                    forall|xx: int, yy: int|
                        0 <= xx < nw && 0 <= yy < y ==> #[trigger] pixels@[yy * (nw as int) + xx]
                            == self.pixels@[yy * (self.width as int) + xx],
                    forall|xx: int|
                        0 <= xx < x ==> #[trigger] pixels@[(y as int) * (nw as int) + xx]
                            == self.pixels@[(y as int) * (self.width as int) + xx],
                decreases nw - x,
            {
                proof {
                    lemma_pixel_index_in_range(nw as int, nh as int, x as int, y as int);
                }
                pixels.push(self.get_pixel(x, y));
                proof {
                    assert forall|xx: int, yy: int| 0 <= xx < nw && 0 <= yy < y implies #[trigger] (
                    yy * (nw as int) + xx) < (y as int) * (nw as int) + (x as int) by {
                        lemma_row_below_is_earlier(nw as int, xx, yy, x as int, y as int);
                    }
                }
                x = x + 1;
            }
            proof {
                assert((y as int) * (nw as int) + (nw as int) == ((y as int) + 1) * (nw as int))
                    by (nonlinear_arith);
            }
            y = y + 1;
        }
        proof {
            assert((nh as int) * (nw as int) == (nw as int) * (nh as int)) by (nonlinear_arith);
        }
        Raster { width: nw, height: nh, pixels }
    }

    /// An exact copy of this raster.
    pub fn duplicate(&self) -> (r: Raster)
        ensures
            raster_eq(r, *self),
    {
        let mut pixels: Vec<[u8; 4]> = Vec::new();
        let mut i: usize = 0;
        while i < self.pixels.len()
            invariant
                i <= self.pixels@.len(),
                pixels@ == self.pixels@.take(i as int),
            decreases self.pixels@.len() - i,
        {
            pixels.push(self.pixels[i]);
            proof {
                assert(pixels@ =~= self.pixels@.take(i + 1));
            }
            i = i + 1;
        }
        proof {
            assert(self.pixels@.take(self.pixels@.len() as int) =~= self.pixels@);
        }
        Raster { width: self.width, height: self.height, pixels }
    }
}

/// A pixel on an earlier row comes earlier in the buffer than any pixel on
/// a later row.
pub proof fn lemma_row_below_is_earlier(w: int, xx: int, yy: int, x: int, y: int)
    by (nonlinear_arith)
    requires
        0 <= xx < w,
        0 <= yy < y,
        0 <= x,
    ensures
        yy * w + xx < y * w + x,
{
}

/// A position inside the raster indexes inside the pixel buffer.
pub proof fn lemma_pixel_index_in_range(w: int, h: int, x: int, y: int)
    by (nonlinear_arith)
    requires
        0 <= x < w,
        0 <= y < h,
    ensures
        0 <= y * w + x < h * w,
        y * w + x < w * h,
{
}

} // verus!
