//! The capability that the histogram engine scans: an image-like value that
//! reports its dimensions and a boolean per pixel.

use vstd::prelude::*;

verus! {

/// Any image-like value that reports integer dimensions and an on/off value
/// per pixel coordinate.
pub trait BinaryPixelAccess: Sized {
    /// Well-formedness of the underlying representation.
    spec fn inv(&self) -> bool;

    /// The width, as a mathematical integer.
    spec fn spec_width(&self) -> int;

    /// The height, as a mathematical integer.
    spec fn spec_height(&self) -> int;

    /// Whether the pixel at `(x, y)` is on.
    spec fn spec_on(&self, x: int, y: int) -> bool;

    fn get_dimensions(&self) -> (r: (u32, u32))
        requires
            self.inv(),
        ensures
            r.0 as int == self.spec_width(),
            r.1 as int == self.spec_height(),
    ;

    fn get_pixel(&self, x: u32, y: u32) -> (r: bool)
        requires
            self.inv(),
            (x as int) < self.spec_width(),
            (y as int) < self.spec_height(),
        ensures
            r == self.spec_on(x as int, y as int),
    ;
}

/// A decoded grayscale image reduced to the plain values the scan reads:
/// dimensions and one luminance byte per pixel, row-major. A pixel is on
/// when its luminance exceeds 128.
pub struct GrayPixels {
    width: u32,
    height: u32,
    luma: Vec<u8>,
}

impl GrayPixels {
    /// Builds an adapter from row-major luminance bytes; `None` when the
    /// buffer length does not match the dimensions or the pixel count
    /// overflows the index arithmetic.
    pub fn new(width: u32, height: u32, luma: Vec<u8>) -> (r: Option<GrayPixels>)
        ensures
            (width as int * height as int <= u32::MAX && luma@.len() == width as int
                * height as int) <==> r is Some,
            r matches Some(g) ==> g.inv() && g.spec_width() == width as int && g.spec_height()
                == height as int && (forall|x: int, y: int|
                0 <= x < width && 0 <= y < height ==> g.spec_on(x, y) == (luma@[x + y * width]
                    > 128)),
    {
        proof {
            vstd::arithmetic::mul::lemma_mul_upper_bound(
                width as int,
                u32::MAX as int,
                height as int,
                u32::MAX as int,
            );
        }
        if width as u64 * height as u64 <= u32::MAX as u64 && luma.len() == (width as u64
            * height as u64) as usize {
            Some(GrayPixels { width, height, luma })
        } else {
            None
        }
    }
}

impl BinaryPixelAccess for GrayPixels {
    closed spec fn inv(&self) -> bool {
        &&& self.luma@.len() == self.width as int * self.height as int
        &&& self.width as int * self.height as int <= u32::MAX
    }

    closed spec fn spec_width(&self) -> int {
        self.width as int
    }

    closed spec fn spec_height(&self) -> int {
        self.height as int
    }

    closed spec fn spec_on(&self, x: int, y: int) -> bool {
        self.luma@[x + y * self.spec_width()] > 128
    }

    fn get_dimensions(&self) -> (r: (u32, u32)) {
        (self.width, self.height)
    }

    fn get_pixel(&self, x: u32, y: u32) -> (r: bool) {
        proof {
            lemma_row_major_index_in_range(
                x as int,
                y as int,
                self.spec_width(),
                self.spec_height(),
            );
        }
        self.luma[(x + y * self.width) as usize] > 128
    }
}

/// Row-major indexing stays inside a `width * height` buffer.
pub proof fn lemma_row_major_index_in_range(x: int, y: int, w: int, h: int)
    by (nonlinear_arith)
    requires
        0 <= x < w,
        0 <= y < h,
    ensures
        0 <= x + y * w < w * h,
{
}

} // verus!
