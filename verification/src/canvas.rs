//! The mutable binary canvas that the optimizer perturbs, and its
//! random pixel-flip noise injection.

use vstd::prelude::*;
use rand::RngExt;
use crate::access::{lemma_row_major_index_in_range, BinaryPixelAccess};

verus! {

/// The byte that encodes an "off" pixel.
pub const OFF_BYTE: u8 = 0;

/// The byte that encodes an "on" pixel.
pub const ON_BYTE: u8 = 255;

/// The other value of the two-valued pixel encoding.
pub open spec fn flip_byte(v: u8) -> u8 {
    if v == OFF_BYTE {
        ON_BYTE
    } else {
        OFF_BYTE
    }
}

/// An owned, mutable binary image: a flat row-major array of bytes, each
/// either `OFF_BYTE` or `ON_BYTE`. A pixel is on exactly when its byte is
/// nonzero.
pub struct BitImage {
    width: u32,
    height: u32,
    pixels: Vec<u8>,
}

impl BitImage {
    /// The stored bytes, row-major.
    pub closed spec fn spec_pixels(&self) -> Seq<u8> {
        self.pixels@
    }

    /// Creates an all-off canvas with the given dimensions.
    pub fn new(w: u32, h: u32) -> (r: BitImage)
        requires
            w as int * h as int <= u32::MAX,
        ensures
            r.inv(),
            r.spec_width() == w as int,
            r.spec_height() == h as int,
            r.spec_pixels() == Seq::new((w as int * h as int) as nat, |i: int| OFF_BYTE),
            forall|x: int, y: int| 0 <= x < w && 0 <= y < h ==> !r.spec_on(x, y),
    {
        let n = (w as u64 * h as u64) as usize;
        let mut pixels: Vec<u8> = Vec::new();
        while pixels.len() < n
            invariant
                pixels@.len() <= n,
                forall|i: int| 0 <= i < pixels@.len() ==> pixels@[i] == OFF_BYTE,
            decreases n - pixels@.len(),
        {
            pixels.push(OFF_BYTE);
        }
        let r = BitImage { width: w, height: h, pixels };
        proof {
            assert(r.spec_pixels() =~= Seq::new((w as int * h as int) as nat, |i: int| OFF_BYTE));
            assert forall|x: int, y: int| 0 <= x < w && 0 <= y < h implies !r.spec_on(x, y) by {
                lemma_row_major_index_in_range(x, y, w as int, h as int);
            }
        }
        r
    }

    /// Reads the stored byte of the pixel at `(x, y)`.
    pub fn get_pixel(&self, x: u32, y: u32) -> (r: u8)
        requires
            self.inv(),
            (x as int) < self.spec_width(),
            (y as int) < self.spec_height(),
        ensures
            r == self.spec_pixels()[x as int + y as int * self.spec_width()],
    {
        proof {
            lemma_row_major_index_in_range(
                x as int,
                y as int,
                self.spec_width(),
                self.spec_height(),
            );
        }
        self.pixels[(x + y * self.width) as usize]
    }

    /// Overwrites the pixel at `(x, y)` with one of the two pixel bytes.
    pub fn set_pixel(&mut self, x: u32, y: u32, v: u8)
        requires
            old(self).inv(),
            (x as int) < old(self).spec_width(),
            (y as int) < old(self).spec_height(),
            v == OFF_BYTE || v == ON_BYTE,
        ensures
            final(self).inv(),
            final(self).spec_width() == old(self).spec_width(),
            final(self).spec_height() == old(self).spec_height(),
            final(self).spec_pixels() == old(self).spec_pixels().update(
                x as int + y as int * old(self).spec_width(),
                v,
            ),
            final(self).spec_on(x as int, y as int) == (v != OFF_BYTE),
            forall|a: int, b: int|
                0 <= a < old(self).spec_width() && 0 <= b < old(self).spec_height() && !(a == x
                    as int && b == y as int) ==> final(self).spec_on(a, b) == old(self).spec_on(a, b),
    {
        proof {
            lemma_row_major_index_in_range(
                x as int,
                y as int,
                self.spec_width(),
                self.spec_height(),
            );
        }
        let i = (x + y * self.width) as usize;
        self.pixels.set(i, v);
        proof {
            assert forall|a: int, b: int|
                0 <= a < old(self).spec_width() && 0 <= b < old(self).spec_height() && !(a == x
                    as int && b == y as int) implies self.spec_on(a, b) == old(self).spec_on(
                a,
                b,
            ) by {
                lemma_row_major_index_in_range(a, b, self.spec_width(), self.spec_height());
                lemma_distinct_coords_distinct_index(
                    a,
                    b,
                    x as int,
                    y as int,
                    self.spec_width(),
                );
            }
        }
    }

    /// An exact copy of the canvas.
    pub fn duplicate(&self) -> (r: BitImage)
        requires
            self.inv(),
        ensures
            r.inv(),
            r.spec_width() == self.spec_width(),
            r.spec_height() == self.spec_height(),
            r.spec_pixels() == self.spec_pixels(),
            forall|x: int, y: int| r.spec_on(x, y) == self.spec_on(x, y),
    {
        let pixels = self.pixels.clone();
        proof {
            assert(pixels@ =~= self.pixels@);
        }
        BitImage { width: self.width, height: self.height, pixels }
    }
}

/// The pseudo-random generator that noise injection draws from, declared
/// so that a seed chosen by the caller can be threaded through every
/// randomized step.
#[verifier::external_type_specification]
#[verifier::external_body]
pub struct ExStdRng(rand::rngs::StdRng);

/// Relies on rand's RngExt::random_ratio: a Bernoulli draw from the given
/// generator that is true with probability `num / den`. Its documentation
/// guarantees a false result when `num == 0`, a true result when
/// `num == den`, and a panic when `den == 0` or `num > den`.
#[verifier::external_body]
fn flip_coin(rng: &mut rand::rngs::StdRng, num: u32, den: u32) -> (r: bool)
    requires
        0 < den,
        num <= den,
    ensures
        num == 0 ==> !r,
        num == den ==> r,
{
    rng.random_ratio(num, den)
}

/// Flips each pixel of the canvas independently with probability
/// `noise_num / noise_den`, leaving it unchanged otherwise. With
/// probability 0 the canvas is unchanged; with probability 1 every pixel
/// is flipped.
pub fn randomize_bitmap(
    bmp: &mut BitImage,
    rng: &mut rand::rngs::StdRng,
    noise_num: u32,
    noise_den: u32,
)
    requires
        old(bmp).inv(),
        0 < noise_den,
        noise_num <= noise_den,
    ensures
        final(bmp).inv(),
        final(bmp).spec_width() == old(bmp).spec_width(),
        final(bmp).spec_height() == old(bmp).spec_height(),
        final(bmp).spec_pixels().len() == old(bmp).spec_pixels().len(),
        forall|i: int|
            0 <= i < old(bmp).spec_pixels().len() ==> final(bmp).spec_pixels()[i] == old(
                bmp,
            ).spec_pixels()[i] || final(bmp).spec_pixels()[i] == flip_byte(
                old(bmp).spec_pixels()[i],
            ),
        noise_num == 0 ==> final(bmp).spec_pixels() == old(bmp).spec_pixels(),
        noise_num == noise_den ==> forall|i: int|
            0 <= i < old(bmp).spec_pixels().len() ==> final(bmp).spec_pixels()[i] == flip_byte(
                old(bmp).spec_pixels()[i],
            ),
{
    let n = bmp.pixels.len();
    let mut i: usize = 0;
    while i < n
        invariant
            0 < noise_den,
            noise_num <= noise_den,
            bmp.inv(),
            n == bmp.pixels@.len(),
            0 <= i <= n,
            bmp.spec_width() == old(bmp).spec_width(),
            bmp.spec_height() == old(bmp).spec_height(),
            bmp.spec_pixels().len() == old(bmp).spec_pixels().len(),
            forall|j: int|
                0 <= j < i ==> bmp.spec_pixels()[j] == old(bmp).spec_pixels()[j]
                    || bmp.spec_pixels()[j] == flip_byte(old(bmp).spec_pixels()[j]),
            forall|j: int| i <= j < n ==> bmp.spec_pixels()[j] == old(bmp).spec_pixels()[j],
            noise_num == 0 ==> forall|j: int|
                0 <= j < i ==> bmp.spec_pixels()[j] == old(bmp).spec_pixels()[j],
            noise_num == noise_den ==> forall|j: int|
                0 <= j < i ==> bmp.spec_pixels()[j] == flip_byte(old(bmp).spec_pixels()[j]),
        decreases n - i,
    {
        if flip_coin(rng, noise_num, noise_den) {
            let v = bmp.pixels[i];
            proof {
                assert(0u8 ^ 255u8 == 255u8) by (bit_vector);
                assert(255u8 ^ 255u8 == 0u8) by (bit_vector);
            }
            bmp.pixels.set(i, v ^ 255);
        }
        i = i + 1;
    }
    proof {
        if noise_num == 0 {
            assert(bmp.spec_pixels() =~= old(bmp).spec_pixels());
        }
    }
}

/// Distinct coordinates occupy distinct row-major indices.
proof fn lemma_distinct_coords_distinct_index(a: int, b: int, x: int, y: int, w: int)
    by (nonlinear_arith)
    requires
        0 <= a < w,
        0 <= x < w,
        !(a == x && b == y),
    ensures
        a + b * w != x + y * w,
{
}

impl BinaryPixelAccess for BitImage {
    closed spec fn inv(&self) -> bool {
        &&& self.pixels@.len() == self.width as int * self.height as int
        &&& self.width as int * self.height as int <= u32::MAX
        &&& forall|i: int|
            0 <= i < self.pixels@.len() ==> self.pixels@[i] == OFF_BYTE || self.pixels@[i]
                == ON_BYTE
    }

    closed spec fn spec_width(&self) -> int {
        self.width as int
    }

    closed spec fn spec_height(&self) -> int {
        self.height as int
    }

    closed spec fn spec_on(&self, x: int, y: int) -> bool {
        self.pixels@[x + y * self.spec_width()] != OFF_BYTE
    }

    fn get_dimensions(&self) -> (r: (u32, u32)) {
        (self.width, self.height)
    }

    fn get_pixel(&self, x: u32, y: u32) -> (r: bool) {
        BitImage::get_pixel(self, x, y) != 0
    }
}

} // verus!
