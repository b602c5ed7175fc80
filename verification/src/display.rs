//! A read-only view of the bit-packed monochrome framebuffer: row-major,
//! 8 pixels per byte, most significant bit first within each byte.

use vstd::prelude::*;

verus! {

/// The pixel at row `i`, column `j` of a framebuffer of `width`-pixel rows,
/// or `false` outside the frame.
pub open spec fn spec_pixel(data: Seq<u8>, width: nat, height: nat, i: nat, j: nat) -> bool {
    if j < width && i < height {
        let p = i * width + j;
        (data[(p / 8) as int] >> (7 - p % 8) as u8) & 1 == 1
    } else {
        false
    }
}

/// A borrowed framebuffer of `width` by `height` pixels.
pub struct Display<'a> {
    pub data: &'a [u8],
    pub width: usize,
    pub height: usize,
}

impl<'a> Display<'a> {
    /// The data holds exactly one bit per pixel, padded to whole bytes.
    pub open spec fn wf(&self) -> bool {
        &&& (self.width * self.height + 7) / 8 == self.data@.len()
        &&& self.width * self.height + 7 <= usize::MAX
    }

    /// Wrap a bit-packed pixel buffer of the given dimensions.
    pub fn new(data: &'a [u8], width: usize, height: usize) -> (r: Self)
        requires
            width * height + 7 <= usize::MAX,
            (width * height + 7) / 8 == data@.len(),
        ensures
            r.data@ == data@,
            r.width == width,
            r.height == height,
            r.wf(),
    {
        Self { data, width, height }
    }

    /// Read the pixel at row `i`, column `j`; positions outside the frame
    /// read as unset.
    pub fn get_pixel(&self, i: usize, j: usize) -> (r: bool)
        requires
            self.wf(),
        ensures
            r == spec_pixel(self.data@, self.width as nat, self.height as nat, i as nat, j as nat),
    {
        if !(j < self.width && i < self.height) {
            return false;
        }
        proof {
            vstd::arithmetic::mul::lemma_mul_inequality(
                (i + 1) as int,
                self.height as int,
                self.width as int,
            );
            assert(i * self.width + j < self.width * self.height) by (nonlinear_arith)
                requires
                    i < self.height,
                    j < self.width,
            ;
            vstd::arithmetic::div_mod::lemma_div_is_ordered(
                (i * self.width + j) as int,
                (self.width * self.height) as int,
                8,
            );
            assert((i * self.width + j) / 8 < self.data@.len()) by {
                vstd::arithmetic::div_mod::lemma_fundamental_div_mod(
                    (self.width * self.height + 7) as int,
                    8,
                );
                vstd::arithmetic::div_mod::lemma_fundamental_div_mod(
                    (i * self.width + j) as int,
                    8,
                );
            }
        }
        let pixel: usize = i * self.width + j;
        let byte: usize = pixel / 8;
        let bit: usize = 7 - pixel % 8;
        self.data[byte] >> (bit as u8) & 1 == 1
    }
}

} // verus!
