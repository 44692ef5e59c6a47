//! The pixel data model: one RGB sample and a row-major buffer of them.

use vstd::prelude::*;

verus! {

/// One RGB sample: three 8-bit channels, no alpha.
#[derive(Clone, Copy, PartialEq, Eq, Structural, Debug)]
pub struct Pixel {
    pub r: u8,
    pub g: u8,
    pub b: u8,
}

/// Squared distance between two colors: the sum over the three channels of
/// the squared difference.
pub open spec fn dist2(p: Pixel, q: Pixel) -> int {
    (p.r - q.r) * (p.r - q.r) + (p.g - q.g) * (p.g - q.g) + (p.b - q.b) * (p.b - q.b)
}

/// Two colors are at squared distance zero exactly when they are equal.
pub proof fn lemma_dist2_zero(p: Pixel, q: Pixel)
    ensures
        dist2(p, q) == 0 <==> p == q,
        dist2(p, q) >= 0,
{
    let dr = p.r - q.r;
    let dg = p.g - q.g;
    let db = p.b - q.b;
    assert(dr * dr >= 0 && dg * dg >= 0 && db * db >= 0) by (nonlinear_arith);
    assert(dr != 0 ==> dr * dr > 0) by (nonlinear_arith);
    assert(dg != 0 ==> dg * dg > 0) by (nonlinear_arith);
    assert(db != 0 ==> db * db > 0) by (nonlinear_arith);
}

/// An owned, mutable, row-major grid of pixels: `width * height` samples,
/// the sample at column `x` of row `y` sitting at index `y * width + x`.
pub struct PixelBuffer {
    pub pixels: Vec<Pixel>,
    pub width: usize,
    pub height: usize,
}

impl PixelBuffer {
    /// Well-formedness: positive dimensions and exactly one sample per cell.
    pub open spec fn wf(self) -> bool {
        &&& self.width > 0
        &&& self.height > 0
        &&& self.pixels@.len() == self.width * self.height
    }

    /// Builds a buffer from its parts, checking that the sample count
    /// matches the dimensions; returns `None` exactly when the parts do not
    /// form a well-formed buffer.
    pub fn try_new(width: usize, height: usize, pixels: Vec<Pixel>) -> (r: Option<PixelBuffer>)
        ensures
            match r {
                Some(b) => {
                    &&& b.wf()
                    &&& b.width == width
                    &&& b.height == height
                    &&& b.pixels@ == pixels@
                },
                None => !(width > 0 && height > 0 && pixels@.len() == width * height),
            },
    {
        if width == 0 || height == 0 {
            return None;
        }
        let len = pixels.len();
        match width.checked_mul(height) {
            Some(n) => {
                if len == n {
                    Some(PixelBuffer { pixels, width, height })
                } else {
                    None
                }
            },
            None => {
                proof {
                    assert(len < width * height) by (nonlinear_arith)
                        requires
                            width * height > usize::MAX,
                            len <= usize::MAX,
                    ;
                }
                None
            },
        }
    }
}

} // verus!
