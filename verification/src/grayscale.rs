//! Color reduction: grayscale conversions. Both write the same gray byte to
//! R, G and B of every pixel and leave alpha untouched, in one in-place
//! pass; they differ only in how the gray value is computed.

use vstd::prelude::*;

use crate::image::Image;
use crate::image::pchan;
use vstd::arithmetic::mul::lemma_mul_is_associative;

verus! {

/// The simple-mean gray byte: `(R + G + B) / 3`, truncated.
pub open spec fn gray_avg(r: u8, g: u8, b: u8) -> int {
    (r + g + b) / 3
}

/// The BT.709 luma gray byte: `R * 2126/10000 + G * 7152/10000 +
/// B * 722/10000`, computed exactly over the common denominator and
/// truncated. The weights sum to one, so a uniform R == G == B pixel keeps
/// its value.
pub open spec fn gray_luma(r: u8, g: u8, b: u8) -> int {
    (2126 * r + 7152 * g + 722 * b) / 10000
}

/// The gray byte of one pixel under the chosen conversion.
pub open spec fn gray_of(luma: bool, r: u8, g: u8, b: u8) -> int {
    if luma {
        gray_luma(r, g, b)
    } else {
        gray_avg(r, g, b)
    }
}

/// The simple-mean gray byte of one pixel, executable form.
fn gray_avg_byte(r: u8, g: u8, b: u8) -> (v: u8)
    ensures
        v as int == gray_avg(r, g, b),
{
    let s: u32 = r as u32 + g as u32 + b as u32;
    proof {
        assert(s / 3 <= 255) by (nonlinear_arith)
            requires s <= 765u32,
        ;
    }
    (s / 3) as u8
}

/// The BT.709 luma gray byte of one pixel, executable form.
fn gray_luma_byte(r: u8, g: u8, b: u8) -> (v: u8)
    ensures
        v as int == gray_luma(r, g, b),
{
    let s: u32 = 2126 * (r as u32) + 7152 * (g as u32) + 722 * (b as u32);
    proof {
        assert(s / 10000 <= 255) by (nonlinear_arith)
            requires s <= 2_550_000u32,
        ;
    }
    (s / 10000) as u8
}

impl Image {
    /// One in-place grayscale pass: every pixel's R, G and B become the gray
    /// byte of its original R, G, B; alpha and dimensions are unchanged.
    fn gray_pass(&mut self, luma: bool)
        requires
            old(self)@.wf(),
        ensures
            final(self)@.wf(),
            final(self)@.width == old(self)@.width,
            final(self)@.height == old(self)@.height,
            final(self)@.pixels.len() == old(self)@.pixels.len(),
            forall|p: int, c: int|
                0 <= p < old(self)@.width * old(self)@.height && 0 <= c < 3
                    ==> #[trigger] pchan(final(self)@.pixels, p, c) as int
                        == gray_of(
                            luma,
                            pchan(old(self)@.pixels, p, 0),
                            pchan(old(self)@.pixels, p, 1),
                            pchan(old(self)@.pixels, p, 2),
                        ),
            forall|p: int|
                0 <= p < old(self)@.width * old(self)@.height
                    ==> #[trigger] pchan(final(self)@.pixels, p, 3) == pchan(old(self)@.pixels, p, 3),
    {
        let ghost orig = self@.pixels;
        let ghost npix: nat = self@.width * self@.height;
        let total: usize = self.as_bytes().len();
        proof {
            lemma_mul_is_associative(4, self@.width as int, self@.height as int);
            assert(total == 4 * npix);
            assert((4 * npix as int) / 4 == npix) by (nonlinear_arith);
        }
        let count: usize = total / 4;
        let mut p: usize = 0;
        while p < count
            invariant
                self@.wf(),
                self@.width == old(self)@.width,
                self@.height == old(self)@.height,
                orig == old(self)@.pixels,
                npix == old(self)@.width * old(self)@.height,
                count == npix,
                self@.pixels.len() == orig.len(),
                orig.len() == 4 * npix,
                p <= count,
                forall|q: int, c: int|
                    0 <= q < npix && 0 <= c < 4 && !(c < 3 && q < p)
                        ==> #[trigger] pchan(self@.pixels, q, c) == pchan(orig, q, c),
                forall|q: int, c: int|
                    0 <= q < p && 0 <= c < 3
                        ==> #[trigger] pchan(self@.pixels, q, c) as int
                            == gray_of(
                                luma,
                                pchan(orig, q, 0),
                                pchan(orig, q, 1),
                                pchan(orig, q, 2),
                            ),
            decreases count - p,
        {
            let total_now: usize = self.as_bytes().len();
            proof {
                assert(total_now == 4 * npix);
            }
            let i: usize = 4 * p;
            let r: u8 = self.as_bytes()[i];
            let g: u8 = self.as_bytes()[i + 1];
            let b: u8 = self.as_bytes()[i + 2];
            let v: u8 = if luma {
                gray_luma_byte(r, g, b)
            } else {
                gray_avg_byte(r, g, b)
            };
            let ghost prev = self@.pixels;
            self.write_byte(i, v);
            self.write_byte(i + 1, v);
            self.write_byte(i + 2, v);
            proof {
                assert forall|q: int, c: int|
                    0 <= q < npix && 0 <= c < 4 && !(q == p && c < 3)
                    implies #[trigger] pchan(self@.pixels, q, c) == pchan(prev, q, c) by {
                    assert(4 * q + c != 4 * p && 4 * q + c != 4 * p + 1 && 4 * q + c != 4 * p + 2);
                }
                assert(pchan(prev, p as int, 0) == pchan(orig, p as int, 0));
                assert(pchan(prev, p as int, 1) == pchan(orig, p as int, 1));
                assert(pchan(prev, p as int, 2) == pchan(orig, p as int, 2));
                assert(r == pchan(prev, p as int, 0));
                assert(g == pchan(prev, p as int, 1));
                assert(b == pchan(prev, p as int, 2));
                assert(pchan(self@.pixels, p as int, 0) == v);
                assert(pchan(self@.pixels, p as int, 1) == v);
                assert(pchan(self@.pixels, p as int, 2) == v);
                assert forall|q: int, c: int| 0 <= q < p && 0 <= c < 3
                    implies #[trigger] pchan(self@.pixels, q, c) as int
                        == gray_of(luma, pchan(orig, q, 0), pchan(orig, q, 1), pchan(orig, q, 2)) by {
                    assert(pchan(self@.pixels, q, c) == pchan(prev, q, c));
                }
            }
            p += 1;
        }
    }

    /// Converts to grayscale by the simple mean: per pixel, R, G and B all
    /// become `(R + G + B) / 3` (truncated); alpha and dimensions are
    /// unchanged.
    pub fn to_grayscale_avg(&mut self)
        requires
            old(self)@.wf(),
        ensures
            final(self)@.wf(),
            final(self)@.width == old(self)@.width,
            final(self)@.height == old(self)@.height,
            final(self)@.pixels.len() == old(self)@.pixels.len(),
            forall|p: int, c: int|
                0 <= p < old(self)@.width * old(self)@.height && 0 <= c < 3
                    ==> #[trigger] pchan(final(self)@.pixels, p, c) as int
                        == gray_avg(
                            pchan(old(self)@.pixels, p, 0),
                            pchan(old(self)@.pixels, p, 1),
                            pchan(old(self)@.pixels, p, 2),
                        ),
            forall|p: int|
                0 <= p < old(self)@.width * old(self)@.height
                    ==> #[trigger] pchan(final(self)@.pixels, p, 3) == pchan(old(self)@.pixels, p, 3),
    {
        self.gray_pass(false)
    }

    /// Converts to grayscale by BT.709 luma weights: per pixel, R, G and B
    /// all become `(2126*R + 7152*G + 722*B) / 10000` (truncated); alpha and
    /// dimensions are unchanged.
    pub fn to_grayscale_avg_weighted(&mut self)
        requires
            old(self)@.wf(),
        ensures
            final(self)@.wf(),
            final(self)@.width == old(self)@.width,
            final(self)@.height == old(self)@.height,
            final(self)@.pixels.len() == old(self)@.pixels.len(),
            forall|p: int, c: int|
                0 <= p < old(self)@.width * old(self)@.height && 0 <= c < 3
                    ==> #[trigger] pchan(final(self)@.pixels, p, c) as int
                        == gray_luma(
                            pchan(old(self)@.pixels, p, 0),
                            pchan(old(self)@.pixels, p, 1),
                            pchan(old(self)@.pixels, p, 2),
                        ),
            forall|p: int|
                0 <= p < old(self)@.width * old(self)@.height
                    ==> #[trigger] pchan(final(self)@.pixels, p, 3) == pchan(old(self)@.pixels, p, 3),
    {
        self.gray_pass(true)
    }
}

} // verus!
