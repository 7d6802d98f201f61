//! Per-pixel point operations: channel arithmetic with an exact rational
//! operand, and the brightness remap. Both are single in-place passes that
//! touch nothing but the bytes they are specified to change.

use vstd::prelude::*;

use crate::image::Image;
use crate::image::pchan;
use crate::ops::ArithmeticOp;
use crate::ops::ColorComponent;
use crate::ops::Operand;
use crate::ops::bright_val;
use crate::ops::clamp_byte;
use crate::ops::point_val;
use vstd::arithmetic::mul::lemma_mul_is_associative;

verus! {

/// A product of values inside given bounds stays inside the product of the
/// bounds.
pub proof fn lemma_mul_bound(a: int, b: int, ca: int, cb: int)
    requires
        0 <= a <= ca,
        0 <= b <= cb,
    ensures
        0 <= a * b <= ca * cb,
{
    assert(0 <= a * b <= ca * cb) by (nonlinear_arith)
        requires 0 <= a <= ca, 0 <= b <= cb,
    ;
}

/// A negative numerator divided by a positive denominator stays negative.
proof fn lemma_div_neg(t: int, d: int)
    requires
        t < 0,
        d >= 1,
    ensures
        t / d < 0,
{
    assert(t / d < 0) by (nonlinear_arith)
        requires t < 0, d >= 1,
    ;
}

/// A non-positive numerator divided by a positive denominator stays
/// non-positive.
proof fn lemma_div_nonpos(t: int, d: int)
    requires
        t <= 0,
        d >= 1,
    ensures
        t / d <= 0,
{
    assert(t / d <= 0) by (nonlinear_arith)
        requires t <= 0, d >= 1,
    ;
}

/// Truncating a quotient and clamping it into the byte range, for a
/// non-negative numerator held in a machine word.
fn div_clamp(t: u64, d: u64) -> (r: u8)
    requires
        d >= 1,
    ensures
        r as int == clamp_byte((t as int) / (d as int)),
{
    proof {
        assert((t as int) / (d as int) >= 0) by (nonlinear_arith)
            requires t >= 0, d >= 1,
        ;
    }
    let q: u64 = t / d;
    if q > 255 {
        255
    } else {
        q as u8
    }
}

/// The magnitude of a negative `i32` numerator, as a machine word.
fn neg_magnitude(num: i32) -> (r: u64)
    requires
        num < 0,
    ensures
        r as int == -(num as int),
{
    (-(num as i64)) as u64
}

/// One point operation on one channel byte, exactly as `point_val` states.
pub fn point_byte(b: u8, op: ArithmeticOp, operand: Operand) -> (r: u8)
    requires
        operand.wf(),
    ensures
        r as int == point_val(op, b, operand),
{
    let num: i32 = operand.num;
    let den: u64 = operand.den as u64;
    let bb: u64 = b as u64;
    proof {
        lemma_mul_bound(bb as int, den as int, 255, 0xffff_ffff);
    }
    match op {
        ArithmeticOp::Add => {
            if num >= 0 {
                div_clamp(bb * den + (num as u64), den)
            } else {
                let m: u64 = neg_magnitude(num);
                if bb * den < m {
                    proof {
                        lemma_div_neg(b * (den as int) + num, den as int);
                    }
                    0
                } else {
                    div_clamp(bb * den - m, den)
                }
            }
        }
        ArithmeticOp::Subtract => {
            if num <= 0 {
                let m: u64 = if num == 0 { 0 } else { neg_magnitude(num) };
                div_clamp(bb * den + m, den)
            } else {
                if bb * den < (num as u64) {
                    proof {
                        lemma_div_neg(b * (den as int) - num, den as int);
                    }
                    0
                } else {
                    div_clamp(bb * den - (num as u64), den)
                }
            }
        }
        ArithmeticOp::Multiply => {
            if num <= 0 {
                proof {
                    assert(b * (num as int) <= 0) by (nonlinear_arith)
                        requires b >= 0, num <= 0,
                    ;
                    lemma_div_nonpos(b * (num as int), den as int);
                }
                0
            } else {
                proof {
                    lemma_mul_bound(bb as int, num as int, 255, 0x7fff_ffff);
                }
                div_clamp(bb * (num as u64), den)
            }
        }
        ArithmeticOp::Divide => {
            if num <= 0 {
                0
            } else {
                div_clamp(bb * den, num as u64)
            }
        }
    }
}

/// One brightness remap on one color byte, exactly as `bright_val` states.
/// The exact result already lies in the byte range, so the narrowing is
/// lossless beyond the single truncation.
pub fn bright_byte(b: u8, amount: Operand) -> (r: u8)
    requires
        amount.wf(),
        -(amount.den as int) <= amount.num as int <= amount.den as int,
    ensures
        r as int == bright_val(b, amount),
{
    let num: i32 = amount.num;
    let den: u64 = amount.den as u64;
    let bb: u64 = b as u64;
    if num < 0 {
        let m: u64 = neg_magnitude(num);
        let factor: u64 = 2 * den - m;
        proof {
            lemma_mul_bound(bb as int, factor as int, 255, (2 * 0xffff_ffff) as int);
            assert(bb * factor <= 255 * (2 * (den as int)))  by (nonlinear_arith)
                requires bb <= 255, factor <= 2 * den, den >= 1,
            ;
            assert((bb * factor) as int / (2 * den as int) <= 255) by (nonlinear_arith)
                requires bb * factor <= 255 * (2 * (den as int)), den >= 1,
            ;
        }
        let q: u64 = (bb * factor) / (2 * den);
        q as u8
    } else {
        proof {
            lemma_mul_bound(num as int, 255 - bb, den as int, 255);
            lemma_mul_bound(2 * den as int, bb as int, (2 * 0xffff_ffff) as int, 255);
            assert(2 * (den as int) * bb + (num as int) * (255 - bb) <= 255 * (2 * (den as int)))
                by (nonlinear_arith)
                requires bb <= 255, 0 <= num <= den, den >= 1,
            ;
            assert((2 * (den as int) * bb + (num as int) * (255 - bb)) / (2 * den as int) <= 255)
                by (nonlinear_arith)
                requires
                    2 * (den as int) * bb + (num as int) * (255 - bb) <= 255 * (2 * (den as int)),
                    den >= 1,
                    bb >= 0, num >= 0,
            ;
        }
        let lift: u64 = (num as u64) * (255 - bb);
        let q: u64 = (2 * den * bb + lift) / (2 * den);
        q as u8
    }
}

impl Image {
    /// Applies one arithmetic point operation to one channel of every pixel.
    ///
    /// A zero operand leaves the buffer untouched: the short-circuit is part
    /// of the contract, and it also rules out division by a zero scalar.
    /// Otherwise the chosen channel byte of every pixel becomes
    /// `point_val(op, byte, value)` and every other byte is unchanged. The
    /// alpha channel is addressable like any other. Dimensions are
    /// preserved.
    pub fn apply_point_fn(&mut self, component: ColorComponent, value: Operand, op: ArithmeticOp)
        requires
            old(self)@.wf(),
            value.wf(),
        ensures
            final(self)@.wf(),
            final(self)@.width == old(self)@.width,
            final(self)@.height == old(self)@.height,
            final(self)@.pixels.len() == old(self)@.pixels.len(),
            value.spec_is_zero() ==> final(self)@.pixels == old(self)@.pixels,
            forall|p: int, c: int|
                0 <= p < old(self)@.width * old(self)@.height && 0 <= c < 4
                    && !(c == component.spec_offset() && !value.spec_is_zero())
                    ==> #[trigger] pchan(final(self)@.pixels, p, c)
                        == pchan(old(self)@.pixels, p, c),
            forall|p: int|
                0 <= p < old(self)@.width * old(self)@.height && !value.spec_is_zero()
                    ==> #[trigger] pchan(final(self)@.pixels, p, component.spec_offset()) as int
                        == point_val(op, pchan(old(self)@.pixels, p, component.spec_offset()), value),
    {
        if value.is_zero() {
            return;
        }
        let ghost orig = self@.pixels;
        let ghost npix: nat = self@.width * self@.height;
        let off: usize = component.offset();
        let total: usize = self.as_bytes().len();
        proof {
            lemma_mul_is_associative(4, self@.width as int, self@.height as int);
            assert(total == 4 * npix);
            assert((4 * npix as int) / 4 == npix) by (nonlinear_arith);
        }
        let count: usize = total / 4;
        let mut p: usize = 0;
        while p < count
            invariant
                self@.wf(),
                value.wf(),
                off == component.spec_offset(),
                self@.width == old(self)@.width,
                self@.height == old(self)@.height,
                orig == old(self)@.pixels,
                npix == old(self)@.width * old(self)@.height,
                count == npix,
                self@.pixels.len() == orig.len(),
                orig.len() == 4 * npix,
                p <= count,
                forall|q: int, c: int|
                    0 <= q < npix && 0 <= c < 4 && !(c == off && q < p)
                        ==> #[trigger] pchan(self@.pixels, q, c) == pchan(orig, q, c),
                forall|q: int|
                    0 <= q < p
                        ==> #[trigger] pchan(self@.pixels, q, off as int) as int
                            == point_val(op, pchan(orig, q, off as int), value),
            decreases count - p,
        {
            let total_now: usize = self.as_bytes().len();
            proof {
                assert(total_now == 4 * npix);
            }
            let i: usize = 4 * p + off;
            let b: u8 = self.as_bytes()[i];
            let v: u8 = point_byte(b, op, value);
            let ghost prev = self@.pixels;
            self.write_byte(i, v);
            proof {
                assert forall|q: int, c: int|
                    0 <= q < npix && 0 <= c < 4 && !(q == p && c == off)
                    implies #[trigger] pchan(self@.pixels, q, c) == pchan(prev, q, c) by {
                    assert(4 * q + c != 4 * p + off);
                }
                assert(pchan(prev, p as int, off as int) == pchan(orig, p as int, off as int));
                assert(b == pchan(prev, p as int, off as int));
                assert(pchan(self@.pixels, p as int, off as int) == v);
                assert forall|q: int| 0 <= q < p
                    implies #[trigger] pchan(self@.pixels, q, off as int) as int
                        == point_val(op, pchan(orig, q, off as int), value) by {
                    assert(pchan(self@.pixels, q, off as int) == pchan(prev, q, off as int));
                }
            }
            p += 1;
        }
    }

    /// Remaps the brightness of every color byte, leaving alpha untouched.
    ///
    /// The slider amount `num / den` lies in `[-1, 1]`; it is halved
    /// internally, then every R, G and B byte becomes `bright_val(byte,
    /// amount)` while every alpha byte and the dimensions are unchanged.
    pub fn change_brightness(&mut self, amount: Operand)
        requires
            old(self)@.wf(),
            amount.wf(),
            -(amount.den as int) <= amount.num as int <= amount.den as int,
        ensures
            final(self)@.wf(),
            final(self)@.width == old(self)@.width,
            final(self)@.height == old(self)@.height,
            final(self)@.pixels.len() == old(self)@.pixels.len(),
            forall|p: int, c: int|
                0 <= p < old(self)@.width * old(self)@.height && 0 <= c < 3
                    ==> #[trigger] pchan(final(self)@.pixels, p, c) as int
                        == bright_val(pchan(old(self)@.pixels, p, c), amount),
            forall|p: int|
                0 <= p < old(self)@.width * old(self)@.height
                    ==> #[trigger] pchan(final(self)@.pixels, p, 3) == pchan(old(self)@.pixels, p, 3),
    {
        let ghost orig = self@.pixels;
        let ghost npix: nat = self@.width * self@.height;
        let total: usize = self.as_bytes().len();
        proof {
            lemma_mul_is_associative(4, self@.width as int, self@.height as int);
            assert(total == 4 * npix);
            assert((4 * npix as int) / 4 == npix) by (nonlinear_arith);
        }
        let count: usize = total / 4;
        let mut p: usize = 0;
        while p < count
            invariant
                self@.wf(),
                amount.wf(),
                -(amount.den as int) <= amount.num as int <= amount.den as int,
                self@.width == old(self)@.width,
                self@.height == old(self)@.height,
                orig == old(self)@.pixels,
                npix == old(self)@.width * old(self)@.height,
                count == npix,
                self@.pixels.len() == orig.len(),
                orig.len() == 4 * npix,
                p <= count,
                forall|q: int, c: int|
                    0 <= q < npix && 0 <= c < 4 && !(c < 3 && q < p)
                        ==> #[trigger] pchan(self@.pixels, q, c) == pchan(orig, q, c),
                forall|q: int, c: int|
                    0 <= q < p && 0 <= c < 3
                        ==> #[trigger] pchan(self@.pixels, q, c) as int
                            == bright_val(pchan(orig, q, c), amount),
            decreases count - p,
        {
            let mut c: usize = 0;
            while c < 3
                invariant
                    self@.wf(),
                    amount.wf(),
                    -(amount.den as int) <= amount.num as int <= amount.den as int,
                    self@.width == old(self)@.width,
                    self@.height == old(self)@.height,
                    orig == old(self)@.pixels,
                    npix == old(self)@.width * old(self)@.height,
                    count == npix,
                    p < count,
                    c <= 3,
                    self@.pixels.len() == orig.len(),
                    orig.len() == 4 * npix,
                    forall|q: int, cc: int|
                        0 <= q < npix && 0 <= cc < 4 && !(cc < 3 && q < p) && !(q == p && cc < c)
                            ==> #[trigger] pchan(self@.pixels, q, cc) == pchan(orig, q, cc),
                    forall|q: int, cc: int|
                        0 <= q < npix && 0 <= cc < 3 && (q < p || (q == p && cc < c))
                            ==> #[trigger] pchan(self@.pixels, q, cc) as int
                                == bright_val(pchan(orig, q, cc), amount),
                decreases 3 - c,
            {
                let total_now: usize = self.as_bytes().len();
                proof {
                    assert(total_now == 4 * npix);
                }
                let i: usize = 4 * p + c;
                let b: u8 = self.as_bytes()[i];
                let v: u8 = bright_byte(b, amount);
                let ghost prev = self@.pixels;
                self.write_byte(i, v);
                proof {
                    assert forall|q: int, cc: int|
                        0 <= q < npix && 0 <= cc < 4 && !(q == p && cc == c)
                        implies #[trigger] pchan(self@.pixels, q, cc) == pchan(prev, q, cc) by {
                        assert(4 * q + cc != 4 * p + c);
                    }
                    assert(pchan(prev, p as int, c as int) == pchan(orig, p as int, c as int));
                    assert(b == pchan(prev, p as int, c as int));
                    assert(pchan(self@.pixels, p as int, c as int) == v);
                    assert forall|q: int, cc: int|
                        0 <= q < npix && 0 <= cc < 3 && (q < p || (q == p && cc < c))
                        implies #[trigger] pchan(self@.pixels, q, cc) as int
                            == bright_val(pchan(orig, q, cc), amount) by {
                        assert(pchan(self@.pixels, q, cc) == pchan(prev, q, cc));
                    }
                }
                c += 1;
            }
            p += 1;
        }
    }
}

} // verus!
