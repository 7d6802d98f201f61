//! Properties of the filters that go beyond any single pass: what every
//! kernel does on a flat (uniform) raster, and how adding and subtracting
//! the same operand round-trip.

use vstd::prelude::*;

use crate::convolution::clip;
use crate::convolution::gauss_sum;
use crate::convolution::gaussian_at;
use crate::convolution::gx_of;
use crate::convolution::gy_of;
use crate::convolution::hp_at;
use crate::convolution::median_at;
use crate::convolution::nb9;
use crate::convolution::nb_sum;
use crate::convolution::samp;
use crate::convolution::sharpen_at;
use crate::convolution::smooth_at;
use crate::convolution::sobel_at;
use crate::image::ImageView;
use crate::isqrt::isqrt;
use crate::median::u8_leq;
use crate::median::lemma_u8_leq_total;
use crate::ops::ArithmeticOp;
use crate::ops::Operand;
use crate::ops::point_val;
use vstd::seq_lib::group_to_multiset_ensures;
use vstd::multiset::group_multiset_axioms;

verus! {

/// A raster is uniform when every pixel equals the pixel at the origin,
/// channel by channel.
pub open spec fn is_uniform(v: ImageView) -> bool {
    forall|x: int, y: int, c: int|
        v.in_range(x, y, c) ==> #[trigger] v.at(x, y, c) == v.at(0, 0, c)
}

/// On a uniform raster every clamped neighborhood sample equals the center
/// pixel's own channel byte.
proof fn lemma_uniform_samp(v: ImageView, x: int, y: int, dx: int, dy: int, c: int)
    requires
        v.wf(),
        is_uniform(v),
        v.in_range(x, y, c),
        -1 <= dx <= 1,
        -1 <= dy <= 1,
    ensures
        samp(v, x, y, dx, dy, c) == v.at(x, y, c),
{
    let cx = clip(x + dx, v.width as int);
    let cy = clip(y + dy, v.height as int);
    assert(v.in_range(cx, cy, c));
    assert(v.at(cx, cy, c) == v.at(0, 0, c));
    assert(v.at(x, y, c) == v.at(0, 0, c));
}

/// On a uniform raster all nine samples coincide with the center byte, so
/// the plain and Gaussian sums are 9 and 16 times that byte, the gradients
/// vanish, and the sample sequence is constant.
proof fn lemma_uniform_neighborhood(v: ImageView, x: int, y: int, c: int)
    requires
        v.wf(),
        is_uniform(v),
        v.in_range(x, y, c),
    ensures
        nb_sum(v, x, y, c) == 9 * (v.at(x, y, c) as int),
        gauss_sum(v, x, y, c) == 16 * (v.at(x, y, c) as int),
        gx_of(v, x, y, c) == 0,
        gy_of(v, x, y, c) == 0,
        forall|i: int| 0 <= i < 9 ==> #[trigger] nb9(v, x, y, c)[i] == v.at(x, y, c),
{
    lemma_uniform_samp(v, x, y, -1, -1, c);
    lemma_uniform_samp(v, x, y, 0, -1, c);
    lemma_uniform_samp(v, x, y, 1, -1, c);
    lemma_uniform_samp(v, x, y, -1, 0, c);
    lemma_uniform_samp(v, x, y, 0, 0, c);
    lemma_uniform_samp(v, x, y, 1, 0, c);
    lemma_uniform_samp(v, x, y, -1, 1, c);
    lemma_uniform_samp(v, x, y, 0, 1, c);
    lemma_uniform_samp(v, x, y, 1, 1, c);
}

/// Box smooth is the identity on a uniform raster: a flat field is its own
/// mean, whatever the position, right up to the border.
pub proof fn lemma_smooth_uniform_identity(v: ImageView)
    requires
        v.wf(),
        is_uniform(v),
    ensures
        forall|x: int, y: int, c: int|
            v.in_range(x, y, c) && c < 3 ==> #[trigger] smooth_at(v, x, y, c) == v.at(x, y, c),
{
    assert forall|x: int, y: int, c: int|
        v.in_range(x, y, c) && c < 3 implies #[trigger] smooth_at(v, x, y, c) == v.at(x, y, c) by {
        lemma_uniform_neighborhood(v, x, y, c);
        assert((9 * (v.at(x, y, c) as int)) / 9 == v.at(x, y, c)) by (nonlinear_arith);
    }
}

/// Gaussian blur is the identity on a uniform raster: the kernel weights
/// sum to 16, so the weighted mean of a flat field is the field.
pub proof fn lemma_gaussian_uniform_identity(v: ImageView)
    requires
        v.wf(),
        is_uniform(v),
    ensures
        forall|x: int, y: int, c: int|
            v.in_range(x, y, c) && c < 3 ==> #[trigger] gaussian_at(v, x, y, c) == v.at(x, y, c),
{
    assert forall|x: int, y: int, c: int|
        v.in_range(x, y, c) && c < 3 implies #[trigger] gaussian_at(v, x, y, c) == v.at(x, y, c) by {
        lemma_uniform_neighborhood(v, x, y, c);
        assert((16 * (v.at(x, y, c) as int)) / 16 == v.at(x, y, c)) by (nonlinear_arith);
    }
}

/// Sobel yields zero on a uniform raster: a flat field has no gradient, so
/// every RGB magnitude is zero.
pub proof fn lemma_sobel_uniform_zero(v: ImageView)
    requires
        v.wf(),
        is_uniform(v),
    ensures
        forall|x: int, y: int, c: int|
            v.in_range(x, y, c) && c < 3 ==> #[trigger] sobel_at(v, x, y, c) == 0,
{
    assert forall|x: int, y: int, c: int|
        v.in_range(x, y, c) && c < 3 implies #[trigger] sobel_at(v, x, y, c) == 0 by {
        lemma_uniform_neighborhood(v, x, y, c);
        assert(isqrt(0) == 0);
    }
}

/// The median filter is the identity on a uniform raster: with the clamped
/// boundary policy all nine samples equal the center byte everywhere, border
/// pixels included, so the middle of their ascending rearrangement is that
/// byte.
pub proof fn lemma_median_uniform_identity(v: ImageView)
    requires
        v.wf(),
        is_uniform(v),
    ensures
        forall|x: int, y: int, c: int|
            v.in_range(x, y, c) && c < 3 ==> #[trigger] median_at(v, x, y, c) == v.at(x, y, c),
{
    broadcast use group_to_multiset_ensures;
    broadcast use group_multiset_axioms;

    assert forall|x: int, y: int, c: int|
        v.in_range(x, y, c) && c < 3 implies #[trigger] median_at(v, x, y, c) == v.at(x, y, c) by {
        lemma_uniform_neighborhood(v, x, y, c);
        let a = v.at(x, y, c);
        let s0 = nb9(v, x, y, c);
        let s = s0.sort_by(u8_leq());
        lemma_u8_leq_total();
        s0.lemma_sort_by_ensures(u8_leq());
        assert(s0.to_multiset().len() == s0.len());
        assert(s.to_multiset().len() == s.len());
        assert(s.len() == 9);
        assert(0 <= 4 < s.len() && s[4] == s[4]);
        assert(s.contains(s[4]));
        assert(s0.to_multiset().contains(s[4]));
        assert(s0.contains(s[4]));
        let i = choose|i: int| 0 <= i < s0.len() && s0[i] == s[4];
        assert(s0[i] == a);
    }
}

/// High-pass sharpen is a no-op on a uniform raster: the high-pass response
/// of a flat field is zero, and saturating addition of zero changes nothing.
pub proof fn lemma_sharpen_uniform_identity(v: ImageView)
    requires
        v.wf(),
        is_uniform(v),
    ensures
        forall|x: int, y: int, c: int|
            v.in_range(x, y, c) && c < 3 ==> #[trigger] sharpen_at(v, x, y, c) == v.at(x, y, c),
{
    assert forall|x: int, y: int, c: int|
        v.in_range(x, y, c) && c < 3 implies #[trigger] sharpen_at(v, x, y, c) == v.at(x, y, c) by {
        lemma_uniform_neighborhood(v, x, y, c);
        assert(hp_at(v, x, y, c) == 0);
    }
}

/// Adding and then subtracting the same non-negative operand on one channel
/// byte returns it up to one unit of truncation: exactly when the operand is
/// a whole number, one below otherwise, provided the addition does not
/// saturate at 255 (a saturated byte has lost information and cannot round-
/// trip).
pub proof fn lemma_add_sub_roundtrip(b: u8, operand: Operand)
    requires
        operand.wf(),
        operand.num >= 0,
        (b * operand.den + operand.num) / (operand.den as int) <= 255,
    ensures
        ({
            let b1 = point_val(ArithmeticOp::Add, b, operand);
            let b2 = point_val(ArithmeticOp::Subtract, b1 as u8, operand);
            &&& b - 1 <= b2 <= b
            &&& operand.num as int % operand.den as int == 0 ==> b2 == b
        }),
{
    let num = operand.num as int;
    let den = operand.den as int;
    let m = num / den;
    let r = num % den;
    vstd::arithmetic::div_mod::lemma_fundamental_div_mod(num, den);
    assert(0 <= r < den) by (nonlinear_arith)
        requires r == num % den, num >= 0, den >= 1,
    ;
    assert(m >= 0) by (nonlinear_arith)
        requires m == num / den, num >= 0, den >= 1,
    ;
    assert((b * den + num) / den == b + m) by (nonlinear_arith)
        requires num == den * m + r, 0 <= r < den, den >= 1, b >= 0,
    ;
    let b1 = point_val(ArithmeticOp::Add, b, operand);
    assert(b1 == b + m);
    let t2 = b1 * den - num;
    assert(t2 == b * den - r) by (nonlinear_arith)
        requires b1 == b + m, num == den * m + r, t2 == b1 * den - num,
    ;
    if r == 0 {
        assert((b * den) / den == b) by (nonlinear_arith)
            requires den >= 1, b >= 0,
        ;
    } else if b == 0 {
        assert(t2 / den < 0) by (nonlinear_arith)
            requires t2 < 0, den >= 1,
        ;
    } else {
        assert((b * den - r) / den == b - 1) by (nonlinear_arith)
            requires 0 < r < den, den >= 1, b >= 1,
        ;
    }
}

} // verus!
