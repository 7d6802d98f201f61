//! The 3x3 neighborhood convolution framework and its five filters: box
//! smooth, Gaussian blur, Sobel edge magnitude, median, and high-pass
//! sharpen.
//!
//! All filters share one sampling pattern: around the pixel at `(x, y)` the
//! nine offsets `(dx, dy)` in `{-1, 0, 1}` squared are read, with each
//! coordinate clamped independently to the raster, so a border pixel sees
//! its edge row or column replicated and never a neighbor from the other
//! end of a row. Every filter computes a whole new buffer from the original
//! and installs it at once, so no pixel ever reads an already-filtered
//! neighbor; RGB channels are filtered independently and alpha is copied
//! through unchanged.

use vstd::prelude::*;

use crate::image::Image;
use crate::image::ImageView;
use crate::image::chan;
use crate::image::pchan;
use crate::image::lemma_pixel_in_range;
use crate::image::lemma_pixel_append;
use crate::isqrt::isqrt;
use crate::isqrt::isqrt_exec;
use crate::median::median9;
use crate::median::sort_bytes;
use crate::median::u8_leq;
use crate::median::lemma_u8_leq_total;
use vstd::seq_lib::lemma_sorted_unique;
use vstd::arithmetic::mul::lemma_mul_is_associative;

verus! {

/// Clamps a coordinate to `[0, n - 1]`: the boundary policy replicates the
/// edge pixel instead of wrapping or skipping.
pub open spec fn clip(i: int, n: int) -> int {
    if i < 0 {
        0
    } else if i >= n {
        n - 1
    } else {
        i
    }
}

/// The neighborhood sample of channel `c` at offset `(dx, dy)` from pixel
/// `(x, y)`, with both coordinates clamped to the raster.
pub open spec fn samp(v: ImageView, x: int, y: int, dx: int, dy: int, c: int) -> u8 {
    v.at(clip(x + dx, v.width as int), clip(y + dy, v.height as int), c)
}

/// The plain sum of the nine neighborhood samples of channel `c`.
pub open spec fn nb_sum(v: ImageView, x: int, y: int, c: int) -> int {
    samp(v, x, y, -1, -1, c) + samp(v, x, y, 0, -1, c) + samp(v, x, y, 1, -1, c)
        + samp(v, x, y, -1, 0, c) + samp(v, x, y, 0, 0, c) + samp(v, x, y, 1, 0, c)
        + samp(v, x, y, -1, 1, c) + samp(v, x, y, 0, 1, c) + samp(v, x, y, 1, 1, c)
}

/// The Gaussian-weighted sum of the nine samples, kernel
/// `[[1,2,1],[2,4,2],[1,2,1]]`.
pub open spec fn gauss_sum(v: ImageView, x: int, y: int, c: int) -> int {
    samp(v, x, y, -1, -1, c) + 2 * samp(v, x, y, 0, -1, c) + samp(v, x, y, 1, -1, c)
        + 2 * samp(v, x, y, -1, 0, c) + 4 * samp(v, x, y, 0, 0, c) + 2 * samp(v, x, y, 1, 0, c)
        + samp(v, x, y, -1, 1, c) + 2 * samp(v, x, y, 0, 1, c) + samp(v, x, y, 1, 1, c)
}

/// The horizontal Sobel gradient: right column minus left column.
pub open spec fn gx_of(v: ImageView, x: int, y: int, c: int) -> int {
    (samp(v, x, y, 1, -1, c) + samp(v, x, y, 1, 0, c) + samp(v, x, y, 1, 1, c))
        - (samp(v, x, y, -1, -1, c) + samp(v, x, y, -1, 0, c) + samp(v, x, y, -1, 1, c))
}

/// The vertical Sobel gradient: bottom row minus top row.
pub open spec fn gy_of(v: ImageView, x: int, y: int, c: int) -> int {
    (samp(v, x, y, -1, 1, c) + samp(v, x, y, 0, 1, c) + samp(v, x, y, 1, 1, c))
        - (samp(v, x, y, -1, -1, c) + samp(v, x, y, 0, -1, c) + samp(v, x, y, 1, -1, c))
}

/// The nine neighborhood samples in row-major offset order, the sequence
/// the median is taken over.
pub open spec fn nb9(v: ImageView, x: int, y: int, c: int) -> Seq<u8> {
    seq![
        samp(v, x, y, -1, -1, c),
        samp(v, x, y, 0, -1, c),
        samp(v, x, y, 1, -1, c),
        samp(v, x, y, -1, 0, c),
        samp(v, x, y, 0, 0, c),
        samp(v, x, y, 1, 0, c),
        samp(v, x, y, -1, 1, c),
        samp(v, x, y, 0, 1, c),
        samp(v, x, y, 1, 1, c),
    ]
}

/// Box smooth: the truncated mean of the nine samples, `sum / 9`.
pub open spec fn smooth_at(v: ImageView, x: int, y: int, c: int) -> int {
    nb_sum(v, x, y, c) / 9
}

/// Gaussian blur: the weighted sum divided by 16, truncating.
pub open spec fn gaussian_at(v: ImageView, x: int, y: int, c: int) -> int {
    gauss_sum(v, x, y, c) / 16
}

/// Sobel edge magnitude: the floor of `sqrt(gx^2 + gy^2)`, clamped to 255.
pub open spec fn sobel_at(v: ImageView, x: int, y: int, c: int) -> int {
    let g2 = gx_of(v, x, y, c) * gx_of(v, x, y, c) + gy_of(v, x, y, c) * gy_of(v, x, y, c);
    let m = isqrt(g2 as nat) as int;
    if m > 255 {
        255
    } else {
        m
    }
}

/// Median: the middle element of the ascending rearrangement of the nine
/// samples.
pub open spec fn median_at(v: ImageView, x: int, y: int, c: int) -> u8 {
    median9(nb9(v, x, y, c))
}

/// High-pass response: weight `8/9` at the center and `-1/9` elsewhere,
/// truncated to a byte with negative responses cut off at zero.
pub open spec fn hp_at(v: ImageView, x: int, y: int, c: int) -> int {
    let t = 9 * (v.at(x, y, c) as int) - nb_sum(v, x, y, c);
    if t <= 0 {
        0
    } else {
        t / 9
    }
}

/// High-pass sharpen: the original byte plus the high-pass response,
/// saturating at 255.
pub open spec fn sharpen_at(v: ImageView, x: int, y: int, c: int) -> int {
    let s = v.at(x, y, c) + hp_at(v, x, y, c);
    if s > 255 {
        255
    } else {
        s
    }
}

/// The kernels the shared neighborhood pass can apply.
#[derive(Clone, Copy, PartialEq, Eq, Structural)]
pub(crate) enum Kernel {
    Smooth,
    Gaussian,
    Sobel,
    Median,
    Highpass,
}

/// The output byte of one kernel for channel `c` of pixel `(x, y)`.
pub(crate) open spec fn kernel_at(k: Kernel, v: ImageView, x: int, y: int, c: int) -> int {
    match k {
        Kernel::Smooth => smooth_at(v, x, y, c),
        Kernel::Gaussian => gaussian_at(v, x, y, c),
        Kernel::Sobel => sobel_at(v, x, y, c),
        Kernel::Median => median_at(v, x, y, c) as int,
        Kernel::Highpass => hp_at(v, x, y, c),
    }
}

/// Clamps `i + d` to `[0, n - 1]` for a unit offset `d`.
fn clip_coord(i: u32, d: i32, n: u32) -> (r: u32)
    requires
        n >= 1,
        i < n,
        -1 <= d <= 1,
    ensures
        r as int == clip(i as int + d as int, n as int),
        r < n,
{
    if d < 0 {
        if i == 0 {
            0
        } else {
            i - 1
        }
    } else if d > 0 {
        if i + 1 < n {
            i + 1
        } else {
            n - 1
        }
    } else {
        i
    }
}

impl Image {
    /// Reads one clamped neighborhood sample.
    fn sample(&self, x: u32, y: u32, dx: i32, dy: i32, c: usize) -> (r: u8)
        requires
            self@.wf(),
            x < self@.width,
            y < self@.height,
            -1 <= dx <= 1,
            -1 <= dy <= 1,
            c < 4,
        ensures
            r == samp(self@, x as int, y as int, dx as int, dy as int, c as int),
    {
        let sx: u32 = clip_coord(x, dx, self.width());
        let sy: u32 = clip_coord(y, dy, self.height());
        self.read_chan(sx, sy, c)
    }

    /// The plain sum of the nine samples of channel `c` around `(x, y)`.
    fn nb_sum_exec(&self, x: u32, y: u32, c: usize) -> (s: u32)
        requires
            self@.wf(),
            x < self@.width,
            y < self@.height,
            c < 4,
        ensures
            s as int == nb_sum(self@, x as int, y as int, c as int),
            s <= 2295,
    {
        let a_mm: u32 = self.sample(x, y, -1, -1, c) as u32;
        let a_0m: u32 = self.sample(x, y, 0, -1, c) as u32;
        let a_pm: u32 = self.sample(x, y, 1, -1, c) as u32;
        let a_m0: u32 = self.sample(x, y, -1, 0, c) as u32;
        let a_00: u32 = self.sample(x, y, 0, 0, c) as u32;
        let a_p0: u32 = self.sample(x, y, 1, 0, c) as u32;
        let a_mp: u32 = self.sample(x, y, -1, 1, c) as u32;
        let a_0p: u32 = self.sample(x, y, 0, 1, c) as u32;
        let a_pp: u32 = self.sample(x, y, 1, 1, c) as u32;
        a_mm + a_0m + a_pm + a_m0 + a_00 + a_p0 + a_mp + a_0p + a_pp
    }

    /// Box-smooth output byte for channel `c` of pixel `(x, y)`.
    fn smooth_byte(&self, x: u32, y: u32, c: usize) -> (r: u8)
        requires
            self@.wf(),
            x < self@.width,
            y < self@.height,
            c < 4,
        ensures
            r as int == smooth_at(self@, x as int, y as int, c as int),
    {
        let s: u32 = self.nb_sum_exec(x, y, c);
        proof {
            assert(s / 9 <= 255) by (nonlinear_arith)
                requires s <= 2295u32,
            ;
        }
        (s / 9) as u8
    }

    /// Gaussian-blur output byte for channel `c` of pixel `(x, y)`.
    fn gaussian_byte(&self, x: u32, y: u32, c: usize) -> (r: u8)
        requires
            self@.wf(),
            x < self@.width,
            y < self@.height,
            c < 4,
        ensures
            r as int == gaussian_at(self@, x as int, y as int, c as int),
    {
        let a_mm: u32 = self.sample(x, y, -1, -1, c) as u32;
        let a_0m: u32 = self.sample(x, y, 0, -1, c) as u32;
        let a_pm: u32 = self.sample(x, y, 1, -1, c) as u32;
        let a_m0: u32 = self.sample(x, y, -1, 0, c) as u32;
        let a_00: u32 = self.sample(x, y, 0, 0, c) as u32;
        let a_p0: u32 = self.sample(x, y, 1, 0, c) as u32;
        let a_mp: u32 = self.sample(x, y, -1, 1, c) as u32;
        let a_0p: u32 = self.sample(x, y, 0, 1, c) as u32;
        let a_pp: u32 = self.sample(x, y, 1, 1, c) as u32;
        let s: u32 = a_mm + 2 * a_0m + a_pm + 2 * a_m0 + 4 * a_00 + 2 * a_p0 + a_mp + 2 * a_0p
            + a_pp;
        proof {
            assert(s / 16 <= 255) by (nonlinear_arith)
                requires s <= 4080u32,
            ;
        }
        (s / 16) as u8
    }

    /// Sobel edge-magnitude output byte for channel `c` of pixel `(x, y)`.
    fn sobel_byte(&self, x: u32, y: u32, c: usize) -> (r: u8)
        requires
            self@.wf(),
            x < self@.width,
            y < self@.height,
            c < 4,
        ensures
            r as int == sobel_at(self@, x as int, y as int, c as int),
    {
        let rcol: u32 = self.sample(x, y, 1, -1, c) as u32 + self.sample(x, y, 1, 0, c) as u32
            + self.sample(x, y, 1, 1, c) as u32;
        let lcol: u32 = self.sample(x, y, -1, -1, c) as u32 + self.sample(x, y, -1, 0, c) as u32
            + self.sample(x, y, -1, 1, c) as u32;
        let brow: u32 = self.sample(x, y, -1, 1, c) as u32 + self.sample(x, y, 0, 1, c) as u32
            + self.sample(x, y, 1, 1, c) as u32;
        let trow: u32 = self.sample(x, y, -1, -1, c) as u32 + self.sample(x, y, 0, -1, c) as u32
            + self.sample(x, y, 1, -1, c) as u32;
        let gx: i64 = rcol as i64 - lcol as i64;
        let gy: i64 = brow as i64 - trow as i64;
        proof {
            assert(0 <= gx * gx <= 585225 && 0 <= gy * gy <= 585225) by (nonlinear_arith)
                requires -765 <= gx <= 765, -765 <= gy <= 765,
            ;
        }
        let g2: u64 = (gx * gx) as u64 + (gy * gy) as u64;
        let m: u64 = isqrt_exec(g2);
        if m > 255 {
            255
        } else {
            m as u8
        }
    }

    /// Median output byte for channel `c` of pixel `(x, y)`.
    fn median_byte(&self, x: u32, y: u32, c: usize) -> (r: u8)
        requires
            self@.wf(),
            x < self@.width,
            y < self@.height,
            c < 4,
        ensures
            r == median_at(self@, x as int, y as int, c as int),
    {
        let mut vals: Vec<u8> = Vec::new();
        vals.push(self.sample(x, y, -1, -1, c));
        vals.push(self.sample(x, y, 0, -1, c));
        vals.push(self.sample(x, y, 1, -1, c));
        vals.push(self.sample(x, y, -1, 0, c));
        vals.push(self.sample(x, y, 0, 0, c));
        vals.push(self.sample(x, y, 1, 0, c));
        vals.push(self.sample(x, y, -1, 1, c));
        vals.push(self.sample(x, y, 0, 1, c));
        vals.push(self.sample(x, y, 1, 1, c));
        let ghost s0 = nb9(self@, x as int, y as int, c as int);
        proof {
            assert(vals@ =~= s0);
        }
        sort_bytes(&mut vals);
        proof {
            lemma_u8_leq_total();
            s0.lemma_sort_by_ensures(u8_leq());
            lemma_sorted_unique(vals@, s0.sort_by(u8_leq()), u8_leq());
            assert(vals@ =~= s0.sort_by(u8_leq()));
        }
        vals[4]
    }

    /// High-pass output byte for channel `c` of pixel `(x, y)`.
    fn hp_byte(&self, x: u32, y: u32, c: usize) -> (r: u8)
        requires
            self@.wf(),
            x < self@.width,
            y < self@.height,
            c < 4,
        ensures
            r as int == hp_at(self@, x as int, y as int, c as int),
    {
        let center: u32 = self.read_chan(x, y, c) as u32;
        let s: u32 = self.nb_sum_exec(x, y, c);
        let t9: u32 = 9 * center;
        if t9 <= s {
            0
        } else {
            let d: u32 = t9 - s;
            proof {
                assert(d / 9 <= 255) by (nonlinear_arith)
                    requires d <= 2295u32,
                ;
            }
            (d / 9) as u8
        }
    }

    /// One kernel's output byte for channel `c` of pixel `(x, y)`.
    fn kernel_byte(&self, k: Kernel, x: u32, y: u32, c: usize) -> (r: u8)
        requires
            self@.wf(),
            x < self@.width,
            y < self@.height,
            c < 4,
        ensures
            r as int == kernel_at(k, self@, x as int, y as int, c as int),
    {
        match k {
            Kernel::Smooth => self.smooth_byte(x, y, c),
            Kernel::Gaussian => self.gaussian_byte(x, y, c),
            Kernel::Sobel => self.sobel_byte(x, y, c),
            Kernel::Median => self.median_byte(x, y, c),
            Kernel::Highpass => self.hp_byte(x, y, c),
        }
    }

    /// Runs one kernel over the whole raster into a fresh buffer: RGB from
    /// the kernel, alpha copied through, dimensions implied by the length.
    fn conv_buffer(&self, k: Kernel) -> (out: Vec<u8>)
        requires
            self@.wf(),
        ensures
            out@.len() == self@.pixels.len(),
            forall|x: int, y: int, c: int|
                0 <= x < self@.width && 0 <= y < self@.height && 0 <= c < 3
                    ==> #[trigger] chan(out@, self@.width as int, x, y, c) as int
                        == kernel_at(k, self@, x, y, c),
            forall|x: int, y: int|
                0 <= x < self@.width && 0 <= y < self@.height
                    ==> #[trigger] chan(out@, self@.width as int, x, y, 3) == self@.at(x, y, 3),
    {
        let ghost v0 = self@;
        let w: u32 = self.width();
        let h: u32 = self.height();
        let mut out: Vec<u8> = Vec::new();
        let mut y: u32 = 0;
        while y < h
            invariant
                self@.wf(),
                v0 == self@,
                w as nat == v0.width,
                h as nat == v0.height,
                y <= h,
                out@.len() == 4 * ((y as int) * (w as int)),
                forall|xx: int, yy: int, cc: int|
                    0 <= xx < w && 0 <= yy < y && 0 <= cc < 3
                        ==> #[trigger] chan(out@, w as int, xx, yy, cc) as int
                            == kernel_at(k, v0, xx, yy, cc),
                forall|xx: int, yy: int|
                    0 <= xx < w && 0 <= yy < y
                        ==> #[trigger] chan(out@, w as int, xx, yy, 3) == v0.at(xx, yy, 3),
            decreases h - y,
        {
            let mut x: u32 = 0;
            while x < w
                invariant
                    self@.wf(),
                    v0 == self@,
                    w as nat == v0.width,
                    h as nat == v0.height,
                    y < h,
                    x <= w,
                    out@.len() == 4 * ((y as int) * (w as int) + (x as int)),
                    forall|xx: int, yy: int, cc: int|
                        0 <= xx < w && 0 <= cc < 3
                            && ((0 <= yy < y) || (yy == y && 0 <= xx < x))
                            ==> #[trigger] chan(out@, w as int, xx, yy, cc) as int
                                == kernel_at(k, v0, xx, yy, cc),
                    forall|xx: int, yy: int|
                        0 <= xx < w && ((0 <= yy < y) || (yy == y && 0 <= xx < x))
                            ==> #[trigger] chan(out@, w as int, xx, yy, 3) == v0.at(xx, yy, 3),
                decreases w - x,
            {
                let r: u8 = self.kernel_byte(k, x, y, 0);
                let g: u8 = self.kernel_byte(k, x, y, 1);
                let b: u8 = self.kernel_byte(k, x, y, 2);
                let a: u8 = self.read_chan(x, y, 3);
                let ghost prev = out@;
                out.push(r);
                out.push(g);
                out.push(b);
                out.push(a);
                proof {
                    lemma_pixel_append(prev, r, g, b, a, w as int, x as int, y as int);
                    assert forall|xx: int, yy: int, cc: int|
                        0 <= xx < w && 0 <= cc < 3
                            && ((0 <= yy < y) || (yy == y && 0 <= xx < x + 1))
                        implies #[trigger] chan(out@, w as int, xx, yy, cc) as int
                            == kernel_at(k, v0, xx, yy, cc) by {
                        if !(yy == y && xx == x) {
                            assert(chan(out@, w as int, xx, yy, cc)
                                == chan(prev, w as int, xx, yy, cc));
                        }
                    }
                    assert forall|xx: int, yy: int|
                        0 <= xx < w && ((0 <= yy < y) || (yy == y && 0 <= xx < x + 1))
                        implies #[trigger] chan(out@, w as int, xx, yy, 3) == v0.at(xx, yy, 3) by {
                        if !(yy == y && xx == x) {
                            assert(chan(out@, w as int, xx, yy, 3)
                                == chan(prev, w as int, xx, yy, 3));
                        }
                    }
                }
                x += 1;
            }
            proof {
                assert(((y + 1) as int) * (w as int) == (y as int) * (w as int) + (w as int))
                    by (nonlinear_arith);
            }
            y += 1;
        }
        proof {
            assert(4 * ((h as int) * (w as int)) == 4 * (w as int) * (h as int))
                by (nonlinear_arith);
            assert(v0.pixels.len() == 4 * (v0.width as int) * (v0.height as int));
        }
        out
    }

    /// Box smooth (unweighted blur): every RGB byte becomes the truncated
    /// mean of its nine clamped neighborhood samples; alpha and dimensions
    /// are unchanged.
    pub fn filter_smooth(&mut self)
        requires
            old(self)@.wf(),
        ensures
            final(self)@.wf(),
            final(self)@.width == old(self)@.width,
            final(self)@.height == old(self)@.height,
            final(self)@.pixels.len() == old(self)@.pixels.len(),
            forall|x: int, y: int, c: int|
                0 <= x < old(self)@.width && 0 <= y < old(self)@.height && 0 <= c < 3
                    ==> #[trigger] final(self)@.at(x, y, c) as int == smooth_at(old(self)@, x, y, c),
            forall|x: int, y: int|
                0 <= x < old(self)@.width && 0 <= y < old(self)@.height
                    ==> #[trigger] final(self)@.at(x, y, 3) == old(self)@.at(x, y, 3),
    {
        let out: Vec<u8> = self.conv_buffer(Kernel::Smooth);
        self.replace_data(out);
    }

    /// Gaussian blur: every RGB byte becomes the `[[1,2,1],[2,4,2],[1,2,1]]`
    /// weighted sum of its nine clamped samples divided by 16, truncating;
    /// alpha and dimensions are unchanged.
    pub fn filter_gaussian_blur(&mut self)
        requires
            old(self)@.wf(),
        ensures
            final(self)@.wf(),
            final(self)@.width == old(self)@.width,
            final(self)@.height == old(self)@.height,
            final(self)@.pixels.len() == old(self)@.pixels.len(),
            forall|x: int, y: int, c: int|
                0 <= x < old(self)@.width && 0 <= y < old(self)@.height && 0 <= c < 3
                    ==> #[trigger] final(self)@.at(x, y, c) as int
                        == gaussian_at(old(self)@, x, y, c),
            forall|x: int, y: int|
                0 <= x < old(self)@.width && 0 <= y < old(self)@.height
                    ==> #[trigger] final(self)@.at(x, y, 3) == old(self)@.at(x, y, 3),
    {
        let out: Vec<u8> = self.conv_buffer(Kernel::Gaussian);
        self.replace_data(out);
    }

    /// Sobel edge magnitude: every RGB byte becomes the floor of
    /// `sqrt(gx^2 + gy^2)` of its channel, clamped to 255; alpha and
    /// dimensions are unchanged.
    pub fn filter_sobel(&mut self)
        requires
            old(self)@.wf(),
        ensures
            final(self)@.wf(),
            final(self)@.width == old(self)@.width,
            final(self)@.height == old(self)@.height,
            final(self)@.pixels.len() == old(self)@.pixels.len(),
            forall|x: int, y: int, c: int|
                0 <= x < old(self)@.width && 0 <= y < old(self)@.height && 0 <= c < 3
                    ==> #[trigger] final(self)@.at(x, y, c) as int == sobel_at(old(self)@, x, y, c),
            forall|x: int, y: int|
                0 <= x < old(self)@.width && 0 <= y < old(self)@.height
                    ==> #[trigger] final(self)@.at(x, y, 3) == old(self)@.at(x, y, 3),
    {
        let out: Vec<u8> = self.conv_buffer(Kernel::Sobel);
        self.replace_data(out);
    }

    /// Median filter: every RGB byte becomes the middle element of the
    /// ascending rearrangement of its nine clamped samples; alpha and
    /// dimensions are unchanged.
    pub fn filter_median(&mut self)
        requires
            old(self)@.wf(),
        ensures
            final(self)@.wf(),
            final(self)@.width == old(self)@.width,
            final(self)@.height == old(self)@.height,
            final(self)@.pixels.len() == old(self)@.pixels.len(),
            forall|x: int, y: int, c: int|
                0 <= x < old(self)@.width && 0 <= y < old(self)@.height && 0 <= c < 3
                    ==> #[trigger] final(self)@.at(x, y, c) == median_at(old(self)@, x, y, c),
            forall|x: int, y: int|
                0 <= x < old(self)@.width && 0 <= y < old(self)@.height
                    ==> #[trigger] final(self)@.at(x, y, 3) == old(self)@.at(x, y, 3),
    {
        let out: Vec<u8> = self.conv_buffer(Kernel::Median);
        self.replace_data(out);
    }

    /// High-pass sharpen: a high-pass pass (weight `8/9` at the center,
    /// `-1/9` at the other eight samples, cut off at zero) is computed into
    /// a scratch buffer from the original, then added to the original RGB
    /// bytes with saturating addition; alpha and dimensions are unchanged.
    pub fn filter_highpass_sharpen(&mut self)
        requires
            old(self)@.wf(),
        ensures
            final(self)@.wf(),
            final(self)@.width == old(self)@.width,
            final(self)@.height == old(self)@.height,
            final(self)@.pixels.len() == old(self)@.pixels.len(),
            forall|x: int, y: int, c: int|
                0 <= x < old(self)@.width && 0 <= y < old(self)@.height && 0 <= c < 3
                    ==> #[trigger] final(self)@.at(x, y, c) as int
                        == sharpen_at(old(self)@, x, y, c),
            forall|x: int, y: int|
                0 <= x < old(self)@.width && 0 <= y < old(self)@.height
                    ==> #[trigger] final(self)@.at(x, y, 3) == old(self)@.at(x, y, 3),
    {
        let ghost v0 = self@;
        let ghost orig = self@.pixels;
        let ghost npix: nat = self@.width * self@.height;
        let hp: Vec<u8> = self.conv_buffer(Kernel::Highpass);
        let total: usize = self.as_bytes().len();
        proof {
            lemma_mul_is_associative(4, self@.width as int, self@.height as int);
            assert(total == 4 * npix);
            assert((4 * npix as int) / 4 == npix) by (nonlinear_arith);
        }
        let count: usize = total / 4;
        let mut out: Vec<u8> = Vec::new();
        let mut p: usize = 0;
        while p < count
            invariant
                self@.wf(),
                v0 == self@,
                orig == self@.pixels,
                npix == v0.width * v0.height,
                count == npix,
                orig.len() == 4 * npix,
                hp@.len() == orig.len(),
                p <= count,
                out@.len() == 4 * (p as int),
                forall|q: int, c: int|
                    0 <= q < p && 0 <= c < 3
                        ==> #[trigger] pchan(out@, q, c) as int
                            == (if pchan(orig, q, c) + pchan(hp@, q, c) > 255 {
                                255int
                            } else {
                                pchan(orig, q, c) + pchan(hp@, q, c)
                            }),
                forall|q: int|
                    0 <= q < p ==> #[trigger] pchan(out@, q, 3) == pchan(orig, q, 3),
            decreases count - p,
        {
            let total_now: usize = self.as_bytes().len();
            proof {
                assert(total_now == 4 * npix);
            }
            let i: usize = 4 * p;
            let b0: u8 = self.as_bytes()[i].saturating_add(hp[i]);
            let b1: u8 = self.as_bytes()[i + 1].saturating_add(hp[i + 1]);
            let b2: u8 = self.as_bytes()[i + 2].saturating_add(hp[i + 2]);
            let b3: u8 = self.as_bytes()[i + 3];
            let ghost prev = out@;
            out.push(b0);
            out.push(b1);
            out.push(b2);
            out.push(b3);
            proof {
                assert forall|q: int, c: int| 0 <= q < p && 0 <= c < 4
                    implies #[trigger] pchan(out@, q, c) == pchan(prev, q, c) by {
                    assert(4 * q + c < 4 * p);
                }
                assert(pchan(out@, p as int, 0) == b0);
                assert(pchan(out@, p as int, 1) == b1);
                assert(pchan(out@, p as int, 2) == b2);
                assert(pchan(out@, p as int, 3) == b3);
            }
            p += 1;
        }
        self.replace_data(out);
        proof {
            assert forall|x: int, y: int, c: int|
                0 <= x < v0.width && 0 <= y < v0.height && 0 <= c < 3
                implies #[trigger] final(self)@.at(x, y, c) as int == sharpen_at(v0, x, y, c) by {
                lemma_pixel_in_range(v0.width as int, v0.height as int, x, y, c);
                let q = y * (v0.width as int) + x;
                assert(pchan(hp@, q, c) == chan(hp@, v0.width as int, x, y, c));
                assert(pchan(hp@, q, c) as int == hp_at(v0, x, y, c));
            }
            assert forall|x: int, y: int|
                0 <= x < v0.width && 0 <= y < v0.height
                implies #[trigger] final(self)@.at(x, y, 3) == v0.at(x, y, 3) by {
                lemma_pixel_in_range(v0.width as int, v0.height as int, x, y, 3);
            }
        }
    }
}

} // verus!
