//! The RGBA8 pixel buffer: a flat, row-major byte raster with interleaved
//! R,G,B,A channels and no padding, together with its mathematical view and
//! the channel-addressing model every transform is specified against.

use vstd::prelude::*;

use crate::ops::DecodeError;
use crate::ops::ColorComponent;

verus! {

/// The mathematical content of a pixel buffer: the byte sequence and the
/// raster dimensions.
pub struct ImageView {
    pub pixels: Seq<u8>,
    pub width: nat,
    pub height: nat,
}

/// The byte of channel `c` of the pixel with linear pixel index `p` in a
/// packed RGBA8 byte sequence.
pub open spec fn pchan(s: Seq<u8>, p: int, c: int) -> u8 {
    s[4 * p + c]
}

/// The byte of channel `c` of the pixel at column `x`, row `y` in a packed
/// row-major RGBA8 byte sequence of row length `w` pixels.
pub open spec fn chan(s: Seq<u8>, w: int, x: int, y: int, c: int) -> u8 {
    pchan(s, y * w + x, c)
}

impl ImageView {
    /// The buffer invariant: positive dimensions and exactly four bytes per
    /// pixel, `pixels.len() == width * height * 4`.
    pub open spec fn wf(self) -> bool {
        &&& self.pixels.len() == 4 * self.width * self.height
        &&& self.width >= 1
        &&& self.height >= 1
    }

    /// The byte of channel `c` of the pixel at column `x`, row `y`.
    pub open spec fn at(self, x: int, y: int, c: int) -> u8 {
        chan(self.pixels, self.width as int, x, y, c)
    }

    /// True when the coordinates address a channel byte of the raster.
    pub open spec fn in_range(self, x: int, y: int, c: int) -> bool {
        &&& 0 <= x < self.width
        &&& 0 <= y < self.height
        &&& 0 <= c < 4
    }
}

/// Every channel byte of a pixel inside the raster lies inside the buffer:
/// the linear byte index of channel `c` at `(x, y)` is below `4 * w * h`.
pub proof fn lemma_pixel_in_range(w: int, h: int, x: int, y: int, c: int)
    requires
        0 <= x < w,
        0 <= y < h,
        0 <= c < 4,
    ensures
        0 <= y * w + x < w * h,
        0 <= 4 * (y * w + x) + c < 4 * w * h,
{
    assert(0 <= y * w + x < w * h && 4 * (y * w + x) + 4 <= 4 * w * h) by (nonlinear_arith)
        requires 0 <= x < w, 0 <= y < h,
    ;
}

/// Pixels are written in row-major order: a pixel strictly before `(x, y)`
/// in that order has a strictly smaller linear pixel index.
pub proof fn lemma_pixel_order(w: int, x: int, y: int, xx: int, yy: int)
    requires
        0 <= xx < w,
        0 <= x <= w,
        0 <= yy,
        yy < y || (yy == y && xx < x),
    ensures
        yy * w + xx < y * w + x,
{
    if yy < y {
        assert(yy * w + w <= y * w) by (nonlinear_arith)
            requires yy < y, 0 <= w,
        ;
    }
}

/// Appending the four channel bytes of the pixel `(x, y)` to a buffer that
/// holds exactly the pixels before it (row-major) defines that pixel's
/// channels and leaves every earlier pixel's channels unchanged.
pub proof fn lemma_pixel_append(prev: Seq<u8>, v0: u8, v1: u8, v2: u8, v3: u8, w: int, x: int, y: int)
    requires
        0 <= x < w,
        0 <= y,
        prev.len() == 4 * (y * w + x),
    ensures
        ({
            let s = prev.push(v0).push(v1).push(v2).push(v3);
            &&& s.len() == 4 * (y * w + x + 1)
            &&& chan(s, w, x, y, 0) == v0
            &&& chan(s, w, x, y, 1) == v1
            &&& chan(s, w, x, y, 2) == v2
            &&& chan(s, w, x, y, 3) == v3
            &&& forall|xx: int, yy: int, c: int|
                0 <= xx < w && 0 <= yy && 0 <= c < 4 && (yy < y || (yy == y && xx < x))
                    ==> #[trigger] chan(s, w, xx, yy, c) == chan(prev, w, xx, yy, c)
        }),
{
    let s = prev.push(v0).push(v1).push(v2).push(v3);
    assert forall|xx: int, yy: int, c: int|
        0 <= xx < w && 0 <= yy && 0 <= c < 4 && (yy < y || (yy == y && xx < x))
        implies #[trigger] chan(s, w, xx, yy, c) == chan(prev, w, xx, yy, c) by {
        lemma_pixel_order(w, x, y, xx, yy);
        lemma_pixel_in_range(w, y + 1, xx, yy, c);
    }
}

/// The pixel buffer: a packed RGBA8 raster in row-major order, together
/// with its dimensions. The invariant `wf` of its view holds whenever a
/// buffer has been built by one of the constructors, and every transform
/// preserves it.
pub struct Image {
    data: Vec<u8>,
    width: u32,
    height: u32,
}

impl View for Image {
    type V = ImageView;

    closed spec fn view(&self) -> ImageView {
        ImageView {
            pixels: self.data@,
            width: self.width as nat,
            height: self.height as nat,
        }
    }
}

#[verifier::external_type_specification]
#[verifier::external_body]
pub struct ExImageError(image::ImageError);

/// Relies on `image::load_from_memory` and `image::DynamicImage::to_rgba8`:
/// the call either fails or yields an RGBA8 raster whose buffer holds
/// exactly `width * height` packed 4-byte pixels, whatever the source
/// channel layout. Which byte streams decode, and to what, is decided by
/// the codec (its format handlers can even be extended at run time), so
/// nothing beyond the shape of an `Ok` outcome is assumed.
#[verifier::external_body]
fn decode_bytes(data: &Vec<u8>) -> (r: Result<(Vec<u8>, u32, u32), image::ImageError>)
    ensures
        r is Ok ==> ({
            let (v, w, h) = r->Ok_0;
            v@.len() == 4 * (w as int) * (h as int)
        }),
{
    match image::load_from_memory(data.as_slice()) {
        Ok(img) => {
            let rgba = img.to_rgba8();
            let w = rgba.width();
            let h = rgba.height();
            Ok((rgba.into_raw(), w, h))
        }
        Err(e) => Err(e),
    }
}

impl Image {
    /// Decodes a compressed byte stream into a pixel buffer.
    ///
    /// The raster is forced to RGBA8 regardless of the source channel
    /// layout. The codec decides which streams decode; on any successful
    /// decode the result is a well-formed buffer holding exactly the
    /// codec's raster. Bytes the codec cannot recognize or decode yield
    /// `DecodeError::Malformed`; a decode to a raster with a zero
    /// dimension yields `DecodeError::EmptyDimensions`, since the buffer
    /// invariant asks for positive dimensions. Everything from the decoded
    /// plain values onward goes through the verified `from_raw`.
    pub fn new_with_data(data: Vec<u8>) -> (r: Result<Image, DecodeError>)
        ensures
            r is Ok ==> r->Ok_0@.wf(),
    {
        match decode_bytes(&data) {
            Err(_) => Err(DecodeError::Malformed),
            Ok((pixels, width, height)) => match Image::from_raw(pixels, width, height) {
                Some(img) => Ok(img),
                None => Err(DecodeError::EmptyDimensions),
            },
        }
    }

    /// Builds a pixel buffer directly from decoded RGBA8 bytes.
    ///
    /// Returns `None` exactly when the arguments violate the buffer
    /// invariant: a zero dimension, or a byte length other than
    /// `width * height * 4`.
    pub fn from_raw(pixels: Vec<u8>, width: u32, height: u32) -> (r: Option<Image>)
        ensures
            r is Some <==> (pixels@.len() == 4 * width * height && width >= 1 && height >= 1),
            r is Some ==> ({
                &&& r->0@.wf()
                &&& r->0@.pixels == pixels@
                &&& r->0@.width == width as nat
                &&& r->0@.height == height as nat
            }),
    {
        proof {
            assert(4 * (width as int) * (height as int) <= 4 * 0xffff_ffff * 0xffff_ffff)
                by (nonlinear_arith)
                requires width <= 0xffff_ffffu32, height <= 0xffff_ffffu32,
            ;
        }
        let expected: u128 = 4 * (width as u128) * (height as u128);
        if width >= 1 && height >= 1 && (pixels.len() as u128) == expected {
            Some(Image { data: pixels, width, height })
        } else {
            None
        }
    }

    /// Width of the raster in pixels.
    pub fn width(&self) -> (r: u32)
        ensures
            r as nat == self@.width,
    {
        self.width
    }

    /// Height of the raster in pixels.
    pub fn height(&self) -> (r: u32)
        ensures
            r as nat == self@.height,
    {
        self.height
    }

    /// The packed RGBA8 bytes, row-major, four bytes per pixel.
    pub fn as_bytes(&self) -> (r: &Vec<u8>)
        ensures
            r@ == self@.pixels,
    {
        &self.data
    }

    /// Computes the linear byte index of channel `c` at column `x`, row `y`.
    pub(crate) fn chan_index(&self, x: u32, y: u32, c: usize) -> (r: usize)
        requires
            self@.wf(),
            x < self@.width,
            y < self@.height,
            c < 4,
        ensures
            r == 4 * ((y as int) * (self@.width as int) + (x as int)) + c,
            r < self@.pixels.len(),
    {
        proof {
            lemma_pixel_in_range(
                self@.width as int,
                self@.height as int,
                x as int,
                y as int,
                c as int,
            );
            assert(self@.pixels.len() == 4 * (self@.width as int) * (self@.height as int));
        }
        let len: usize = self.data.len();
        let p: usize = (y as usize) * (self.width as usize) + (x as usize);
        4 * p + c
    }

    /// Reads the channel byte at column `x`, row `y`, channel offset `c`.
    pub(crate) fn read_chan(&self, x: u32, y: u32, c: usize) -> (r: u8)
        requires
            self@.wf(),
            x < self@.width,
            y < self@.height,
            c < 4,
        ensures
            r == self@.at(x as int, y as int, c as int),
    {
        let i: usize = self.chan_index(x, y, c);
        self.data[i]
    }

    /// Replaces the byte buffer with one of the same length, keeping the
    /// dimensions; the transforms use it to install a freshly computed pass.
    pub(crate) fn replace_data(&mut self, data: Vec<u8>)
        requires
            data@.len() == old(self)@.pixels.len(),
        ensures
            final(self)@.pixels == data@,
            final(self)@.width == old(self)@.width,
            final(self)@.height == old(self)@.height,
    {
        self.data = data;
    }

    /// Writes one channel byte in place; used by the in-place point passes.
    pub(crate) fn write_byte(&mut self, i: usize, v: u8)
        requires
            i < old(self)@.pixels.len(),
        ensures
            final(self)@.pixels == old(self)@.pixels.update(i as int, v),
            final(self)@.width == old(self)@.width,
            final(self)@.height == old(self)@.height,
    {
        self.data[i] = v;
    }

    /// Reads the channel byte of `component` of the pixel at `(x, y)`.
    pub fn get(&self, x: u32, y: u32, component: ColorComponent) -> (r: u8)
        requires
            self@.wf(),
            x < self@.width,
            y < self@.height,
        ensures
            r == self@.at(x as int, y as int, component.spec_offset()),
    {
        self.read_chan(x, y, component.offset())
    }

    /// Writes the channel byte of `component` of the pixel at `(x, y)`,
    /// leaving every other byte and the dimensions unchanged.
    pub fn set(&mut self, x: u32, y: u32, component: ColorComponent, value: u8)
        requires
            old(self)@.wf(),
            x < old(self)@.width,
            y < old(self)@.height,
        ensures
            final(self)@.wf(),
            final(self)@.width == old(self)@.width,
            final(self)@.height == old(self)@.height,
            final(self)@.pixels == old(self)@.pixels.update(
                4 * ((y as int) * (old(self)@.width as int) + (x as int)) + component.spec_offset(),
                value,
            ),
    {
        let i: usize = self.chan_index(x, y, component.offset());
        self.data[i] = value;
    }
}

} // verus!
