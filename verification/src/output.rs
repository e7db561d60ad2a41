//! The finished, immutable rendered image and its encodings.

use base64::Engine;
use vstd::prelude::*;
use vstd::string::StringExecFns;

use crate::color::Color;
use crate::error::RenderError;

verus! {

/// The RGBA bytes of a pixel sequence, four bytes per pixel in order.
pub open spec fn spec_rgba_bytes(pix: Seq<Color>) -> Seq<u8>
    decreases pix.len(),
{
    if pix.len() == 0 {
        Seq::empty()
    } else {
        spec_rgba_bytes(pix.drop_last()) + seq![
            pix.last().r,
            pix.last().g,
            pix.last().b,
            pix.last().a,
        ]
    }
}

/// The PNG encoding of an RGBA byte buffer with the given dimensions, as
/// the image encoder produces it: a function of the bytes and dimensions
/// alone.
pub uninterp spec fn png_encoding(rgba: Seq<u8>, width: int, height: int) -> Seq<u8>;

/// The standard padded base64 encoding of a byte sequence.
pub uninterp spec fn base64_encoding(bytes: Seq<u8>) -> Seq<char>;

/// Relies on image::RgbaImage::from_raw and ImageBuffer::write_to with
/// the PNG format: deterministically encodes the RGBA bytes as a PNG.
/// `from_raw` is `None` exactly when the buffer length does not match
/// the dimensions (ruled out here), and the PNG encoder writing into a
/// `Vec` fails exactly when the width or the height is zero, so success
/// is equivalent to both dimensions being positive. The error, if any,
/// is rendered to its message text.
#[verifier::external_body]
fn encode_png(width: u32, height: u32, rgba: Vec<u8>) -> (r: Result<Vec<u8>, String>)
    requires
        rgba@.len() == 4 * (width as int) * (height as int),
    ensures
        r matches Ok(v) ==> v@ == png_encoding(rgba@, width as int, height as int),
        r is Ok == (width >= 1 && height >= 1),
{
    let img = match image::RgbaImage::from_raw(width, height, rgba) {
        Some(img) => img,
        Option::None => {
            return Err("pixel buffer does not match the dimensions".to_string());
        },
    };
    let mut out = Vec::new();
    match img.write_to(&mut std::io::Cursor::new(&mut out), image::ImageFormat::Png) {
        Ok(()) => Ok(out),
        Err(e) => Err(format!("{e}")),
    }
}

/// Relies on base64's standard engine (`general_purpose::STANDARD`):
/// deterministic padded base64, four output characters for every three
/// input bytes rounded up.
#[verifier::external_body]
fn encode_base64(bytes: &Vec<u8>) -> (r: String)
    ensures
        r@ == base64_encoding(bytes@),
        r@.len() == 4 * ((bytes@.len() + 2) / 3),
{
    base64::engine::general_purpose::STANDARD.encode(bytes)
}

/// A finished, immutable rendered image, ready to encode and ship.
///
/// Obtain one via [`crate::canvas::Canvas::finish`].
pub struct RenderedImage {
    width: u32,
    height: u32,
    pixels: Vec<Color>,
}

impl View for RenderedImage {
    type V = Seq<Color>;

    /// The image's pixels, row-major: the pixel at column `x`, row `y` is
    /// element `y * width + x`.
    closed spec fn view(&self) -> Seq<Color> {
        self.pixels@
    }
}

impl RenderedImage {
    /// Image width in pixels.
    pub closed spec fn spec_width(&self) -> u32 {
        self.width
    }

    /// Image height in pixels.
    pub closed spec fn spec_height(&self) -> u32 {
        self.height
    }

    /// The buffer holds exactly one pixel per grid cell.
    pub open spec fn wf(&self) -> bool {
        self@.len() == self.spec_width() * self.spec_height() && self.spec_width() <= 65535
            && self.spec_height() <= 65535
    }

    /// Package a pixel buffer as a rendered image (the tail end of
    /// finishing a canvas).
    pub(crate) fn from_parts(width: u32, height: u32, pixels: Vec<Color>) -> (img: RenderedImage)
        requires
            pixels@.len() == width * height,
            width <= 65535,
            height <= 65535,
        ensures
            img.wf(),
            img@ == pixels@,
            img.spec_width() == width,
            img.spec_height() == height,
    {
        RenderedImage { width, height, pixels }
    }

    /// Image width in pixels.
    pub fn width(&self) -> (w: u32)
        ensures
            w == self.spec_width(),
    {
        self.width
    }

    /// Image height in pixels.
    pub fn height(&self) -> (h: u32)
        ensures
            h == self.spec_height(),
    {
        self.height
    }

    /// Read the pixel at column `x`, row `y`.
    pub fn pixel(&self, x: u32, y: u32) -> (c: Color)
        requires
            self.wf(),
            x < self.spec_width(),
            y < self.spec_height(),
        ensures
            c == self@[y * self.spec_width() + x],
    {
        proof {
            crate::canvas::lemma_grid_in_range(
                x as int,
                y as int,
                self.spec_width() as int,
                self.spec_height() as int,
            );
            assert(self.spec_width() as int * self.spec_height() as int <= 65535 * 65535)
                by (nonlinear_arith)
                requires
                    self.spec_width() <= 65535,
                    self.spec_height() <= 65535;
        }
        self.pixels[(y as usize) * (self.width as usize) + (x as usize)]
    }

    /// Flatten the image into raw RGBA bytes, four per pixel in row-major
    /// order.
    pub fn to_rgba_bytes(&self) -> (v: Vec<u8>)
        requires
            self.wf(),
        ensures
            v@ == spec_rgba_bytes(self@),
            v@.len() == 4 * self@.len(),
    {
        proof {
            assert(self.spec_width() as int * self.spec_height() as int <= 65535 * 65535)
                by (nonlinear_arith)
                requires
                    self.spec_width() <= 65535,
                    self.spec_height() <= 65535;
        }
        let n: usize = self.pixels.len();
        let mut v: Vec<u8> = Vec::new();
        let mut i: usize = 0;
        proof {
            assert(v@ =~= spec_rgba_bytes(self@.take(0)));
        }
        while i < n
            invariant
                n == self@.len(),
                n <= 0x100000000,
                i <= n,
                v@ == spec_rgba_bytes(self@.take(i as int)),
                v@.len() == 4 * i,
            decreases n - i,
        {
            let c: Color = self.pixels[i];
            v.push(c.r);
            v.push(c.g);
            v.push(c.b);
            v.push(c.a);
            proof {
                assert(self@.take(i + 1).drop_last() =~= self@.take(i as int));
                assert(self@.take(i + 1).last() == self@[i as int]);
                assert(v@ =~= spec_rgba_bytes(self@.take(i as int)) + seq![c.r, c.g, c.b, c.a]);
            }
            i = i + 1;
        }
        proof {
            assert(self@.take(n as int) =~= self@);
        }
        v
    }

    /// Encode the image to PNG bytes: the PNG of exactly this image's
    /// RGBA bytes whenever both dimensions are positive, the encoder's
    /// error for a zero-sized image.
    pub fn to_png_bytes(&self) -> (r: Result<Vec<u8>, RenderError>)
        requires
            self.wf(),
        ensures
            r matches Ok(v) ==> v@ == png_encoding(
                spec_rgba_bytes(self@),
                self.spec_width() as int,
                self.spec_height() as int,
            ),
            r is Ok <==> self.spec_width() >= 1 && self.spec_height() >= 1,
            r is Err ==> r matches Err(RenderError::PngEncode(_)),
    {
        let rgba = self.to_rgba_bytes();
        proof {
            assert(4 * (self.spec_width() as int * (self.spec_height() as int)) == 4 * (
            self.spec_width() as int) * (self.spec_height() as int)) by (nonlinear_arith);
        }
        match encode_png(self.width, self.height, rgba) {
            Ok(v) => Ok(v),
            Err(message) => Err(RenderError::PngEncode(message)),
        }
    }

    /// Encode the image to a plain base64 string (no `data:` URI
    /// prefix): succeeds exactly when both dimensions are positive,
    /// otherwise the PNG encoder's error.
    pub fn to_base64(&self) -> (r: Result<String, RenderError>)
        requires
            self.wf(),
        ensures
            r matches Ok(s) ==> s@ == base64_encoding(
                png_encoding(
                    spec_rgba_bytes(self@),
                    self.spec_width() as int,
                    self.spec_height() as int,
                ),
            ),
            r is Ok <==> self.spec_width() >= 1 && self.spec_height() >= 1,
            r is Err ==> r matches Err(RenderError::PngEncode(_)),
    {
        match self.to_png_bytes() {
            Ok(png) => Ok(encode_base64(&png)),
            Err(e) => Err(e),
        }
    }

    /// Encode the image to a full PNG data URI
    /// (`data:image/png;base64,` followed by the base64 PNG): succeeds
    /// exactly when both dimensions are positive, otherwise the PNG
    /// encoder's error.
    pub fn to_data_url(&self) -> (r: Result<String, RenderError>)
        requires
            self.wf(),
        ensures
            r matches Ok(s) ==> s@ == "data:image/png;base64,"@ + base64_encoding(
                png_encoding(
                    spec_rgba_bytes(self@),
                    self.spec_width() as int,
                    self.spec_height() as int,
                ),
            ),
            r is Ok <==> self.spec_width() >= 1 && self.spec_height() >= 1,
            r is Err ==> r matches Err(RenderError::PngEncode(_)),
    {
        match self.to_base64() {
            Ok(b64) => Ok(String::from_str("data:image/png;base64,").concat(b64.as_str())),
            Err(e) => Err(e),
        }
    }
}

} // verus!
