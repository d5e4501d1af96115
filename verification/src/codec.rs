//! The image codec boundary: decoding PNG bytes into a `Bitmap` and encoding
//! a `Bitmap` back to PNG bytes. Only 8-bit-per-channel RGB images are
//! supported; the row stride of a decoded buffer is the decoder's reported
//! scanline size, not recomputed from the width.

use vstd::prelude::*;
use vstd::arithmetic::div_mod::{lemma_fundamental_div_mod_converse};
use crate::raster::{Bitmap, GfxError, bitmap_wf, pix_off, pixel};

verus! {

/// What the PNG decoder reports for one image, with the color type and bit
/// depth as the PNG standard's own numeric codes (color type 2 is RGB).
pub struct RawImage {
    pub width: u32,
    pub height: u32,
    pub line_size: usize,
    pub color: u8,
    pub depth: u8,
    pub data: Vec<u8>,
}

/// What decoding a PNG byte stream yields: `None` where the stream is
/// malformed, else the image's width, height, scanline size, color code,
/// bit depth and decoded bytes. Decoding is a pure function of the bytes.
pub uninterp spec fn png_parsed(data: Seq<u8>) -> Option<(u32, u32, int, u8, u8, Seq<u8>)>;

/// Relies on png::Decoder and png::decoder::Reader::next_frame: decoding
/// depends on the input bytes alone; the decoded buffer holds `line_size`
/// bytes per row, and for 8-bit RGB output the scanline size is exactly
/// `3 * width`.
#[verifier::external_body]
fn png_read_raw(data: &[u8]) -> (r: Option<RawImage>)
    ensures
        r is Some <==> png_parsed(data@) is Some,
        r matches Some(img) ==> {
            &&& png_parsed(data@) == Some(
                (img.width, img.height, img.line_size as int, img.color, img.depth, img.data@),
            )
            &&& img.data@.len() == (img.line_size as int) * (img.height as int)
            &&& (img.color == 2 && img.depth == 8 ==> img.line_size as int == 3 * (
            img.width as int))
        },
{
    let decoder = png::Decoder::new(std::io::Cursor::new(data));
    let mut reader = match decoder.read_info() { Ok(r) => r, Err(_) => return None };
    let size = match reader.output_buffer_size() { Some(s) => s, None => return None };
    let mut buf = vec![0u8; size];
    let info = match reader.next_frame(&mut buf) { Ok(i) => i, Err(_) => return None };
    buf.truncate(info.buffer_size());
    Some(RawImage { width: info.width, height: info.height, line_size: info.line_size,
        color: info.color_type as u8, depth: info.bit_depth as u8, data: buf })
}

/// Relies on png::Encoder: writing an 8-bit RGB image whose data length is
/// `3 * width * height` into a Vec sink fails exactly when a dimension is
/// zero; and on PNG being lossless: the produced bytes decode back to the
/// same dimensions and the same tightly packed pixel bytes. The round trip
/// is stated only for scanlines under the decoder's default 64 MiB
/// allocation limit, which the decoder charges one output scanline against;
/// a wider image still encodes, but decoding it back would be refused.
#[verifier::external_body]
fn png_write_raw(width: u32, height: u32, data: &Vec<u8>) -> (r: Option<Vec<u8>>)
    requires
        data@.len() == 3 * (width as int) * (height as int),
    ensures
        (r is Some) <==> (width > 0 && height > 0),
        3 * (width as int) < 0x4000000 ==> (r matches Some(v) ==> png_parsed(v@) == Some(
            (width, height, 3 * (width as int), 2u8, 8u8, data@),
        )),
{
    let mut out: Vec<u8> = Vec::new();
    let mut enc = png::Encoder::new(&mut out, width, height);
    enc.set_color(png::ColorType::Rgb);
    enc.set_depth(png::BitDepth::Eight);
    let mut writer = match enc.write_header() { Ok(w) => w, Err(_) => return None };
    if writer.write_image_data(data.as_slice()).is_err() { return None }
    if writer.finish().is_err() { return None }
    Some(out)
}

/// The pixel bytes of a buffer with the row padding removed: row `y`'s
/// `3 * width` pixel bytes follow row `y - 1`'s immediately.
pub open spec fn packed_bytes(b: Bitmap) -> Seq<u8> {
    Seq::new(
        (3 * (b.width as int) * (b.height as int)) as nat,
        |t: int|
            b.pixels@[(t / (3 * (b.width as int))) * (b.pitch as int) + t % (3 * (b.width as int))],
    )
}

/// Decodes a PNG byte stream into a `Bitmap`. Fails with `DecodeFailed` on a
/// malformed stream and with `Unsupported` on any color mode other than
/// 8-bit-per-channel RGB; the returned buffer's stride is the decoder's
/// reported scanline size.
pub fn png_load(data: &[u8]) -> (res: Result<Bitmap, GfxError>)
    ensures
        res is Ok <==> (png_parsed(data@) matches Some(t) && t.3 == 2 && t.4 == 8),
        res matches Ok(b) ==> {
            &&& png_parsed(data@) matches Some(t)
            &&& b.width == t.0
            &&& b.height == t.1
            &&& b.pitch as int == t.2
            &&& b.pixels@ == t.5
            &&& bitmap_wf(b)
        },
        res == Err::<Bitmap, GfxError>(GfxError::DecodeFailed) <==> png_parsed(data@) is None,
        res == Err::<Bitmap, GfxError>(GfxError::Unsupported) <==> (png_parsed(data@) matches Some(
            t,
        ) && !(t.3 == 2 && t.4 == 8)),
{
    match png_read_raw(data) {
        None => Err(GfxError::DecodeFailed),
        Some(img) => {
            if img.color == 2 && img.depth == 8 {
                Ok(
                    Bitmap {
                        width: img.width,
                        height: img.height,
                        pitch: img.line_size,
                        pixels: img.data,
                    },
                )
            } else {
                Err(GfxError::Unsupported)
            }
        },
    }
}

/// Encodes a buffer to PNG bytes, always 8-bit RGB and tightly packed,
/// reading the source rows through the buffer's own stride. Fails with
/// `EncodeFailed` exactly when the buffer has zero width or height; on
/// success the bytes decode back to the same image, for every width whose
/// packed scanline stays under the decoder's default allocation limit.
pub fn png_encode(b: &Bitmap) -> (res: Result<Vec<u8>, GfxError>)
    requires
        bitmap_wf(*b),
    ensures
        res is Ok <==> b.width > 0 && b.height > 0,
        3 * (b.width as int) < 0x4000000 ==> (res matches Ok(v) ==> png_parsed(v@) == Some(
            (b.width, b.height, 3 * (b.width as int), 2u8, 8u8, packed_bytes(*b)),
        )),
{
    let w3: usize = 3 * (b.width as usize);
    let len = b.pixels.len();
    proof {
        assert((w3 as int) * (b.height as int) <= (b.pitch as int) * (b.height as int))
            by (nonlinear_arith)
            requires
                w3 as int <= b.pitch as int,
                0 <= b.height as int,
        ;
    }
    let total: usize = w3 * (b.height as usize);
    let mut packed: Vec<u8> = Vec::new();
    let mut j: u32 = 0;
    while j < b.height
        invariant
            bitmap_wf(*b),
            w3 as int == 3 * (b.width as int),
            total as int == (w3 as int) * (b.height as int),
            len == b.pixels@.len(),
            j <= b.height,
            packed@.len() == (j as int) * (w3 as int),
            forall|t: int| 0 <= t < packed@.len() ==> packed@[t] == #[trigger] packed_bytes(*b)[t],
        decreases b.height - j,
    {
        proof {
            assert((j as int) * (w3 as int) + (w3 as int) <= total as int
                && (j as int) * (b.pitch as int) + (b.pitch as int) <= (b.pitch as int) * (
            b.height as int)) by (nonlinear_arith)
                requires
                    0 <= j as int,
                    (j as int) < b.height as int,
                    0 <= w3 as int,
                    total as int == (w3 as int) * (b.height as int),
                    0 <= b.pitch as int,
            ;
        }
        let row = (j as usize) * b.pitch;
        let mut t: usize = 0;
        while t < w3
            invariant
                bitmap_wf(*b),
                w3 as int == 3 * (b.width as int),
                len == b.pixels@.len(),
                j < b.height,
                t <= w3,
                w3 <= b.pitch,
                row as int == (j as int) * (b.pitch as int),
                row + b.pitch <= len,
                packed@.len() == (j as int) * (w3 as int) + t as int,
                forall|u: int|
                    0 <= u < packed@.len() ==> packed@[u] == #[trigger] packed_bytes(*b)[u],
            decreases w3 - t,
        {
            let byte = b.pixels[row + t];
            packed.push(byte);
            proof {
                let u = (j as int) * (w3 as int) + t as int;
                assert(0 <= u && u < (3 * (b.width as int)) * (b.height as int))
                    by (nonlinear_arith)
                    requires
                        0 <= t as int,
                        (t as int) < w3 as int,
                        0 <= j as int,
                        (j as int) < b.height as int,
                        w3 as int == 3 * (b.width as int),
                        u == (j as int) * (w3 as int) + t as int,
                ;
                lemma_fundamental_div_mod_converse(u, w3 as int, j as int, t as int);
                assert(packed_bytes(*b)[u] == byte);
            }
            t = t + 1;
        }
        proof {
            assert((j as int + 1) * (w3 as int) == (j as int) * (w3 as int) + w3 as int)
                by (nonlinear_arith);
        }
        j = j + 1;
    }
    proof {
        assert((b.height as int) * (w3 as int) == (3 * (b.width as int)) * (b.height as int))
            by (nonlinear_arith)
            requires
                w3 as int == 3 * (b.width as int),
        ;
        assert(packed@ =~= packed_bytes(*b));
    }
    match png_write_raw(b.width, b.height, &packed) {
        Some(v) => Ok(v),
        None => Err(GfxError::EncodeFailed),
    }
}

/// Law: decoding the bytes that encoding produced round-trips. The buffer
/// that `png_load` yields for `png_encode`'s output — same width and height,
/// a tightly packed stride of `3 * width`, and `packed_bytes` of the original
/// as its storage — is well formed and agrees with the original buffer on
/// every pixel.
pub proof fn lemma_codec_round_trip(b: Bitmap, d: Bitmap)
    requires
        bitmap_wf(b),
        d.width == b.width,
        d.height == b.height,
        d.pitch as int == 3 * (b.width as int),
        d.pixels@ == packed_bytes(b),
    ensures
        bitmap_wf(d),
        forall|x: int, y: int|
            0 <= x < b.width as int && 0 <= y < b.height as int ==> #[trigger] pixel(d, x, y)
                == pixel(b, x, y),
{
    let w3 = 3 * (b.width as int);
    assert(d.pixels@.len() == (d.pitch as int) * (d.height as int)) by (nonlinear_arith)
        requires
            d.pixels@.len() == w3 * (b.height as int),
            d.pitch as int == w3,
            d.height == b.height,
    ;
    assert forall|x: int, y: int|
        0 <= x < b.width as int && 0 <= y < b.height as int implies #[trigger] pixel(d, x, y)
        == pixel(b, x, y) by {
        lemma_packed_byte(b, x, y, 0);
        lemma_packed_byte(b, x, y, 1);
        lemma_packed_byte(b, x, y, 2);
    }
}

/// One byte of `packed_bytes` read back: byte `c` of pixel `(x, y)` in the
/// packed form equals byte `c` of that pixel in the original storage.
proof fn lemma_packed_byte(b: Bitmap, x: int, y: int, c: int)
    requires
        bitmap_wf(b),
        0 <= x < b.width as int,
        0 <= y < b.height as int,
        0 <= c < 3,
    ensures
        packed_bytes(b)[y * (3 * (b.width as int)) + 3 * x + c] == b.pixels@[pix_off(
            b.pitch as int,
            x,
            y,
        ) + c],
{
    let w3 = 3 * (b.width as int);
    let t = y * w3 + 3 * x + c;
    assert(0 <= t && t + 3 - c <= w3 * (b.height as int)) by (nonlinear_arith)
        requires
            0 <= x < b.width as int,
            0 <= y < b.height as int,
            0 <= c < 3,
            w3 == 3 * (b.width as int),
            t == y * w3 + 3 * x + c,
    ;
    lemma_fundamental_div_mod_converse(t, w3, y, 3 * x + c);
    assert(packed_bytes(b)[t] == b.pixels@[y * (b.pitch as int) + 3 * x + c]);
}

} // verus!
