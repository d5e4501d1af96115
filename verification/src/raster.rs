//! The raster data model: an owned rectangular pixel buffer with explicit row
//! stride, three bytes per pixel in (R, G, B) order, and the bounds-checked
//! addressing arithmetic that every other operation goes through.

use vstd::prelude::*;

verus! {

/// An owned rectangular pixel buffer. Each pixel occupies three bytes in
/// (R, G, B) order; `pitch` is the byte distance between the starts of
/// consecutive rows and may exceed the packed minimum `3 * width`.
pub struct Bitmap {
    pub width: u32,
    pub height: u32,
    pub pitch: usize,
    pub pixels: Vec<u8>,
}

/// Errors of the engine. Every one is fatal to the rendering pipeline.
#[derive(Clone, Copy, Debug, PartialEq, Eq)]
pub enum GfxError {
    /// The encoded image bytes are malformed.
    DecodeFailed,
    /// The encoded image is not 8-bit-per-channel RGB.
    Unsupported,
    /// The buffer could not be encoded (a zero-sized image).
    EncodeFailed,
    /// A character to draw has no entry in the font's charmap.
    GlyphMissing(char),
}

/// A buffer is well formed when every row of `width` pixels fits inside its
/// `pitch` bytes and the byte storage holds exactly `pitch` bytes per row.
pub open spec fn bitmap_wf(b: Bitmap) -> bool {
    &&& 3 * (b.width as int) <= b.pitch as int
    &&& b.pixels@.len() == (b.pitch as int) * (b.height as int)
}

/// The byte offset of pixel `(x, y)` in a buffer with row stride `pitch`.
pub open spec fn pix_off(pitch: int, x: int, y: int) -> int {
    y * pitch + 3 * x
}

/// The (R, G, B) value of pixel `(x, y)`.
pub open spec fn pixel(b: Bitmap, x: int, y: int) -> (u8, u8, u8) {
    (
        b.pixels@[pix_off(b.pitch as int, x, y)],
        b.pixels@[pix_off(b.pitch as int, x, y) + 1],
        b.pixels@[pix_off(b.pitch as int, x, y) + 2],
    )
}

/// Pixel coordinates that lie inside the buffer.
pub open spec fn in_bounds(b: Bitmap, x: int, y: int) -> bool {
    0 <= x < b.width as int && 0 <= y < b.height as int
}

/// Pixel coordinates that lie inside the rectangle of origin `(rx, ry)`,
/// width `w` and height `h`.
pub open spec fn in_rect(x: int, y: int, rx: int, ry: int, w: int, h: int) -> bool {
    rx <= x < rx + w && ry <= y < ry + h
}

/// Byte offset `k` lies in the span of `w` pixels starting at column `x`
/// of row `row`.
pub open spec fn in_row_span(k: int, pitch: int, row: int, x: int, w: int) -> bool {
    row * pitch + 3 * x <= k < row * pitch + 3 * x + 3 * w
}

/// Byte offset `k` lies in one of the row spans of the rectangle of origin
/// `(x, y)`, width `w` and height `h`: exactly the bytes a region operation
/// writes.
pub open spec fn in_region_bytes(k: int, pitch: int, x: int, y: int, w: int, h: int) -> bool {
    exists|j: int| 0 <= j < h && #[trigger] in_row_span(k, pitch, y + j, x, w)
}

/// For rows `a < b` and a nonnegative stride, row `a`'s byte range ends no
/// later than row `b`'s begins.
proof fn lemma_row_order(a: int, b: int, p: int)
    by (nonlinear_arith)
    requires
        a < b,
        0 <= p,
    ensures
        a * p + p <= b * p,
{
}

/// The three bytes of an in-bounds pixel lie within the buffer's storage.
pub proof fn lemma_pix_off_in_bounds(b: Bitmap, x: int, y: int)
    requires
        bitmap_wf(b),
        in_bounds(b, x, y),
    ensures
        0 <= pix_off(b.pitch as int, x, y),
        pix_off(b.pitch as int, x, y) + 3 <= b.pixels@.len(),
{
    let p = b.pitch as int;
    let h = b.height as int;
    assert(0 <= y * p && y * p + 3 * x + 3 <= p * h) by (nonlinear_arith)
        requires
            0 <= x,
            0 <= y,
            y < h,
            3 * x + 3 <= p,
    ;
}

/// Distinct in-bounds pixels of one buffer occupy disjoint byte triples.
pub proof fn lemma_pix_bytes_disjoint(pitch: int, width: int, x1: int, y1: int, x2: int, y2: int)
    requires
        3 * width <= pitch,
        0 <= x1 < width,
        0 <= y1,
        0 <= x2 < width,
        0 <= y2,
        x1 != x2 || y1 != y2,
    ensures
        pix_off(pitch, x1, y1) + 3 <= pix_off(pitch, x2, y2) || pix_off(pitch, x2, y2) + 3
            <= pix_off(pitch, x1, y1),
{
    if y1 < y2 {
        lemma_row_order(y1, y2, pitch);
    } else if y2 < y1 {
        lemma_row_order(y2, y1, pitch);
    }
}

/// The bytes of a pixel outside a rectangle lie outside every byte span that
/// a region operation on that rectangle writes.
pub proof fn lemma_pixel_outside_region(
    pitch: int,
    width: int,
    x: int,
    y: int,
    rx: int,
    ry: int,
    w: int,
    h: int,
)
    requires
        3 * width <= pitch,
        0 <= x < width,
        0 <= y,
        0 <= rx,
        0 <= ry,
        0 <= w,
        0 <= h,
        rx + w <= width,
        !in_rect(x, y, rx, ry, w, h),
    ensures
        forall|k: int|
            pix_off(pitch, x, y) <= k < pix_off(pitch, x, y) + 3 ==> !in_region_bytes(
                k,
                pitch,
                rx,
                ry,
                w,
                h,
            ),
{
    let off = pix_off(pitch, x, y);
    assert forall|k: int, j: int| off <= k < off + 3 && 0 <= j < h implies !(#[trigger] in_row_span(
        k,
        pitch,
        ry + j,
        rx,
        w,
    )) by {
        let row = ry + j;
        if y < row {
            lemma_row_order(y, row, pitch);
        } else if row < y {
            lemma_row_order(row, y, pitch);
        }
    }
}

/// A zero-width or zero-height rectangle spans no bytes at all.
pub proof fn lemma_empty_region_bytes(pitch: int, x: int, y: int, w: int, h: int)
    requires
        w == 0 || h == 0,
    ensures
        forall|k: int| !in_region_bytes(k, pitch, x, y, w, h),
{
}

/// The byte offset of pixel `(x, y)`: the single code path that addresses
/// the pixel storage.
pub fn pix_offset(b: &Bitmap, x: u32, y: u32) -> (off: usize)
    requires
        bitmap_wf(*b),
        x < b.width,
        y < b.height,
    ensures
        off == pix_off(b.pitch as int, x as int, y as int),
        off + 3 <= b.pixels@.len(),
{
    proof {
        lemma_pix_off_in_bounds(*b, x as int, y as int);
    }
    // Reading the storage length pins it to a machine word, so the offset
    // arithmetic below cannot overflow.
    let _n = b.pixels.len();
    (y as usize) * b.pitch + 3 * (x as usize)
}

/// Reads the (R, G, B) value of pixel `(x, y)`.
pub fn get_pixel(b: &Bitmap, x: u32, y: u32) -> (p: (u8, u8, u8))
    requires
        bitmap_wf(*b),
        x < b.width,
        y < b.height,
    ensures
        p == pixel(*b, x as int, y as int),
{
    let off = pix_offset(b, x, y);
    let _n = b.pixels.len();
    (b.pixels[off], b.pixels[off + 1], b.pixels[off + 2])
}

/// Writes the (R, G, B) value of pixel `(x, y)`, leaving every other byte of
/// the storage unchanged.
pub fn set_pixel(b: &mut Bitmap, x: u32, y: u32, r: u8, g: u8, bl: u8)
    requires
        bitmap_wf(*old(b)),
        x < old(b).width,
        y < old(b).height,
    ensures
        final(b).width == old(b).width,
        final(b).height == old(b).height,
        final(b).pitch == old(b).pitch,
        final(b).pixels@.len() == old(b).pixels@.len(),
        pixel(*final(b), x as int, y as int) == (r, g, bl),
        forall|k: int|
            0 <= k < old(b).pixels@.len() && !(pix_off(old(b).pitch as int, x as int, y as int) <= k
                < pix_off(old(b).pitch as int, x as int, y as int) + 3) ==> final(b).pixels@[k]
                == old(b).pixels@[k],
{
    let off = pix_offset(b, x, y);
    let _n = b.pixels.len();
    b.pixels.set(off, r);
    b.pixels.set(off + 1, g);
    b.pixels.set(off + 2, bl);
}

} // verus!
