//! The blit engine: fills and copies rectangular pixel regions. All
//! coordinates are unsigned and the caller must have validated that every
//! nonzero-sized requested region lies within the buffers' bounds; a
//! zero-sized region is a no-op at any offsets.

use vstd::prelude::*;
use crate::raster::{
    Bitmap, bitmap_wf, pix_off, pixel, in_bounds, in_rect, in_row_span, in_region_bytes,
    lemma_pix_off_in_bounds, lemma_pix_bytes_disjoint, lemma_pixel_outside_region,
    lemma_empty_region_bytes, get_pixel, set_pixel,
};

verus! {

/// Writes the literal triple `(r, g, b)` to every pixel of the rectangle of
/// origin `(dest_x, dest_y)`, width `width` and height `height`; every pixel
/// outside the rectangle, and every byte outside the written row spans
/// (row padding included), is unchanged. A zero-sized rectangle changes
/// nothing, whatever the offsets.
pub fn bitmap_fill(
    dest: &mut Bitmap,
    dest_x: u32,
    dest_y: u32,
    width: u32,
    height: u32,
    r: u8,
    g: u8,
    b: u8,
)
    requires
        bitmap_wf(*old(dest)),
        width > 0 && height > 0 ==> dest_x + width <= old(dest).width && dest_y + height <= old(
            dest,
        ).height,
    ensures
        final(dest).width == old(dest).width,
        final(dest).height == old(dest).height,
        final(dest).pitch == old(dest).pitch,
        final(dest).pixels@.len() == old(dest).pixels@.len(),
        bitmap_wf(*final(dest)),
        forall|x: int, y: int|
            in_rect(x, y, dest_x as int, dest_y as int, width as int, height as int)
                ==> #[trigger] pixel(*final(dest), x, y) == (r, g, b),
        forall|x: int, y: int|
            in_bounds(*old(dest), x, y) && !in_rect(
                x,
                y,
                dest_x as int,
                dest_y as int,
                width as int,
                height as int,
            ) ==> #[trigger] pixel(*final(dest), x, y) == pixel(*old(dest), x, y),
        forall|k: int|
            0 <= k < old(dest).pixels@.len() && !in_region_bytes(
                k,
                old(dest).pitch as int,
                dest_x as int,
                dest_y as int,
                width as int,
                height as int,
            ) ==> final(dest).pixels@[k] == old(dest).pixels@[k],
        width == 0 || height == 0 ==> final(dest).pixels@ == old(dest).pixels@,
{
    let ghost orig = *dest;
    let ghost p = dest.pitch as int;
    if width == 0 || height == 0 {
        // A zero-sized rectangle covers no pixel and spans no byte: nothing
        // to do, whatever the offsets.
        proof {
            lemma_empty_region_bytes(p, dest_x as int, dest_y as int, width as int, height as int);
        }
        return ;
    }
    let mut j: u32 = 0;
    while j < height
        invariant
            bitmap_wf(*dest),
            dest.width == orig.width,
            dest.height == orig.height,
            dest.pitch == orig.pitch,
            dest.pixels@.len() == orig.pixels@.len(),
            p == orig.pitch as int,
            dest_x + width <= orig.width,
            dest_y + height <= orig.height,
            j <= height,
            forall|x: int, y: int|
                in_rect(x, y, dest_x as int, dest_y as int, width as int, j as int)
                    ==> #[trigger] pixel(*dest, x, y) == (r, g, b),
            forall|k: int|
                0 <= k < orig.pixels@.len() && !in_region_bytes(
                    k,
                    p,
                    dest_x as int,
                    dest_y as int,
                    width as int,
                    height as int,
                ) ==> dest.pixels@[k] == orig.pixels@[k],
        decreases height - j,
    {
        let mut i: u32 = 0;
        while i < width
            invariant
                bitmap_wf(*dest),
                dest.width == orig.width,
                dest.height == orig.height,
                dest.pitch == orig.pitch,
                dest.pixels@.len() == orig.pixels@.len(),
                p == orig.pitch as int,
                dest_x + width <= orig.width,
                dest_y + height <= orig.height,
                j < height,
                i <= width,
                forall|x: int, y: int|
                    in_rect(x, y, dest_x as int, dest_y as int, width as int, j as int)
                        ==> #[trigger] pixel(*dest, x, y) == (r, g, b),
                forall|x: int|
                    dest_x as int <= x < dest_x as int + i as int ==> #[trigger] pixel(
                        *dest,
                        x,
                        dest_y as int + j as int,
                    ) == (r, g, b),
                forall|k: int|
                    0 <= k < orig.pixels@.len() && !in_region_bytes(
                        k,
                        p,
                        dest_x as int,
                        dest_y as int,
                        width as int,
                        height as int,
                    ) ==> dest.pixels@[k] == orig.pixels@[k],
            decreases width - i,
        {
            let ghost pre = *dest;
            let xi = dest_x + i;
            let yj = dest_y + j;
            set_pixel(dest, xi, yj, r, g, b);
            proof {
                let xi_ = xi as int;
                let yj_ = yj as int;
                let off = pix_off(p, xi_, yj_);
                // The write lands inside the region's byte spans.
                assert forall|k: int| off <= k < off + 3 implies in_region_bytes(
                    k,
                    p,
                    dest_x as int,
                    dest_y as int,
                    width as int,
                    height as int,
                ) by {
                    assert(in_row_span(k, p, dest_y as int + j as int, dest_x as int, width as int));
                }
                // Pixels already set keep their value: their bytes are disjoint
                // from the three bytes just written.
                assert forall|x: int, y: int|
                    in_bounds(pre, x, y) && (x != xi_ || y != yj_) implies #[trigger] pixel(
                    *dest,
                    x,
                    y,
                ) == pixel(pre, x, y) by {
                    lemma_pix_bytes_disjoint(p, pre.width as int, x, y, xi_, yj_);
                    lemma_pix_off_in_bounds(pre, x, y);
                }
            }
            i = i + 1;
        }
        j = j + 1;
    }
    proof {
        assert forall|x: int, y: int|
            in_bounds(orig, x, y) && !in_rect(
                x,
                y,
                dest_x as int,
                dest_y as int,
                width as int,
                height as int,
            ) implies #[trigger] pixel(*dest, x, y) == pixel(orig, x, y) by {
            lemma_pixel_outside_region(
                p,
                orig.width as int,
                x,
                y,
                dest_x as int,
                dest_y as int,
                width as int,
                height as int,
            );
            lemma_pix_off_in_bounds(orig, x, y);
        }
    }
}

/// Copies the `width` by `height` pixel rectangle whose origin in `src` is
/// `(src_x, src_y)` into `dest` at origin `(dest_x, dest_y)`: a byte-for-byte
/// copy, row by row, each buffer advancing by its own stride. Every pixel of
/// `dest` outside the destination rectangle, and every byte outside the
/// written row spans, is unchanged. A zero-sized rectangle changes nothing,
/// whatever the offsets.
pub fn bitmap_copy(
    src: &Bitmap,
    src_x: u32,
    src_y: u32,
    dest: &mut Bitmap,
    dest_x: u32,
    dest_y: u32,
    width: u32,
    height: u32,
)
    requires
        bitmap_wf(*src),
        bitmap_wf(*old(dest)),
        width > 0 && height > 0 ==> src_x + width <= src.width && src_y + height <= src.height
            && dest_x + width <= old(dest).width && dest_y + height <= old(dest).height,
    ensures
        final(dest).width == old(dest).width,
        final(dest).height == old(dest).height,
        final(dest).pitch == old(dest).pitch,
        final(dest).pixels@.len() == old(dest).pixels@.len(),
        bitmap_wf(*final(dest)),
        forall|x: int, y: int|
            in_rect(x, y, dest_x as int, dest_y as int, width as int, height as int)
                ==> #[trigger] pixel(*final(dest), x, y) == pixel(
                *src,
                src_x + (x - dest_x),
                src_y + (y - dest_y),
            ),
        forall|x: int, y: int|
            in_bounds(*old(dest), x, y) && !in_rect(
                x,
                y,
                dest_x as int,
                dest_y as int,
                width as int,
                height as int,
            ) ==> #[trigger] pixel(*final(dest), x, y) == pixel(*old(dest), x, y),
        forall|k: int|
            0 <= k < old(dest).pixels@.len() && !in_region_bytes(
                k,
                old(dest).pitch as int,
                dest_x as int,
                dest_y as int,
                width as int,
                height as int,
            ) ==> final(dest).pixels@[k] == old(dest).pixels@[k],
        width == 0 || height == 0 ==> final(dest).pixels@ == old(dest).pixels@,
{
    let ghost orig = *dest;
    let ghost p = dest.pitch as int;
    if width == 0 || height == 0 {
        // A zero-sized rectangle covers no pixel and spans no byte: nothing
        // to do, whatever the offsets.
        proof {
            lemma_empty_region_bytes(p, dest_x as int, dest_y as int, width as int, height as int);
        }
        return ;
    }
    let mut j: u32 = 0;
    while j < height
        invariant
            bitmap_wf(*dest),
            bitmap_wf(*src),
            dest.width == orig.width,
            dest.height == orig.height,
            dest.pitch == orig.pitch,
            dest.pixels@.len() == orig.pixels@.len(),
            p == orig.pitch as int,
            src_x + width <= src.width,
            src_y + height <= src.height,
            dest_x + width <= orig.width,
            dest_y + height <= orig.height,
            j <= height,
            forall|x: int, y: int|
                in_rect(x, y, dest_x as int, dest_y as int, width as int, j as int)
                    ==> #[trigger] pixel(*dest, x, y) == pixel(
                    *src,
                    src_x + (x - dest_x),
                    src_y + (y - dest_y),
                ),
            forall|k: int|
                0 <= k < orig.pixels@.len() && !in_region_bytes(
                    k,
                    p,
                    dest_x as int,
                    dest_y as int,
                    width as int,
                    height as int,
                ) ==> dest.pixels@[k] == orig.pixels@[k],
        decreases height - j,
    {
        let mut i: u32 = 0;
        while i < width
            invariant
                bitmap_wf(*dest),
                bitmap_wf(*src),
                dest.width == orig.width,
                dest.height == orig.height,
                dest.pitch == orig.pitch,
                dest.pixels@.len() == orig.pixels@.len(),
                p == orig.pitch as int,
                src_x + width <= src.width,
                src_y + height <= src.height,
                dest_x + width <= orig.width,
                dest_y + height <= orig.height,
                j < height,
                i <= width,
                forall|x: int, y: int|
                    in_rect(x, y, dest_x as int, dest_y as int, width as int, j as int)
                        ==> #[trigger] pixel(*dest, x, y) == pixel(
                        *src,
                        src_x + (x - dest_x),
                        src_y + (y - dest_y),
                    ),
                forall|x: int|
                    dest_x as int <= x < dest_x as int + i as int ==> #[trigger] pixel(
                        *dest,
                        x,
                        dest_y as int + j as int,
                    ) == pixel(*src, src_x + (x - dest_x), src_y as int + j as int),
                forall|k: int|
                    0 <= k < orig.pixels@.len() && !in_region_bytes(
                        k,
                        p,
                        dest_x as int,
                        dest_y as int,
                        width as int,
                        height as int,
                    ) ==> dest.pixels@[k] == orig.pixels@[k],
            decreases width - i,
        {
            let ghost pre = *dest;
            let xi = dest_x + i;
            let yj = dest_y + j;
            let (r, g, b) = get_pixel(src, src_x + i, src_y + j);
            set_pixel(dest, xi, yj, r, g, b);
            proof {
                let xi_ = xi as int;
                let yj_ = yj as int;
                let off = pix_off(p, xi_, yj_);
                // The write lands inside the region's byte spans.
                assert forall|k: int| off <= k < off + 3 implies in_region_bytes(
                    k,
                    p,
                    dest_x as int,
                    dest_y as int,
                    width as int,
                    height as int,
                ) by {
                    assert(in_row_span(k, p, dest_y as int + j as int, dest_x as int, width as int));
                }
                // Pixels already copied keep their value: their bytes are
                // disjoint from the three bytes just written.
                assert forall|x: int, y: int|
                    in_bounds(pre, x, y) && (x != xi_ || y != yj_) implies #[trigger] pixel(
                    *dest,
                    x,
                    y,
                ) == pixel(pre, x, y) by {
                    lemma_pix_bytes_disjoint(p, pre.width as int, x, y, xi_, yj_);
                    lemma_pix_off_in_bounds(pre, x, y);
                }
            }
            i = i + 1;
        }
        j = j + 1;
    }
    proof {
        assert forall|x: int, y: int|
            in_bounds(orig, x, y) && !in_rect(
                x,
                y,
                dest_x as int,
                dest_y as int,
                width as int,
                height as int,
            ) implies #[trigger] pixel(*dest, x, y) == pixel(orig, x, y) by {
            lemma_pixel_outside_region(
                p,
                orig.width as int,
                x,
                y,
                dest_x as int,
                dest_y as int,
                width as int,
                height as int,
            );
            lemma_pix_off_in_bounds(orig, x, y);
        }
    }
}

} // verus!
