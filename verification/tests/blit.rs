use hpbar::{bitmap_copy, bitmap_fill, Bitmap};

/// A bitmap whose byte at offset `k` is `(seed + k) % 251`, so every byte is
/// predictable and rows (padding included) are distinguishable.
fn patterned(width: u32, height: u32, pitch: usize, seed: usize) -> Bitmap {
    let mut pixels = Vec::new();
    for k in 0..pitch * height as usize {
        pixels.push(((seed + k) % 251) as u8);
    }
    Bitmap { width, height, pitch, pixels }
}

fn byte_off(b: &Bitmap, x: u32, y: u32) -> usize {
    y as usize * b.pitch + 3 * x as usize
}

fn pixel_of(b: &Bitmap, x: u32, y: u32) -> (u8, u8, u8) {
    let o = byte_off(b, x, y);
    (b.pixels[o], b.pixels[o + 1], b.pixels[o + 2])
}

#[test]
fn test_fill_correctness() {
    let mut dest = patterned(5, 4, 17, 3);
    let before = dest.pixels.clone();
    bitmap_fill(&mut dest, 1, 1, 2, 2, 10, 20, 30);
    for y in 0..4 {
        for x in 0..5 {
            if (1..3).contains(&x) && (1..3).contains(&y) {
                assert_eq!(pixel_of(&dest, x, y), (10, 20, 30));
            } else {
                let o = byte_off(&dest, x, y);
                assert_eq!(&dest.pixels[o..o + 3], &before[o..o + 3]);
            }
        }
    }
    // Row padding bytes are untouched.
    for y in 0..4usize {
        for k in 15..17usize {
            assert_eq!(dest.pixels[y * 17 + k], before[y * 17 + k]);
        }
    }
}

#[test]
fn test_fill_zero_size() {
    let mut dest = patterned(5, 4, 15, 7);
    let before = dest.pixels.clone();
    bitmap_fill(&mut dest, 2, 2, 0, 2, 1, 2, 3);
    assert_eq!(dest.pixels, before);
    bitmap_fill(&mut dest, 2, 2, 2, 0, 1, 2, 3);
    assert_eq!(dest.pixels, before);
    // A zero-sized region is a no-op even at offsets outside the buffer.
    bitmap_fill(&mut dest, 1000, 1000, 0, 5, 1, 2, 3);
    assert_eq!(dest.pixels, before);
}

#[test]
fn test_copy_zero_size() {
    let src = patterned(4, 4, 12, 11);
    let mut dest = patterned(4, 4, 12, 90);
    let before = dest.pixels.clone();
    bitmap_copy(&src, 0, 0, &mut dest, 0, 0, 0, 3);
    assert_eq!(dest.pixels, before);
    bitmap_copy(&src, 0, 0, &mut dest, 0, 0, 3, 0);
    assert_eq!(dest.pixels, before);
    // A zero-sized region is a no-op even at offsets outside both buffers.
    bitmap_copy(&src, 900, 900, &mut dest, 900, 900, 5, 0);
    assert_eq!(dest.pixels, before);
}

#[test]
fn test_copy_correctness() {
    let src = patterned(4, 3, 12, 100);
    let mut dest = patterned(6, 5, 18, 200);
    let before = dest.pixels.clone();
    bitmap_copy(&src, 1, 0, &mut dest, 2, 1, 3, 2);
    for j in 0..2 {
        for i in 0..3 {
            assert_eq!(pixel_of(&dest, 2 + i, 1 + j), pixel_of(&src, 1 + i, j));
        }
    }
    for y in 0..5 {
        for x in 0..6 {
            let inside = (2..5).contains(&x) && (1..3).contains(&y);
            if !inside {
                let o = byte_off(&dest, x, y);
                assert_eq!(&dest.pixels[o..o + 3], &before[o..o + 3]);
            }
        }
    }
}

#[test]
fn test_copy_respects_row_strides() {
    // Source rows are padded; destination rows are packed. The copy must
    // advance by each buffer's own stride.
    let src = patterned(2, 2, 11, 0);
    let mut dest = patterned(2, 2, 6, 50);
    bitmap_copy(&src, 0, 0, &mut dest, 0, 0, 2, 2);
    for y in 0..2 {
        for x in 0..2 {
            assert_eq!(pixel_of(&dest, x, y), pixel_of(&src, x, y));
        }
    }
    // Row 1 of the source starts at byte 11, not at byte 6.
    assert_eq!(pixel_of(&dest, 0, 1), (src.pixels[11], src.pixels[12], src.pixels[13]));
}
