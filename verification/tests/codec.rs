use hpbar::{bitmap_fill, png_encode, png_load, Bitmap, GfxError};

fn patterned(width: u32, height: u32, pitch: usize, seed: usize) -> Bitmap {
    let mut pixels = Vec::new();
    for k in 0..pitch * height as usize {
        pixels.push(((seed + k) % 251) as u8);
    }
    Bitmap { width, height, pitch, pixels }
}

fn pixel_of(b: &Bitmap, x: u32, y: u32) -> (u8, u8, u8) {
    let o = y as usize * b.pitch + 3 * x as usize;
    (b.pixels[o], b.pixels[o + 1], b.pixels[o + 2])
}

#[test]
fn test_encode_decode_round_trip() {
    // The source buffer has padded rows; the decoded one is tightly packed.
    // Width, height and every pixel value round-trip.
    let b = patterned(3, 2, 11, 29);
    let bytes = png_encode(&b).unwrap();
    let d = png_load(&bytes).unwrap();
    assert_eq!(d.width, 3);
    assert_eq!(d.height, 2);
    assert_eq!(d.pitch, 9);
    for y in 0..2 {
        for x in 0..3 {
            assert_eq!(pixel_of(&d, x, y), pixel_of(&b, x, y));
        }
    }
}

#[test]
fn test_decode_malformed_bytes() {
    assert_eq!(png_load(&[]).err(), Some(GfxError::DecodeFailed));
    assert_eq!(png_load(&[1, 2, 3, 4, 5, 6, 7, 8, 9]).err(), Some(GfxError::DecodeFailed));
}

#[test]
fn test_decode_unsupported_color_mode() {
    // A valid PNG, but grayscale: decoding must refuse it, not mangle it.
    let mut bytes: Vec<u8> = Vec::new();
    let mut enc = png::Encoder::new(&mut bytes, 2, 2);
    enc.set_color(png::ColorType::Grayscale);
    enc.set_depth(png::BitDepth::Eight);
    let mut writer = enc.write_header().unwrap();
    writer.write_image_data(&[0, 64, 128, 255]).unwrap();
    writer.finish().unwrap();
    assert_eq!(png_load(&bytes).err(), Some(GfxError::Unsupported));
}

#[test]
fn test_encode_zero_size_fails() {
    let b = Bitmap { width: 0, height: 4, pitch: 0, pixels: Vec::new() };
    assert_eq!(png_encode(&b).err(), Some(GfxError::EncodeFailed));
}

#[test]
fn test_end_to_end_scenario() {
    // A background buffer; the fill region (32, 19), 48 by 2, becomes
    // exactly (127, 56, 72); every other byte is identical to the original;
    // and encoding then decoding reproduces the buffer exactly.
    let mut b = patterned(96, 32, 3 * 96, 5);
    let before = b.pixels.clone();
    bitmap_fill(&mut b, 32, 19, 48, 2, 127, 56, 72);
    for y in 0..32 {
        for x in 0..96 {
            let inside = (32..80).contains(&x) && (19..21).contains(&y);
            if inside {
                assert_eq!(pixel_of(&b, x, y), (127, 56, 72));
            } else {
                let o = y as usize * b.pitch + 3 * x as usize;
                assert_eq!(&b.pixels[o..o + 3], &before[o..o + 3]);
            }
        }
    }
    let bytes = png_encode(&b).unwrap();
    let d = png_load(&bytes).unwrap();
    assert_eq!(d.width, b.width);
    assert_eq!(d.height, b.height);
    assert_eq!(d.pixels, b.pixels);
}
