use hpbar::{bitmap_text, glyph_cell, glyph_index, Bitmap, Font, GfxError};

fn charmap(keys: &[&str]) -> Vec<String> {
    keys.iter().map(|k| k.to_string()).collect()
}

/// An atlas of `cols * rows` 8x8 cells where every byte of cell `i` is `i`.
fn cell_atlas(cols: u32, rows: u32) -> Bitmap {
    let width = cols * 8;
    let height = rows * 8;
    let pitch = 3 * width as usize;
    let mut pixels = vec![0u8; pitch * height as usize];
    for cell in 0..cols * rows {
        let cx = (cell % cols) * 8;
        let cy = (cell / cols) * 8;
        for y in 0..8 {
            for x in 0..8 {
                let o = (cy + y) as usize * pitch + 3 * (cx + x) as usize;
                pixels[o] = cell as u8;
                pixels[o + 1] = cell as u8;
                pixels[o + 2] = cell as u8;
            }
        }
    }
    Bitmap { width, height, pitch, pixels }
}

fn pixel_of(b: &Bitmap, x: u32, y: u32) -> (u8, u8, u8) {
    let o = y as usize * b.pitch + 3 * x as usize;
    (b.pixels[o], b.pixels[o + 1], b.pixels[o + 2])
}

fn blank(width: u32, height: u32) -> Bitmap {
    let pitch = 3 * width as usize;
    Bitmap { width, height, pitch, pixels: vec![255u8; pitch * height as usize] }
}

#[test]
fn test_glyph_grid_mapping() {
    // An atlas of width 64 with 8x8 cells has 8 columns; glyph "C" has
    // index 2 and maps to cell (2, 0), pixel origin (16, 0).
    let font = Font {
        bitmap: cell_atlas(8, 2),
        charmap: charmap(&["A", "B", "C", "D", "E", "F", "G", "H", "I", "J"]),
        character_width: 8,
        character_height: 8,
    };
    assert_eq!(font.bitmap.width, 64);
    let idx = glyph_index(&font.charmap, 'C');
    assert_eq!(idx, Some(2));
    assert_eq!(glyph_cell(&font, 2), (16, 0));
    // Index 9 wraps to the second grid row: cell (1, 1), origin (8, 8).
    assert_eq!(glyph_index(&font.charmap, 'J'), Some(9));
    assert_eq!(glyph_cell(&font, 9), (8, 8));
}

#[test]
fn test_duplicate_keys_resolve_to_first_occurrence() {
    let cm = charmap(&["A", "B", "A"]);
    assert_eq!(glyph_index(&cm, 'A'), Some(0));
    assert_eq!(glyph_index(&cm, 'B'), Some(1));
}

#[test]
fn test_multi_character_entries_never_match() {
    let cm = charmap(&["PK", "K", ""]);
    assert_eq!(glyph_index(&cm, 'P'), None);
    assert_eq!(glyph_index(&cm, 'K'), Some(1));
}

#[test]
fn test_cursor_advance_counts_spaces() {
    let font = Font {
        bitmap: cell_atlas(2, 1),
        charmap: charmap(&["A", "B"]),
        character_width: 8,
        character_height: 8,
    };
    let mut dest = blank(64, 8);
    // 5 characters, 2 of them spaces: the cursor advances 5 * 8 from its
    // start regardless.
    let res = bitmap_text(&font, &mut dest, 4, 0, "A B A");
    assert_eq!(res, Ok(4 + 5 * 8));
    let mut dest2 = blank(64, 8);
    let res2 = bitmap_text(&font, &mut dest2, 0, 0, "");
    assert_eq!(res2, Ok(0));
}

#[test]
fn test_draw_text_copies_glyph_cells() {
    let font = Font {
        bitmap: cell_atlas(2, 1),
        charmap: charmap(&["A", "B"]),
        character_width: 8,
        character_height: 8,
    };
    let mut dest = blank(32, 10);
    let res = bitmap_text(&font, &mut dest, 8, 1, "BA");
    assert_eq!(res, Ok(8 + 16));
    for y in 0..8 {
        for x in 0..8 {
            // "B" is glyph 1, drawn at (8, 1); "A" is glyph 0, at (16, 1).
            assert_eq!(pixel_of(&dest, 8 + x, 1 + y), (1, 1, 1));
            assert_eq!(pixel_of(&dest, 16 + x, 1 + y), (0, 0, 0));
        }
    }
    // Everything outside the two cells is untouched.
    for y in 0..10 {
        for x in 0..32 {
            let in_cells = (8..24).contains(&x) && (1..9).contains(&y);
            if !in_cells {
                assert_eq!(pixel_of(&dest, x, y), (255, 255, 255));
            }
        }
    }
}

#[test]
fn test_space_draws_nothing() {
    let font = Font {
        bitmap: cell_atlas(2, 1),
        charmap: charmap(&["A", "B"]),
        character_width: 8,
        character_height: 8,
    };
    // A destination with padded rows: an all-space text must leave every
    // byte, row padding included, exactly as it was.
    let pitch = 3 * 24 + 5;
    let mut dest = Bitmap { width: 24, height: 8, pitch, pixels: (0..pitch * 8).map(|k| (k % 251) as u8).collect() };
    let before = dest.pixels.clone();
    let res = bitmap_text(&font, &mut dest, 0, 0, "   ");
    assert_eq!(res, Ok(24));
    assert_eq!(dest.pixels, before);
}

#[test]
fn test_missing_glyph_fails_after_partial_draw() {
    let font = Font {
        bitmap: cell_atlas(2, 1),
        charmap: charmap(&["A", "B"]),
        character_width: 8,
        character_height: 8,
    };
    let mut dest = blank(32, 8);
    let res = bitmap_text(&font, &mut dest, 0, 0, "AZB");
    assert_eq!(res, Err(GfxError::GlyphMissing('Z')));
    // "A" was already drawn before the failure...
    for y in 0..8 {
        for x in 0..8 {
            assert_eq!(pixel_of(&dest, x, y), (0, 0, 0));
        }
    }
    // ...but no byte of the failing character's cell, nor of anything after
    // it, was touched.
    for y in 0..8 {
        for x in 8..32 {
            assert_eq!(pixel_of(&dest, x, y), (255, 255, 255));
        }
    }
}
