//! The bitmap font: a glyph atlas plus an ordered charmap, and single-line
//! text drawing on top of the blit engine. The charmap is a dense,
//! position-addressed table: a character resolves to the first entry that is
//! exactly that one character, duplicate entries resolve to their first
//! occurrence, and the space character is a reserved no-glyph token that
//! advances the cursor without drawing.

use vstd::prelude::*;
use vstd::string::StrSliceExecFns;
use vstd::arithmetic::div_mod::{
    lemma_fundamental_div_mod, lemma_mod_bound, lemma_div_pos_is_pos,
};
use crate::raster::{Bitmap, GfxError, bitmap_wf, pixel, in_bounds, in_rect, in_region_bytes};
use crate::blit::bitmap_copy;

verus! {

/// A bitmap font: the glyph atlas, the ordered charmap whose insertion order
/// defines each glyph's linear index into the atlas grid, and the fixed cell
/// size of every glyph.
pub struct Font {
    pub bitmap: Bitmap,
    pub charmap: Vec<String>,
    pub character_width: u32,
    pub character_height: u32,
}

/// A charmap entry stands for character `c` when it is exactly that one
/// character; multi-character entries never match and act as dead table
/// slots.
pub open spec fn key_matches(key: Seq<char>, c: char) -> bool {
    key.len() == 1 && key[0] == c
}

/// The first-occurrence index of character `c` in the charmap, or `None`
/// where no entry matches.
pub open spec fn glyph_lookup(cm: Seq<String>, c: char) -> Option<int>
    decreases cm.len(),
{
    if cm.len() == 0 {
        None
    } else if key_matches(cm[0]@, c) {
        Some(0 as int)
    } else {
        match glyph_lookup(cm.drop_first(), c) {
            Some(i) => Some(i + 1),
            None => None,
        }
    }
}

/// What `glyph_lookup` returns: the first matching index, with no match
/// before it; or `None` exactly when no entry matches at all.
pub proof fn lemma_glyph_lookup_props(cm: Seq<String>, c: char)
    ensures
        glyph_lookup(cm, c) matches Some(i) ==> 0 <= i < cm.len() && key_matches(cm[i]@, c),
        glyph_lookup(cm, c) matches Some(i) ==> forall|j: int|
            0 <= j < i ==> !key_matches(#[trigger] cm[j]@, c),
        glyph_lookup(cm, c) is None ==> forall|j: int|
            0 <= j < cm.len() ==> !key_matches(#[trigger] cm[j]@, c),
    decreases cm.len(),
{
    if cm.len() > 0 && !key_matches(cm[0]@, c) {
        lemma_glyph_lookup_props(cm.drop_first(), c);
        assert forall|j: int| 1 <= j < cm.len() implies cm.drop_first()[j - 1] == #[trigger] cm[j] by {}
    }
}

/// `glyph_lookup` returns `i` when entry `i` matches and no earlier one does.
pub proof fn lemma_glyph_lookup_first(cm: Seq<String>, c: char, i: int)
    requires
        0 <= i < cm.len(),
        key_matches(cm[i]@, c),
        forall|j: int| 0 <= j < i ==> !key_matches(#[trigger] cm[j]@, c),
    ensures
        glyph_lookup(cm, c) == Some(i),
    decreases cm.len(),
{
    if i > 0 {
        assert forall|j: int| 0 <= j < i - 1 implies !key_matches(
            #[trigger] cm.drop_first()[j]@,
            c,
        ) by {
            assert(cm.drop_first()[j] == cm[j + 1]);
        }
        assert(cm.drop_first()[i - 1] == cm[i]);
        lemma_glyph_lookup_first(cm.drop_first(), c, i - 1);
    }
}

/// `glyph_lookup` returns `None` when no entry matches.
pub proof fn lemma_glyph_lookup_none(cm: Seq<String>, c: char)
    requires
        forall|j: int| 0 <= j < cm.len() ==> !key_matches(#[trigger] cm[j]@, c),
    ensures
        glyph_lookup(cm, c) is None,
    decreases cm.len(),
{
    if cm.len() > 0 {
        assert forall|j: int| 0 <= j < cm.len() - 1 implies !key_matches(
            #[trigger] cm.drop_first()[j]@,
            c,
        ) by {
            assert(cm.drop_first()[j] == cm[j + 1]);
        }
        lemma_glyph_lookup_none(cm.drop_first(), c);
    }
}

/// Finds the first-occurrence index of character `c` in the charmap by a
/// linear scan, or `None` where the font has no entry for it.
pub fn glyph_index(charmap: &Vec<String>, c: char) -> (r: Option<usize>)
    ensures
        r matches Some(i) ==> glyph_lookup(charmap@, c) == Some(i as int),
        r is None ==> glyph_lookup(charmap@, c) is None,
{
    let n = charmap.len();
    let mut idx: usize = 0;
    while idx < n
        invariant
            n == charmap@.len(),
            idx <= n,
            forall|j: int| 0 <= j < idx as int ==> !key_matches(#[trigger] charmap@[j]@, c),
        decreases n - idx,
    {
        let ks: &str = charmap[idx].as_str();
        if ks.unicode_len() == 1 && ks.get_char(0) == c {
            proof {
                lemma_glyph_lookup_first(charmap@, c, idx as int);
            }
            return Some(idx);
        }
        idx = idx + 1;
    }
    proof {
        lemma_glyph_lookup_none(charmap@, c);
    }
    None
}

/// A font is well formed when its atlas is, its cell sizes are nonzero, and
/// the atlas width is an exact, nonzero multiple of the cell width.
pub open spec fn font_wf(f: Font) -> bool {
    &&& bitmap_wf(f.bitmap)
    &&& 0 < f.character_width
    &&& 0 < f.character_height
    &&& f.character_width <= f.bitmap.width
    &&& (f.bitmap.width as int) % (f.character_width as int) == 0
}

/// The number of glyph cells per atlas row.
pub open spec fn font_columns(f: Font) -> int {
    (f.bitmap.width as int) / (f.character_width as int)
}

/// The pixel x origin of glyph cell `i`: column `i % columns` of the grid.
pub open spec fn glyph_cell_x(f: Font, i: int) -> int {
    (i % font_columns(f)) * (f.character_width as int)
}

/// The pixel y origin of glyph cell `i`: row `i / columns` of the grid.
pub open spec fn glyph_cell_y(f: Font, i: int) -> int {
    (i / font_columns(f)) * (f.character_height as int)
}

/// Glyph cell `i` lies within the atlas vertically. (Horizontally every cell
/// fits, by the grid invariant.)
pub open spec fn glyph_cell_fits(f: Font, i: int) -> bool {
    glyph_cell_y(f, i) + f.character_height <= f.bitmap.height
}

/// Every glyph cell of a well-formed font fits horizontally in the atlas.
pub proof fn lemma_glyph_cell_in_atlas(f: Font, i: int)
    requires
        font_wf(f),
        0 <= i,
    ensures
        0 <= glyph_cell_x(f, i),
        glyph_cell_x(f, i) + f.character_width <= f.bitmap.width,
        0 <= glyph_cell_y(f, i),
        1 <= font_columns(f),
{
    let cw = f.character_width as int;
    let w = f.bitmap.width as int;
    let cols = w / cw;
    lemma_fundamental_div_mod(w, cw);
    assert(w == cw * cols);
    assert(cols >= 1) by (nonlinear_arith)
        requires
            w == cw * cols,
            w >= cw,
            cw > 0,
    ;
    lemma_mod_bound(i, cols);
    lemma_div_pos_is_pos(i, cols);
    assert((i % cols) * cw + cw <= cols * cw) by (nonlinear_arith)
        requires
            0 <= i % cols,
            i % cols <= cols - 1,
            cw > 0,
    ;
    assert(cols * cw == cw * cols) by (nonlinear_arith);
    assert(0 <= (i / cols) * (f.character_height as int)) by (nonlinear_arith)
        requires
            0 <= i / cols,
            0 <= f.character_height as int,
    ;
    assert(0 <= (i % cols) * cw) by (nonlinear_arith)
        requires
            0 <= i % cols,
            0 <= cw,
    ;
}

/// The atlas grid formula: maps a glyph's linear index to the pixel origin
/// of its cell, `(columns' remainder, quotient)` scaled by the cell size.
pub fn glyph_cell(font: &Font, index: usize) -> (cell: (u32, u32))
    requires
        font_wf(*font),
        glyph_cell_fits(*font, index as int),
    ensures
        cell.0 as int == glyph_cell_x(*font, index as int),
        cell.1 as int == glyph_cell_y(*font, index as int),
        cell.0 + font.character_width <= font.bitmap.width,
        cell.1 + font.character_height <= font.bitmap.height,
{
    proof {
        lemma_glyph_cell_in_atlas(*font, index as int);
    }
    let cols = (font.bitmap.width / font.character_width) as usize;
    let u = index % cols;
    let v = index / cols;
    proof {
        let ch = font.character_height as int;
        assert(v as int <= (v as int) * ch) by (nonlinear_arith)
            requires
                0 <= v as int,
                1 <= ch,
        ;
    }
    let cx = (u as u32) * font.character_width;
    let cy = (v as u32) * font.character_height;
    (cx, cy)
}

/// A character the text drawer can process: the space token, or one with a
/// charmap entry.
pub open spec fn char_ok(f: Font, c: char) -> bool {
    c == ' ' || glyph_lookup(f.charmap@, c) is Some
}

/// Every character of the text can be processed.
pub open spec fn text_ok(f: Font, text: Seq<char>) -> bool {
    forall|k: int| 0 <= k < text.len() ==> char_ok(f, #[trigger] text[k])
}

/// The index of the first character the drawer cannot process, or the text
/// length where every character can be.
pub open spec fn first_bad(f: Font, text: Seq<char>) -> int
    decreases text.len(),
{
    if text.len() == 0 {
        0
    } else if !char_ok(f, text[0]) {
        0
    } else {
        1 + first_bad(f, text.drop_first())
    }
}

/// What `first_bad` returns: every character before it can be processed, the
/// one at it (if any) cannot, and it is the text length exactly when the
/// whole text can be processed.
pub proof fn lemma_first_bad_props(f: Font, text: Seq<char>)
    ensures
        0 <= first_bad(f, text) <= text.len(),
        forall|k: int| 0 <= k < first_bad(f, text) ==> char_ok(f, #[trigger] text[k]),
        first_bad(f, text) < text.len() ==> !char_ok(f, text[first_bad(f, text)]),
        first_bad(f, text) == text.len() <==> text_ok(f, text),
    decreases text.len(),
{
    if text.len() == 0 {
    } else if !char_ok(f, text[0]) {
    } else {
        let tail = text.drop_first();
        lemma_first_bad_props(f, tail);
        assert forall|k: int| 1 <= k < text.len() implies tail[k - 1] == #[trigger] text[k] by {}
        if first_bad(f, tail) == tail.len() {
            assert(text_ok(f, text));
        }
        if text_ok(f, text) {
            assert forall|k: int| 0 <= k < tail.len() implies char_ok(f, #[trigger] tail[k]) by {
                assert(tail[k] == text[k + 1]);
            }
        }
    }
}

/// Pixel `(x, y)` lies in the cell that the `k`-th character of a text run
/// starting at `(dest_x, dest_y)` occupies.
pub open spec fn covered_by_cell(
    x: int,
    y: int,
    dest_x: int,
    dest_y: int,
    cw: int,
    ch: int,
    k: int,
) -> bool {
    dest_x + k * cw <= x < dest_x + k * cw + cw && dest_y <= y < dest_y + ch
}

/// Pixel `(x, y)` lies in the cell of some non-space character among the
/// first `m` of the text run.
pub open spec fn covered(
    f: Font,
    text: Seq<char>,
    dest_x: int,
    dest_y: int,
    x: int,
    y: int,
    m: int,
) -> bool {
    exists|k: int|
        0 <= k < m && text[k] != ' ' && #[trigger] covered_by_cell(
            x,
            y,
            dest_x,
            dest_y,
            f.character_width as int,
            f.character_height as int,
            k,
        )
}

/// Byte offset `kb` lies in the written row spans of the cell that the
/// `k`-th character of a text run occupies.
pub open spec fn cell_region_bytes(
    kb: int,
    pitch: int,
    dest_x: int,
    dest_y: int,
    cw: int,
    ch: int,
    k: int,
) -> bool {
    in_region_bytes(kb, pitch, dest_x + k * cw, dest_y, cw, ch)
}

/// Byte offset `kb` lies in the written row spans of the cell of some
/// non-space character among the first `m` of the text run.
pub open spec fn covered_bytes(
    f: Font,
    text: Seq<char>,
    pitch: int,
    dest_x: int,
    dest_y: int,
    kb: int,
    m: int,
) -> bool {
    exists|k: int|
        0 <= k < m && text[k] != ' ' && #[trigger] cell_region_bytes(
            kb,
            pitch,
            dest_x,
            dest_y,
            f.character_width as int,
            f.character_height as int,
            k,
        )
}

/// Draws `text` as one line of fixed-size glyph cells into `dest`, the
/// cursor starting at `(dest_x, dest_y)` and advancing by `character_width`
/// per character, spaces included. A space draws nothing; any other
/// character's first-occurrence charmap entry selects the atlas cell that is
/// copied. A character with no entry stops the call with `GlyphMissing`:
/// the characters before it are already drawn (a best-effort partial draw),
/// and no byte of the failing character's cell is touched. On success the
/// returned cursor has advanced exactly `text.len() * character_width`.
pub fn bitmap_text(
    font: &Font,
    dest: &mut Bitmap,
    dest_x: u32,
    dest_y: u32,
    text: &str,
) -> (res: Result<u32, GfxError>)
    requires
        font_wf(*font),
        bitmap_wf(*old(dest)),
        dest_x + text@.len() * (font.character_width as int) <= u32::MAX,
        forall|k: int|
            0 <= k < text@.len() && text@[k] != ' ' ==> ((#[trigger] glyph_lookup(
                font.charmap@,
                text@[k],
            )) matches Some(g) ==> {
                &&& dest_x + (k + 1) * (font.character_width as int) <= old(dest).width
                &&& dest_y + font.character_height <= old(dest).height
                &&& glyph_cell_fits(*font, g)
            }),
    ensures
        final(dest).width == old(dest).width,
        final(dest).height == old(dest).height,
        final(dest).pitch == old(dest).pitch,
        final(dest).pixels@.len() == old(dest).pixels@.len(),
        bitmap_wf(*final(dest)),
        (res is Ok) <==> text_ok(*font, text@),
        res matches Ok(cx) ==> cx as int == dest_x + text@.len() * (font.character_width as int),
        res matches Err(e) ==> e == GfxError::GlyphMissing(text@[first_bad(*font, text@)]),
        forall|x: int, y: int, k: int|
            0 <= k < first_bad(*font, text@) && text@[k] != ' ' && #[trigger] covered_by_cell(
                x,
                y,
                dest_x as int,
                dest_y as int,
                font.character_width as int,
                font.character_height as int,
                k,
            ) ==> (glyph_lookup(font.charmap@, text@[k]) matches Some(g) && pixel(*final(dest), x, y)
                == pixel(
                font.bitmap,
                glyph_cell_x(*font, g) + (x - (dest_x + k * (font.character_width as int))),
                glyph_cell_y(*font, g) + (y - dest_y),
            )),
        forall|x: int, y: int|
            in_bounds(*old(dest), x, y) && !covered(
                *font,
                text@,
                dest_x as int,
                dest_y as int,
                x,
                y,
                first_bad(*font, text@),
            ) ==> #[trigger] pixel(*final(dest), x, y) == pixel(*old(dest), x, y),
        forall|kb: int|
            0 <= kb < old(dest).pixels@.len() && !covered_bytes(
                *font,
                text@,
                old(dest).pitch as int,
                dest_x as int,
                dest_y as int,
                kb,
                first_bad(*font, text@),
            ) ==> final(dest).pixels@[kb] == old(dest).pixels@[kb],
        (forall|k2: int| 0 <= k2 < text@.len() ==> text@[k2] == ' ') ==> final(dest).pixels@ == old(
            dest,
        ).pixels@,
{
    let ghost orig = *dest;
    let ghost txt = text@;
    let ghost cw = font.character_width as int;
    let ghost ch = font.character_height as int;
    let ghost dxi = dest_x as int;
    let ghost dyi = dest_y as int;
    let ghost pit = dest.pitch as int;
    let n = text.unicode_len();
    let mut cursor_x: u32 = dest_x;
    let mut k: usize = 0;
    while k < n
        invariant
            font_wf(*font),
            bitmap_wf(*dest),
            bitmap_wf(orig),
            orig == *old(dest),
            dest.width == orig.width,
            dest.height == orig.height,
            dest.pitch == orig.pitch,
            dest.pixels@.len() == orig.pixels@.len(),
            cw == font.character_width as int,
            ch == font.character_height as int,
            dxi == dest_x as int,
            dyi == dest_y as int,
            txt == text@,
            n == txt.len(),
            k <= n,
            dxi + txt.len() * cw <= u32::MAX,
            forall|k2: int|
                0 <= k2 < txt.len() && txt[k2] != ' ' ==> ((#[trigger] glyph_lookup(
                    font.charmap@,
                    txt[k2],
                )) matches Some(g) ==> {
                    &&& dxi + (k2 + 1) * cw <= orig.width
                    &&& dyi + ch <= orig.height
                    &&& glyph_cell_fits(*font, g)
                }),
            cursor_x as int == dxi + k * cw,
            forall|k2: int| 0 <= k2 < k as int ==> char_ok(*font, #[trigger] txt[k2]),
            forall|x: int, y: int, k2: int|
                0 <= k2 < k as int && txt[k2] != ' ' && #[trigger] covered_by_cell(
                    x,
                    y,
                    dxi,
                    dyi,
                    cw,
                    ch,
                    k2,
                ) ==> (glyph_lookup(font.charmap@, txt[k2]) matches Some(g) && pixel(*dest, x, y)
                    == pixel(
                    font.bitmap,
                    glyph_cell_x(*font, g) + (x - (dxi + k2 * cw)),
                    glyph_cell_y(*font, g) + (y - dyi),
                )),
            forall|x: int, y: int|
                in_bounds(orig, x, y) && !covered(*font, txt, dxi, dyi, x, y, k as int)
                    ==> #[trigger] pixel(*dest, x, y) == pixel(orig, x, y),
            pit == orig.pitch as int,
            forall|kb: int|
                0 <= kb < orig.pixels@.len() && !covered_bytes(*font, txt, pit, dxi, dyi, kb, k as int)
                    ==> dest.pixels@[kb] == orig.pixels@[kb],
        decreases n - k,
    {
        let c = text.get_char(k);
        proof {
            assert((k as int + 1) * cw <= txt.len() * cw && k as int * cw + cw == (k as int + 1)
                * cw) by (nonlinear_arith)
                requires
                    0 <= k as int,
                    k as int + 1 <= txt.len(),
                    0 <= cw,
            ;
        }
        if c != ' ' {
            match glyph_index(&font.charmap, c) {
                None => {
                    proof {
                        lemma_first_bad_props(*font, txt);
                        let fb = first_bad(*font, txt);
                        assert(!char_ok(*font, txt[k as int]));
                        if fb < k as int {
                            assert(char_ok(*font, txt[fb]));
                            assert(false);
                        }
                        if fb > k as int {
                            assert(char_ok(*font, txt[k as int]));
                            assert(false);
                        }
                    }
                    return Err(GfxError::GlyphMissing(c));
                },
                Some(idx) => {
                    let (cx, cy) = glyph_cell(font, idx);
                    let ghost pre = *dest;
                    bitmap_copy(
                        &font.bitmap,
                        cx,
                        cy,
                        dest,
                        cursor_x,
                        dest_y,
                        font.character_width,
                        font.character_height,
                    );
                    proof {
                        // Cells of earlier characters lie strictly left of the
                        // cell just drawn.
                        assert forall|k2: int| 0 <= k2 < k as int implies #[trigger] (k2 * cw) + cw
                            <= k as int * cw by {
                            assert(k2 * cw + cw <= k as int * cw) by (nonlinear_arith)
                                requires
                                    k2 + 1 <= k as int,
                                    0 <= cw,
                            ;
                        }
                        // Pixels outside every cell drawn so far, the new one
                        // included, kept their original value.
                        assert forall|x: int, y: int|
                            in_bounds(orig, x, y) && !covered(
                                *font,
                                txt,
                                dxi,
                                dyi,
                                x,
                                y,
                                k as int + 1,
                            ) implies pixel(*dest, x, y) == pixel(orig, x, y) by {
                            assert(!covered_by_cell(x, y, dxi, dyi, cw, ch, k as int));
                            assert(!in_rect(x, y, cursor_x as int, dyi, cw, ch));
                            assert(!covered(*font, txt, dxi, dyi, x, y, k as int));
                            assert(pixel(*dest, x, y) == pixel(pre, x, y));
                        }
                        // Bytes outside every drawn cell's row spans, the new
                        // cell's included, kept their original value.
                        assert forall|kb: int|
                            0 <= kb < orig.pixels@.len() && !covered_bytes(
                                *font,
                                txt,
                                pit,
                                dxi,
                                dyi,
                                kb,
                                k as int + 1,
                            ) implies dest.pixels@[kb] == orig.pixels@[kb] by {
                            assert(!cell_region_bytes(kb, pit, dxi, dyi, cw, ch, k as int));
                            assert(!in_region_bytes(kb, pit, cursor_x as int, dyi, cw, ch));
                            assert(!covered_bytes(*font, txt, pit, dxi, dyi, kb, k as int));
                            assert(dest.pixels@[kb] == pre.pixels@[kb]);
                        }
                    }
                },
            }
        }
        cursor_x = cursor_x + font.character_width;
        k = k + 1;
    }
    proof {
        lemma_first_bad_props(*font, txt);
        assert(text_ok(*font, txt));
        if forall|k2: int| 0 <= k2 < txt.len() ==> txt[k2] == ' ' {
            assert(dest.pixels@ =~= orig.pixels@);
        }
    }
    Ok(cursor_x)
}

} // verus!
