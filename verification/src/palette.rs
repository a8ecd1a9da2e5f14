//! Brightness-ordered character palettes and the linear quantisation that
//! maps an 8-bit magnitude to one of their glyphs.
//!
//! A palette is a fixed sequence of ASCII codes; its first glyph stands for
//! the darkest (or weakest) value and its last for the brightest.

use vstd::prelude::*;

verus! {

/// ASCII code of the space character, the first glyph of both palettes.
pub const SPACE: u8 = 32;

/// The coarse palette, ten glyphs: ` .:-=+*#%@`.
pub const COARSE: [u8; 10] = [32, 46, 58, 45, 61, 43, 42, 35, 37, 64];

/// The detailed palette, seventy glyphs:
/// `` .'`^",:;Il!i><~+_-?][}{1)(|\/tfjrxnuvczXYUJCLQ0OZmwqpdbkhao*#MW&8%B@$``.
pub const DETAILED: [u8; 70] = [
    32, 46, 39, 96, 94, 34, 44, 58, 59, 73,
    108, 33, 105, 62, 60, 126, 43, 95, 45, 63,
    93, 91, 125, 123, 49, 41, 40, 124, 92, 47,
    116, 102, 106, 114, 120, 110, 117, 118, 99, 122,
    88, 89, 85, 74, 67, 76, 81, 48, 79, 90,
    109, 119, 113, 112, 100, 98, 107, 104, 97, 111,
    42, 35, 77, 87, 38, 56, 37, 66, 64, 36,
];

/// The glyphs of the palette that the flag selects.
pub open spec fn palette(detailed: bool) -> Seq<u8> {
    if detailed {
        DETAILED@
    } else {
        COARSE@
    }
}

/// The palette index of `value` among `palette_len` glyphs: `value` scaled
/// linearly from `0..=255` onto `0..=palette_len - 1` with truncating
/// division, and never beyond the last glyph.
pub open spec fn quantize(value: int, palette_len: int) -> int {
    let scaled = value * (palette_len - 1) / 255;
    if scaled < palette_len - 1 {
        scaled
    } else {
        palette_len - 1
    }
}

/// The glyph that stands for `value` in the selected palette.
pub open spec fn glyph_of(value: int, detailed: bool) -> u8 {
    palette(detailed)[quantize(value, palette(detailed).len() as int)]
}

/// A brighter value never maps to an earlier glyph: `quantize` is monotonic
/// in the value for every palette length.
pub proof fn lemma_quantize_monotonic(darker: int, brighter: int, palette_len: int)
    requires
        darker <= brighter,
        palette_len >= 1,
    ensures
        quantize(darker, palette_len) <= quantize(brighter, palette_len),
{
    let steps = palette_len - 1;
    assert(darker * steps <= brighter * steps) by (nonlinear_arith)
        requires
            darker <= brighter,
            steps >= 0,
    ;
}

/// An 8-bit value always lands inside the palette; black maps to the first
/// glyph and full brightness to the last.
pub proof fn lemma_quantize_range(value: int, palette_len: int)
    requires
        0 <= value <= 255,
        palette_len >= 1,
    ensures
        0 <= quantize(value, palette_len) < palette_len,
        quantize(value, palette_len) == value * (palette_len - 1) / 255,
        quantize(0, palette_len) == 0,
        quantize(255, palette_len) == palette_len - 1,
{
    let steps = palette_len - 1;
    assert(0 <= value * steps <= 255 * steps) by (nonlinear_arith)
        requires
            0 <= value <= 255,
            steps >= 0,
    ;
    assert(0 * steps == 0);
}

/// Index of the glyph for `value` in a palette of `palette_len` glyphs.
pub fn palette_index(value: u8, palette_len: usize) -> (index: usize)
    requires
        1 <= palette_len <= 256,
    ensures
        index == quantize(value as int, palette_len as int),
        index < palette_len,
{
    proof {
        lemma_quantize_range(value as int, palette_len as int);
    }
    let steps: usize = palette_len - 1;
    assert(value * steps <= 255 * 255) by (nonlinear_arith)
        requires
            0 <= value <= 255,
            0 <= steps <= 255,
    ;
    let scaled: usize = (value as usize) * steps / 255;
    if scaled < steps {
        scaled
    } else {
        steps
    }
}

/// The glyph for `value` in the coarse or the detailed palette.
pub fn glyph_for(value: u8, detailed: bool) -> (glyph: u8)
    ensures
        glyph == glyph_of(value as int, detailed),
{
    if detailed {
        DETAILED[palette_index(value, 70)]
    } else {
        COARSE[palette_index(value, 10)]
    }
}

} // verus!
