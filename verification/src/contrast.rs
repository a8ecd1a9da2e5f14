//! Contrast adjustment of an RGBA buffer through a tone curve.
//!
//! A tone curve gives the new level of a colour channel for each of its 256
//! possible levels. Adjusting a buffer sends red, green and blue of every
//! pixel through the curve and leaves alpha as it is.

use vstd::prelude::*;

verus! {

/// A tone curve: the output level for each input level `0..=255`.
pub struct ContrastCurve {
    levels: [u8; 256],
}

impl View for ContrastCurve {
    type V = Seq<u8>;

    closed spec fn view(&self) -> Seq<u8> {
        self.levels@
    }
}

/// The curve that leaves every level as it is.
pub open spec fn is_identity_curve(curve: Seq<u8>) -> bool {
    curve.len() == 256 && forall|level: int| 0 <= level < 256 ==> #[trigger] curve[level] == level
}

/// The buffer after adjustment: every fourth byte, the alpha of a pixel, is
/// kept, and every other byte is replaced by its level on the curve.
pub open spec fn adjusted(rgba: Seq<u8>, curve: Seq<u8>) -> Seq<u8> {
    Seq::new(
        rgba.len(),
        |i: int|
            if i % 4 == 3 {
                rgba[i]
            } else {
                curve[rgba[i] as int]
            },
    )
}

/// Adjusting with the identity curve changes nothing.
pub proof fn lemma_identity_curve_is_neutral(rgba: Seq<u8>, curve: Seq<u8>)
    requires
        is_identity_curve(curve),
    ensures
        adjusted(rgba, curve) == rgba,
{
    assert(adjusted(rgba, curve) =~= rgba);
}

/// Adjustment keeps the length of the buffer and every alpha byte.
pub proof fn lemma_adjusted_keeps_alpha(rgba: Seq<u8>, curve: Seq<u8>, i: int)
    requires
        0 <= i < rgba.len(),
        i % 4 == 3,
    ensures
        adjusted(rgba, curve).len() == rgba.len(),
        adjusted(rgba, curve)[i] == rgba[i],
{
}

impl ContrastCurve {
    /// The curve with the given output level for each input level.
    pub fn from_table(levels: [u8; 256]) -> (curve: ContrastCurve)
        ensures
            curve@ == levels@,
            curve@.len() == 256,
    {
        ContrastCurve { levels }
    }

    /// The curve that leaves every level as it is.
    pub fn identity() -> (curve: ContrastCurve)
        ensures
            is_identity_curve(curve@),
    {
        let mut levels: [u8; 256] = [0u8; 256];
        let mut level: usize = 0;
        while level < 256
            invariant
                level <= 256,
                forall|below: int| 0 <= below < level ==> #[trigger] levels@[below] == below,
            decreases 256 - level,
        {
            levels[level] = level as u8;
            level = level + 1;
        }
        ContrastCurve { levels }
    }

    /// A curve has a level for each of the 256 inputs.
    pub proof fn lemma_covers_every_level(&self)
        ensures
            self@.len() == 256,
    {
    }

    /// The output level for `input`.
    pub fn level(&self, input: u8) -> (output: u8)
        ensures
            output == self@[input as int],
    {
        self.levels[input as usize]
    }
}

/// Adjusts the contrast of an RGBA buffer: red, green and blue of every
/// pixel are replaced by their level on `curve`, alpha is kept, and the
/// result is as long as the buffer. The dimensions play no part; they are
/// accepted so that all transforms of a frame are called alike.
pub fn apply_contrast(
    rgba_buffer: &[u8],
    _width: usize,
    _height: usize,
    curve: &ContrastCurve,
) -> (out: Vec<u8>)
    ensures
        out@ == adjusted(rgba_buffer@, curve@),
        out@.len() == rgba_buffer@.len(),
{
    let len: usize = rgba_buffer.len();
    let mut out: Vec<u8> = Vec::new();
    let mut i: usize = 0;
    while i < len
        invariant
            i <= len,
            len == rgba_buffer@.len(),
            out@.len() == i,
            forall|k: int| 0 <= k < i ==> out@[k] == adjusted(rgba_buffer@, curve@)[k],
        decreases len - i,
    {
        let byte: u8 = rgba_buffer[i];
        if i % 4 == 3 {
            out.push(byte);
        } else {
            out.push(curve.level(byte));
        }
        i = i + 1;
    }
    assert(out@ =~= adjusted(rgba_buffer@, curve@));
    out
}

} // verus!
