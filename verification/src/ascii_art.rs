//! Mapping pixel intensity to text glyphs for the ascii-art renderer.

use vstd::prelude::*;

verus! {

/// The glyph that stands for a pixel intensity: the 0..=255 range is
/// divided into eight bands of 32, from blank (darkest) to `@`
/// (brightest).
pub open spec fn glyph_of(intent: u8) -> Seq<char> {
    if intent < 32 {
        " "@
    } else if intent < 64 {
        "."@
    } else if intent < 96 {
        ","@
    } else if intent < 128 {
        "-"@
    } else if intent < 160 {
        "~"@
    } else if intent < 192 {
        "+"@
    } else if intent < 224 {
        "="@
    } else {
        "@"@
    }
}

/// Picks the glyph of an intensity band.
pub fn get_str_ascii(intent: u8) -> (r: &'static str)
    ensures
        r@ == glyph_of(intent),
{
    if intent < 32 {
        " "
    } else if intent < 64 {
        "."
    } else if intent < 96 {
        ","
    } else if intent < 128 {
        "-"
    } else if intent < 160 {
        "~"
    } else if intent < 192 {
        "+"
    } else if intent < 224 {
        "="
    } else {
        "@"
    }
}

} // verus!
