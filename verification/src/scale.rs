//! Conversion of font style classes to fontmatch scale values.
//!
//! Weight follows the standard OpenType-to-fontmatch scale: piecewise
//! linear interpolation between anchor points, negative inputs mapped to a
//! `-1` sentinel and inputs above the top anchor clamped to it. Width maps
//! the nine OpenType width classes to their fontmatch constants. All
//! results are 16.16 fixed-point values.

use crate::font::{SlantStyle, FIXED_ONE};
use vstd::prelude::*;

verus! {

// Fontmatch weight constants (plain units, not fixed-point).
pub const FC_WEIGHT_THIN: i64 = 0;
pub const FC_WEIGHT_EXTRALIGHT: i64 = 40;
pub const FC_WEIGHT_LIGHT: i64 = 50;
pub const FC_WEIGHT_DEMILIGHT: i64 = 55;
pub const FC_WEIGHT_BOOK: i64 = 75;
pub const FC_WEIGHT_REGULAR: i64 = 80;
pub const FC_WEIGHT_MEDIUM: i64 = 100;
pub const FC_WEIGHT_DEMIBOLD: i64 = 180;
pub const FC_WEIGHT_BOLD: i64 = 200;
pub const FC_WEIGHT_EXTRABOLD: i64 = 205;
pub const FC_WEIGHT_BLACK: i64 = 210;
pub const FC_WEIGHT_EXTRABLACK: i64 = 215;

// Fontmatch width constants (plain units, not fixed-point).
pub const FC_WIDTH_ULTRACONDENSED: i64 = 50;
pub const FC_WIDTH_EXTRACONDENSED: i64 = 63;
pub const FC_WIDTH_CONDENSED: i64 = 75;
pub const FC_WIDTH_SEMICONDENSED: i64 = 87;
pub const FC_WIDTH_NORMAL: i64 = 100;
pub const FC_WIDTH_SEMIEXPANDED: i64 = 113;
pub const FC_WIDTH_EXPANDED: i64 = 125;
pub const FC_WIDTH_EXTRAEXPANDED: i64 = 150;
pub const FC_WIDTH_ULTRAEXPANDED: i64 = 200;

// Fontmatch slant constants.
pub const FC_SLANT_ROMAN: i64 = 0;
pub const FC_SLANT_ITALIC: i64 = 100;
pub const FC_SLANT_OBLIQUE: i64 = 110;

/// Linear interpolation over one anchor segment, in 16.16 fixed point.
/// `w` is a fixed-point OpenType weight; the anchors are plain units.
pub open spec fn weight_seg(w: int, ot1: int, fc1: int, ot2: int, fc2: int) -> int {
    fc1 * FIXED_ONE + (w - ot1 * FIXED_ONE) * (fc2 - fc1) / (ot2 - ot1)
}

/// The standard OpenType-to-fontmatch weight scale, over 16.16
/// fixed-point values. Negative weights give the `-1` sentinel; weights
/// above the 1000 anchor clamp to its value.
pub open spec fn ot_to_fc_weight_spec(w: int) -> int {
    if w < 0 {
        -FIXED_ONE
    } else if w <= 100 * FIXED_ONE {
        weight_seg(w, 0, FC_WEIGHT_THIN as int, 100, FC_WEIGHT_THIN as int)
    } else if w <= 200 * FIXED_ONE {
        weight_seg(w, 100, FC_WEIGHT_THIN as int, 200, FC_WEIGHT_EXTRALIGHT as int)
    } else if w <= 300 * FIXED_ONE {
        weight_seg(w, 200, FC_WEIGHT_EXTRALIGHT as int, 300, FC_WEIGHT_LIGHT as int)
    } else if w <= 350 * FIXED_ONE {
        weight_seg(w, 300, FC_WEIGHT_LIGHT as int, 350, FC_WEIGHT_DEMILIGHT as int)
    } else if w <= 380 * FIXED_ONE {
        weight_seg(w, 350, FC_WEIGHT_DEMILIGHT as int, 380, FC_WEIGHT_BOOK as int)
    } else if w <= 400 * FIXED_ONE {
        weight_seg(w, 380, FC_WEIGHT_BOOK as int, 400, FC_WEIGHT_REGULAR as int)
    } else if w <= 500 * FIXED_ONE {
        weight_seg(w, 400, FC_WEIGHT_REGULAR as int, 500, FC_WEIGHT_MEDIUM as int)
    } else if w <= 600 * FIXED_ONE {
        weight_seg(w, 500, FC_WEIGHT_MEDIUM as int, 600, FC_WEIGHT_DEMIBOLD as int)
    } else if w <= 700 * FIXED_ONE {
        weight_seg(w, 600, FC_WEIGHT_DEMIBOLD as int, 700, FC_WEIGHT_BOLD as int)
    } else if w <= 800 * FIXED_ONE {
        weight_seg(w, 700, FC_WEIGHT_BOLD as int, 800, FC_WEIGHT_EXTRABOLD as int)
    } else if w <= 900 * FIXED_ONE {
        weight_seg(w, 800, FC_WEIGHT_EXTRABOLD as int, 900, FC_WEIGHT_BLACK as int)
    } else if w <= 1000 * FIXED_ONE {
        weight_seg(w, 900, FC_WEIGHT_BLACK as int, 1000, FC_WEIGHT_EXTRABLACK as int)
    } else {
        FC_WEIGHT_EXTRABLACK * FIXED_ONE
    }
}

/// One interpolation segment, executable.
fn weight_seg_ex(w: i64, ot1: i64, fc1: i64, ot2: i64, fc2: i64) -> (r: i64)
    requires
        0 <= ot1 < ot2 <= 1000,
        0 <= fc1 <= fc2 <= 215,
        ot1 * FIXED_ONE <= w <= ot2 * FIXED_ONE,
    ensures
        r == weight_seg(w as int, ot1 as int, fc1 as int, ot2 as int, fc2 as int),
{
    let diff: i64 = w - ot1 * FIXED_ONE;
    let fcd: i64 = fc2 - fc1;
    proof {
        assert(diff <= 1000 * FIXED_ONE);
        assert(0 <= diff * fcd <= 215 * 1000 * FIXED_ONE) by (nonlinear_arith)
            requires
                0 <= diff <= 1000 * FIXED_ONE,
                0 <= fcd <= 215,
        ;
    }
    let num: i64 = diff * fcd;
    proof {
        assert(0 <= num as int / (ot2 - ot1) <= num) by (nonlinear_arith)
            requires
                0 < ot2 - ot1,
                0 <= num,
        ;
    }
    let q: i64 = num / (ot2 - ot1);
    fc1 * FIXED_ONE + q
}

/// Converts a 16.16 fixed-point OpenType weight to the fontmatch scale.
pub fn ot_to_fc_weight(w: i64) -> (r: i64)
    ensures
        r == ot_to_fc_weight_spec(w as int),
{
    if w < 0 {
        -FIXED_ONE
    } else if w <= 100 * FIXED_ONE {
        weight_seg_ex(w, 0, FC_WEIGHT_THIN, 100, FC_WEIGHT_THIN)
    } else if w <= 200 * FIXED_ONE {
        weight_seg_ex(w, 100, FC_WEIGHT_THIN, 200, FC_WEIGHT_EXTRALIGHT)
    } else if w <= 300 * FIXED_ONE {
        weight_seg_ex(w, 200, FC_WEIGHT_EXTRALIGHT, 300, FC_WEIGHT_LIGHT)
    } else if w <= 350 * FIXED_ONE {
        weight_seg_ex(w, 300, FC_WEIGHT_LIGHT, 350, FC_WEIGHT_DEMILIGHT)
    } else if w <= 380 * FIXED_ONE {
        weight_seg_ex(w, 350, FC_WEIGHT_DEMILIGHT, 380, FC_WEIGHT_BOOK)
    } else if w <= 400 * FIXED_ONE {
        weight_seg_ex(w, 380, FC_WEIGHT_BOOK, 400, FC_WEIGHT_REGULAR)
    } else if w <= 500 * FIXED_ONE {
        weight_seg_ex(w, 400, FC_WEIGHT_REGULAR, 500, FC_WEIGHT_MEDIUM)
    } else if w <= 600 * FIXED_ONE {
        weight_seg_ex(w, 500, FC_WEIGHT_MEDIUM, 600, FC_WEIGHT_DEMIBOLD)
    } else if w <= 700 * FIXED_ONE {
        weight_seg_ex(w, 600, FC_WEIGHT_DEMIBOLD, 700, FC_WEIGHT_BOLD)
    } else if w <= 800 * FIXED_ONE {
        weight_seg_ex(w, 700, FC_WEIGHT_BOLD, 800, FC_WEIGHT_EXTRABOLD)
    } else if w <= 900 * FIXED_ONE {
        weight_seg_ex(w, 800, FC_WEIGHT_EXTRABOLD, 900, FC_WEIGHT_BLACK)
    } else if w <= 1000 * FIXED_ONE {
        weight_seg_ex(w, 900, FC_WEIGHT_BLACK, 1000, FC_WEIGHT_EXTRABLACK)
    } else {
        FC_WEIGHT_EXTRABLACK * FIXED_ONE
    }
}

/// Weight from style metadata, used when the OS/2 table gives none:
/// the standard weight classes map to their fontmatch constants, anything
/// else to medium. Result in 16.16 fixed point.
pub open spec fn fc_weight_spec(class: u16) -> int {
    (if class == 100 {
        FC_WEIGHT_THIN
    } else if class == 200 {
        FC_WEIGHT_EXTRALIGHT
    } else if class == 300 {
        FC_WEIGHT_LIGHT
    } else if class == 400 {
        FC_WEIGHT_REGULAR
    } else if class == 500 {
        FC_WEIGHT_MEDIUM
    } else if class == 600 {
        FC_WEIGHT_DEMIBOLD
    } else if class == 700 {
        FC_WEIGHT_BOLD
    } else if class == 800 {
        FC_WEIGHT_EXTRABOLD
    } else if class == 900 {
        FC_WEIGHT_BLACK
    } else {
        FC_WEIGHT_MEDIUM
    }) * FIXED_ONE
}

/// Executable form of [`fc_weight_spec`].
pub fn fc_weight(class: u16) -> (r: i64)
    ensures
        r == fc_weight_spec(class),
{
    let units: i64 = if class == 100 {
        FC_WEIGHT_THIN
    } else if class == 200 {
        FC_WEIGHT_EXTRALIGHT
    } else if class == 300 {
        FC_WEIGHT_LIGHT
    } else if class == 400 {
        FC_WEIGHT_REGULAR
    } else if class == 500 {
        FC_WEIGHT_MEDIUM
    } else if class == 600 {
        FC_WEIGHT_DEMIBOLD
    } else if class == 700 {
        FC_WEIGHT_BOLD
    } else if class == 800 {
        FC_WEIGHT_EXTRABOLD
    } else if class == 900 {
        FC_WEIGHT_BLACK
    } else {
        FC_WEIGHT_MEDIUM
    };
    units * FIXED_ONE
}

/// The nine-step width-class table: OpenType width classes 1–9 map to the
/// fontmatch width constants, anything else to normal. Result in 16.16
/// fixed point.
pub open spec fn fc_width_spec(class: u16) -> int {
    (if class == 1 {
        FC_WIDTH_ULTRACONDENSED
    } else if class == 2 {
        FC_WIDTH_EXTRACONDENSED
    } else if class == 3 {
        FC_WIDTH_CONDENSED
    } else if class == 4 {
        FC_WIDTH_SEMICONDENSED
    } else if class == 5 {
        FC_WIDTH_NORMAL
    } else if class == 6 {
        FC_WIDTH_SEMIEXPANDED
    } else if class == 7 {
        FC_WIDTH_EXPANDED
    } else if class == 8 {
        FC_WIDTH_EXTRAEXPANDED
    } else if class == 9 {
        FC_WIDTH_ULTRAEXPANDED
    } else {
        FC_WIDTH_NORMAL
    }) * FIXED_ONE
}

/// Slant from style metadata: italic and oblique styles map to their
/// fontmatch constants, anything else to roman.
pub open spec fn fc_slant_spec(style: SlantStyle) -> int {
    match style {
        SlantStyle::Italic => FC_SLANT_ITALIC as int,
        SlantStyle::Oblique => FC_SLANT_OBLIQUE as int,
        SlantStyle::Roman => FC_SLANT_ROMAN as int,
    }
}

/// Executable form of [`fc_slant_spec`].
pub fn fc_slant(style: SlantStyle) -> (r: i64)
    ensures
        r == fc_slant_spec(style),
{
    match style {
        SlantStyle::Italic => FC_SLANT_ITALIC,
        SlantStyle::Oblique => FC_SLANT_OBLIQUE,
        SlantStyle::Roman => FC_SLANT_ROMAN,
    }
}

/// Executable form of [`fc_width_spec`].
pub fn fc_width(class: u16) -> (r: i64)
    ensures
        r == fc_width_spec(class),
{
    let units: i64 = if class == 1 {
        FC_WIDTH_ULTRACONDENSED
    } else if class == 2 {
        FC_WIDTH_EXTRACONDENSED
    } else if class == 3 {
        FC_WIDTH_CONDENSED
    } else if class == 4 {
        FC_WIDTH_SEMICONDENSED
    } else if class == 5 {
        FC_WIDTH_NORMAL
    } else if class == 6 {
        FC_WIDTH_SEMIEXPANDED
    } else if class == 7 {
        FC_WIDTH_EXPANDED
    } else if class == 8 {
        FC_WIDTH_EXTRAEXPANDED
    } else if class == 9 {
        FC_WIDTH_ULTRAEXPANDED
    } else {
        FC_WIDTH_NORMAL
    };
    units * FIXED_ONE
}

} // verus!
