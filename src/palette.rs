//! The sixteen colors a pixel may take; a pixel stores its color's position.

use vstd::prelude::*;

verus! {

/// Number of colors in the palette.
pub const PALETTE_LEN: u8 = 16;

/// The color at palette index `i`, as a hex color code.
pub open spec fn palette_color(i: int) -> Seq<char> {
    if i == 0 {
        "#FFFFFF"@
    } else if i == 1 {
        "#E4E4E4"@
    } else if i == 2 {
        "#888888"@
    } else if i == 3 {
        "#222222"@
    } else if i == 4 {
        "#FFA7D1"@
    } else if i == 5 {
        "#E50000"@
    } else if i == 6 {
        "#E59500"@
    } else if i == 7 {
        "#A06A42"@
    } else if i == 8 {
        "#E5D900"@
    } else if i == 9 {
        "#94E044"@
    } else if i == 10 {
        "#02BE01"@
    } else if i == 11 {
        "#00D3DD"@
    } else if i == 12 {
        "#0083C7"@
    } else if i == 13 {
        "#0000EA"@
    } else if i == 14 {
        "#CD6EEA"@
    } else {
        "#820080"@
    }
}

/// The first palette index from `i` on whose color is `color`.
pub open spec fn palette_index_from(color: Seq<char>, i: int) -> Option<u8>
    decreases 16 - i,
{
    if i < 0 || i >= 16 {
        None
    } else if palette_color(i) == color {
        Some(i as u8)
    } else {
        palette_index_from(color, i + 1)
    }
}

/// The palette index of a color code, if the palette holds it.
pub open spec fn palette_index(color: Seq<char>) -> Option<u8> {
    palette_index_from(color, 0)
}

/// The color code at palette index `i`.
pub fn color_at(i: u8) -> (r: String)
    requires
        i < PALETTE_LEN,
    ensures
        r@ == palette_color(i as int),
{
    let code = if i == 0 {
        "#FFFFFF"
    } else if i == 1 {
        "#E4E4E4"
    } else if i == 2 {
        "#888888"
    } else if i == 3 {
        "#222222"
    } else if i == 4 {
        "#FFA7D1"
    } else if i == 5 {
        "#E50000"
    } else if i == 6 {
        "#E59500"
    } else if i == 7 {
        "#A06A42"
    } else if i == 8 {
        "#E5D900"
    } else if i == 9 {
        "#94E044"
    } else if i == 10 {
        "#02BE01"
    } else if i == 11 {
        "#00D3DD"
    } else if i == 12 {
        "#0083C7"
    } else if i == 13 {
        "#0000EA"
    } else if i == 14 {
        "#CD6EEA"
    } else {
        "#820080"
    };
    String::from_str(code)
}

/// Palette index of a color code: the first position that holds it, or
/// `None` when the palette does not hold it.
pub fn color_index(color: &String) -> (r: Option<u8>)
    ensures
        r == palette_index(color@),
        r matches Some(i) ==> i < PALETTE_LEN && palette_color(i as int) == color@,
{
    let mut i: u8 = 0;
    while i < PALETTE_LEN
        invariant
            0 <= i <= PALETTE_LEN,
            palette_index(color@) == palette_index_from(color@, i as int),
        decreases PALETTE_LEN - i,
    {
        let code = color_at(i);
        if code == *color {
            return Some(i);
        }
        i = i + 1;
    }
    None
}

} // verus!
