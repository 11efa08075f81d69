//! Mapping between canvas coordinates and the packed byte layout: two pixels
//! per byte, the pixel with the even linear index in the high nibble.

use vstd::prelude::*;

verus! {

/// The high nibble of a byte.
pub open spec fn high_of(b: u8) -> u8 {
    b / 16
}

/// The low nibble of a byte.
pub open spec fn low_of(b: u8) -> u8 {
    b % 16
}

/// The byte whose selected half is `v` and whose other half is that of `b`.
pub open spec fn pack_spec(b: u8, v: u8, high: bool) -> u8 {
    if high {
        (v * 16 + low_of(b)) as u8
    } else {
        (high_of(b) * 16 + v) as u8
    }
}

/// Row-major linear index of a pixel.
pub open spec fn linear_index(x: int, y: int, width: int) -> int {
    y * width + x
}

/// The palette index held at linear pixel index `i` of a packed buffer.
pub open spec fn nibble_at(data: Seq<u8>, i: int) -> u8 {
    if i % 2 == 0 {
        high_of(data[i / 2])
    } else {
        low_of(data[i / 2])
    }
}

/// The lowercase hexadecimal digit of a nibble, `'?'` beyond fifteen.
pub open spec fn hex_digit(n: u8) -> char {
    if n <= 9 {
        (48 + n) as char
    } else if n <= 15 {
        (97 + n - 10) as char
    } else {
        '?'
    }
}

/// Packing a value into one half of a byte leaves that half holding the
/// value and the other half holding what it held before.
pub proof fn lemma_pack_halves(b: u8, v: u8, high: bool)
    requires
        v < 16,
    ensures
        high ==> high_of(pack_spec(b, v, high)) == v && low_of(pack_spec(b, v, high)) == low_of(b),
        !high ==> low_of(pack_spec(b, v, high)) == v && high_of(pack_spec(b, v, high)) == high_of(b),
{
}

/// Byte offset and nibble selector of pixel `(x, y)` on a canvas `width` wide.
pub fn offset_of(x: u32, y: u32, width: u32) -> (r: (u64, bool))
    ensures
        r.0 == linear_index(x as int, y as int, width as int) / 2,
        r.1 == (linear_index(x as int, y as int, width as int) % 2 == 0),
{
    proof {
        assert((y as int) * (width as int) <= 0xffff_ffff * 0xffff_ffff) by (nonlinear_arith)
            requires
                y <= 0xffff_ffff,
                width <= 0xffff_ffff,
        ;
    }
    let linear: u64 = (y as u64) * (width as u64) + (x as u64);
    (linear / 2, linear % 2 == 0)
}

/// Replaces the selected half of `existing` by `color_index`, keeping the other half.
pub fn pack(existing: u8, color_index: u8, high_nibble: bool) -> (r: u8)
    requires
        color_index < 16,
    ensures
        r == pack_spec(existing, color_index, high_nibble),
{
    if high_nibble {
        let r = (existing & 0x0f) | (color_index << 4);
        assert(r == color_index * 16 + existing % 16) by (bit_vector)
            requires
                color_index < 16,
                r == (existing & 0x0f) | (color_index << 4),
        ;
        r
    } else {
        let r = (existing & 0xf0) | color_index;
        assert(r == (existing / 16) * 16 + color_index) by (bit_vector)
            requires
                color_index < 16,
                r == (existing & 0xf0) | color_index,
        ;
        r
    }
}

/// Splits a byte into its high and low nibble.
pub fn unpack(b: u8) -> (r: (u8, u8))
    ensures
        r.0 == high_of(b),
        r.1 == low_of(b),
        r.0 < 16,
        r.1 < 16,
{
    let hi = b >> 4;
    let lo = b & 0x0f;
    assert(hi == b / 16 && lo == b % 16) by (bit_vector)
        requires
            hi == b >> 4,
            lo == b & 0x0f,
    ;
    (hi, lo)
}

/// The lowercase hexadecimal digit of a nibble.
pub fn nibble_to_hex(n: u8) -> (r: char)
    ensures
        r == hex_digit(n),
{
    if n <= 9 {
        (48u8 + n) as char
    } else if n <= 15 {
        (97u8 + (n - 10)) as char
    } else {
        '?'
    }
}

/// Lowercase hexadecimal digits of a sequence of nibbles, one per nibble.
pub open spec fn hex_of(nibbles: Seq<u8>) -> Seq<char> {
    nibbles.map_values(|n: u8| hex_digit(n))
}

/// Relies on `String::push`: appends one char at the end.
#[verifier::external_body]
fn push_char(s: &mut String, c: char)
    ensures
        final(s)@ == old(s)@.push(c),
{
    s.push(c)
}

/// One lowercase hexadecimal digit per nibble, in order.
pub fn hex_string(nibbles: &Vec<u8>) -> (r: String)
    ensures
        r@ == hex_of(nibbles@),
{
    let mut out = String::new();
    let mut i: usize = 0;
    while i < nibbles.len()
        invariant
            i <= nibbles@.len(),
            out@ == hex_of(nibbles@.subrange(0, i as int)),
        decreases nibbles@.len() - i,
    {
        let c = nibble_to_hex(nibbles[i]);
        push_char(&mut out, c);
        assert(nibbles@.subrange(0, i + 1) == nibbles@.subrange(0, i as int).push(nibbles@[i as int]));
        assert(hex_of(nibbles@.subrange(0, i + 1)) =~= hex_of(nibbles@.subrange(0, i as int)).push(c));
        i = i + 1;
    }
    assert(nibbles@.subrange(0, nibbles@.len() as int) == nibbles@);
    out
}

} // verus!
