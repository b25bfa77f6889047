//! Hex-color parsing and channel extraction.
//!
//! Colors travel through the protocol as `#RRGGBB` strings.  The validator
//! admits exactly that form; the rasterizer turns it into a packed `u32` and
//! then into an `(r, g, b)` channel triple.

use vstd::prelude::*;

verus! {

/// Error raised by the rasterizer's defensive checks: a malformed color
/// string or an undecodable image slipped past validation.
#[derive(Debug, Clone, PartialEq, Eq, Structural)]
pub enum RenderError {
    /// A color string did not have the `#RRGGBB` form.
    BadColor,
    /// An image source could not be decoded into a bitmap.
    ImageDecode,
}

impl RenderError {
    /// A human-readable description of the failure.
    pub fn message(&self) -> (r: &'static str)
        ensures
            r@ == (match self {
                RenderError::BadColor => "color must be #RRGGBB"@,
                RenderError::ImageDecode => "image could not be decoded"@,
            }),
    {
        match self {
            RenderError::BadColor => "color must be #RRGGBB",
            RenderError::ImageDecode => "image could not be decoded",
        }
    }
}

/// One character of a hexadecimal number, either case.
pub open spec fn spec_is_hex_digit(c: char) -> bool {
    ('0' as int <= c as int && c as int <= '9' as int)
    || ('a' as int <= c as int && c as int <= 'f' as int)
    || ('A' as int <= c as int && c as int <= 'F' as int)
}

/// Numeric value of a hex digit.
pub open spec fn spec_hex_digit_val(c: char) -> int {
    if '0' as int <= c as int && c as int <= '9' as int {
        c as int - '0' as int
    } else if 'a' as int <= c as int && c as int <= 'f' as int {
        c as int - 'a' as int + 10
    } else {
        c as int - 'A' as int + 10
    }
}

/// The exact color form the protocol accepts: `#` followed by six hex digits.
pub open spec fn spec_is_hex_color(s: Seq<char>) -> bool {
    s.len() == 7 && s[0] == '#' && (forall|i: int| 1 <= i < 7 ==> spec_is_hex_digit(#[trigger] s[i]))
}

/// Packed 24-bit value of the six digits of a `#RRGGBB` string.
pub open spec fn spec_hex_value(s: Seq<char>) -> int {
    spec_hex_digit_val(s[1]) * 0x100000
    + spec_hex_digit_val(s[2]) * 0x10000
    + spec_hex_digit_val(s[3]) * 0x1000
    + spec_hex_digit_val(s[4]) * 0x100
    + spec_hex_digit_val(s[5]) * 0x10
    + spec_hex_digit_val(s[6])
}

/// The `(r, g, b)` channels named by a `#RRGGBB` string.
pub open spec fn spec_rgb(s: Seq<char>) -> (u8, u8, u8) {
    (
        (spec_hex_digit_val(s[1]) * 16 + spec_hex_digit_val(s[2])) as u8,
        (spec_hex_digit_val(s[3]) * 16 + spec_hex_digit_val(s[4])) as u8,
        (spec_hex_digit_val(s[5]) * 16 + spec_hex_digit_val(s[6])) as u8,
    )
}

fn is_hex_digit_char(c: char) -> (r: bool)
    ensures
        r == spec_is_hex_digit(c),
{
    let u = c as u32;
    ('0' as u32 <= u && u <= '9' as u32)
    || ('a' as u32 <= u && u <= 'f' as u32)
    || ('A' as u32 <= u && u <= 'F' as u32)
}

fn hex_digit_val_char(c: char) -> (r: u8)
    requires
        spec_is_hex_digit(c),
    ensures
        r == spec_hex_digit_val(c),
        r < 16,
{
    let u = c as u32;
    if '0' as u32 <= u && u <= '9' as u32 {
        (u - '0' as u32) as u8
    } else if 'a' as u32 <= u && u <= 'f' as u32 {
        (u - 'a' as u32 + 10) as u8
    } else {
        (u - 'A' as u32 + 10) as u8
    }
}

/// Whether a string has the exact `#RRGGBB` form (case-insensitive digits).
pub fn is_hex_color(value: &str) -> (r: bool)
    ensures
        r == spec_is_hex_color(value@),
{
    let n = value.unicode_len();
    if n != 7 {
        return false;
    }
    if value.get_char(0) != '#' {
        return false;
    }
    let mut i: usize = 1;
    while i < 7
        invariant
            1 <= i <= 7,
            value@.len() == 7,
            value@[0] == '#',
            forall|j: int| 1 <= j < i ==> spec_is_hex_digit(#[trigger] value@[j]),
        decreases 7 - i,
    {
        if !is_hex_digit_char(value.get_char(i)) {
            return false;
        }
        i = i + 1;
    }
    true
}

/// Packs a `#RRGGBB` string into `0x00RRGGBB`; rejects any other form.
pub fn parse_rgb(value: &str) -> (r: Result<u32, RenderError>)
    ensures
        r is Ok <==> spec_is_hex_color(value@),
        r is Ok ==> r->Ok_0 == spec_hex_value(value@),
    {
    if !is_hex_color(value) {
        return Err(RenderError::BadColor);
    }
    let d1 = hex_digit_val_char(value.get_char(1)) as u32;
    let d2 = hex_digit_val_char(value.get_char(2)) as u32;
    let d3 = hex_digit_val_char(value.get_char(3)) as u32;
    let d4 = hex_digit_val_char(value.get_char(4)) as u32;
    let d5 = hex_digit_val_char(value.get_char(5)) as u32;
    let d6 = hex_digit_val_char(value.get_char(6)) as u32;
    Ok(d1 * 0x100000 + d2 * 0x10000 + d3 * 0x1000 + d4 * 0x100 + d5 * 0x10 + d6)
}

/// Splits a packed `0x00RRGGBB` value into its `(r, g, b)` channels.
pub fn rgb_tuple(pixel: u32) -> (r: (u8, u8, u8))
    ensures
        r.0 == (pixel / 0x10000) % 0x100,
        r.1 == (pixel / 0x100) % 0x100,
        r.2 == pixel % 0x100,
{
    assert((pixel >> 16) & 0xff == (pixel / 0x10000) % 0x100) by (bit_vector);
    assert((pixel >> 8) & 0xff == (pixel / 0x100) % 0x100) by (bit_vector);
    assert(pixel & 0xff == pixel % 0x100) by (bit_vector);
    (((pixel >> 16) & 0xff) as u8, ((pixel >> 8) & 0xff) as u8, (pixel & 0xff) as u8)
}

/// Parsing then splitting a valid color string yields exactly its spec channels.
pub proof fn lemma_rgb_of_hex(s: Seq<char>)
    requires
        spec_is_hex_color(s),
    ensures
        (spec_hex_value(s) / 0x10000) % 0x100 == spec_rgb(s).0,
        (spec_hex_value(s) / 0x100) % 0x100 == spec_rgb(s).1,
        spec_hex_value(s) % 0x100 == spec_rgb(s).2,
{
    let d1 = spec_hex_digit_val(s[1]);
    let d2 = spec_hex_digit_val(s[2]);
    let d3 = spec_hex_digit_val(s[3]);
    let d4 = spec_hex_digit_val(s[4]);
    let d5 = spec_hex_digit_val(s[5]);
    let d6 = spec_hex_digit_val(s[6]);
    assert(0 <= d1 < 16 && 0 <= d2 < 16 && 0 <= d3 < 16 && 0 <= d4 < 16 && 0 <= d5 < 16 && 0
        <= d6 < 16);
    let v = spec_hex_value(s);
    assert(v == (d1 * 16 + d2) * 0x10000 + (d3 * 16 + d4) * 0x100 + (d5 * 16 + d6)) by (nonlinear_arith)
        requires
            v == d1 * 0x100000 + d2 * 0x10000 + d3 * 0x1000 + d4 * 0x100 + d5 * 0x10 + d6,
    ;
    let hi = d1 * 16 + d2;
    let mid = d3 * 16 + d4;
    let lo = d5 * 16 + d6;
    assert(v / 0x10000 == hi && v % 0x10000 == mid * 0x100 + lo) by (nonlinear_arith)
        requires
            v == hi * 0x10000 + mid * 0x100 + lo,
            0 <= hi < 256,
            0 <= mid < 256,
            0 <= lo < 256,
    ;
    assert(hi % 0x100 == hi) by (nonlinear_arith)
        requires
            0 <= hi < 256,
    ;
    assert(v / 0x100 == hi * 0x100 + mid && v % 0x100 == lo) by (nonlinear_arith)
        requires
            v == (hi * 0x100 + mid) * 0x100 + lo,
            0 <= mid < 256,
            0 <= lo < 256,
    ;
    assert((hi * 0x100 + mid) % 0x100 == mid) by (nonlinear_arith)
        requires
            0 <= mid < 256,
    ;
}

} // verus!
