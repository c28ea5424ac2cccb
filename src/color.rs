use vstd::prelude::*;
use vstd::string::{StrSliceExecFns, StringExecFns};

verus! {

/// Why a colour string was refused. Each variant holds the digits that were
/// examined, that is the input without its optional leading `#`.
#[derive(Clone, Debug, PartialEq, Eq)]
pub enum ColorError {
    /// A character that is not a hexadecimal digit.
    InvalidHex(String),
    /// A digit count other than 6 or 8.
    InvalidLength(String),
}

/// `s` without its leading `#`, if it has one; a second `#` is kept.
pub open spec fn strip_hash(s: Seq<char>) -> Seq<char> {
    if s.len() > 0 && s[0] == '#' {
        s.drop_first()
    } else {
        s
    }
}

/// `c` is a hexadecimal digit, in either case.
pub open spec fn is_hex_digit(c: char) -> bool {
    ('0' <= c && c <= '9') || ('a' <= c && c <= 'f') || ('A' <= c && c <= 'F')
}

/// The value of the hexadecimal digit `c`.
pub open spec fn hex_digit_value(c: char) -> int {
    if '0' <= c && c <= '9' {
        c as int - '0' as int
    } else if 'a' <= c && c <= 'f' {
        c as int - 'a' as int + 10
    } else {
        c as int - 'A' as int + 10
    }
}

/// Every character of `s` is a hexadecimal digit.
pub open spec fn all_hex(s: Seq<char>) -> bool {
    forall|i: int| 0 <= i < s.len() ==> is_hex_digit(#[trigger] s[i])
}

/// The byte written by the two digits at `2 * k` and `2 * k + 1`.
pub open spec fn hex_value(digits: Seq<char>, k: int) -> int {
    16 * hex_digit_value(digits[2 * k]) + hex_digit_value(digits[2 * k + 1])
}

/// A packed pixel whose bytes in little-endian memory order are red, green,
/// blue and alpha.
pub open spec fn pack_rgba(r: int, g: int, b: int, a: int) -> int {
    r + g * 0x100 + b * 0x1_0000 + a * 0x100_0000
}

/// The packed pixel that the digits `RRGGBB` or `RRGGBBAA` describe; alpha
/// is 0xFF when it is not given.
pub open spec fn parsed_color(digits: Seq<char>) -> int {
    pack_rgba(
        hex_value(digits, 0),
        hex_value(digits, 1),
        hex_value(digits, 2),
        if digits.len() == 8 {
            hex_value(digits, 3)
        } else {
            0xFF
        },
    )
}

/// `s` is a well-formed colour: after an optional leading `#`, six or eight hex digits.
pub open spec fn color_ok(s: Seq<char>) -> bool {
    let d = strip_hash(s);
    all_hex(d) && (d.len() == 6 || d.len() == 8)
}

/// `e` is the error that a malformed colour `s` is refused with: a bad digit
/// before a bad length, each holding the digits without the optional leading `#`.
pub open spec fn describes_failure(e: ColorError, s: Seq<char>) -> bool {
    let d = strip_hash(s);
    if !all_hex(d) {
        e matches ColorError::InvalidHex(t) && t@ == d
    } else {
        e matches ColorError::InvalidLength(t) && t@ == d
    }
}

fn hex_digit(c: char) -> (r: Option<u8>)
    ensures
        r is Some <==> is_hex_digit(c),
        r matches Some(v) ==> v as int == hex_digit_value(c),
{
    if '0' <= c && c <= '9' {
        Some(((c as u32) - ('0' as u32)) as u8)
    } else if 'a' <= c && c <= 'f' {
        Some(((c as u32) - ('a' as u32) + 10) as u8)
    } else if 'A' <= c && c <= 'F' {
        Some(((c as u32) - ('A' as u32) + 10) as u8)
    } else {
        None
    }
}

/// The byte written by the two hex digits at `2 * k` and `2 * k + 1` of `digits`.
fn byte_at(digits: &str, k: usize) -> (r: u32)
    requires
        k < 4,
        2 * k + 1 < digits@.len(),
        all_hex(digits@),
    ensures
        r as int == hex_value(digits@, k as int),
        r < 256,
{
    let hi = hex_digit(digits.get_char(2 * k));
    let lo = hex_digit(digits.get_char(2 * k + 1));
    match (hi, lo) {
        (Some(h), Some(l)) => 16 * (h as u32) + l as u32,
        _ => 0,
    }
}

/// Parses `#RRGGBB` or `#RRGGBBAA` (the `#` optional, digits in either
/// case) into a packed pixel with red in the low byte and alpha in
/// the high byte; alpha is 0xFF when only six digits are given.
pub fn parse_color(color_str: &str) -> (r: Result<u32, ColorError>)
    ensures
        r is Ok <==> color_ok(color_str@),
        r matches Ok(v) ==> v as int == parsed_color(strip_hash(color_str@)),
        r matches Err(e) ==> describes_failure(e, color_str@),
{
    let len = color_str.unicode_len();
    let start: usize = if len > 0 && color_str.get_char(0) == '#' {
        1
    } else {
        0
    };
    proof {
        assert(strip_hash(color_str@) =~= color_str@.subrange(start as int, len as int));
    }
    let digits = color_str.substring_char(start, len);
    let ghost d = digits@;
    let n = len - start;
    let mut i: usize = 0;
    while i < n
        invariant
            n == d.len(),
            d == digits@,
            d == strip_hash(color_str@),
            i <= n,
            forall|k: int| 0 <= k < i ==> is_hex_digit(#[trigger] d[k]),
        decreases n - i,
    {
        if hex_digit(digits.get_char(i)).is_none() {
            assert(!is_hex_digit(d[i as int]));
            return Err(ColorError::InvalidHex(String::from_str(digits)));
        }
        i += 1;
    }
    if n != 6 && n != 8 {
        return Err(ColorError::InvalidLength(String::from_str(digits)));
    }
    let red = byte_at(digits, 0);
    let green = byte_at(digits, 1);
    let blue = byte_at(digits, 2);
    let alpha = if n == 8 {
        byte_at(digits, 3)
    } else {
        0xFF
    };
    Ok(red + green * 0x100 + blue * 0x1_0000 + alpha * 0x100_0000)
}

} // verus!
