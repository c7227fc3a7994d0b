//! Hexadecimal digits, as they appear in a `\uXXXX` escape.

use vstd::prelude::*;

verus! {

/// The value of `c` as a hexadecimal digit, in either letter case, or `None`
/// when `c` is no such digit.
pub open spec fn hex_value(c: char) -> Option<u32> {
    if '0' <= c <= '9' {
        Some((c as u32 - '0' as u32) as u32)
    } else if 'a' <= c <= 'f' {
        Some((c as u32 - 'a' as u32 + 10) as u32)
    } else if 'A' <= c <= 'F' {
        Some((c as u32 - 'A' as u32 + 10) as u32)
    } else {
        None
    }
}

/// Reads one hexadecimal digit. Letters count in both cases.
pub fn hex_digit(c: char) -> (digit: Option<u32>)
    ensures
        digit == hex_value(c),
        digit matches Some(d) ==> d < 16,
{
    if c >= '0' && c <= '9' {
        Some(c as u32 - '0' as u32)
    } else if c >= 'a' && c <= 'f' {
        Some(c as u32 - 'a' as u32 + 10)
    } else if c >= 'A' && c <= 'F' {
        Some(c as u32 - 'A' as u32 + 10)
    } else {
        None
    }
}

} // verus!
