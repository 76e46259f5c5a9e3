//! Keyboard and input-device helpers: the text a keysym types and the
//! evdev absolute-axis query number.

use vstd::prelude::*;

verus! {

/// A valid `char` value: at most U+10FFFF and not a surrogate.
pub open spec fn char_code_ok(n: u32) -> bool {
    n <= 0x10ffff && !(0xd800 <= n <= 0xdfff)
}

/// `char::from_u32` (core): the contract claims what its documentation
/// says, that it gives the character with code `i` exactly when `i` is a
/// Unicode scalar value (at most U+10FFFF and not a surrogate), else `None`.
pub assume_specification[ core::char::from_u32 ](i: u32) -> (r: Option<char>)
    ensures
        r == (if char_code_ok(i) {
            Some(i as char)
        } else {
            None
        }),
;

/// The character a keysym types: Latin-1 printables map to themselves,
/// as do the legacy keysyms 0x100..=0xefff and 0x10000..=0x10ffff, and
/// Unicode keysyms are `0x0100_0000 + code point`.
pub open spec fn keysym_char(k: u32) -> Option<char> {
    let code: u32 = if (0x20 <= k <= 0x7e) || (0xa0 <= k <= 0xff) || (0x100 <= k <= 0xefff) || (
    0x10000 <= k <= 0x10ffff) {
        k
    } else if k >= 0x0100_0000 {
        (k - 0x0100_0000) as u32
    } else {
        0xd800
    };
    if char_code_ok(code) {
        Some(code as char)
    } else {
        None
    }
}

/// The text a keysym types, if any.
pub fn keysym_text(keysym: u32) -> (r: Option<String>)
    ensures
        match r {
            Some(s) => keysym_char(keysym) matches Some(c) && s@ == seq![c],
            None => keysym_char(keysym) is None,
        },
{
    let c = if (0x20 <= keysym && keysym <= 0x7e) || (0xa0 <= keysym && keysym <= 0xff) {
        core::char::from_u32(keysym)
    } else if (0x100 <= keysym && keysym <= 0xefff) || (0x10000 <= keysym && keysym <= 0x10ffff) {
        core::char::from_u32(keysym)
    } else if keysym >= 0x0100_0000 {
        core::char::from_u32(keysym - 0x0100_0000)
    } else {
        return None;
    };
    match c {
        Some(c) => {
            let mut s = String::new();
            s.push(c);
            Some(s)
        },
        None => None,
    }
}

/// `EVIOCGABS(code)`: `_IOC(_IOC_READ, 'E', 0x40 + code, 24)`.
pub fn eviocgabs(code: u16) -> (r: u64)
    ensures
        r == (2u64 << 30u64) | (24u64 << 16u64) | (0x45u64 << 8u64) | ((0x40u64 + code as u64) as u64),
        code < 0xc0 ==> r == 0x8018_4540 + code as u64,
{
    let c = 0x40u64 + code as u64;
    let r = (2u64 << 30u64) | (24u64 << 16u64) | (0x45u64 << 8u64) | c;
    assert(c < 0x100 ==> (2u64 << 30u64) | (24u64 << 16u64) | (0x45u64 << 8u64) | c == 0x8018_4500u64
        + c) by (bit_vector);
    r
}

} // verus!
