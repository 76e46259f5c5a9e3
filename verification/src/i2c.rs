//! Which i2c adapter a controller is.
//!
//! Adapter numbers shift when i2c nodes are enabled, so an adapter is
//! found by its controller's base address: the last 4 of the first 8
//! bytes of its device-tree `reg` property, as big-endian lower-case
//! hex. Listing `/sys/class/i2c-adapter` and reading the `reg` files is
//! the caller's I/O.

use vstd::prelude::*;
use crate::text::{ascii_lower, chars_of, eq_chars, parse_in, parse_int, to_ascii_lower};

verus! {

/// `s.trim_start_matches("0x")`: every leading `0x` removed.
pub open spec fn strip_0x(s: Seq<char>) -> Seq<char>
    decreases s.len(),
{
    if s.len() >= 2 && s[0] == '0' && s[1] == 'x' {
        strip_0x(s.skip(2))
    } else {
        s
    }
}

/// The controller base to look for: without its `0x` prefixes, in ASCII
/// lower case.
pub open spec fn wanted_hex(ctrl_hex: Seq<char>) -> Seq<char> {
    strip_0x(ctrl_hex).map_values(|c: char| ascii_lower(c))
}

pub open spec fn hex_lower(d: int) -> char {
    if d < 10 {
        (d + 48) as char
    } else {
        (d + 87) as char
    }
}

/// `format!("{b:02x}")`.
pub open spec fn byte_hex(b: u8) -> Seq<char> {
    seq![hex_lower(b as int / 16), hex_lower(b as int % 16)]
}

/// The controller base a `reg` property holds: bytes 4..8 in hex, or
/// `None` when it is shorter than 8 bytes.
pub open spec fn reg_base(reg: Seq<u8>) -> Option<Seq<char>> {
    if reg.len() >= 8 {
        Some(byte_hex(reg[4]) + byte_hex(reg[5]) + byte_hex(reg[6]) + byte_hex(reg[7]))
    } else {
        None
    }
}

/// The adapter number in a directory name `i2c-N`.
pub open spec fn adapter_number(name: Seq<char>) -> Option<int> {
    if name.len() >= 4 && name.take(4) == seq!['i', '2', 'c', '-'] {
        parse_in(name.skip(4), true, i32::MIN as int, i32::MAX as int)
    } else {
        None
    }
}

/// The adapter an entry (directory name, `reg` bytes if readable) is,
/// when it is the controller `want`.
pub open spec fn entry_match(name: Seq<char>, reg: Option<Seq<u8>>, want: Seq<char>) -> Option<int> {
    match adapter_number(name) {
        None => None,
        Some(n) => match reg {
            Some(r) => if reg_base(r) == Some(want) {
                Some(n)
            } else {
                None
            },
            None => None,
        },
    }
}

pub open spec fn entry_views(v: Seq<(String, Option<Vec<u8>>)>) -> Seq<(Seq<char>, Option<Seq<u8>>)> {
    v.map_values(
        |e: (String, Option<Vec<u8>>)|
            (
                e.0@,
                match e.1 {
                    Some(b) => Some(b@),
                    None => None,
                },
            ),
    )
}

/// The first entry that is the controller `want`.
pub open spec fn first_match(es: Seq<(Seq<char>, Option<Seq<u8>>)>, want: Seq<char>) -> Option<int>
    decreases es.len(),
{
    if es.len() == 0 {
        None
    } else {
        match entry_match(es[0].0, es[0].1, want) {
            Some(n) => Some(n),
            None => first_match(es.drop_first(), want),
        }
    }
}

fn hex_digit(d: u8) -> (c: char)
    requires
        d < 16,
    ensures
        c == hex_lower(d as int),
{
    if d < 10 {
        (d + 48) as char
    } else {
        (d + 87) as char
    }
}

fn push_byte_hex(out: &mut Vec<char>, b: u8)
    ensures
        final(out)@ == old(out)@ + byte_hex(b),
{
    out.push(hex_digit(b / 16));
    out.push(hex_digit(b % 16));
    assert(final(out)@ =~= old(out)@ + byte_hex(b));
}

/// The controller base wanted for `ctrl_hex`.
fn wanted(ctrl_hex: &str) -> (w: Vec<char>)
    ensures
        w@ == wanted_hex(ctrl_hex@),
{
    let cs = chars_of(ctrl_hex);
    let mut i: usize = 0;
    proof {
        assert(cs@.skip(0) =~= cs@);
    }
    while cs.len() - i >= 2 && cs[i] == '0' && cs[i + 1] == 'x'
        invariant
            i <= cs@.len(),
            strip_0x(cs@) == strip_0x(cs@.skip(i as int)),
        decreases cs@.len() - i,
    {
        proof {
            assert(cs@.skip(i as int).skip(2) =~= cs@.skip(i + 2));
        }
        i = i + 2;
    }
    proof {
        assert(strip_0x(cs@.skip(i as int)) == cs@.skip(i as int));
    }
    let mut w: Vec<char> = Vec::new();
    let mut j: usize = i;
    while j < cs.len()
        invariant
            i <= j <= cs@.len(),
            w@ == cs@.subrange(i as int, j as int).map_values(|c: char| ascii_lower(c)),
        decreases cs@.len() - j,
    {
        w.push(to_ascii_lower(cs[j]));
        assert(cs@.subrange(i as int, j + 1).map_values(|c: char| ascii_lower(c)) =~= cs@.subrange(
            i as int,
            j as int,
        ).map_values(|c: char| ascii_lower(c)).push(ascii_lower(cs@[j as int])));
        j = j + 1;
    }
    assert(cs@.subrange(i as int, cs@.len() as int) =~= cs@.skip(i as int));
    w
}

/// The adapter number of an entry that is the controller `want`.
fn match_entry(name: &str, reg: &Option<Vec<u8>>, want: &Vec<char>) -> (r: Option<i32>)
    ensures
        match entry_match(name@, match reg {
            Some(b) => Some(b@),
            None => None,
        }, want@) {
            Some(n) => r == Some(n as i32),
            None => r is None,
        },
{
    let cs = chars_of(name);
    let pre = chars_of("i2c-");
    assert(pre@ =~= seq!['i', '2', 'c', '-']) by {
        reveal_strlit("i2c-");
    }
    if cs.len() < 4 {
        return None;
    }
    let mut head: Vec<char> = Vec::new();
    let mut k: usize = 0;
    while k < 4
        invariant
            k <= 4,
            cs@.len() >= 4,
            head@ == cs@.take(k as int),
        decreases 4 - k,
    {
        head.push(cs[k]);
        assert(cs@.take(k + 1) =~= cs@.take(k as int).push(cs@[k as int]));
        k = k + 1;
    }
    if !eq_chars(&head, &pre) {
        return None;
    }
    let mut rest: Vec<char> = Vec::new();
    let mut k: usize = 4;
    while k < cs.len()
        invariant
            4 <= k <= cs@.len(),
            rest@ == cs@.subrange(4, k as int),
        decreases cs@.len() - k,
    {
        rest.push(cs[k]);
        assert(cs@.subrange(4, k + 1) =~= cs@.subrange(4, k as int).push(cs@[k as int]));
        k = k + 1;
    }
    assert(rest@ =~= cs@.skip(4));
    let n = match parse_int(&rest, true, i32::MIN as i128, i32::MAX as i128) {
        Some(v) => v as i32,
        None => {
            return None;
        },
    };
    match reg {
        None => None,
        Some(bytes) => {
            if bytes.len() < 8 {
                return None;
            }
            let mut hex: Vec<char> = Vec::new();
            push_byte_hex(&mut hex, bytes[4]);
            push_byte_hex(&mut hex, bytes[5]);
            push_byte_hex(&mut hex, bytes[6]);
            push_byte_hex(&mut hex, bytes[7]);
            assert(hex@ =~= byte_hex(bytes@[4]) + byte_hex(bytes@[5]) + byte_hex(bytes@[6])
                + byte_hex(bytes@[7]));
            if eq_chars(&hex, want) {
                Some(n)
            } else {
                None
            }
        },
    }
}

/// The adapter whose controller base is `ctrl_hex` (e.g. `"1100e000"`,
/// a `0x` prefix and upper case allowed), among the listed entries
/// (directory name, `of_node/reg` bytes when readable), in listing
/// order; `None` when the controller is not probed yet.
pub fn pick_adapter(ctrl_hex: &str, entries: &Vec<(String, Option<Vec<u8>>)>) -> (r: Option<i32>)
    ensures
        match first_match(entry_views(entries@), wanted_hex(ctrl_hex@)) {
            Some(n) => r == Some(n as i32),
            None => r is None,
        },
{
    let want = wanted(ctrl_hex);
    let ghost es = entry_views(entries@);
    let mut i: usize = 0;
    proof {
        assert(es.skip(0) =~= es);
    }
    while i < entries.len()
        invariant
            i <= entries@.len(),
            es == entry_views(entries@),
            want@ == wanted_hex(ctrl_hex@),
            first_match(es, want@) == first_match(es.skip(i as int), want@),
        decreases entries@.len() - i,
    {
        proof {
            assert(es.skip(i as int)[0] == es[i as int]);
            assert(es.skip(i as int).drop_first() =~= es.skip(i + 1));
        }
        let m = match_entry(entries[i].0.as_str(), &entries[i].1, &want);
        if m.is_some() {
            return m;
        }
        i = i + 1;
    }
    None
}

} // verus!
