//! Wall-clock helpers: the status bar's hour and minute.

use vstd::prelude::*;
use crate::text::{dec, push_decimal, string_of};

verus! {

/// Seconds since the Unix epoch, from `SystemTime::now()`; 0 when the
/// clock reads before the epoch. The value depends on the machine's
/// clock; nothing is promised about it.
#[verifier::external_body]
fn system_secs() -> (r: u64) {
    match std::time::SystemTime::now().duration_since(std::time::UNIX_EPOCH) {
        Ok(d) => d.as_secs(),
        Err(_) => 0,
    }
}

/// Milliseconds since the Unix epoch, from `SystemTime::now()` (the
/// `as_millis()` count cut to 64 bits); 0 when the clock reads before the
/// epoch. Nothing is promised about the value.
#[verifier::external_body]
fn system_millis() -> (r: u64) {
    match std::time::SystemTime::now().duration_since(std::time::UNIX_EPOCH) {
        Ok(d) => d.as_millis() as u64,
        Err(_) => 0,
    }
}

/// Hour and minute of the day `secs` seconds after the epoch (UTC).
pub open spec fn hm_of(secs: int) -> (u32, u32) {
    let sod = secs % 86400;
    ((sod / 3600) as u32, ((sod % 3600) / 60) as u32)
}

/// Hour and minute (UTC) at `secs` seconds after the epoch.
pub fn clock_hm_at(secs: u64) -> (r: (u32, u32))
    ensures
        r == hm_of(secs as int),
        r.0 < 24 && r.1 < 60,
{
    let sod = (secs % 86400) as u32;
    (sod / 3600, (sod % 3600) / 60)
}

/// The status bar's clock (hour, minute) now: `hm_of` of the current
/// epoch seconds (the device keeps its clock in UTC, so the local offset
/// is 0); always a valid time of day.
pub fn clock_hm() -> (r: (u32, u32))
    ensures
        r.0 < 24 && r.1 < 60,
        exists|secs: u64| r == hm_of(secs as int),
{
    clock_hm_at(system_secs())
}

/// Milliseconds since the Unix epoch.
pub fn now_ms() -> (r: u64) {
    system_millis()
}

/// Hour and minute (UTC) of an epoch reading of `ms` milliseconds: the
/// time of day of its whole seconds.
pub open spec fn hm_of_millis(ms: int) -> (u32, u32) {
    hm_of(ms / 1000)
}

/// Hour and minute (UTC) of an epoch reading in milliseconds: the whole
/// seconds of `ms`, then their time of day.
pub fn hm_of_ms(ms: u64) -> (r: (u32, u32))
    ensures
        r == hm_of_millis(ms as int),
        r.0 < 24 && r.1 < 60,
{
    clock_hm_at(ms / 1000)
}

/// The settings client's clock (hour, minute): [`hm_of_ms`] of the
/// current epoch milliseconds.
pub fn util_clock_hm() -> (r: (u32, u32))
    ensures
        r.0 < 24 && r.1 < 60,
        exists|ms: u64| r == hm_of_millis(ms as int),
{
    hm_of_ms(now_ms())
}

/// `n` in decimal, padded with zeros to at least `width` digits.
pub open spec fn padded(n: nat, width: nat) -> Seq<char>
    decreases width,
{
    if width > 1 && n < pow10((width - 1) as nat) {
        seq!['0'] + padded(n, (width - 1) as nat)
    } else {
        dec(n)
    }
}

pub open spec fn pow10(k: nat) -> nat
    decreases k,
{
    if k == 0 {
        1
    } else {
        10 * pow10((k - 1) as nat)
    }
}

fn push_padded(out: &mut Vec<char>, n: u64, width: u64)
    requires
        width <= 4,
    ensures
        final(out)@ == old(out)@ + padded(n as nat, width as nat),
    decreases width,
{
    let lim: u64 = if width == 4 {
        1000
    } else if width == 3 {
        100
    } else if width == 2 {
        10
    } else {
        1
    };
    proof {
        reveal_with_fuel(pow10, 4);
    }
    if width > 1 && n < lim {
        out.push('0');
        push_padded(out, n, width - 1);
        assert(final(out)@ =~= old(out)@ + padded(n as nat, width as nat));
    } else {
        push_decimal(out, n);
    }
}

/// The civil date (year, month, day) of day `z` after 1970-01-01 in the
/// proleptic Gregorian calendar (the era/day-of-era computation).
pub open spec fn civil(z: int) -> (int, int, int) {
    let zz = z + 719468;
    let era = zz / 146097;
    let doe = zz - era * 146097;
    let yoe = (doe - doe / 1460 + doe / 36524 - doe / 146096) / 365;
    let y = yoe + era * 400;
    let doy = doe - (365 * yoe + yoe / 4 - yoe / 100);
    let mp = (5 * doy + 2) / 153;
    let d = doy - (153 * mp + 2) / 5 + 1;
    let m = if mp < 10 {
        mp + 3
    } else {
        mp - 9
    };
    (if m <= 2 {
        y + 1
    } else {
        y
    }, m, d)
}

/// `HH:MM:SS` of the day `secs` seconds after the epoch (UTC).
pub open spec fn hms_text(secs: nat) -> Seq<char> {
    let sod = secs % 86400;
    padded(sod / 3600, 2) + seq![':'] + padded((sod % 3600) / 60, 2) + seq![':'] + padded(
        sod % 60,
        2,
    )
}

/// `YYYY-MM-DD HH:MM:SS` of `secs` seconds after the epoch (UTC).
pub open spec fn stamp_text(secs: nat) -> Seq<char> {
    let (y, m, d) = civil((secs / 86400) as int);
    padded(y as nat, 4) + seq!['-'] + padded(m as nat, 2) + seq!['-'] + padded(d as nat, 2) + seq![
        ' ',
    ] + hms_text(secs)
}

fn push_hms(out: &mut Vec<char>, secs: u64)
    ensures
        final(out)@ == old(out)@ + hms_text(secs as nat),
{
    let sod = secs % 86400;
    push_padded(out, sod / 3600, 2);
    out.push(':');
    push_padded(out, (sod % 3600) / 60, 2);
    out.push(':');
    push_padded(out, sod % 60, 2);
    assert(final(out)@ =~= old(out)@ + hms_text(secs as nat));
}

/// The time of day (UTC) of `secs`, as `HH:MM:SS`.
pub fn hms_at(secs: u64) -> (s: String)
    ensures
        s@ == hms_text(secs as nat),
{
    let mut out: Vec<char> = Vec::new();
    push_hms(&mut out, secs);
    string_of(&out)
}

/// The date and time (UTC) of `secs`, as `YYYY-MM-DD HH:MM:SS`.
pub fn stamp_at(secs: u64) -> (s: String)
    ensures
        s@ == stamp_text(secs as nat),
{
    let z: u64 = secs / 86400;
    let zz: u64 = z + 719468;
    let era: u64 = zz / 146097;
    let doe: u64 = zz - era * 146097;
    let yoe: u64 = (doe - doe / 1460 + doe / 36524 - doe / 146096) / 365;
    let y: u64 = yoe + era * 400;
    let doy: u64 = doe - (365 * yoe + yoe / 4 - yoe / 100);
    let mp: u64 = (5 * doy + 2) / 153;
    let d: u64 = doy - (153 * mp + 2) / 5 + 1;
    let m: u64 = if mp < 10 {
        mp + 3
    } else {
        mp - 9
    };
    let year: u64 = if m <= 2 {
        y + 1
    } else {
        y
    };
    let mut out: Vec<char> = Vec::new();
    push_padded(&mut out, year, 4);
    out.push('-');
    push_padded(&mut out, m, 2);
    out.push('-');
    push_padded(&mut out, d, 2);
    out.push(' ');
    push_hms(&mut out, secs);
    assert(out@ =~= stamp_text(secs as nat));
    string_of(&out)
}

/// The current time of day (UTC), `HH:MM:SS`.
pub fn hms_now() -> (s: String)
    ensures
        exists|secs: u64| s@ == hms_text(secs as nat),
{
    hms_at(system_secs())
}

/// The current date and time (UTC), `YYYY-MM-DD HH:MM:SS`.
pub fn stamp_now() -> (s: String)
    ensures
        exists|secs: u64| s@ == stamp_text(secs as nat),
{
    stamp_at(system_secs())
}

} // verus!
