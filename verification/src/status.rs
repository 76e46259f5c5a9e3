//! The compositor's status-bar snapshot, from what the poller read:
//! battery and charger files, the NetworkManager connectivity and BlueZ
//! power properties, the `wpctl` volume line and the backlight files.
//! The reads are the caller's I/O.

use vstd::prelude::*;
use crate::clock::util_clock_hm;
use crate::data::{opt_view, BatteryState};
use crate::text::{upper, upper_text, chars_of, has_infix, contains_seq, eq_chars, parse_in, parse_int, trim, trim_all};

verus! {

#[derive(Clone, Copy, Debug, Default, PartialEq, Eq, Structural)]
pub struct Status {
    /// percent 0..=100, None = unknown
    pub battery: Option<i32>,
    pub charging: bool,
    pub wifi: bool,
    pub bluetooth: bool,
    pub volume: i32,
    pub muted: bool,
    pub brightness: i32,
    pub brightness_max: i32,
    pub hour: u32,
    pub minute: u32,
}

/// A file's trimmed text parsed as `i32`.
pub open spec fn i32_of(text: Option<Seq<char>>) -> Option<int> {
    match text {
        Some(s) => parse_in(trim(s), true, i32::MIN as int, i32::MAX as int),
        None => None,
    }
}

fn parse_i32(text: &Option<String>) -> (r: Option<i32>)
    ensures
        match i32_of(opt_view(*text)) {
            Some(v) => r == Some(v as i32),
            None => r is None,
        },
{
    match text {
        Some(s) => {
            let cs = chars_of(s.as_str());
            let t = trim_all(&cs);
            match parse_int(&t, true, i32::MIN as i128, i32::MAX as i128) {
                Some(v) => Some(v as i32),
                None => None,
            }
        },
        None => None,
    }
}

/// The first battery capacity that reads as a number.
pub open spec fn first_capacity(caps: Seq<Option<Seq<char>>>) -> Option<int>
    decreases caps.len(),
{
    if caps.len() == 0 {
        None
    } else {
        match i32_of(caps[0]) {
            Some(v) => Some(v),
            None => first_capacity(caps.drop_first()),
        }
    }
}

pub open spec fn opt_views(v: Seq<Option<String>>) -> Seq<Option<Seq<char>>> {
    v.map_values(|o: Option<String>| opt_view(o))
}

/// Is a file's trimmed text `lit`?
pub open spec fn reads(text: Option<Seq<char>>, lit: Seq<char>) -> bool {
    match text {
        Some(s) => trim(s) == lit,
        None => false,
    }
}

/// The chargers, each as (`status`, `online`) file texts, in order: the
/// device is charging when one of them reports `Charging` or online `1`,
/// looking no further than the first charger whose status could be read.
pub open spec fn charging_of(chs: Seq<(Option<Seq<char>>, Option<Seq<char>>)>) -> bool
    decreases chs.len(),
{
    if chs.len() == 0 {
        false
    } else {
        let (st, on) = chs[0];
        let here = reads(st, "Charging"@) || reads(on, "1"@);
        if st is Some {
            here
        } else {
            here || charging_of(chs.drop_first())
        }
    }
}

pub open spec fn pair_views(v: Seq<(Option<String>, Option<String>)>) -> Seq<(Option<Seq<char>>, Option<Seq<char>>)> {
    v.map_values(|p: (Option<String>, Option<String>)| (opt_view(p.0), opt_view(p.1)))
}

fn reads_text(text: &Option<String>, lit: &str) -> (r: bool)
    ensures
        r == reads(opt_view(*text), lit@),
{
    match text {
        Some(s) => {
            let cs = chars_of(s.as_str());
            let t = trim_all(&cs);
            let l = chars_of(lit);
            eq_chars(&t, &l)
        },
        None => false,
    }
}

fn contains_text(text: Option<&str>, lit: &str) -> (r: bool)
    ensures
        r == match text {
            Some(s) => contains_seq(s@, lit@),
            None => false,
        },
{
    match text {
        Some(s) => {
            let cs = chars_of(s);
            let l = chars_of(lit);
            has_infix(&cs, &l)
        },
        None => false,
    }
}

/// The backlight level, from the first backlight's `brightness` and
/// `max_brightness` texts: unreadable reads as 0 and 255.
pub open spec fn level_of(text: Option<Seq<char>>, dflt: int) -> int {
    match i32_of(text) {
        Some(v) => v,
        None => dflt,
    }
}

impl Status {
    /// The snapshot from what was read: the battery capacities (one per
    /// battery supply), the chargers' `status` and `online` texts, the
    /// `busctl` outputs for connectivity and Bluetooth power, the volume
    /// percentage and the `wpctl get-volume` output, and the first
    /// backlight's `brightness` and `max_brightness` texts. The clock is
    /// read now.
    pub fn from_readings(
        capacities: &Vec<Option<String>>,
        chargers: &Vec<(Option<String>, Option<String>)>,
        connectivity: Option<&str>,
        powered: Option<&str>,
        volume: i32,
        volume_out: Option<&str>,
        backlight: &Option<(Option<String>, Option<String>)>,
    ) -> (s: Status)
        ensures
            match first_capacity(opt_views(capacities@)) {
                Some(v) => s.battery == Some(v as i32),
                None => s.battery is None,
            },
            s.charging == charging_of(pair_views(chargers@)),
            s.wifi == match connectivity {
                Some(o) => contains_seq(o@, "\"full\""@),
                None => false,
            },
            s.bluetooth == match powered {
                Some(o) => contains_seq(o@, "true"@),
                None => false,
            },
            s.volume == volume,
            s.muted == match volume_out {
                Some(o) => contains_seq(upper(o@), "MUTE"@),
                None => false,
            },
            match backlight {
                Some((b, m)) => s.brightness == level_of(opt_view(*b), 0) && s.brightness_max
                    == level_of(opt_view(*m), 255),
                None => s.brightness == 0 && s.brightness_max == 0,
            },
            s.hour < 24 && s.minute < 60,
    {
        let mut battery: Option<i32> = None;
        let mut i: usize = 0;
        let ghost caps = opt_views(capacities@);
        proof {
            assert(caps.skip(0) =~= caps);
        }
        while i < capacities.len()
            invariant_except_break
                battery is None,
                first_capacity(caps) == first_capacity(caps.skip(i as int)),
            invariant
                i <= capacities@.len(),
                caps == opt_views(capacities@),
            ensures
                match first_capacity(caps) {
                    Some(v) => battery == Some(v as i32),
                    None => battery is None,
                },
            decreases capacities@.len() - i,
        {
            proof {
                assert(caps.skip(i as int)[0] == opt_view(capacities@[i as int]));
                assert(caps.skip(i as int).drop_first() =~= caps.skip(i + 1));
            }
            let b = parse_i32(&capacities[i]);
            if b.is_some() {
                battery = b;
                break;
            }
            i = i + 1;
        }
        let mut charging = false;
        let mut j: usize = 0;
        let ghost chs = pair_views(chargers@);
        proof {
            assert(chs.skip(0) =~= chs);
        }
        while j < chargers.len()
            invariant_except_break
                charging_of(chs) == (charging || charging_of(chs.skip(j as int))),
            invariant
                j <= chargers@.len(),
                chs == pair_views(chargers@),
            ensures
                charging == charging_of(chs),
            decreases chargers@.len() - j,
        {
            proof {
                assert(chs.skip(j as int)[0] == chs[j as int]);
                assert(chs.skip(j as int).drop_first() =~= chs.skip(j + 1));
            }
            let st = &chargers[j].0;
            let on = &chargers[j].1;
            if reads_text(st, "Charging") {
                charging = true;
            }
            if reads_text(on, "1") {
                charging = true;
            }
            if st.is_some() {
                break;
            }
            j = j + 1;
        }
        let wifi = contains_text(connectivity, "\"full\"");
        let bluetooth = contains_text(powered, "true");
        let muted = match volume_out {
            Some(o) => {
                let up = upper_text(o);
                contains_text(Some(up.as_str()), "MUTE")
            },
            None => false,
        };
        let (brightness, brightness_max) = match backlight {
            Some((b, m)) => {
                let bv = match parse_i32(b) {
                    Some(v) => v,
                    None => 0,
                };
                let mv = match parse_i32(m) {
                    Some(v) => v,
                    None => 255,
                };
                (bv, mv)
            },
            None => (0, 0),
        };
        let (hour, minute) = util_clock_hm();
        Status {
            battery,
            charging,
            wifi,
            bluetooth,
            volume,
            muted,
            brightness,
            brightness_max,
            hour,
            minute,
        }
    }
}

/// The device provider's charging flag: decided by the last charger
/// looked at (`Charging`, or online `1`), looking no further than the
/// first charger whose status could be read; false without chargers.
pub open spec fn last_charger_charging(chs: Seq<(Option<Seq<char>>, Option<Seq<char>>)>) -> bool
    decreases chs.len(),
{
    if chs.len() == 0 {
        false
    } else {
        let (st, on) = chs[0];
        let here = reads(st, "Charging"@) || reads(on, "1"@);
        if st is Some || chs.len() == 1 {
            here
        } else {
            last_charger_charging(chs.drop_first())
        }
    }
}

/// The device provider's battery snapshot from the battery capacities
/// and the chargers' `status` and `online` texts.
pub fn battery_state(
    capacities: &Vec<Option<String>>,
    chargers: &Vec<(Option<String>, Option<String>)>,
) -> (b: BatteryState)
    ensures
        match first_capacity(opt_views(capacities@)) {
            Some(v) => b.percent == Some(v as i32),
            None => b.percent is None,
        },
        b.charging == last_charger_charging(pair_views(chargers@)),
{
    let mut percent: Option<i32> = None;
    let mut i: usize = 0;
    let ghost caps = opt_views(capacities@);
    proof {
        assert(caps.skip(0) =~= caps);
    }
    while i < capacities.len()
        invariant_except_break
            percent is None,
            first_capacity(caps) == first_capacity(caps.skip(i as int)),
        invariant
            i <= capacities@.len(),
            caps == opt_views(capacities@),
        ensures
            match first_capacity(caps) {
                Some(v) => percent == Some(v as i32),
                None => percent is None,
            },
        decreases capacities@.len() - i,
    {
        proof {
            assert(caps.skip(i as int)[0] == opt_view(capacities@[i as int]));
            assert(caps.skip(i as int).drop_first() =~= caps.skip(i + 1));
        }
        let b = parse_i32(&capacities[i]);
        if b.is_some() {
            percent = b;
            break;
        }
        i = i + 1;
    }
    let mut charging = false;
    let mut j: usize = 0;
    let ghost chs = pair_views(chargers@);
    proof {
        assert(chs.skip(0) =~= chs);
    }
    while j < chargers.len()
        invariant_except_break
            j == 0 ==> !charging,
            last_charger_charging(chs) == (if j > 0 && j == chs.len() {
                charging
            } else {
                last_charger_charging(chs.skip(j as int))
            }),
        invariant
            j <= chargers@.len(),
            chs == pair_views(chargers@),
        ensures
            charging == last_charger_charging(chs),
        decreases chargers@.len() - j,
    {
        proof {
            assert(chs.skip(j as int)[0] == chs[j as int]);
            assert(chs.skip(j as int).drop_first() =~= chs.skip(j + 1));
        }
        let st = &chargers[j].0;
        let on = &chargers[j].1;
        charging = reads_text(st, "Charging") || reads_text(on, "1");
        if st.is_some() {
            break;
        }
        j = j + 1;
    }
    BatteryState { percent, charging }
}

/// The device provider's backlight (level, maximum) from the two files'
/// texts when a backlight exists: unreadable reads as 0.
pub fn backlight_levels(cur: &Option<String>, max: &Option<String>) -> (r: (i32, i32))
    ensures
        r.0 == level_of(opt_view(*cur), 0),
        r.1 == level_of(opt_view(*max), 0),
{
    let c = match parse_i32(cur) {
        Some(v) => v,
        None => 0,
    };
    let m = match parse_i32(max) {
        Some(v) => v,
        None => 0,
    };
    (c, m)
}

/// The backlight value for `pct` percent of `max` (`max` taken as at
/// least 1): the percentage is kept within 0..=100, and the result is at
/// least 1 when `max` is above 1, so the screen never goes fully dark.
pub open spec fn backlight_target(pct: i32, max: i32) -> int {
    let m: int = if max < 1 {
        1
    } else {
        max as int
    };
    let p: int = if pct < 0 {
        0
    } else if pct > 100 {
        100
    } else {
        pct as int
    };
    let v = p * m / 100;
    let floor: int = if m > 1 {
        1
    } else {
        0
    };
    if v < floor {
        floor
    } else {
        v
    }
}

/// The value written stays within 0..=max (max taken as at least 1),
/// and is at least 1 whenever max is above 1.
pub proof fn law_backlight_target_range(pct: i32, max: i32)
    ensures
        0 <= backlight_target(pct, max),
        backlight_target(pct, max) <= (if max < 1 {
            1
        } else {
            max as int
        }),
        max > 1 ==> backlight_target(pct, max) >= 1,
{
    let m: int = if max < 1 {
        1
    } else {
        max as int
    };
    let p: int = if pct < 0 {
        0
    } else if pct > 100 {
        100
    } else {
        pct as int
    };
    assert(0 <= p * m / 100 <= m) by (nonlinear_arith)
        requires
            0 <= p <= 100,
            m >= 1,
    ;
}

/// The value `set_brightness` writes for `pct` percent of `max`.
pub fn brightness_target(pct: i32, max: i32) -> (v: i32)
    requires
        (if pct < 0 {
            0
        } else if pct > 100 {
            100
        } else {
            pct as int
        }) * (if max < 1 {
            1
        } else {
            max as int
        }) <= i32::MAX,
    ensures
        v == backlight_target(pct, max),
{
    let m = if max < 1 {
        1
    } else {
        max
    };
    let p = if pct < 0 {
        0
    } else if pct > 100 {
        100
    } else {
        pct
    };
    proof {
        assert(0 <= p * m) by (nonlinear_arith)
            requires
                0 <= p,
                1 <= m,
        ;
    }
    let v = p * m / 100;
    let floor = if m > 1 {
        1
    } else {
        0
    };
    if v < floor {
        floor
    } else {
        v
    }
}

} // verus!
