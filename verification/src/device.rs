//! The on-device data provider's decisions: what the `nmcli`,
//! `bluetoothctl` and `wpctl` outputs and the backlight files mean for
//! the shell, and what a failed command reports. Running the tools is
//! the caller's I/O.

use vstd::prelude::*;
use crate::data::{network_views, opt_view, string_views, DataError, WifiNetwork, WifiState};
use crate::nmcli::{first_active_wifi, parse_nmcli_active, parse_nmcli_radio, parse_nmcli_wifi_list, wifi_list};
use crate::text::{
    ascii_ci_eq, chars_of, join_with, joined, lines, lines_of, parse_in, parse_int, push_chars,
    push_str, string_of, trim, trim_all,
};

verus! {

/// The real, on-device data provider.
pub struct DeviceData;

impl DeviceData {
    pub fn new() -> (d: Self) {
        DeviceData
    }
}

/// The Wi-Fi snapshot from the outputs of `nmcli radio wifi`, the active
/// connections and (when the radio is on) the access-point list.
pub fn wifi_state(radio_out: &str, active_out: &str, list_out: Option<&str>) -> (st: WifiState)
    ensures
        st.enabled == ascii_ci_eq(trim(radio_out@), "enabled"@),
        opt_view(st.active) == first_active_wifi(lines(active_out@)),
        network_views(st.networks@) == (if st.enabled {
            match list_out {
                Some(l) => wifi_list(lines(l@)),
                None => seq![],
            }
        } else {
            seq![]
        }),
{
    let enabled = parse_nmcli_radio(radio_out);
    let active = parse_nmcli_active(active_out);
    let networks = if enabled {
        match list_out {
            Some(l) => parse_nmcli_wifi_list(l),
            None => {
                let v: Vec<WifiNetwork> = Vec::new();
                assert(network_views(v@) =~= seq![]);
                v
            },
        }
    } else {
        let v: Vec<WifiNetwork> = Vec::new();
        assert(network_views(v@) =~= seq![]);
        v
    };
    WifiState { enabled, active, networks }
}

/// The last line of `s` (empty when there is none).
pub open spec fn last_line(s: Seq<char>) -> Seq<char> {
    if lines(s).len() == 0 {
        seq![]
    } else {
        lines(s).last()
    }
}

/// What a failed mutating command reports: the command line and the last
/// line of its stderr (`failed` when that is blank).
pub open spec fn failure_text(prog: Seq<char>, args: Seq<Seq<char>>, stderr: Seq<char>) -> Seq<char> {
    let last = trim(last_line(stderr));
    prog + seq![' '] + joined(args, ' ') + ": "@ + (if last.len() == 0 {
        "failed"@
    } else {
        last
    })
}

/// The error for a command `prog args` that exited unsuccessfully with
/// `stderr`.
pub fn command_failure(prog: &str, args: &Vec<String>, stderr: &str) -> (e: DataError)
    ensures
        e.0@ == failure_text(prog@, string_views(args@), stderr@),
{
    let cs = chars_of(stderr);
    let ls = lines_of(&cs);
    let last = if ls.len() == 0 {
        Vec::new()
    } else {
        trim_all(ls[ls.len() - 1].as_slice())
    };
    proof {
        if ls@.len() > 0 {
            assert(crate::text::views(ls@).last() == ls@[ls@.len() - 1]@);
        }
    }
    let mut out = chars_of(prog);
    out.push(' ');
    let joined_args = join_with(args, ' ');
    push_str(&mut out, joined_args.as_str());
    push_str(&mut out, ": ");
    if last.len() == 0 {
        push_str(&mut out, "failed");
    } else {
        push_chars(&mut out, &last);
    }
    proof {
        assert(trim(last_line(stderr@)) == last@) by {
            if ls@.len() == 0 {
                assert(trim(seq![]) =~= seq![]) by {
                    reveal_with_fuel(crate::text::trim_start_by, 1);
                    reveal_with_fuel(crate::text::trim_end_by, 1);
                }
            }
        }
        assert(out@ =~= failure_text(prog@, string_views(args@), stderr@));
    }
    DataError::new(string_of(&out))
}

/// The backlight maximum from its `max_brightness` text (255 when it
/// cannot be read or parsed).
pub open spec fn max_brightness_of(text: Option<Seq<char>>) -> i64 {
    match text {
        Some(s) => match parse_in(trim(s), true, i64::MIN as int, i64::MAX as int) {
            Some(v) => v as i64,
            None => 255,
        },
        None => 255,
    }
}

pub fn max_brightness(text: Option<&str>) -> (r: i64)
    ensures
        r == max_brightness_of(match text {
            Some(s) => Some(s@),
            None => None,
        }),
{
    match text {
        Some(s) => {
            let t = trim_all(&chars_of(s));
            match parse_int(&t, true, i64::MIN as i128, i64::MAX as i128) {
                Some(v) => v as i64,
                None => 255,
            }
        },
        None => 255,
    }
}

/// The backlight value for `percent` of `max_v`: the percentage clamped
/// to 0..=100, scaled and rounded toward zero, and at least 1 (the panel
/// stays lit).
pub open spec fn brightness_level(max_v: i64, percent: i32) -> i64 {
    let p: int = if percent < 0 {
        0
    } else if percent > 100 {
        100
    } else {
        percent as int
    };
    let v = crate::text::div_trunc(max_v * p, 100);
    if v < 1 {
        1
    } else {
        v as i64
    }
}

/// `percent` kept within 0..=100.
pub open spec fn clamped_percent(percent: i32) -> int {
    if percent < 0 {
        0
    } else if percent > 100 {
        100
    } else {
        percent as int
    }
}

/// The value written to the backlight for `percent` (of `max_v`).
pub fn brightness_value(max_v: i64, percent: i32) -> (r: i64)
    requires
        i64::MIN <= max_v * clamped_percent(percent) <= i64::MAX,
    ensures
        r == brightness_level(max_v, percent),
        r >= 1,
{
    let p: i64 = if percent < 0 {
        0
    } else if percent > 100 {
        100
    } else {
        percent as i64
    };
    let prod: i128 = max_v as i128 * p as i128;
    let v: i128 = if prod >= 0 {
        prod / 100
    } else {
        -((-prod) / 100)
    };
    if v < 1 {
        1
    } else {
        v as i64
    }
}

} // verus!
