//! One-shot battery status (battstat): the BQ25896 power-supply snapshot,
//! its `key=value` report and the exit code that harnesses depend on:
//!   0  OK (charging, full, or healthy on battery)
//!   2  low battery (on battery power, < 3650 mV)
//!   3  USB present but NOT charging
//!   4  critical (on battery power, < 3500 mV)
//!   5  no bq25890 power supply present (driver missing)

use vstd::prelude::*;
use crate::data::opt_view;
use crate::error::Res;
use crate::text::{
    chars_of, div_trunc, eq_chars, has_prefix, int_chars, int_text, lines, lines_of, parse_in,
    parse_int, push_chars, push_str, starts_with, string_of, trim, trim_all, views,
};

verus! {

/// The sysfs prefix of the charger's power supply.
pub const PSY_PREFIX: &'static str = "bq25890-charger-";

/// One snapshot of the charger's power supply.
pub struct Psy {
    pub supply: String,
    pub online: i64,
    pub status: String,
    pub charge_type: String,
    /// `None` = unreadable/non-numeric (`?`).
    pub vbat_mv: Option<i64>,
    pub ibat_ma: Option<i64>,
    pub temp_10c: Option<i64>,
}

/// The number a property file holds (its trimmed text parsed as `i64`).
pub open spec fn num_of(text: Option<Seq<char>>) -> Option<int> {
    match text {
        Some(s) => parse_in(trim(s), true, i64::MIN as int, i64::MAX as int),
        None => None,
    }
}

/// A property file's trimmed text, or `dflt` when it could not be read.
pub open spec fn text_or(text: Option<Seq<char>>, dflt: Seq<char>) -> Seq<char> {
    match text {
        Some(s) => trim(s),
        None => dflt,
    }
}

/// Micro-units to milli-units, rounding toward zero.
pub open spec fn milli(v: Option<int>) -> Option<i64> {
    match v {
        Some(x) => Some(div_trunc(x, 1000) as i64),
        None => None,
    }
}

pub open spec fn as_i64(v: Option<int>) -> Option<i64> {
    match v {
        Some(x) => Some(x as i64),
        None => None,
    }
}

/// The number held by a property file's text.
pub fn num_opt(text: &Option<String>) -> (r: Option<i64>)
    ensures
        r == as_i64(num_of(opt_view(*text))),
{
    match text {
        Some(s) => {
            let cs = chars_of(s.as_str());
            let t = trim_all(&cs);
            match parse_int(&t, true, i64::MIN as i128, i64::MAX as i128) {
                Some(v) => Some(v as i64),
                None => None,
            }
        },
        None => None,
    }
}

fn milli_of(v: Option<i64>) -> (r: Option<i64>)
    ensures
        r == milli(match v {
            Some(x) => Some(x as int),
            None => None,
        }),
{
    match v {
        Some(x) => if x >= 0 {
            Some(x / 1000)
        } else {
            let m = (-(x as i128)) / 1000;
            Some(-(m as i64))
        },
        None => None,
    }
}

fn text_or_default(text: &Option<String>, dflt: &str) -> (r: String)
    ensures
        r@ == text_or(opt_view(*text), dflt@),
{
    match text {
        Some(s) => {
            let cs = chars_of(s.as_str());
            string_of(&trim_all(&cs))
        },
        None => string_of(&chars_of(dflt)),
    }
}

/// One snapshot of the charger power supply named `supply`, from the
/// contents of its `online`, `status`, `charge_type`, `voltage_now`,
/// `current_now` and `temp` files (`None` for a file that could not be
/// read).
pub fn read_psy(
    supply: &str,
    online: &Option<String>,
    status: &Option<String>,
    charge_type: &Option<String>,
    voltage_now: &Option<String>,
    current_now: &Option<String>,
    temp: &Option<String>,
) -> (p: Psy)
    ensures
        p.supply@ == supply@,
        p.online == (match num_of(opt_view(*online)) {
            Some(v) => v as i64,
            None => 0,
        }),
        p.status@ == text_or(opt_view(*status), "Unknown"@),
        p.charge_type@ == text_or(opt_view(*charge_type), "None"@),
        p.vbat_mv == milli(num_of(opt_view(*voltage_now))),
        p.ibat_ma == milli(num_of(opt_view(*current_now))),
        p.temp_10c == as_i64(num_of(opt_view(*temp))),
{
    let on = num_opt(online);
    Psy {
        supply: string_of(&chars_of(supply)),
        online: match on {
            Some(v) => v,
            None => 0,
        },
        status: text_or_default(status, "Unknown"),
        charge_type: text_or_default(charge_type, "None"),
        vbat_mv: milli_of(num_opt(voltage_now)),
        ibat_ma: milli_of(num_opt(current_now)),
        temp_10c: num_opt(temp),
    }
}

/// The battery guard's state from its state file: the first `guard=` line.
pub open spec fn guard_of(ls: Seq<Seq<char>>) -> Option<Seq<char>>
    decreases ls.len(),
{
    if ls.len() == 0 {
        None
    } else if starts_with(ls[0], "guard="@) {
        Some(ls[0].skip(6))
    } else {
        guard_of(ls.drop_first())
    }
}

/// The `guard=` value of the battery guard's state file text, if any.
pub fn guard_state(text: Option<&str>) -> (r: Option<String>)
    ensures
        opt_view(r) == (match text {
            Some(s) => guard_of(lines(s@)),
            None => None,
        }),
{
    let s = match text {
        Some(s) => s,
        None => {
            return None;
        },
    };
    let cs = chars_of(s);
    let ls = lines_of(&cs);
    let key = chars_of("guard=");
    proof {
        reveal_strlit("guard=");
        assert(views(ls@).skip(0) =~= views(ls@));
    }
    let mut k: usize = 0;
    while k < ls.len()
        invariant
            k <= ls@.len(),
            key@ == "guard="@,
            key@.len() == 6,
            text == Some(s),
            guard_of(lines(s@)) == guard_of(views(ls@).skip(k as int)),
        decreases ls@.len() - k,
    {
        let ghost rest = views(ls@).skip(k as int);
        proof {
            assert(rest[0] == ls@[k as int]@);
        }
        if has_prefix(ls[k].as_slice(), &key) {
            let v = crate::text::copy_range(ls[k].as_slice(), 6, ls[k].len());
            proof {
                assert(v@ =~= rest[0].skip(6));
                assert(starts_with(rest[0], "guard="@));
                assert(guard_of(rest) == Some(rest[0].skip(6)));
            }
            return Some(string_of(&v));
        }
        proof {
            assert(rest.drop_first() =~= views(ls@).skip(k + 1));
        }
        k = k + 1;
    }
    proof {
        assert(views(ls@).skip(k as int) =~= seq![]);
    }
    None
}

/// The battstat exit code for a supply status, `online` and VBAT.
pub open spec fn battstat_code(status: Seq<char>, online: i64, vbat_mv: Option<i64>) -> i32 {
    if status == "Discharging"@ || status == "Not charging"@ {
        if online == 1 {
            3
        } else {
            match vbat_mv {
                Some(mv) => if mv < 3500 {
                    4
                } else if mv < 3650 {
                    2
                } else {
                    0
                },
                None => 0,
            }
        }
    } else {
        0
    }
}

/// A number, or `?` when there is none.
pub open spec fn num_text(v: Option<i64>) -> Seq<char> {
    match v {
        Some(x) => int_text(x as int),
        None => seq!['?'],
    }
}

/// The `key=value` report lines for a snapshot and the guard state.
pub open spec fn report_lines(p: Psy, guard: Option<Seq<char>>) -> Seq<Seq<char>> {
    let base = seq![
        "supply="@ + p.supply@,
        "online="@ + int_text(p.online as int),
        "status="@ + p.status@,
        "charge_type="@ + p.charge_type@,
        "vbat_mV="@ + num_text(p.vbat_mv),
        "ibat_mA="@ + num_text(p.ibat_ma),
        "temp_10c="@ + num_text(p.temp_10c),
    ];
    match guard {
        Some(g) => base.push("guard="@ + g),
        None => base,
    }
}

fn num_line(key: &str, v: Option<i64>) -> (r: String)
    ensures
        r@ == key@ + num_text(v),
{
    let mut out = chars_of(key);
    match v {
        Some(x) => {
            let d = int_chars(x as i128);
            push_chars(&mut out, &d);
        },
        None => {
            out.push('?');
        },
    }
    string_of(&out)
}

fn text_line(key: &str, v: &String) -> (r: String)
    ensures
        r@ == key@ + v@,
{
    let mut out = chars_of(key);
    push_str(&mut out, v.as_str());
    string_of(&out)
}

/// The battstat run: the `key=value` lines and the exit code, for the
/// charger snapshot (`None` when no bq25890 power supply exists) and the
/// battery guard's state file text.
pub fn status_lines(psy: Option<&Psy>, guard_file: Option<&str>) -> (r: Res<(Vec<String>, i32)>)
    ensures
        r is Ok,
        match (r, psy) {
            (Ok((ls, code)), None) => code == 5 && crate::data::string_views(ls@) == seq![
                "error=no_bq25890_power_supply"@],
            (Ok((ls, code)), Some(p)) => code == battstat_code(p.status@, p.online, p.vbat_mv)
                && crate::data::string_views(ls@) == report_lines(
                *p,
                match guard_file {
                    Some(s) => guard_of(lines(s@)),
                    None => None,
                },
            ),
            _ => false,
        },
{
    let p = match psy {
        Some(p) => p,
        None => {
            let mut v: Vec<String> = Vec::new();
            v.push(string_of(&chars_of("error=no_bq25890_power_supply")));
            proof {
                assert(crate::data::string_views(v@) =~= seq!["error=no_bq25890_power_supply"@]);
            }
            return Ok((v, 5));
        },
    };
    let mut out: Vec<String> = Vec::new();
    out.push(text_line("supply=", &p.supply));
    out.push(num_line("online=", Some(p.online)));
    out.push(text_line("status=", &p.status));
    out.push(text_line("charge_type=", &p.charge_type));
    out.push(num_line("vbat_mV=", p.vbat_mv));
    out.push(num_line("ibat_mA=", p.ibat_ma));
    out.push(num_line("temp_10c=", p.temp_10c));
    let g = guard_state(guard_file);
    match g {
        Some(g) => {
            out.push(text_line("guard=", &g));
        },
        None => {},
    }
    proof {
        assert(crate::data::string_views(out@) =~= report_lines(
            *p,
            match guard_file {
                Some(s) => guard_of(lines(s@)),
                None => None,
            },
        ));
    }
    let st = chars_of(p.status.as_str());
    let rc: i32 = if eq_chars(&st, chars_of("Discharging").as_slice()) || eq_chars(
        &st,
        chars_of("Not charging").as_slice(),
    ) {
        if p.online == 1 {
            3
        } else {
            match p.vbat_mv {
                Some(mv) => if mv < 3500 {
                    4
                } else if mv < 3650 {
                    2
                } else {
                    0
                },
                None => 0,
            }
        }
    } else {
        0
    };
    Ok((out, rc))
}

} // verus!
