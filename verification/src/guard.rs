//! The battery guard's decisions, one poll at a time.
//!
//! The daemon keeps the battery at a safe level — it warns when VBAT is
//! low and powers off before a dangerous depth of discharge — and checks
//! that the device actually charges when USB is connected. Its rules:
//!   - `charge_type` is the primary charge signal (`current_now` stays 0
//!     while online);
//!   - a VBAT read below 2.5 V is a READ ERROR (the ADC floor is
//!     2.304 V), never "critical" — it must not trigger a poweroff;
//!   - poweroff requires TWO CONSECUTIVE critical samples;
//!   - alerts are rate-limited by a cooldown.
//!
//! [`guard_tick`] takes the state and one poll's readings and returns
//! the next state and everything the daemon prints, writes and does.

use vstd::prelude::*;
use crate::battery::Psy;
use crate::data::string_views;
use crate::text::{chars_of, eq_chars, int_chars, int_text, push_chars, push_str, string_of};

verus! {

/// The daemon's tunables (environment overrides of the defaults).
pub struct GuardConfig {
    pub poll_s: u64,
    pub warn_mv: i64,
    pub crit_mv: i64,
    pub alert_cd: i64,
    pub stuck_min: i64,
}

/// The guard verdict for one poll.
#[derive(Clone, Copy, PartialEq, Eq, Structural, Debug)]
pub enum GuardLevel {
    Good,
    NoSupply,
    NotCharging,
    ReadErr,
    Critical,
    Low,
}

pub open spec fn level_name(l: GuardLevel) -> Seq<char> {
    match l {
        GuardLevel::Good => "OK"@,
        GuardLevel::NoSupply => "NOSUPPLY"@,
        GuardLevel::NotCharging => "NOTCHARGING"@,
        GuardLevel::ReadErr => "READERR"@,
        GuardLevel::Critical => "CRITICAL"@,
        GuardLevel::Low => "LOW"@,
    }
}

impl GuardLevel {
    /// The verdict as the state file and history spell it.
    pub fn name(&self) -> (s: &'static str)
        ensures
            s@ == level_name(*self),
    {
        match self {
            GuardLevel::Good => "OK",
            GuardLevel::NoSupply => "NOSUPPLY",
            GuardLevel::NotCharging => "NOTCHARGING",
            GuardLevel::ReadErr => "READERR",
            GuardLevel::Critical => "CRITICAL",
            GuardLevel::Low => "LOW",
        }
    }
}

/// What the daemon carries from one poll to the next.
pub struct GuardState {
    /// When the last alert was printed (seconds).
    pub last_alert: i64,
    /// Since when `status=Charging` has come with `charge_type=None` (0: not).
    pub stuck_since: i64,
    /// Critical samples since the last healthy reading on battery.
    pub crit_strikes: i64,
    /// The last verdict reported (`None` before the first).
    pub prev: Option<GuardLevel>,
}

impl GuardState {
    pub fn new() -> (s: Self)
        ensures
            s.last_alert == 0,
            s.stuck_since == 0,
            s.crit_strikes == 0,
            s.prev is None,
    {
        GuardState { last_alert: 0, stuck_since: 0, crit_strikes: 0, prev: None }
    }
}

/// One poll's readings: the time, its printed stamp, the charger
/// snapshot (`None` when no bq25890 power supply exists) and the raw
/// `voltage_now` (µV), `current_now` (µA) and `temp` values.
pub struct GuardSample {
    pub t: i64,
    pub stamp: String,
    pub psy: Option<Psy>,
    pub vbat_raw: Option<u64>,
    pub ibat_raw: Option<u64>,
    pub temp_raw: Option<u64>,
}

/// Everything one poll produces.
pub struct GuardTick {
    pub state: GuardState,
    pub level: GuardLevel,
    /// Lines for stdout, in order.
    pub lines: Vec<String>,
    /// The new contents of the state file.
    pub state_body: String,
    /// The history CSV row to append (none when powering off).
    pub history: Option<String>,
    /// Power the device off (after a 10 s grace period).
    pub poweroff: bool,
}

/// `raw as i64 / 1000`: the µV reading in mV.
pub open spec fn mv_of(raw: u64) -> i64 {
    if raw <= i64::MAX as u64 {
        (raw / 1000) as i64
    } else {
        (-((0x1_0000_0000_0000_0000 - raw) / 1000)) as i64
    }
}

pub open spec fn vbat_of(raw: Option<u64>) -> Option<i64> {
    match raw {
        Some(v) => Some(mv_of(v)),
        None => None,
    }
}

/// The decisions of one poll, before rate limiting and formatting.
pub struct Decision {
    pub level: GuardLevel,
    /// Alerts wanted, as (level, message).
    pub alerts: Seq<(Seq<char>, Seq<char>)>,
    pub stuck_since: i64,
    pub crit_strikes: i64,
    pub poweroff: bool,
}

pub open spec fn msg_no_supply() -> Seq<char> {
    "no bq25890-charger power supply under /sys/class/power_supply — charger driver did not probe (check dmesg)"@
}

pub open spec fn msg_stuck(stuck_min: i64) -> Seq<char> {
    "status=Charging but charge_type=None for "@ + int_text(stuck_min as int)
        + " min — sense/charger fault?"@
}

pub open spec fn msg_not_charging(status: Seq<char>) -> Seq<char> {
    "USB present (online=1) but status='"@ + status
        + "' — NOT charging (OTG/boost mode? wrong port/cable? see B-19/B-22)"@
}

pub open spec fn msg_read_failed() -> Seq<char> {
    "VBAT read failed — cannot assess battery level"@
}

pub open spec fn msg_below_floor(mv: i64) -> Seq<char> {
    "VBAT "@ + int_text(mv as int) + " mV below ADC floor — read error, ignoring"@
}

pub open spec fn msg_critical(mv: i64, crit: i64) -> Seq<char> {
    "VBAT "@ + int_text(mv as int) + " mV < "@ + int_text(crit as int)
        + " mV with no USB — will power off on next sample if still critical (connect USB!)"@
}

pub open spec fn msg_low(mv: i64, warn: i64) -> Seq<char> {
    "low battery on battery power: VBAT "@ + int_text(mv as int) + " mV (< "@ + int_text(
        warn as int,
    ) + " mV) — connect USB"@
}

pub open spec fn msg_hot(t10: u64) -> Seq<char> {
    "battery TS pin ~"@ + int_text((t10 / 10) as int) + " C — hot; charging may be throttled (JEITA)"@
}

/// One more strike, the count saturating at `i64::MAX`.
pub open spec fn strike_added(strikes: i64) -> i64 {
    if strikes < i64::MAX {
        (strikes + 1) as i64
    } else {
        strikes
    }
}

/// The battery-level part of a poll while on battery power.
pub open spec fn decide_on_battery(cfg: GuardConfig, st: GuardState, vbat: Option<i64>) -> Decision {
    match vbat {
        None => Decision {
            level: GuardLevel::ReadErr,
            alerts: seq![("ERROR"@, msg_read_failed())],
            stuck_since: 0,
            crit_strikes: 0,
            poweroff: false,
        },
        Some(mv) => if mv < 2500 {
            Decision {
                level: GuardLevel::ReadErr,
                alerts: seq![("ERROR"@, msg_below_floor(mv))],
                stuck_since: 0,
                crit_strikes: 0,
                poweroff: false,
            }
        } else if mv < cfg.crit_mv {
            let strikes = strike_added(st.crit_strikes);
            Decision {
                level: GuardLevel::Critical,
                alerts: if strikes >= 2 {
                    seq![]
                } else {
                    seq![("CRIT"@, msg_critical(mv, cfg.crit_mv))]
                },
                stuck_since: 0,
                crit_strikes: strikes,
                poweroff: strikes >= 2,
            }
        } else {
            Decision {
                level: if mv < cfg.warn_mv {
                    GuardLevel::Low
                } else {
                    GuardLevel::Good
                },
                alerts: if mv < cfg.warn_mv {
                    seq![("WARN"@, msg_low(mv, cfg.warn_mv))]
                } else {
                    seq![]
                },
                stuck_since: 0,
                crit_strikes: 0,
                poweroff: false,
            }
        },
    }
}

/// The charging part of a poll while USB is present.
pub open spec fn decide_on_usb(cfg: GuardConfig, st: GuardState, t: i64, p: Psy) -> Decision {
    if p.status@ == "Full"@ {
        Decision {
            level: GuardLevel::Good,
            alerts: seq![],
            stuck_since: st.stuck_since,
            crit_strikes: 0,
            poweroff: false,
        }
    } else if p.status@ == "Charging"@ {
        if p.charge_type@ == "None"@ {
            let since = if st.stuck_since == 0 {
                t
            } else {
                st.stuck_since
            };
            Decision {
                level: GuardLevel::Good,
                alerts: if t - since > cfg.stuck_min * 60 {
                    seq![("WARN"@, msg_stuck(cfg.stuck_min))]
                } else {
                    seq![]
                },
                stuck_since: since,
                crit_strikes: 0,
                poweroff: false,
            }
        } else {
            Decision {
                level: GuardLevel::Good,
                alerts: seq![],
                stuck_since: 0,
                crit_strikes: 0,
                poweroff: false,
            }
        }
    } else {
        Decision {
            level: GuardLevel::NotCharging,
            alerts: seq![("WARN"@, msg_not_charging(p.status@))],
            stuck_since: st.stuck_since,
            crit_strikes: 0,
            poweroff: false,
        }
    }
}

/// All decisions of a poll that found the charger's power supply.
pub open spec fn decide(cfg: GuardConfig, st: GuardState, s: GuardSample, p: Psy) -> Decision {
    let d = if p.online == 1 {
        decide_on_usb(cfg, st, s.t, p)
    } else {
        decide_on_battery(cfg, st, vbat_of(s.vbat_raw))
    };
    if d.poweroff {
        d
    } else {
        match s.temp_raw {
            Some(t10) => if t10 > 450 {
                Decision { alerts: d.alerts.push(("WARN"@, msg_hot(t10))), ..d }
            } else {
                d
            },
            None => d,
        }
    }
}

/// `[stamp]`, the prefix of every line the daemon prints.
pub open spec fn tag(stamp: Seq<char>) -> Seq<char> {
    seq!['['] + stamp + seq![']']
}

pub open spec fn alert_line(stamp: Seq<char>, level: Seq<char>, msg: Seq<char>) -> Seq<char> {
    tag(stamp) + " battery-guard: ALERT "@ + level + ": "@ + msg
}

/// The alerts printed, given the time of the last one: an alert is
/// printed only when the cooldown since the last printed one is over.
pub open spec fn rate_limited(
    last: i64,
    t: i64,
    cd: i64,
    stamp: Seq<char>,
    alerts: Seq<(Seq<char>, Seq<char>)>,
) -> (i64, Seq<Seq<char>>)
    decreases alerts.len(),
{
    if alerts.len() == 0 {
        (last, seq![])
    } else {
        let (l, printed) = rate_limited(last, t, cd, stamp, alerts.drop_last());
        if t >= l + cd {
            (t, printed.push(alert_line(stamp, alerts.last().0, alerts.last().1)))
        } else {
            (l, printed)
        }
    }
}

pub open spec fn opt_num_text(v: Option<int>) -> Seq<char> {
    match v {
        Some(x) => int_text(x),
        None => seq!['?'],
    }
}

pub open spec fn opt_i64(v: Option<i64>) -> Option<int> {
    match v {
        Some(x) => Some(x as int),
        None => None,
    }
}

pub open spec fn opt_u64(v: Option<u64>) -> Option<int> {
    match v {
        Some(x) => Some(x as int),
        None => None,
    }
}

/// The state file written for a poll that found the power supply.
pub open spec fn state_body(s: GuardSample, p: Psy, level: GuardLevel) -> Seq<char> {
    "ts="@ + int_text(s.t as int) + "\nsupply="@ + p.supply@ + "\nonline="@ + int_text(
        p.online as int,
    ) + "\nstatus="@ + p.status@ + "\ncharge_type="@ + p.charge_type@ + "\nvbat_mv="@
        + opt_num_text(opt_i64(vbat_of(s.vbat_raw))) + "\nibat_uA="@ + opt_num_text(
        opt_u64(s.ibat_raw),
    ) + "\ntemp_10c="@ + opt_num_text(opt_u64(s.temp_raw)) + "\nguard="@ + level_name(level)
        + "\n"@
}

/// The state file written when there is no power supply.
pub open spec fn state_body_unavailable(t: i64, level: GuardLevel) -> Seq<char> {
    "ts="@ + int_text(t as int)
        + "\nsupply=?\nonline=?\nstatus=?\ncharge_type=?\nvbat_mv=?\nibat_uA=?\ntemp_10c=?\nguard="@
        + level_name(level) + "\n"@
}

/// The history CSV row for a poll that found the power supply.
pub open spec fn history_row(s: GuardSample, p: Psy, level: GuardLevel) -> Seq<char> {
    s.stamp@ + seq![','] + int_text(p.online as int) + seq![','] + p.status@ + seq![','] + (if p.charge_type@.len()
        == 0 {
        seq!['?']
    } else {
        p.charge_type@
    }) + seq![','] + opt_num_text(opt_i64(vbat_of(s.vbat_raw))) + seq![','] + opt_num_text(
        opt_u64(s.ibat_raw),
    ) + seq![','] + opt_num_text(opt_u64(s.temp_raw)) + seq![','] + level_name(level) + seq!['\n']
}

/// The history CSV row when there is no power supply.
pub open spec fn history_row_unavailable(stamp: Seq<char>, level: GuardLevel) -> Seq<char> {
    stamp + ",?,?,?,?,?,?,"@ + level_name(level) + seq!['\n']
}

pub open spec fn critical_line(stamp: Seq<char>, mv: i64, crit: i64) -> Seq<char> {
    tag(stamp) + " battery-guard: CRITICAL: VBAT "@ + int_text(mv as int) + " mV < "@ + int_text(
        crit as int,
    ) + " mV with no USB — powering off in 10 s (vendor hard-off is 3400 mV)"@
}

pub open spec fn transition_line(stamp: Seq<char>, prev: Option<GuardLevel>, level: GuardLevel, p: Psy, vbat: Option<i64>) -> Seq<char> {
    tag(stamp) + " battery-guard: state: "@ + (match prev {
        Some(l) => level_name(l),
        None => "<init>"@,
    }) + " -> "@ + level_name(level) + " (online="@ + int_text(p.online as int) + " status="@
        + p.status@ + " vbat="@ + opt_num_text(opt_i64(vbat)) + "mV)"@
}

/// What a poll may assume so that its arithmetic stays in range: times
/// are non-negative and far from the `i64` limits, and the cooldown and
/// stuck-charge limits are representable.
pub open spec fn tick_ok(cfg: GuardConfig, st: GuardState, t: i64) -> bool {
    &&& 0 <= t < 0x4000_0000_0000_0000
    &&& 0 <= st.stuck_since < 0x4000_0000_0000_0000
    &&& 0 <= st.last_alert < 0x4000_0000_0000_0000
    &&& -0x4000_0000_0000_0000 < cfg.alert_cd < 0x4000_0000_0000_0000
    &&& i64::MIN <= cfg.stuck_min * 60 <= i64::MAX
}

/// Everything one poll produces, as plain values.
pub struct GuardTickView {
    pub last_alert: i64,
    pub stuck_since: i64,
    pub crit_strikes: i64,
    pub prev: Option<GuardLevel>,
    pub level: GuardLevel,
    pub lines: Seq<Seq<char>>,
    pub state_body: Seq<char>,
    pub history: Option<Seq<char>>,
    pub poweroff: bool,
}

pub open spec fn tick_view(r: GuardTick) -> GuardTickView {
    GuardTickView {
        last_alert: r.state.last_alert,
        stuck_since: r.state.stuck_since,
        crit_strikes: r.state.crit_strikes,
        prev: r.state.prev,
        level: r.level,
        lines: string_views(r.lines@),
        state_body: r.state_body@,
        history: match r.history {
            Some(h) => Some(h@),
            None => None,
        },
        poweroff: r.poweroff,
    }
}

/// One poll of the guard: the next state and what the daemon prints,
/// writes and does.
pub open spec fn tick_spec(cfg: GuardConfig, st: GuardState, s: GuardSample) -> GuardTickView {
    match s.psy {
        None => {
            let (last, printed) = rate_limited(
                st.last_alert,
                s.t,
                cfg.alert_cd,
                s.stamp@,
                seq![("ERROR"@, msg_no_supply())],
            );
            GuardTickView {
                last_alert: last,
                stuck_since: st.stuck_since,
                crit_strikes: 0,
                prev: st.prev,
                level: GuardLevel::NoSupply,
                lines: printed,
                state_body: state_body_unavailable(s.t, GuardLevel::NoSupply),
                history: Some(history_row_unavailable(s.stamp@, GuardLevel::NoSupply)),
                poweroff: false,
            }
        },
        Some(p) => {
            let d = decide(cfg, st, s, p);
            let (last, printed) = rate_limited(st.last_alert, s.t, cfg.alert_cd, s.stamp@, d.alerts);
            if d.poweroff {
                GuardTickView {
                    last_alert: last,
                    stuck_since: d.stuck_since,
                    crit_strikes: d.crit_strikes,
                    prev: st.prev,
                    level: d.level,
                    lines: printed.push(
                        critical_line(
                            s.stamp@,
                            match vbat_of(s.vbat_raw) {
                                Some(mv) => mv,
                                None => 0,
                            },
                            cfg.crit_mv,
                        ),
                    ),
                    state_body: state_body(s, p, d.level),
                    history: None,
                    poweroff: true,
                }
            } else {
                GuardTickView {
                    last_alert: last,
                    stuck_since: d.stuck_since,
                    crit_strikes: d.crit_strikes,
                    prev: Some(d.level),
                    level: d.level,
                    lines: if st.prev != Some(d.level) {
                        printed.push(transition_line(s.stamp@, st.prev, d.level, p, vbat_of(s.vbat_raw)))
                    } else {
                        printed
                    },
                    state_body: state_body(s, p, d.level),
                    history: Some(history_row(s, p, d.level)),
                    poweroff: false,
                }
            }
        },
    }
}

fn mv_from(raw: u64) -> (r: i64)
    ensures
        r == mv_of(raw),
{
    if raw <= i64::MAX as u64 {
        (raw / 1000) as i64
    } else {
        let m = (0x1_0000_0000_0000_0000u128 - raw as u128) / 1000;
        -(m as i64)
    }
}

fn tag_chars(stamp: &String) -> (v: Vec<char>)
    ensures
        v@ == tag(stamp@),
{
    let mut v: Vec<char> = Vec::new();
    v.push('[');
    push_str(&mut v, stamp.as_str());
    v.push(']');
    assert(v@ =~= tag(stamp@));
    v
}

fn num_chars(v: Option<i64>) -> (r: Vec<char>)
    ensures
        r@ == opt_num_text(opt_i64(v)),
{
    match v {
        Some(x) => int_chars(x as i128),
        None => {
            let mut r: Vec<char> = Vec::new();
            r.push('?');
            assert(r@ =~= seq!['?']);
            r
        },
    }
}

fn unum_chars(v: Option<u64>) -> (r: Vec<char>)
    ensures
        r@ == opt_num_text(opt_u64(v)),
{
    match v {
        Some(x) => int_chars(x as i128),
        None => {
            let mut r: Vec<char> = Vec::new();
            r.push('?');
            assert(r@ =~= seq!['?']);
            r
        },
    }
}

pub open spec fn alert_views(v: Seq<(Vec<char>, Vec<char>)>) -> Seq<(Seq<char>, Seq<char>)> {
    v.map_values(|a: (Vec<char>, Vec<char>)| (a.0@, a.1@))
}

/// The decisions of one poll, as run-time values.
struct DecisionValues {
    level: GuardLevel,
    alerts: Vec<(Vec<char>, Vec<char>)>,
    stuck_since: i64,
    crit_strikes: i64,
    poweroff: bool,
}

spec fn decision_view(d: DecisionValues) -> Decision {
    Decision {
        level: d.level,
        alerts: alert_views(d.alerts@),
        stuck_since: d.stuck_since,
        crit_strikes: d.crit_strikes,
        poweroff: d.poweroff,
    }
}

fn no_alerts() -> (v: Vec<(Vec<char>, Vec<char>)>)
    ensures
        alert_views(v@) == Seq::<(Seq<char>, Seq<char>)>::empty(),
{
    let v: Vec<(Vec<char>, Vec<char>)> = Vec::new();
    assert(alert_views(v@) =~= Seq::<(Seq<char>, Seq<char>)>::empty());
    v
}

fn one_alert(level: &str, msg: Vec<char>) -> (v: Vec<(Vec<char>, Vec<char>)>)
    ensures
        alert_views(v@) == seq![(level@, msg@)],
{
    let mut v: Vec<(Vec<char>, Vec<char>)> = Vec::new();
    v.push((chars_of(level), msg));
    assert(alert_views(v@) =~= seq![(level@, msg@)]);
    v
}

fn decide_values(cfg: &GuardConfig, st: &GuardState, s: &GuardSample, p: &Psy) -> (d: DecisionValues)
    requires
        tick_ok(*cfg, *st, s.t),
    ensures
        decision_view(d) == decide(*cfg, *st, *s, *p),
{
    let t = s.t;
    let mut d = if p.online == 1 {
        let status = chars_of(p.status.as_str());
        if eq_chars(&status, chars_of("Full").as_slice()) {
            DecisionValues {
                level: GuardLevel::Good,
                alerts: no_alerts(),
                stuck_since: st.stuck_since,
                crit_strikes: 0,
                poweroff: false,
            }
        } else if eq_chars(&status, chars_of("Charging").as_slice()) {
            let ct = chars_of(p.charge_type.as_str());
            if eq_chars(&ct, chars_of("None").as_slice()) {
                let since = if st.stuck_since == 0 {
                    t
                } else {
                    st.stuck_since
                };
                let alerts = if t - since > cfg.stuck_min * 60 {
                    let mut m = chars_of("status=Charging but charge_type=None for ");
                    push_chars(&mut m, &int_chars(cfg.stuck_min as i128));
                    push_str(&mut m, " min — sense/charger fault?");
                    proof {
                        assert(m@ =~= msg_stuck(cfg.stuck_min));
                    }
                    one_alert("WARN", m)
                } else {
                    no_alerts()
                };
                DecisionValues {
                    level: GuardLevel::Good,
                    alerts,
                    stuck_since: since,
                    crit_strikes: 0,
                    poweroff: false,
                }
            } else {
                DecisionValues {
                    level: GuardLevel::Good,
                    alerts: no_alerts(),
                    stuck_since: 0,
                    crit_strikes: 0,
                    poweroff: false,
                }
            }
        } else {
            let mut m = chars_of("USB present (online=1) but status='");
            push_str(&mut m, p.status.as_str());
            push_str(&mut m, "' — NOT charging (OTG/boost mode? wrong port/cable? see B-19/B-22)");
            proof {
                assert(m@ =~= msg_not_charging(p.status@));
            }
            DecisionValues {
                level: GuardLevel::NotCharging,
                alerts: one_alert("WARN", m),
                stuck_since: st.stuck_since,
                crit_strikes: 0,
                poweroff: false,
            }
        }
    } else {
        let vbat = match s.vbat_raw {
            Some(v) => Some(mv_from(v)),
            None => None,
        };
        match vbat {
            None => DecisionValues {
                level: GuardLevel::ReadErr,
                alerts: one_alert("ERROR", chars_of("VBAT read failed — cannot assess battery level")),
                stuck_since: 0,
                crit_strikes: 0,
                poweroff: false,
            },
            Some(mv) => if mv < 2500 {
                let mut m = chars_of("VBAT ");
                push_chars(&mut m, &int_chars(mv as i128));
                push_str(&mut m, " mV below ADC floor — read error, ignoring");
                proof {
                    assert(m@ =~= msg_below_floor(mv));
                }
                DecisionValues {
                    level: GuardLevel::ReadErr,
                    alerts: one_alert("ERROR", m),
                    stuck_since: 0,
                    crit_strikes: 0,
                    poweroff: false,
                }
            } else if mv < cfg.crit_mv {
                let strikes = if st.crit_strikes < i64::MAX {
                    st.crit_strikes + 1
                } else {
                    st.crit_strikes
                };
                let alerts = if strikes >= 2 {
                    no_alerts()
                } else {
                    let mut m = chars_of("VBAT ");
                    push_chars(&mut m, &int_chars(mv as i128));
                    push_str(&mut m, " mV < ");
                    push_chars(&mut m, &int_chars(cfg.crit_mv as i128));
                    push_str(
                        &mut m,
                        " mV with no USB — will power off on next sample if still critical (connect USB!)",
                    );
                    proof {
                        assert(m@ =~= msg_critical(mv, cfg.crit_mv));
                    }
                    one_alert("CRIT", m)
                };
                DecisionValues {
                    level: GuardLevel::Critical,
                    alerts,
                    stuck_since: 0,
                    crit_strikes: strikes,
                    poweroff: strikes >= 2,
                }
            } else if mv < cfg.warn_mv {
                let mut m = chars_of("low battery on battery power: VBAT ");
                push_chars(&mut m, &int_chars(mv as i128));
                push_str(&mut m, " mV (< ");
                push_chars(&mut m, &int_chars(cfg.warn_mv as i128));
                push_str(&mut m, " mV) — connect USB");
                proof {
                    assert(m@ =~= msg_low(mv, cfg.warn_mv));
                }
                DecisionValues {
                    level: GuardLevel::Low,
                    alerts: one_alert("WARN", m),
                    stuck_since: 0,
                    crit_strikes: 0,
                    poweroff: false,
                }
            } else {
                DecisionValues {
                    level: GuardLevel::Good,
                    alerts: no_alerts(),
                    stuck_since: 0,
                    crit_strikes: 0,
                    poweroff: false,
                }
            },
        }
    };
    let ghost base = if p.online == 1 {
        decide_on_usb(*cfg, *st, s.t, *p)
    } else {
        decide_on_battery(*cfg, *st, vbat_of(s.vbat_raw))
    };
    assert(decision_view(d) == base);
    if !d.poweroff {
        match s.temp_raw {
            Some(t10) => if t10 > 450 {
                let mut m = chars_of("battery TS pin ~");
                push_chars(&mut m, &int_chars((t10 / 10) as i128));
                push_str(&mut m, " C — hot; charging may be throttled (JEITA)");
                proof {
                    assert(m@ =~= msg_hot(t10));
                }
                let ghost before = d.alerts@;
                d.alerts.push((chars_of("WARN"), m));
                proof {
                    assert(alert_views(d.alerts@) =~= alert_views(before).push(("WARN"@, msg_hot(t10))));
                }
            },
            None => {},
        }
    }
    d
}

/// Print the wanted alerts whose cooldown is over; returns the time of
/// the last printed one.
fn print_alerts(
    last0: i64,
    t: i64,
    cd: i64,
    stamp: &String,
    alerts: &Vec<(Vec<char>, Vec<char>)>,
    lines: &mut Vec<String>,
) -> (last: i64)
    requires
        -0x4000_0000_0000_0000 < cd < 0x4000_0000_0000_0000,
        0 <= last0 < 0x4000_0000_0000_0000,
        0 <= t < 0x4000_0000_0000_0000,
        old(lines)@.len() == 0,
    ensures
        (last, string_views(final(lines)@)) == rate_limited(last0, t, cd, stamp@, alert_views(alerts@)),
{
    let mut last = last0;
    let mut i: usize = 0;
    proof {
        assert(alert_views(alerts@).take(0) =~= seq![]);
        assert(string_views(lines@) =~= seq![]);
    }
    while i < alerts.len()
        invariant
            i <= alerts@.len(),
            -0x4000_0000_0000_0000 < cd < 0x4000_0000_0000_0000,
            0 <= last < 0x4000_0000_0000_0000,
            0 <= t < 0x4000_0000_0000_0000,
            (last, string_views(lines@)) == rate_limited(
                last0,
                t,
                cd,
                stamp@,
                alert_views(alerts@).take(i as int),
            ),
        decreases alerts@.len() - i,
    {
        let ghost pre = alert_views(alerts@).take(i as int);
        proof {
            assert(alert_views(alerts@).take(i + 1).drop_last() =~= pre);
            assert(alert_views(alerts@).take(i + 1).last() == (alerts@[i as int].0@, alerts@[i as int].1@));
        }
        if t >= last + cd {
            let mut v = tag_chars(stamp);
            push_str(&mut v, " battery-guard: ALERT ");
            push_chars(&mut v, &alerts[i].0);
            push_str(&mut v, ": ");
            push_chars(&mut v, &alerts[i].1);
            proof {
                assert(v@ =~= alert_line(stamp@, alerts@[i as int].0@, alerts@[i as int].1@));
            }
            let ghost before = lines@;
            lines.push(string_of(&v));
            proof {
                assert(string_views(lines@) =~= string_views(before).push(v@));
            }
            last = t;
        }
        i = i + 1;
    }
    proof {
        assert(alert_views(alerts@).take(alerts@.len() as int) =~= alert_views(alerts@));
    }
    last
}

fn body_chars(s: &GuardSample, p: &Psy, level: GuardLevel) -> (v: Vec<char>)
    ensures
        v@ == state_body(*s, *p, level),
{
    let vbat = match s.vbat_raw {
        Some(r) => Some(mv_from(r)),
        None => None,
    };
    let mut v = chars_of("ts=");
    push_chars(&mut v, &int_chars(s.t as i128));
    push_str(&mut v, "\nsupply=");
    push_str(&mut v, p.supply.as_str());
    push_str(&mut v, "\nonline=");
    push_chars(&mut v, &int_chars(p.online as i128));
    push_str(&mut v, "\nstatus=");
    push_str(&mut v, p.status.as_str());
    push_str(&mut v, "\ncharge_type=");
    push_str(&mut v, p.charge_type.as_str());
    push_str(&mut v, "\nvbat_mv=");
    push_chars(&mut v, &num_chars(vbat));
    push_str(&mut v, "\nibat_uA=");
    push_chars(&mut v, &unum_chars(s.ibat_raw));
    push_str(&mut v, "\ntemp_10c=");
    push_chars(&mut v, &unum_chars(s.temp_raw));
    push_str(&mut v, "\nguard=");
    push_str(&mut v, level.name());
    push_str(&mut v, "\n");
    assert(v@ =~= state_body(*s, *p, level));
    v
}

fn row_chars(s: &GuardSample, p: &Psy, level: GuardLevel) -> (v: Vec<char>)
    ensures
        v@ == history_row(*s, *p, level),
{
    let vbat = match s.vbat_raw {
        Some(r) => Some(mv_from(r)),
        None => None,
    };
    let mut v = chars_of(s.stamp.as_str());
    v.push(',');
    push_chars(&mut v, &int_chars(p.online as i128));
    v.push(',');
    push_str(&mut v, p.status.as_str());
    v.push(',');
    let ct = chars_of(p.charge_type.as_str());
    if ct.len() == 0 {
        v.push('?');
    } else {
        push_chars(&mut v, &ct);
    }
    v.push(',');
    push_chars(&mut v, &num_chars(vbat));
    v.push(',');
    push_chars(&mut v, &unum_chars(s.ibat_raw));
    v.push(',');
    push_chars(&mut v, &unum_chars(s.temp_raw));
    v.push(',');
    push_str(&mut v, level.name());
    v.push('\n');
    assert(v@ =~= history_row(*s, *p, level));
    v
}

/// The VBAT reading (mV) of a poll made on battery power, if any.
pub open spec fn battery_reading(s: GuardSample) -> Option<i64> {
    match s.psy {
        Some(p) => if p.online != 1 {
            vbat_of(s.vbat_raw)
        } else {
            None
        },
        None => None,
    }
}

/// One poll of the battery guard: the next state and what the daemon
/// prints, writes and does.
pub fn guard_tick(cfg: &GuardConfig, st: &GuardState, s: &GuardSample) -> (r: GuardTick)
    requires
        tick_ok(*cfg, *st, s.t),
    ensures
        tick_view(r) == tick_spec(*cfg, *st, *s),
        // Power-off needs a second critical sample on battery power, with
        // a real reading (at or above the ADC floor).
        r.poweroff ==> (battery_reading(*s) is Some && 2500 <= battery_reading(*s)->0 < cfg.crit_mv
            && st.crit_strikes >= 1),
        // A reading below the ADC floor is a read error: it never powers
        // off and never counts as critical.
        (battery_reading(*s) is Some && battery_reading(*s)->0 < 2500) ==> (!r.poweroff
            && r.state.crit_strikes == 0 && r.level == GuardLevel::ReadErr),
        // Only a critical sample on battery power counts a strike; every
        // other poll starts the count again.
        critical_sample(*cfg, *s) ==> r.state.crit_strikes == strike_added(st.crit_strikes),
        !critical_sample(*cfg, *s) ==> r.state.crit_strikes == 0,
        // Alerts are rate-limited: within the cooldown nothing new is
        // printed and the cooldown is not restarted.
        s.t < st.last_alert + cfg.alert_cd ==> r.state.last_alert == st.last_alert,
        r.state.last_alert == st.last_alert || (r.state.last_alert == s.t && s.t >= st.last_alert
            + cfg.alert_cd),
{
    let t = s.t;
    let mut lines: Vec<String> = Vec::new();
    match &s.psy {
        None => {
            let alerts = one_alert(
                "ERROR",
                chars_of(
                    "no bq25890-charger power supply under /sys/class/power_supply — charger driver did not probe (check dmesg)",
                ),
            );
            let last = print_alerts(st.last_alert, t, cfg.alert_cd, &s.stamp, &alerts, &mut lines);
            let level = GuardLevel::NoSupply;
            let mut body = chars_of("ts=");
            push_chars(&mut body, &int_chars(t as i128));
            push_str(
                &mut body,
                "\nsupply=?\nonline=?\nstatus=?\ncharge_type=?\nvbat_mv=?\nibat_uA=?\ntemp_10c=?\nguard=",
            );
            push_str(&mut body, level.name());
            push_str(&mut body, "\n");
            let mut row = chars_of(s.stamp.as_str());
            push_str(&mut row, ",?,?,?,?,?,?,");
            push_str(&mut row, level.name());
            row.push('\n');
            proof {
                assert(body@ =~= state_body_unavailable(t, level));
                assert(row@ =~= history_row_unavailable(s.stamp@, level));
                reveal_with_fuel(rate_limited, 2);
            }
            GuardTick {
                state: GuardState {
                    last_alert: last,
                    stuck_since: st.stuck_since,
                    crit_strikes: 0,
                    prev: st.prev,
                },
                level,
                lines,
                state_body: string_of(&body),
                history: Some(string_of(&row)),
                poweroff: false,
            }
        },
        Some(p) => {
            let d = decide_values(cfg, st, s, p);
            let last = print_alerts(st.last_alert, t, cfg.alert_cd, &s.stamp, &d.alerts, &mut lines);
            proof {
                lemma_rate_limited_time(st.last_alert, t, cfg.alert_cd, s.stamp@, alert_views(d.alerts@));
            }
            let body = body_chars(s, p, d.level);
            if d.poweroff {
                let mv = match s.vbat_raw {
                    Some(r) => mv_from(r),
                    None => 0,
                };
                let mut v = tag_chars(&s.stamp);
                push_str(&mut v, " battery-guard: CRITICAL: VBAT ");
                push_chars(&mut v, &int_chars(mv as i128));
                push_str(&mut v, " mV < ");
                push_chars(&mut v, &int_chars(cfg.crit_mv as i128));
                push_str(&mut v, " mV with no USB — powering off in 10 s (vendor hard-off is 3400 mV)");
                let ghost before = lines@;
                lines.push(string_of(&v));
                proof {
                    assert(v@ =~= critical_line(s.stamp@, mv, cfg.crit_mv));
                    assert(string_views(lines@) =~= string_views(before).push(v@));
                }
                GuardTick {
                    state: GuardState {
                        last_alert: last,
                        stuck_since: d.stuck_since,
                        crit_strikes: d.crit_strikes,
                        prev: st.prev,
                    },
                    level: d.level,
                    lines,
                    state_body: string_of(&body),
                    history: None,
                    poweroff: true,
                }
            } else {
                let changed = match st.prev {
                    Some(l) => l != d.level,
                    None => true,
                };
                if changed {
                    let vbat = match s.vbat_raw {
                        Some(r) => Some(mv_from(r)),
                        None => None,
                    };
                    let mut v = tag_chars(&s.stamp);
                    push_str(&mut v, " battery-guard: state: ");
                    match st.prev {
                        Some(l) => push_str(&mut v, l.name()),
                        None => push_str(&mut v, "<init>"),
                    }
                    push_str(&mut v, " -> ");
                    push_str(&mut v, d.level.name());
                    push_str(&mut v, " (online=");
                    push_chars(&mut v, &int_chars(p.online as i128));
                    push_str(&mut v, " status=");
                    push_str(&mut v, p.status.as_str());
                    push_str(&mut v, " vbat=");
                    push_chars(&mut v, &num_chars(vbat));
                    push_str(&mut v, "mV)");
                    let ghost before = lines@;
                    lines.push(string_of(&v));
                    proof {
                        assert(v@ =~= transition_line(s.stamp@, st.prev, d.level, *p, vbat_of(s.vbat_raw)));
                        assert(string_views(lines@) =~= string_views(before).push(v@));
                    }
                }
                let row = row_chars(s, p, d.level);
                GuardTick {
                    state: GuardState {
                        last_alert: last,
                        stuck_since: d.stuck_since,
                        crit_strikes: d.crit_strikes,
                        prev: Some(d.level),
                    },
                    level: d.level,
                    lines,
                    state_body: string_of(&body),
                    history: Some(string_of(&row)),
                    poweroff: false,
                }
            }
        },
    }
}

/// The time of the last printed alert is the old one, or now when the
/// cooldown was over.
pub proof fn lemma_rate_limited_time(
    last: i64,
    t: i64,
    cd: i64,
    stamp: Seq<char>,
    alerts: Seq<(Seq<char>, Seq<char>)>,
)
    ensures
        ({
            let (l, _) = rate_limited(last, t, cd, stamp, alerts);
            (t < last + cd ==> l == last && rate_limited(last, t, cd, stamp, alerts).1.len() == 0)
                && (l == last || (l == t && t >= last + cd))
        }),
    decreases alerts.len(),
{
    if alerts.len() > 0 {
        lemma_rate_limited_time(last, t, cd, stamp, alerts.drop_last());
    }
}

// ---------------------------------------------------------------------------
// runs of polls

/// The state before the first poll.
pub open spec fn initial_state() -> GuardState {
    GuardState { last_alert: 0, stuck_since: 0, crit_strikes: 0, prev: None }
}

/// The state after polling `samples` in turn, starting from `st`.
pub open spec fn guard_run(cfg: GuardConfig, st: GuardState, samples: Seq<GuardSample>) -> GuardState
    decreases samples.len(),
{
    if samples.len() == 0 {
        st
    } else {
        let v = tick_spec(cfg, guard_run(cfg, st, samples.drop_last()), samples.last());
        GuardState {
            last_alert: v.last_alert,
            stuck_since: v.stuck_since,
            crit_strikes: v.crit_strikes,
            prev: v.prev,
        }
    }
}

/// A poll on battery power with a real reading below the critical level.
pub open spec fn critical_sample(cfg: GuardConfig, s: GuardSample) -> bool {
    battery_reading(s) is Some && 2500 <= battery_reading(s)->0 < cfg.crit_mv
}

/// How many polls at the end of `samples` were critical in a row.
pub open spec fn critical_run(cfg: GuardConfig, samples: Seq<GuardSample>) -> nat
    decreases samples.len(),
{
    if samples.len() > 0 && critical_sample(cfg, samples.last()) {
        critical_run(cfg, samples.drop_last()) + 1
    } else {
        0
    }
}

/// The strike count after a run of polls is the number of critical polls
/// in a row at its end (held at `i64::MAX` once it gets there).
proof fn lemma_strikes_count_run(cfg: GuardConfig, samples: Seq<GuardSample>)
    ensures
        guard_run(cfg, initial_state(), samples).crit_strikes == (if critical_run(cfg, samples)
            < i64::MAX {
            critical_run(cfg, samples) as int
        } else {
            i64::MAX as int
        }),
    decreases samples.len(),
{
    if samples.len() > 0 {
        let pre = samples.drop_last();
        lemma_strikes_count_run(cfg, pre);
    }
}

/// Poweroff requires two consecutive critical samples: from the daemon's
/// start, a poll powers the device off exactly when it and the poll
/// before it are both critical samples on battery power (a real reading
/// at or above the ADC floor and below the critical level). A lone
/// critical sample, or critical samples with a read error, a USB-online
/// poll or a missing supply between them, never powers off.
pub proof fn law_poweroff_needs_two_consecutive_critical_samples(
    cfg: GuardConfig,
    samples: Seq<GuardSample>,
    k: int,
)
    requires
        0 <= k < samples.len(),
    ensures
        tick_spec(cfg, guard_run(cfg, initial_state(), samples.take(k)), samples[k]).poweroff
            <==> (k >= 1 && critical_sample(cfg, samples[k - 1]) && critical_sample(cfg, samples[k])),
{
    let pre = samples.take(k);
    lemma_strikes_count_run(cfg, pre);
    if k >= 1 {
        assert(pre.last() == samples[k - 1]);
    }
}

/// A reading that is missing or below the ADC floor while on battery
/// power is a read error: the poll's level is READERR (in the state file
/// and the history row), it never powers off, and it counts no strike.
pub proof fn law_read_error_never_critical(cfg: GuardConfig, st: GuardState, s: GuardSample)
    requires
        s.psy is Some,
        s.psy->0.online != 1,
        vbat_of(s.vbat_raw) is None || vbat_of(s.vbat_raw)->0 < 2500,
    ensures
        tick_spec(cfg, st, s).level == GuardLevel::ReadErr,
        !tick_spec(cfg, st, s).poweroff,
        tick_spec(cfg, st, s).crit_strikes == 0,
        tick_spec(cfg, st, s).state_body == state_body(s, s.psy->0, GuardLevel::ReadErr),
        tick_spec(cfg, st, s).history == Some(history_row(s, s.psy->0, GuardLevel::ReadErr)),
{
}

/// While the charger is online and reports `Full`, the battery is holding
/// at full charge: the poll's level is Good (in the state file and the
/// history row), nothing powers off, no strike is counted, and the only
/// alert it can raise is the battery-temperature warning.
pub proof fn law_full_on_usb_is_good(cfg: GuardConfig, st: GuardState, s: GuardSample)
    requires
        s.psy is Some,
        s.psy->0.online == 1,
        s.psy->0.status@ == "Full"@,
    ensures
        tick_spec(cfg, st, s).level == GuardLevel::Good,
        !tick_spec(cfg, st, s).poweroff,
        tick_spec(cfg, st, s).crit_strikes == 0,
        tick_spec(cfg, st, s).state_body == state_body(s, s.psy->0, GuardLevel::Good),
        decide(cfg, st, s, s.psy->0).alerts == (match s.temp_raw {
            Some(t10) => if t10 > 450 {
                seq![("WARN"@, msg_hot(t10))]
            } else {
                seq![]
            },
            None => seq![],
        }),
{
    let d = decide(cfg, st, s, s.psy->0);
    assert(d.alerts =~= (match s.temp_raw {
        Some(t10) => if t10 > 450 {
            seq![("WARN"@, msg_hot(t10))]
        } else {
            seq![]
        },
        None => seq![],
    }));
}

} // verus!
