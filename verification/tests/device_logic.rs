use gemshell::battery::{guard_state, read_psy, status_lines, Psy};
use gemshell::clock::{hms_at, stamp_at};
use gemshell::status::{backlight_levels, battery_state};
use gemshell::devmem::{page_of, page_offset, rmw, rmw_clr, rmw_set};
use gemshell::device::{brightness_value, command_failure, max_brightness, wifi_state};
use gemshell::error::{cerr, cmsg, Cerr};
use gemshell::guard::{guard_tick, GuardConfig, GuardLevel, GuardSample, GuardState};
use gemshell::i2c::pick_adapter;
use gemshell::keys::{eviocgabs, keysym_text};
use gemshell::sleep::{
    comma_items, join_commas, key_action, parse_state, render_state, service_names, services_running,
    sleep_key_step, sleep_report, sleeping, wake_plan, KeyAction, KeyInput, KeyStep, SleepKey, StateMap,
    DEBOUNCE_MS, EV_KEY, KEY_SLEEP,
};

fn some(s: &str) -> Option<String> {
    Some(s.to_string())
}

fn psy(online: i64, status: &str, vbat: Option<i64>) -> Psy {
    Psy {
        supply: "bq25890-charger-0".to_string(),
        online,
        status: status.to_string(),
        charge_type: "None".to_string(),
        vbat_mv: vbat,
        ibat_ma: Some(-152),
        temp_10c: Some(251),
    }
}

#[test]
fn read_psy_scales_and_defaults() {
    let p = read_psy(
        "bq25890-charger-0",
        &some("1\n"),
        &some("Charging\n"),
        &None,
        &some("3812345\n"),
        &some("-152999\n"),
        &some("251\n"),
    );
    assert_eq!(p.online, 1);
    assert_eq!(p.status, "Charging");
    assert_eq!(p.charge_type, "None");
    assert_eq!(p.vbat_mv, Some(3812));
    assert_eq!(p.ibat_ma, Some(-152));
    assert_eq!(p.temp_10c, Some(251));
    let q = read_psy("x", &None, &None, &some("Fast"), &some("n/a"), &None, &None);
    assert_eq!(q.online, 0);
    assert_eq!(q.status, "Unknown");
    assert_eq!(q.charge_type, "Fast");
    assert_eq!(q.vbat_mv, None);
}

#[test]
fn battstat_lines_and_codes() {
    let (ls, code) = status_lines(Some(&psy(0, "Discharging", Some(3812))), Some("ts=1\nguard=OK\n"))
        .ok()
        .unwrap();
    assert_eq!(code, 0);
    assert_eq!(
        ls,
        vec![
            "supply=bq25890-charger-0",
            "online=0",
            "status=Discharging",
            "charge_type=None",
            "vbat_mV=3812",
            "ibat_mA=-152",
            "temp_10c=251",
            "guard=OK",
        ]
    );
    let code_of = |p: Psy| status_lines(Some(&p), None).ok().unwrap().1;
    assert_eq!(code_of(psy(0, "Discharging", Some(3400))), 4);
    assert_eq!(code_of(psy(0, "Not charging", Some(3600))), 2);
    assert_eq!(code_of(psy(1, "Discharging", Some(3400))), 3);
    assert_eq!(code_of(psy(0, "Charging", Some(3000))), 0);
    assert_eq!(code_of(psy(0, "Discharging", None)), 0);
    let (ls, code) = status_lines(None, None).ok().unwrap();
    assert_eq!(code, 5);
    assert_eq!(ls, vec!["error=no_bq25890_power_supply"]);
    let (ls, _) = status_lines(Some(&psy(0, "Full", None)), None).ok().unwrap();
    assert_eq!(ls[4], "vbat_mV=?");
    assert_eq!(ls.len(), 7);
}

#[test]
fn guard_state_reads_the_guard_line() {
    assert_eq!(guard_state(Some("ts=1\nguard=LOW\n")).as_deref(), Some("LOW"));
    assert_eq!(guard_state(Some("ts=1\n")), None);
    assert_eq!(guard_state(None), None);
}

fn cfg() -> GuardConfig {
    GuardConfig { poll_s: 10, warn_mv: 3650, crit_mv: 3500, alert_cd: 300, stuck_min: 15 }
}

fn sample(t: i64, vbat_uv: u64, p: Psy) -> GuardSample {
    GuardSample {
        t,
        stamp: "2026-01-01 00:00:00".to_string(),
        psy: Some(p),
        vbat_raw: Some(vbat_uv),
        ibat_raw: Some(100000),
        temp_raw: Some(250),
    }
}

#[test]
fn guard_powers_off_on_second_critical_sample() {
    let c = cfg();
    let st = GuardState::new();
    let a = guard_tick(&c, &st, &sample(1000, 3_400_000, psy(0, "Discharging", None)));
    assert_eq!(a.level, GuardLevel::Critical);
    assert!(!a.poweroff);
    assert_eq!(a.state.crit_strikes, 1);
    assert!(a.lines.iter().any(|l| l.contains("ALERT CRIT")));
    let b = guard_tick(&c, &a.state, &sample(1010, 3_400_000, psy(0, "Discharging", None)));
    assert!(b.poweroff);
    assert_eq!(b.level, GuardLevel::Critical);
}

#[test]
fn guard_below_floor_is_a_read_error() {
    let c = cfg();
    let mut st = GuardState::new();
    st.crit_strikes = 1;
    let a = guard_tick(&c, &st, &sample(1000, 2_000_000, psy(0, "Discharging", None)));
    assert_eq!(a.level, GuardLevel::ReadErr);
    assert!(!a.poweroff);
    assert_eq!(a.state.crit_strikes, 0);
    assert!(a.state_body.contains("guard=READERR"));
}

#[test]
fn guard_critical_samples_must_be_consecutive() {
    let c = cfg();
    let a = guard_tick(&c, &GuardState::new(), &sample(1000, 3_400_000, psy(0, "Discharging", None)));
    assert!(!a.poweroff);
    let b = guard_tick(&c, &a.state, &sample(1010, 3_400_000, psy(1, "Charging", None)));
    assert!(!b.poweroff);
    assert_eq!(b.state.crit_strikes, 0);
    let d = guard_tick(&c, &b.state, &sample(1020, 3_400_000, psy(0, "Discharging", None)));
    assert!(!d.poweroff);
    assert_eq!(d.level, GuardLevel::Critical);
    let e = guard_tick(&c, &d.state, &sample(1030, 3_400_000, psy(0, "Discharging", None)));
    assert!(e.poweroff);
}

#[test]
fn guard_healthy_reading_resets_strikes() {
    let c = cfg();
    let mut st = GuardState::new();
    st.crit_strikes = 1;
    let a = guard_tick(&c, &st, &sample(1000, 3_900_000, psy(0, "Discharging", None)));
    assert_eq!(a.level, GuardLevel::Good);
    assert_eq!(a.state.crit_strikes, 0);
    assert!(!a.poweroff);
    let low = guard_tick(&c, &GuardState::new(), &sample(1000, 3_600_000, psy(0, "Discharging", None)));
    assert_eq!(low.level, GuardLevel::Low);
}

#[test]
fn guard_alerts_are_rate_limited() {
    let c = cfg();
    let a = guard_tick(&c, &GuardState::new(), &sample(1000, 3_600_000, psy(0, "Discharging", None)));
    assert!(a.lines.iter().any(|l| l.contains("ALERT WARN")));
    let b = guard_tick(&c, &a.state, &sample(1010, 3_600_000, psy(0, "Discharging", None)));
    assert!(!b.lines.iter().any(|l| l.contains("ALERT")));
    let later = guard_tick(&c, &b.state, &sample(1300, 3_600_000, psy(0, "Discharging", None)));
    assert!(later.lines.iter().any(|l| l.contains("ALERT WARN")));
}

#[test]
fn guard_no_supply() {
    let c = cfg();
    let s = GuardSample {
        t: 1000,
        stamp: "s".to_string(),
        psy: None,
        vbat_raw: None,
        ibat_raw: None,
        temp_raw: None,
    };
    let a = guard_tick(&c, &GuardState::new(), &s);
    assert_eq!(a.level, GuardLevel::NoSupply);
    assert_eq!(a.level.name(), "NOSUPPLY");
    assert!(!a.poweroff);
}

#[test]
fn state_roundtrip() {
    let mut m = StateMap::new();
    m.insert("state".to_string(), "sleeping".to_string());
    m.insert("cpus_offline".to_string(), "1,2,3".to_string());
    let s = render_state(&m);
    assert_eq!(s, "cpus_offline=1,2,3\nstate=sleeping\n");
    let parsed = parse_state(&s);
    assert_eq!(parsed.get("state").as_deref(), Some("sleeping"));
    assert_eq!(parsed.get("cpus_offline").as_deref(), Some("1,2,3"));
}

#[test]
fn sleep_state_queries() {
    let m = parse_state("state = sleeping\nservices=gemwl.service,,pipewire.service\na72=1\nnot a pair\n");
    assert!(sleeping(&m));
    let plan = wake_plan(&m).unwrap();
    assert_eq!(plan.backlight_pct, "?");
    assert_eq!(plan.cpus_offline, "1,2,3,4,5,6,7");
    assert!(plan.a72);
    assert!(!plan.wifi);
    assert_eq!(plan.services, vec!["gemwl.service", "pipewire.service"]);
    assert!(sleep_report(&m).unwrap()[0].starts_with("state: ASLEEP (since ?)"));
    let awake = parse_state("state=awake\n");
    assert!(!sleeping(&awake));
    assert!(wake_plan(&awake).is_none());
    assert!(sleep_report(&awake).is_none());
}

#[test]
fn sleep_lists_and_keys() {
    assert_eq!(comma_items(",a,,b,"), vec!["a", "b"]);
    assert_eq!(join_commas(&vec!["1".to_string(), "2".to_string()]), "1,2");
    assert_eq!(service_names().len(), 6);
    let running = services_running(&vec![false, true, true, false, false, false]);
    assert_eq!(running, vec!["gemini-gemshell.service", "gemwl.service"]);
    assert_eq!(key_action(EV_KEY, KEY_SLEEP, 1, 5000), KeyAction::Toggle);
    assert_eq!(key_action(EV_KEY, KEY_SLEEP, 1, (DEBOUNCE_MS - 1) as u128), KeyAction::Debounced);
    assert_eq!(key_action(EV_KEY, KEY_SLEEP, 0, 5000), KeyAction::Ignore);
    assert_eq!(key_action(EV_KEY, 30, 1, 5000), KeyAction::Ignore);
}

#[test]
fn device_wifi_snapshot() {
    let st = wifi_state("enabled\n", "Home:802-11-wireless\n", Some("*:Home:80:WPA2\n:Cafe:55:\n"));
    assert!(st.enabled);
    assert_eq!(st.active.as_deref(), Some("Home"));
    assert_eq!(st.networks.len(), 2);
    let off = wifi_state("disabled\n", "", Some("*:Home:80:WPA2\n"));
    assert!(!off.enabled);
    assert!(off.networks.is_empty());
}

#[test]
fn device_command_failure_text() {
    let args = vec!["radio".to_string(), "wifi".to_string(), "on".to_string()];
    let e = command_failure("nmcli", &args, "warning\nError: not authorized  \n");
    assert_eq!(e.to_text(), "nmcli radio wifi on: Error: not authorized");
    let e = command_failure("nmcli", &args, "");
    assert_eq!(e.to_text(), "nmcli radio wifi on: failed");
}

#[test]
fn device_backlight_values() {
    assert_eq!(max_brightness(Some("2047\n")), 2047);
    assert_eq!(max_brightness(Some("junk")), 255);
    assert_eq!(max_brightness(None), 255);
    assert_eq!(brightness_value(2047, 50), 1023);
    assert_eq!(brightness_value(2047, 0), 1);
    assert_eq!(brightness_value(255, 150), 255);
}

#[test]
fn errors_carry_codes() {
    let e = Cerr::new(4, "critical".to_string());
    assert_eq!(e.code, 4);
    let e = e.recode(2);
    assert_eq!(e.code, 2);
    assert_eq!(e.msg, "critical");
    assert_eq!(cerr(5, "no supply".to_string()).code, 5);
    assert_eq!(cmsg("oops".to_string()).code, 1);
    assert_eq!(Cerr::msg("m".to_string()).code, 1);
}

#[test]
fn devmem_read_modify_write() {
    assert_eq!(rmw(Ok(0b1010), 0b0101, 0b1000).ok(), Some(0b0111));
    assert_eq!(rmw(Ok(0b1111), 0b0001, 0b0001).ok(), Some(0b1110));
    assert_eq!(rmw_set(Ok(1), 4).ok(), Some(5));
    assert_eq!(rmw_clr(Ok(7), 2).ok(), Some(5));
    let failed = rmw(Err(cerr(1, "cannot open /dev/mem".to_string())), 1, 0);
    assert_eq!(failed.err().unwrap().msg, "cannot open /dev/mem");
    assert_eq!(page_of(0x1100_e123), 0x1100_e000);
    assert_eq!(page_offset(0x1100_e123), 0x123);
}

#[test]
fn i2c_adapter_by_controller() {
    let entries = vec![
        ("i2c-0".to_string(), Some(vec![0, 0, 0, 0, 0x11, 0x00, 0x70, 0x00])),
        ("i2c-2".to_string(), Some(vec![0, 0, 0, 0, 0x11])),
        ("i2c-x".to_string(), Some(vec![0, 0, 0, 0, 0x11, 0x00, 0xe0, 0x00])),
        ("i2c-3".to_string(), Some(vec![0, 0, 0, 0, 0x11, 0x00, 0xe0, 0x00, 0, 0, 0, 0])),
        ("i2c-4".to_string(), None),
    ];
    assert_eq!(pick_adapter("1100e000", &entries), Some(3));
    assert_eq!(pick_adapter("0x1100E000", &entries), Some(3));
    assert_eq!(pick_adapter("11007000", &entries), Some(0));
    assert_eq!(pick_adapter("11010000", &entries), None);
}

#[test]
fn keysyms_and_ioctls() {
    assert_eq!(keysym_text(0x61).as_deref(), Some("a"));
    assert_eq!(keysym_text(0x0100_20ac).as_deref(), Some("\u{20ac}"));
    assert_eq!(keysym_text(0xff0d), None);
    assert_eq!(eviocgabs(0), 0x8018_4540);
    assert_eq!(eviocgabs(0x35), 0x8018_4575);
}

#[test]
fn clock_stamps() {
    assert_eq!(stamp_at(0), "1970-01-01 00:00:00");
    assert_eq!(stamp_at(1_700_000_000), "2023-11-14 22:13:20");
    assert_eq!(stamp_at(951_782_400), "2000-02-29 00:00:00");
    assert_eq!(hms_at(3661), "01:01:01");
    assert_eq!(hms_at(86399), "23:59:59");
}

#[test]
fn provider_battery_snapshot() {
    let b = battery_state(
        &vec![Some("n/a".to_string()), Some(" 64\n".to_string())],
        &vec![(None, Some("1".to_string())), (Some("Discharging".to_string()), Some("0".to_string()))],
    );
    assert_eq!(b.percent, Some(64));
    assert!(!b.charging);
    let c = battery_state(&vec![], &vec![(None, Some("1".to_string()))]);
    assert_eq!(c.percent, None);
    assert!(c.charging);
    let d = battery_state(&vec![], &vec![]);
    assert!(!d.charging);
    assert_eq!(backlight_levels(&Some("40\n".to_string()), &None), (40, 0));
}

#[test]
fn millisecond_clock_uses_whole_seconds() {
    assert_eq!(gemshell::clock::hm_of_ms(3_723_999), (1, 2));
    assert_eq!(gemshell::clock::hm_of_ms(86_400_000 + 60_000), (0, 1));
    assert_eq!(gemshell::clock::hm_of_ms(59_999), (0, 0));
}

#[test]
fn switch_values() {
    use_flag_cases();
}

fn use_flag_cases() {
    let f = gemshell::flags::flag_value;
    assert!(!f(None));
    assert!(!f(Some("")));
    assert!(!f(Some(" Off\n")));
    assert!(!f(Some("FALSE")));
    assert!(!f(Some("0")));
    assert!(!f(Some("no")));
    assert!(f(Some("1")));
    assert!(f(Some("yes")));
    assert!(f(Some("on")));
}

#[test]
fn sleep_key_debounces_and_drains() {
    let press = |t: u64| KeyInput::Event(1, 142, 1, t);
    let st = SleepKey::new();
    let (st, a) = sleep_key_step(st, press(5));
    assert_eq!(a, KeyStep::Act(KeyAction::Toggle));
    let (st, a) = sleep_key_step(st, press(3000));
    assert_eq!(a, KeyStep::Discard);
    let (st, a) = sleep_key_step(st, KeyInput::QueueEmpty);
    assert_eq!(a, KeyStep::Resume);
    let (st, a) = sleep_key_step(st, press(900));
    assert_eq!(a, KeyStep::Act(KeyAction::Debounced));
    let (st, a) = sleep_key_step(st, KeyInput::Event(1, 142, 0, 2000));
    assert_eq!(a, KeyStep::Act(KeyAction::Ignore));
    let (st, a) = sleep_key_step(st, press(1005));
    assert_eq!(a, KeyStep::Act(KeyAction::Toggle));
    assert_eq!(st.last_press_ms, Some(1005));
}

#[test]
fn sleep_on_marks_the_state_first() {
    let plan = gemshell::sleep::sleep_on_plan(&parse_state("stamp=x\n"));
    assert_eq!(plan.len(), 9);
    assert_eq!(plan[0], gemshell::sleep::SleepOnStep::MarkAsleep);
    assert_eq!(plan[1], gemshell::sleep::SleepOnStep::BacklightOff);
    assert_eq!(plan[8], gemshell::sleep::SleepOnStep::SaveFinal);
    assert!(gemshell::sleep::sleep_on_plan(&parse_state("state=sleeping\n")).is_empty());
}

#[test]
fn sleep_record_reads_back_for_wake() {
    use_sleep_record();
}

fn use_sleep_record() {
    let mut m = StateMap::new();
    gemshell::sleep::record_mark(&mut m, "2026-01-01 00:00:00");
    gemshell::sleep::record_backlight(&mut m, 42);
    gemshell::sleep::record_cpus(&mut m, &vec![7, 6, 5]);
    gemshell::sleep::record_services(&mut m, &vec!["gemwl.service".to_string(), "pipewire.service".to_string()]);
    gemshell::sleep::record_wifi(&mut m);
    let text = render_state(&m);
    let back = parse_state(&text);
    let plan = wake_plan(&back).unwrap();
    assert_eq!(plan.backlight_pct, "42");
    assert_eq!(plan.cpus_offline, "7,6,5");
    assert_eq!(plan.cpus, vec![7, 6, 5]);
    assert_eq!(plan.services, vec!["gemwl.service", "pipewire.service"]);
    assert!(plan.wifi && !plan.a72);
    assert_eq!(plan.steps.len(), 6);
    assert_eq!(plan.steps[5], gemshell::sleep::WakeStep::ClearState);
    assert_eq!(gemshell::sleep::cpus_to_online("0,3,,x,1"), vec![3, 1]);
}
