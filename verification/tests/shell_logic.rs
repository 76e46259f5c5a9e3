use gemshell::apps::{exec_argv, parse_entry, pick_apps, DesktopApp};
use gemshell::compositor::{
    brightness_step, next_configure_serial, shortcut, switcher_next, switcher_start,
    volume_step_target, Shortcut, Snap, MOD5, XF86_AUDIO_LOWER, XF86_TASK_PANE, XF86_TOOLS,
    XK_DELETE, XK_ESCAPE, XK_HOME,
};
use gemshell::icons::{decode_png, expand_rgba, for_app, Icon, IconSet};
use gemshell::panel::{
    audio_section, bt_section, connect_result, hit_test, select_wifi, settings_key, wifi_section,
    Action, Hit, KeyEffect, Selected, KEY_BACKSPACE, KEY_ESCAPE, KEY_RETURN,
};
use gemshell::inputs::{caps_from, classify, find_nodes, InputDev, NodeKind};
use gemshell::paths::{first_existing, first_flagged};
use gemshell::pending::{wants_snapshot, MutationKind, Pending};
use gemshell::settings::{parse_wpctl_sink, rgb, Painter, Section};
use gemshell::shell::signal_glyph;
use gemshell::status::{brightness_target, Status};
use gemshell::touch::{
    TouchDecoder, TouchOut, ABS_MT_POSITION_X, ABS_MT_POSITION_Y, ABS_MT_SLOT, ABS_MT_TRACKING_ID,
    EV_ABS, EV_SYN, SYN_REPORT,
};

fn encode_png(w: u32, h: u32, color: png::ColorType, data: &[u8]) -> Vec<u8> {
    let mut out = Vec::new();
    {
        let mut enc = png::Encoder::new(&mut out, w, h);
        enc.set_color(color);
        enc.set_depth(png::BitDepth::Eight);
        let mut wr = enc.write_header().unwrap();
        wr.write_image_data(data).unwrap();
    }
    out
}

#[test]
fn png_rgb_becomes_opaque_rgba() {
    let data = encode_png(2, 1, png::ColorType::Rgb, &[255, 0, 0, 0, 255, 0]);
    let icon = decode_png(&data).unwrap();
    assert_eq!((icon.w, icon.h), (2, 1));
    assert_eq!(icon.rgba, vec![255, 0, 0, 255, 0, 255, 0, 255]);
}

#[test]
fn png_grey_and_alpha() {
    let g = decode_png(&encode_png(1, 1, png::ColorType::Grayscale, &[128])).unwrap();
    assert_eq!(g.rgba, vec![128, 128, 128, 255]);
    let ga = decode_png(&encode_png(1, 1, png::ColorType::GrayscaleAlpha, &[10, 20])).unwrap();
    assert_eq!(ga.rgba, vec![10, 10, 10, 20]);
    let rgba = decode_png(&encode_png(1, 1, png::ColorType::Rgba, &[1, 2, 3, 4])).unwrap();
    assert_eq!(rgba.rgba, vec![1, 2, 3, 4]);
    assert!(decode_png(b"not a png").is_none());
}

#[test]
fn expand_rgba_by_colour_type() {
    assert_eq!(expand_rgba(1, 1, 4, &[10, 20]).unwrap().rgba, vec![10, 10, 10, 20]);
    assert_eq!(expand_rgba(2, 1, 2, &[1, 2, 3, 4, 5, 6]).unwrap().rgba, vec![1, 2, 3, 255, 4, 5, 6, 255]);
    assert!(expand_rgba(1, 1, 3, &[0]).is_none());
}

fn icon(v: u8) -> Icon {
    Icon { w: 1, h: 1, rgba: vec![v, v, v, 255] }
}

#[test]
fn icon_set_lookup() {
    let mut set = IconSet::new(vec!["/usr/share/icons".to_string()]);
    assert!(set.add_if_absent("foot".to_string(), icon(1)));
    assert!(!set.add_if_absent("foot".to_string(), icon(2)));
    assert!(set.add_if_absent("firefox".to_string(), icon(3)));
    assert_eq!(set.get("foot").unwrap().rgba[0], 1);
    assert!(set.get("nope").is_none());
    let p = "/usr/share/applications/foot.desktop";
    assert_eq!(for_app(&set, "firefox", p).unwrap().rgba[0], 3);
    assert_eq!(for_app(&set, "missing", p).unwrap().rgba[0], 1);
    assert_eq!(for_app(&set, "", p).unwrap().rgba[0], 1);
    assert!(for_app(&set, "missing", "/x/other.desktop").is_none());
}

#[test]
fn exec_lines_to_argv() {
    assert_eq!(
        exec_argv("firefox %u --new-window"),
        Some(vec!["firefox".to_string(), "--new-window".to_string()])
    );
    assert_eq!(exec_argv("  foot\t-e   htop  "), Some(vec!["foot".to_string(), "-e".to_string(), "htop".to_string()]));
    assert_eq!(exec_argv("%f %U"), None);
    assert_eq!(exec_argv("   "), None);
}

#[test]
fn desktop_entries() {
    let e = parse_entry("[Desktop Entry]\nName=Foot\nExec=foot %U\nIcon=foot\n# c\n").unwrap();
    assert_eq!(e.name, "Foot");
    assert_eq!(e.command, "foot %U");
    assert_eq!(e.icon, "foot");
    let no_icon = parse_entry("[Desktop Entry]\n Name = A \nExec=a\n").unwrap();
    assert_eq!(no_icon.name, "A");
    assert_eq!(no_icon.icon, "");
    assert!(parse_entry("[Desktop Entry]\nName=X\nExec=x\nNoDisplay=true\n").is_none());
    assert!(parse_entry("[Desktop Entry]\nName=X\nExec=x\nTerminal=true\n").is_none());
    assert!(parse_entry("[Desktop Entry]\nName=X\n").is_none());
    assert!(parse_entry("[Desktop Entry]\nName=\nExec=x\n").is_none());
    let other = parse_entry("[Desktop Action new]\nName=Wrong\nExec=w\n[Desktop Entry]\nName=Right\nExec=r\n")
        .unwrap();
    assert_eq!(other.name, "Right");
    let later = parse_entry("[Desktop Entry]\nName=First\nName=Second\nExec=x\n").unwrap();
    assert_eq!(later.name, "Second");
}

#[test]
fn status_from_readings() {
    let s = Status::from_readings(
        &vec![None, Some("x".to_string()), Some("73\n".to_string())],
        &vec![(None, Some("1\n".to_string()))],
        Some("y \"full\""),
        Some("b true"),
        42,
        Some("Volume: 0.42 [muted]"),
        &Some((Some("40\n".to_string()), None)),
    );
    assert_eq!(s.battery, Some(73));
    assert!(s.charging);
    assert!(s.wifi);
    assert!(s.bluetooth);
    assert_eq!(s.volume, 42);
    assert!(s.muted);
    assert_eq!((s.brightness, s.brightness_max), (40, 255));
    assert!(s.hour < 24 && s.minute < 60);
    let t = Status::from_readings(
        &vec![],
        &vec![(Some("Discharging".to_string()), Some("1".to_string())), (Some("Charging".to_string()), None)],
        Some("\"limited\""),
        None,
        0,
        None,
        &None,
    );
    assert_eq!(t.battery, None);
    assert!(t.charging);
    assert!(!t.wifi && !t.bluetooth && !t.muted);
    assert_eq!((t.brightness, t.brightness_max), (0, 0));
    let u = Status::from_readings(
        &vec![],
        &vec![(Some("Discharging".to_string()), Some("0".to_string())), (Some("Charging".to_string()), None)],
        None,
        None,
        0,
        None,
        &None,
    );
    assert!(!u.charging);
}

#[test]
fn backlight_targets() {
    assert_eq!(brightness_target(50, 255), 127);
    assert_eq!(brightness_target(0, 255), 1);
    assert_eq!(brightness_target(0, 1), 0);
    assert_eq!(brightness_target(150, 200), 200);
    assert_eq!(brightness_target(40, 0), 0);
}

#[test]
fn compositor_shortcuts() {
    assert_eq!(shortcut(XF86_TASK_PANE, 0, false), Some(Shortcut::ToggleLauncher));
    assert_eq!(shortcut(XK_HOME, 0, false), None);
    assert_eq!(shortcut(XK_HOME, MOD5, false), Some(Shortcut::SnapLeft));
    assert_eq!(shortcut(XK_DELETE, 0, false), Some(Shortcut::CloseFocused));
    assert_eq!(shortcut(XF86_TOOLS, 0, true), None);
    assert_eq!(shortcut(XF86_AUDIO_LOWER, 0, false), Some(Shortcut::VolumeStep(-10)));
    assert_eq!(shortcut(XK_ESCAPE, 0, true), Some(Shortcut::Escape));
    assert_eq!(shortcut(0x61, MOD5, false), None);
    assert_ne!(Snap::Left, Snap::Unsnapped);
}

#[test]
fn compositor_steps() {
    assert_eq!(switcher_next(2, 3), 0);
    assert_eq!(switcher_next(0, 3), 1);
    assert_eq!(switcher_next(4, 0), 4);
    assert_eq!(switcher_start(&vec![5, 7, 9], Some(7)), 1);
    assert_eq!(switcher_start(&vec![5, 7, 9], Some(8)), 0);
    assert_eq!(switcher_start(&vec![5, 7, 9], None), 0);
    assert_eq!(volume_step_target(95, 10), 100);
    assert_eq!(volume_step_target(5, -10), 0);
    assert_eq!(volume_step_target(40, 10), 50);
    assert_eq!(brightness_step(128, 255, 10), (60, 153));
    assert_eq!(brightness_step(10, 255, -10), (0, 0));
    assert_eq!(brightness_step(7, 0, 0), (100, 1));
    assert_eq!(next_configure_serial(u32::MAX), 1);
    assert_eq!(next_configure_serial(41), 42);
}

#[test]
fn settings_wifi_rows() {
    let (radio, current, rows, status) = wifi_section(
        "enabled\n",
        "Wired:802-3-ethernet\nHome:802-11-wireless\n",
        Some("*:Home:80:WPA2\n:Home:40:WPA2\n:Cafe:55:\nbroken line\n::10:WPA2\n"),
    );
    assert!(radio);
    assert_eq!(current, "Home");
    assert_eq!(status, "Connected: Home");
    assert_eq!(rows.len(), 3);
    assert_eq!(rows[0].label, "Wi-Fi");
    assert_eq!(rows[0].sub, "radio on");
    assert_eq!(rows[0].toggle, Some(true));
    assert_eq!(rows[1].label, "Home");
    assert_eq!(rows[1].sub, "80%  ·  WPA2");
    assert!(rows[1].active);
    assert_eq!(rows[2].label, "Cafe");
    assert_eq!(rows[2].sub, "55%  ·  open");
    assert!(!rows[2].active);
    assert_eq!(select_wifi(&rows, "Cafe"), Selected::Connect);
    assert_eq!(select_wifi(&rows, "Home"), Selected::AskPassword);
    assert_eq!(select_wifi(&rows, "Nope"), Selected::Ignore);
    let (radio, _, rows, status) = wifi_section("disabled", "", None);
    assert!(!radio);
    assert_eq!(rows.len(), 1);
    assert_eq!(status, "Wi-Fi is off");
    let (_, cur, _, status) = wifi_section("enabled", "", Some(""));
    assert_eq!(cur, "");
    assert_eq!(status, "Not connected");
}

#[test]
fn settings_bluetooth_rows() {
    let (powered, rows, status) = bt_section("Controller x\n\tPowered: yes\n", "Device AA:BB Headphones Pro\nDevice CC:DD\nlonely\n");
    assert!(powered);
    assert_eq!(status, "Bluetooth on");
    assert_eq!(rows.len(), 4);
    assert_eq!(rows[1].label, "Headphones Pro");
    assert_eq!(rows[1].sub, "AA:BB");
    assert_eq!(rows[2].label, "CC:DD");
    assert_eq!(rows[3].sub, "2 known device(s) — tap to scan 5 s");
    let (powered, rows, status) = bt_section("Powered: YES\n", "");
    assert!(!powered);
    assert_eq!(status, "Bluetooth off");
    assert_eq!(rows[0].sub, "off");
    assert_eq!(rows[1].sub, "0 known device(s) — tap to scan 5 s");
}

#[test]
fn settings_audio_rows() {
    let status = "Audio\n Sinks:\n  *   41. Speaker [vol: 0.40]\n      55. Jack\n\n      99. Other\n";
    let (muted, rows, line) = audio_section(40, "Volume: 0.40 [MUTED]\n", status);
    assert!(muted);
    assert_eq!(line, "Output 40%");
    assert_eq!(rows.len(), 4);
    assert_eq!(rows[0].sub, "40% (muted)");
    assert_eq!(rows[1].label, "Speaker");
    assert_eq!(rows[1].sub, "sink 41");
    assert!(rows[1].active);
    assert_eq!(rows[2].label, "Jack");
    assert!(!rows[2].active);
    assert_eq!(rows[3].label, "Mute");
    assert_eq!(rows[3].toggle, Some(true));
    let (muted, rows, _) = audio_section(7, "Volume: 0.07\n", "");
    assert!(!muted);
    assert_eq!(rows[0].sub, "7%");
    assert_eq!(rows[1].sub, "unmuted");
}

#[test]
fn settings_connect_status() {
    assert_eq!(
        connect_result("Home", "Device 'wlan0' SUCCESSFULLY activated.\n"),
        "Connected to Home"
    );
    assert_eq!(
        connect_result("Home", "Error: Secrets were required.\n"),
        "Failed: Error: Secrets were required."
    );
    let long = "x".repeat(80);
    assert_eq!(connect_result("Home", &long), format!("Failed: {}", "x".repeat(60)));
    assert_eq!(connect_result("Home", ""), "Failed: ");
}

#[test]
fn settings_keys() {
    assert!(matches!(settings_key(KEY_ESCAPE, true, ""), KeyEffect::CancelPassword));
    assert!(matches!(settings_key(KEY_ESCAPE, false, ""), KeyEffect::Quit));
    assert!(matches!(settings_key(KEY_RETURN, true, "\r"), KeyEffect::Submit));
    assert!(matches!(settings_key(KEY_RETURN, false, "\r"), KeyEffect::Nothing));
    assert!(matches!(settings_key(KEY_BACKSPACE, true, ""), KeyEffect::DeleteChar));
    match settings_key(0x61, true, "a\u{7}") {
        KeyEffect::Append(s) => assert_eq!(s, "a"),
        _ => panic!("expected text"),
    }
    assert!(matches!(settings_key(0x61, false, "a"), KeyEffect::Nothing));
    assert!(matches!(settings_key(0xff09, true, "\t"), KeyEffect::Nothing));
}

#[test]
fn settings_hit_test() {
    let hits = vec![
        Hit { x: 0, y: 0, w: 100, h: 100, action: Action::Tab(Section::Wifi) },
        Hit { x: 50, y: 50, w: 100, h: 100, action: Action::Close },
    ];
    assert!(matches!(hit_test(&hits, 60, 60), Some(Action::Close)));
    assert!(matches!(hit_test(&hits, 10, 10), Some(Action::Tab(Section::Wifi))));
    assert!(hit_test(&hits, 150, 10).is_none());
    assert!(hit_test(&hits, 100, 40).is_none());
}

#[test]
fn settings_sink_lines_and_colours() {
    assert_eq!(
        parse_wpctl_sink("  *   41. Built-in Audio Analogue Stereo [vol: 0.40]"),
        Some(("41".to_string(), "Built-in Audio Analogue Stereo".to_string(), true))
    );
    assert_eq!(parse_wpctl_sink("no dot here"), None);
    assert_eq!(rgb([1, 2, 3]), [3, 2, 1, 255]);
    assert_eq!(Section::Bluetooth.title(), "Bluetooth");
    assert_eq!(gemshell::shell::Section::Display.title(), "Display");
    assert_eq!(signal_glyph(80), "▂▄▆█");
    assert_eq!(signal_glyph(10), "▂   ");
}

#[test]
fn painter_fills() {
    let mut p = Painter::new();
    p.rect(0, 0, 2, 1, [10, 20, 30]);
    assert_eq!(&p.px[0..8], &[30, 20, 10, 255, 30, 20, 10, 255]);
    assert_eq!(&p.px[8..12], &[0, 0, 0, 0]);
    p.set(-1, 0, [1, 1, 1]);
    p.set(1080, 0, [1, 1, 1]);
    assert_eq!(&p.px[0..4], &[30, 20, 10, 255]);
}

#[test]
fn first_path_that_exists() {
    let c = vec!["a".to_string(), "b".to_string(), "c".to_string()];
    assert_eq!(first_flagged(&c, &vec![false, true, true]).as_deref(), Some("b"));
    assert_eq!(first_flagged(&c, &vec![false, false, false]), None);
    let d = vec!["/nonexistent/path/x".to_string(), "/".to_string()];
    assert_eq!(first_existing(&d).as_deref(), Some("/"));
    assert_eq!(first_existing(&vec![]), None);
}

#[test]
fn pending_mutations_coalesce_by_kind() {
    let mut p: Pending<i32> = Pending::new();
    p.mutate(MutationKind::Volume, 1);
    p.mutate(MutationKind::Sink, 2);
    p.mutate(MutationKind::Volume, 3);
    let (items, refresh) = p.take();
    assert_eq!(items, vec![(MutationKind::Sink, 2), (MutationKind::Volume, 3)]);
    assert!(refresh);
    let (items, refresh) = p.take();
    assert!(items.is_empty() && !refresh);
    p.mutate(MutationKind::Muted, 0);
    p.mutate(MutationKind::Volume, 5);
    let (items, refresh) = p.take();
    assert_eq!(items.len(), 2);
    assert!(!refresh);
    p.request_refresh();
    p.request_refresh();
    let (items, refresh) = p.take();
    assert!(items.is_empty() && refresh);
    assert!(wants_snapshot(MutationKind::WifiConnect));
    assert!(!wants_snapshot(MutationKind::Muted));
}

fn win(id: u32, workspace: u32) -> gemshell::stack::WinEntry {
    gemshell::stack::WinEntry { id, minimized: false, popup: false, workspace }
}

fn ids(s: &gemshell::stack::Stack) -> Vec<u32> {
    s.wins.iter().map(|w| w.id).collect()
}

#[test]
fn window_stack_raise_close_minimize() {
    let mut s = gemshell::stack::Stack::new();
    s.wins = vec![win(1, 0), win(2, 0), win(3, 1)];
    s.focus = Some(2);
    s.raise(1);
    assert_eq!(ids(&s), vec![2, 3, 1]);
    assert_eq!(s.focus, Some(1));
    s.raise(9);
    assert_eq!(ids(&s), vec![2, 3, 1]);
    assert!(s.close(1));
    assert_eq!(ids(&s), vec![2, 3]);
    assert_eq!(s.focus, Some(3));
    assert!(!s.close(1));
    s.minimize(3);
    assert!(s.wins[1].minimized);
    assert_eq!(s.focus, Some(2));
    assert_eq!(s.switcher_ids(), vec![2]);
    s.minimize(2);
    assert_eq!(s.focus, None);
}

#[test]
fn window_stack_cycles_a_workspace() {
    let mut s = gemshell::stack::Stack::new();
    s.wins = vec![win(1, 0), win(2, 0), win(5, 1), win(4, 0)];
    s.focus = Some(2);
    assert_eq!(s.visible_ids(0), vec![1, 2, 4]);
    s.next_app(0);
    assert_eq!(s.focus, Some(4));
    assert_eq!(ids(&s), vec![1, 2, 5, 4]);
    s.next_app(0);
    assert_eq!(s.focus, Some(1));
    assert_eq!(ids(&s), vec![2, 5, 4, 1]);
    s.next_app(7);
    assert_eq!(s.focus, Some(1));
}

#[test]
fn window_ids_grow_past_the_largest() {
    let mut s = gemshell::stack::Stack::new();
    assert_eq!(s.next_id(), 1);
    s.wins = vec![win(3, 0), win(7, 0), win(2, 1)];
    assert_eq!(s.next_id(), 8);
}

#[test]
fn touch_protocol_b_decoding() {
    let mut d = TouchDecoder::new();
    assert_eq!(d.step(EV_ABS, ABS_MT_SLOT, 0), None);
    assert_eq!(d.step(EV_ABS, ABS_MT_TRACKING_ID, 5), Some(TouchOut::Track(0, Some(true))));
    assert_eq!(d.step(EV_ABS, ABS_MT_POSITION_X, 100), Some(TouchOut::PosX(0)));
    assert_eq!(d.step(EV_ABS, ABS_MT_POSITION_Y, 200), Some(TouchOut::PosY(0)));
    assert_eq!(d.step(EV_SYN, SYN_REPORT, 0), Some(TouchOut::Motion(0)));
    assert_eq!(d.step(EV_SYN, SYN_REPORT, 0), None);
    assert!(d.is_down(0));
    assert_eq!(d.step(EV_ABS, ABS_MT_TRACKING_ID, 5), Some(TouchOut::Track(0, None)));
    assert_eq!(d.step(EV_ABS, ABS_MT_TRACKING_ID, -1), Some(TouchOut::Track(0, Some(false))));
    assert_eq!(d.step(EV_SYN, SYN_REPORT, 0), None);
    assert!(!d.is_down(0));
    assert_eq!(d.step(EV_ABS, ABS_MT_SLOT, 33), None);
    assert_eq!(d.step(EV_ABS, ABS_MT_TRACKING_ID, 7), Some(TouchOut::Track(1, Some(true))));
    assert_eq!(d.step(EV_ABS, ABS_MT_SLOT, -1), None);
    assert_eq!(d.step(EV_ABS, ABS_MT_POSITION_X, 1), Some(TouchOut::PosX(31)));
    assert_eq!(d.step(1, 30, 1), None);
}

fn dev(path: &str, name: &str, ev: &str, abs: &str, key: &str) -> InputDev {
    InputDev {
        path: path.to_string(),
        name: name.to_string(),
        ev: Some(ev.to_string()),
        abs: Some(abs.to_string()),
        key: Some(key.to_string()),
    }
}

#[test]
fn capability_words_are_or_ed() {
    assert_eq!(caps_from(&Some("169000000000 35ff57ff3ffcffc\n".to_string())), 0x169000000000 | 0x35ff57ff3ffcffc);
    assert_eq!(caps_from(&Some("zz 10".to_string())), 0x10);
    assert_eq!(caps_from(&Some("+f".to_string())), 0xf);
    assert_eq!(caps_from(&Some("10000000000000000".to_string())), 0);
    assert_eq!(caps_from(&None), 0);
    assert_eq!(classify("AW9523 Keys", 3, 0, 1), NodeKind::Keyboard(true));
    assert_eq!(classify("gpio-keys", 3, 0, 1), NodeKind::Keyboard(false));
    assert_eq!(classify("ts", 0xb, 0x8000_0000_0000, 1), NodeKind::Touch);
    assert_eq!(classify("mouse", 0x5, 0, 0), NodeKind::Other);
}

#[test]
fn input_nodes_prefer_the_main_keyboard() {
    let ds = vec![
        dev("/dev/input/event0", "gpio-keys\n", "3", "0", "100000"),
        dev("/dev/input/event1", "Goodix TS", "b", "661800000000000", "0"),
        dev("/dev/input/event2", "aw9523-keys\n", "3", "0", "35ff57ff3ffcffc"),
    ];
    let (k, t, kn, tn) = find_nodes(&ds);
    assert_eq!(k.as_deref(), Some("/dev/input/event2"));
    assert_eq!(t.as_deref(), Some("/dev/input/event1"));
    assert_eq!(kn, "aw9523-keys");
    assert_eq!(tn, "Goodix TS");
    let first = vec![dev("/dev/input/event0", "gpio-keys\n", "3", "0", "100000")];
    let (k, t, kn, tn) = find_nodes(&first);
    assert_eq!(k.as_deref(), Some("/dev/input/event0"));
    assert_eq!(t, None);
    assert_eq!((kn.as_str(), tn.as_str()), ("gpio-keys", ""));
}

fn dapp(name: &str, path: &str) -> DesktopApp {
    DesktopApp { name: name.to_string(), command: "x".to_string(), icon: String::new(), path: path.to_string() }
}

#[test]
fn launcher_keeps_first_of_each_name_sorted() {
    let r = pick_apps(vec![
        dapp("foot", "/home/a/foot.desktop"),
        dapp("Firefox", "/home/a/firefox.desktop"),
        dapp("FOOT", "/usr/share/foot.desktop"),
        dapp("alacritty", "/usr/share/alacritty.desktop"),
        dapp("Zathura", "/usr/share/z.desktop"),
    ]);
    let names: Vec<&str> = r.iter().map(|a| a.name.as_str()).collect();
    assert_eq!(names, vec!["alacritty", "Firefox", "foot", "Zathura"]);
    assert_eq!(r[2].path, "/home/a/foot.desktop");
    assert!(pick_apps(Vec::new()).is_empty());
}

fn keys0() -> gemshell::compositor::KeyState {
    gemshell::compositor::KeyState {
        settings_open: false,
        password_prompt: false,
        launcher_open: false,
        switcher_open: false,
        switcher_index: 0,
        pressed: Vec::new(),
    }
}

#[test]
fn compositor_key_steps() {
    use_key_steps();
}

fn use_key_steps() {
    let ks = gemshell::compositor::key_step;
    let ids = vec![4u32, 7, 9];
    // the switcher key opens on the focused window, cycles, and activates on release
    let (s, o) = ks(&keys0(), gemshell::compositor::XF86_TOP_MENU, true, 0, &ids, Some(7));
    assert_eq!(o, gemshell::compositor::KeyOutcome::Consumed(Shortcut::Switcher));
    assert!(s.switcher_open && s.switcher_index == 1);
    assert_eq!(s.pressed, vec![gemshell::compositor::XF86_TOP_MENU]);
    let (s, _) = ks(&s, gemshell::compositor::XF86_TOP_MENU, true, 0, &ids, Some(7));
    assert_eq!(s.switcher_index, 2);
    let (s, _) = ks(&s, gemshell::compositor::XF86_TOP_MENU, true, 0, &ids, Some(7));
    assert_eq!(s.switcher_index, 0);
    assert_eq!(s.pressed.len(), 1);
    let (s, o) = ks(&s, gemshell::compositor::XF86_TOP_MENU, false, 0, &ids, Some(7));
    assert_eq!(o, gemshell::compositor::KeyOutcome::Release(true));
    assert!(!s.switcher_open && s.pressed.is_empty());
    // an ordinary key goes to the client
    let (s, o) = ks(&s, 0x61, true, 0, &ids, Some(7));
    assert_eq!(o, gemshell::compositor::KeyOutcome::Forward);
    assert_eq!(s.pressed, vec![0x61]);
    // the launcher toggles; Escape closes it
    let (s, _) = ks(&s, XF86_TASK_PANE, true, 0, &ids, None);
    assert!(s.launcher_open);
    let (s, o) = ks(&s, XK_ESCAPE, true, 0, &ids, None);
    assert_eq!(o, gemshell::compositor::KeyOutcome::Consumed(Shortcut::Escape));
    assert!(!s.launcher_open);
    // the settings panel owns the keyboard
    let mut p = keys0();
    p.settings_open = true;
    let (_, o) = ks(&p, XK_ESCAPE, true, 0, &ids, None);
    assert_eq!(o, gemshell::compositor::KeyOutcome::ToSettings(true));
    p.password_prompt = true;
    let (_, o) = ks(&p, XK_ESCAPE, true, 0, &ids, None);
    assert_eq!(o, gemshell::compositor::KeyOutcome::ToSettings(false));
}

#[test]
fn icon_dirs_read_largest_first() {
    assert_eq!(
        gemshell::icons::icon_subdirs(),
        vec!["128x128/apps", "64x64/apps", "48x48/apps", "32x32/apps", "apps"]
    );
}

fn panel_row(action: Action) -> gemshell::panel::Row {
    gemshell::panel::Row { label: "x".to_string(), sub: String::new(), toggle: None, active: false, action }
}

#[test]
fn settings_hit_layout_feeds_hit_test() {
    let rows = vec![panel_row(Action::WifiToggle), panel_row(Action::WifiSelect("home".to_string()))];
    let hits = gemshell::panel::hit_layout(gemshell::settings::Section::Wifi, false, &rows, false);
    assert_eq!(hits.len(), 1 + 3 + 2);
    assert!(matches!(hit_test(&hits, 1000, 50), Some(Action::Close)));
    assert!(matches!(hit_test(&hits, 400, 200), Some(Action::Tab(gemshell::settings::Section::Bluetooth))));
    assert!(matches!(hit_test(&hits, 100, 300), Some(Action::WifiToggle)));
    assert!(matches!(hit_test(&hits, 100, 430), Some(Action::WifiSelect(ref s)) if s == "home"));
    assert!(hit_test(&hits, 100, 2000).is_none());
    let audio = gemshell::panel::hit_layout(gemshell::settings::Section::Audio, true, &Vec::new(), true);
    assert_eq!(audio.len(), 1 + 3 + 3 + 2);
    assert!(matches!(hit_test(&audio, 400, 1950), Some(Action::Mute)));
    assert!(matches!(hit_test(&audio, 100, 1150), Some(Action::PassSubmit)));
    assert!(matches!(hit_test(&audio, 600, 1150), Some(Action::PassCancel)));
}
