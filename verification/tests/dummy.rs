use gemshell::dummy::DummyState;

#[test]
fn wifi_toggle_and_connect() {
    let mut d = DummyState::new();
    assert!(d.wifi().enabled);
    d.set_wifi_enabled(false).unwrap();
    assert!(!d.wifi().enabled);
    d.set_wifi_enabled(true).unwrap();

    // wrong password path
    assert!(d.connect_wifi("Planet HQ", None).is_err());
    d.connect_wifi("Planet HQ", Some("hunter2")).unwrap();
    assert_eq!(d.wifi().active.as_deref(), Some("Planet HQ"));
    assert!(d.wifi().networks.iter().find(|n| n.ssid == "Planet HQ").unwrap().connected);
    assert!(!d.wifi().networks.iter().find(|n| n.ssid == "Gemini-Net").unwrap().connected);

    d.disconnect_wifi().unwrap();
    assert_eq!(d.wifi().active, None);
}

#[test]
fn open_network_needs_no_password() {
    let mut d = DummyState::new();
    d.connect_wifi("Guest", None).unwrap();
    assert_eq!(d.wifi().active.as_deref(), Some("Guest"));
}

#[test]
fn audio_and_bt() {
    // The float volume is kept beside the state by the provider; the
    // rest of the audio and Bluetooth state lives here.
    let mut d = DummyState::new();
    d.set_muted(true).unwrap();
    assert!(d.muted);
    d.set_default_sink("55").unwrap();
    assert!(d.sink_list().iter().find(|s| s.id == "55").unwrap().default);

    d.connect_bluetooth("AA:BB:CC:DD:EE:02").unwrap();
    assert!(d.bluetooth().devices.iter().find(|x| x.mac.ends_with("02")).unwrap().connected);
}

#[test]
fn dummy_refusals_leave_state_alone() {
    let mut d = DummyState::new();
    let e = d.connect_wifi("Planet HQ", None).unwrap_err();
    assert_eq!(e.to_text(), "password required");
    assert_eq!(d.wifi().active.as_deref(), Some("Gemini-Net"));
    let e = d.connect_wifi("Nowhere", Some("x")).unwrap_err();
    assert_eq!(e.to_text(), "no network Nowhere");
    let e = d.connect_bluetooth("00:00:00:00:00:00").unwrap_err();
    assert_eq!(e.to_text(), "unknown device 00:00:00:00:00:00");
    assert!(d.bluetooth().devices[0].connected);
}

#[test]
fn dummy_connect_twice_is_once() {
    let mut d = DummyState::new();
    d.connect_wifi("Guest", None).unwrap();
    let once: Vec<bool> = d.wifi().networks.iter().map(|n| n.connected).collect();
    d.connect_wifi("Guest", None).unwrap();
    let twice: Vec<bool> = d.wifi().networks.iter().map(|n| n.connected).collect();
    assert_eq!(once, twice);
    assert_eq!(once, vec![false, false, true, false]);
}

#[test]
fn dummy_radio_off_hides_lists() {
    let mut d = DummyState::new();
    d.set_wifi_enabled(false).unwrap();
    assert!(d.wifi().networks.is_empty());
    d.set_bluetooth_enabled(false).unwrap();
    assert!(d.bluetooth().devices.is_empty());
    d.set_wifi_enabled(true).unwrap();
    assert_eq!(d.wifi().networks.len(), 4);
}

#[test]
fn dummy_rescan_nudges_signals() {
    let mut d = DummyState::new();
    d.scan_wifi().unwrap();
    let s: Vec<i32> = d.wifi().networks.iter().map(|n| n.signal).collect();
    assert_eq!(s, vec![89, 68, 51, 37]);
    d.scan_wifi().unwrap();
    d.scan_wifi().unwrap();
    assert_eq!(d.wifi().networks[0].signal, 99);
}

#[test]
fn dummy_bluetooth_scan_discovers() {
    let mut d = DummyState::new();
    d.scan_bluetooth().unwrap();
    let b = d.bluetooth();
    assert_eq!(b.devices.len(), 3);
    assert_eq!(b.devices[2].mac, "AA:BB:CC:DD:EE:03");
    assert_eq!(b.devices[2].name, "Discovered device 3");
    assert!(!b.devices[2].paired);
    for _ in 0..13 {
        d.scan_bluetooth().unwrap();
    }
    let b = d.bluetooth();
    assert_eq!(b.devices[15].mac, "AA:BB:CC:DD:EE:10");
}

#[test]
fn dummy_brightness_and_status() {
    let mut d = DummyState::new();
    d.set_brightness(0).unwrap();
    assert_eq!(d.brightness, 1);
    d.set_brightness(250).unwrap();
    assert_eq!(d.brightness, 100);
    let s = d.status(42);
    assert_eq!(s.volume, 42);
    assert_eq!(s.brightness, 100);
    assert_eq!(s.brightness_max, 100);
    assert_eq!(s.battery.percent, Some(73));
    assert!(s.hour < 24 && s.minute < 60);
}
