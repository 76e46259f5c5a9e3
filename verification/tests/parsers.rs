use gemshell::bluetooth::{parse_bluetoothctl_devices, parse_bluetoothctl_show};
use gemshell::clock::clock_hm;
use gemshell::nmcli::{parse_nmcli_active, parse_nmcli_radio, parse_nmcli_wifi_list, split_nmcli_t};
use gemshell::wpctl::{parse_wpctl_default_name, parse_wpctl_prop, parse_wpctl_status_sinks};

#[test]
fn nmcli_radio() {
    assert!(parse_nmcli_radio("enabled\n"));
    assert!(!parse_nmcli_radio("disabled\n"));
}

#[test]
fn nmcli_escaping() {
    assert_eq!(
        split_nmcli_t(r"foo\:bar:baz\\qux"),
        vec!["foo:bar".to_string(), "baz\\qux".to_string()]
    );
}

#[test]
fn nmcli_active() {
    let out = "Wired connection 1:802-3-ethernet\nMy Net:802-11-wireless\n";
    assert_eq!(parse_nmcli_active(out).as_deref(), Some("My Net"));
    assert_eq!(parse_nmcli_active("Wired:802-3-ethernet\n"), None);
}

#[test]
fn wifi_list_dedups_and_marks_connected() {
    let out = "*:Home:80:WPA2\n:Home:40:WPA2\n:Cafe:55:\n";
    let nets = parse_nmcli_wifi_list(out);
    assert_eq!(nets.len(), 2);
    assert!(nets[0].connected);
    assert_eq!(nets[0].signal, 80);
    assert_eq!(nets[0].security, "WPA2");
    assert!(nets[1].is_open());
}

#[test]
fn wifi_list_colon_in_ssid() {
    let nets = parse_nmcli_wifi_list(r":Bob\:s Wifi:12:WPA3");
    assert_eq!(nets[0].ssid, "Bob:s Wifi");
}

#[test]
fn wpctl_sinks_includes_filter_sink() {
    // Real `wpctl status` shape: the hardware sink lives in `Sinks:`
    // with a `*`; the virtual sink lives in `Filters:` tagged
    // `[Audio/Sink]` (with a `[Stream/Output/Audio]` companion that
    // must be ignored).
    let out = "\
Audio
 \u{251c}\u{2500} Devices:
 \u{2502}      46. Built-in Audio                      [alsa]
 \u{2502}  
 \u{251c}\u{2500} Sinks:
 \u{2502}  *   51. Headphones / Jack                   [vol: 0.61]
 \u{2502}  
 \u{251c}\u{2500} Sources:
 \u{2502}  
 \u{251c}\u{2500} Filters:
 \u{2502}    - gemini_speakers
 \u{2502}      34. gemini_speakers                          [Audio/Sink]
 \u{2502}      36. gemini_speakers.output                   [Stream/Output/Audio]
 \u{2502}  
 \u{2514}\u{2500} Streams:
";
    let s = parse_wpctl_status_sinks(out);
    assert_eq!(s.len(), 2);
    assert!(s[0].default);
    assert_eq!(s[0].id, "51");
    assert_eq!(s[0].name, "Headphones / Jack");
    assert_eq!(s[1].id, "34");
    assert_eq!(s[1].name, "gemini_speakers");
    assert!(!s[1].default);
}

#[test]
fn wpctl_props() {
    let out = "\
  * node.description = \"Built-in Speakers\"
  * node.name = \"gemini_speakers\"
  * media.class = \"Audio/Sink\"
";
    assert_eq!(parse_wpctl_prop(out, "node.name").as_deref(), Some("gemini_speakers"));
    assert_eq!(
        parse_wpctl_prop(out, "node.description").as_deref(),
        Some("Built-in Speakers")
    );
    assert_eq!(parse_wpctl_default_name(out).as_deref(), Some("gemini_speakers"));
}

#[test]
fn bluetooth_show() {
    assert_eq!(parse_bluetoothctl_show("Powered: yes\nDiscovering: no\n"), (true, false));
}

#[test]
fn bluetooth_devices() {
    let out = "Device AA:BB:CC:DD:EE:FF Headphones\nNot a device\n";
    let d = parse_bluetoothctl_devices(out);
    assert_eq!(d.len(), 1);
    assert_eq!(d[0].mac, "AA:BB:CC:DD:EE:FF");
    assert_eq!(d[0].name, "Headphones");
}

#[test]
fn bluetooth_device_names_keep_every_word() {
    let d = parse_bluetoothctl_devices("Device AA:BB:CC:DD:EE:FF Some Name \nDevice 11:22:33:44:55:66\nDevice zz\n");
    assert_eq!(d.len(), 2);
    assert_eq!(d[0].name, "Some Name");
    assert!(!d[0].connected && d[0].paired);
    assert_eq!(d[1].name, "11:22:33:44:55:66");
}

#[test]
fn clock_is_in_range() {
    let (h, m) = clock_hm();
    assert!(h < 24 && m < 60);
}

#[test]
fn nmcli_escaping_round_trips() {
    let fields = vec!["a:b".to_string(), "c\\d".to_string(), String::new(), "x\\:y".to_string()];
    let esc = |f: &String| f.replace('\\', "\\\\").replace(':', "\\:");
    let line = fields.iter().map(esc).collect::<Vec<_>>().join(":");
    assert_eq!(split_nmcli_t(&line), fields);
}
