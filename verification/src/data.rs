//! The system-data snapshot types the shell UI reads: Wi-Fi, Bluetooth,
//! audio sinks, battery and the status-bar snapshot, with their views.

use vstd::prelude::*;
use crate::text::{ascii_ci_eq, chars_of, eq_ignore_case, string_of, views};

verus! {

/// An error returned by a mutating operation.
#[derive(Debug, Clone, PartialEq, Eq)]
pub struct DataError(pub String);

impl DataError {
    pub fn new(msg: String) -> (e: Self)
        ensures
            e.0@ == msg@,
    {
        DataError(msg)
    }

    /// The message, as `Display` shows it.
    pub fn to_text(&self) -> (s: String)
        ensures
            s@ == self.0@,
    {
        self.0.clone()
    }
}

/// The views of a list of strings.
pub open spec fn string_views(v: Seq<String>) -> Seq<Seq<char>> {
    v.map_values(|s: String| s@)
}

/// The view of an optional string.
pub open spec fn opt_view(o: Option<String>) -> Option<Seq<char>> {
    match o {
        Some(s) => Some(s@),
        None => None,
    }
}

/// Strings holding the given character vectors.
pub fn strings_of(v: &Vec<Vec<char>>) -> (r: Vec<String>)
    ensures
        string_views(r@) == views(v@),
{
    let mut r: Vec<String> = Vec::new();
    let mut i: usize = 0;
    while i < v.len()
        invariant
            i <= v@.len(),
            string_views(r@) == views(v@.take(i as int)),
        decreases v@.len() - i,
    {
        let s = string_of(v[i].as_slice());
        let ghost before = r@;
        r.push(s);
        proof {
            assert(string_views(r@) =~= string_views(before).push(v@[i as int]@));
            assert(views(v@.take(i + 1)) =~= views(v@.take(i as int)).push(v@[i as int]@));
        }
        i = i + 1;
    }
    proof {
        assert(v@.take(v@.len() as int) =~= v@);
    }
    r
}

// ---------------------------------------------------------------------------
// Wi-Fi

/// One visible access point.
#[derive(Debug, Clone, PartialEq, Eq, Default)]
pub struct WifiNetwork {
    pub ssid: String,
    /// 0..=100
    pub signal: i32,
    /// `"open"` for an open network, otherwise the security description.
    pub security: String,
    /// This is the network the device is currently associated with.
    pub connected: bool,
}

pub struct WifiNetworkView {
    pub ssid: Seq<char>,
    pub signal: i32,
    pub security: Seq<char>,
    pub connected: bool,
}

impl View for WifiNetwork {
    type V = WifiNetworkView;

    open spec fn view(&self) -> WifiNetworkView {
        WifiNetworkView {
            ssid: self.ssid@,
            signal: self.signal,
            security: self.security@,
            connected: self.connected,
        }
    }
}

/// An open network: security `"open"` (any ASCII case) or none given.
pub open spec fn network_is_open(security: Seq<char>) -> bool {
    ascii_ci_eq(security, "open"@) || security.len() == 0
}

impl WifiNetwork {
    pub fn is_open(&self) -> (r: bool)
        ensures
            r == network_is_open(self.security@),
    {
        let sec = chars_of(self.security.as_str());
        let open = chars_of("open");
        eq_ignore_case(&sec, &open) || sec.len() == 0
    }

    pub fn copy(&self) -> (r: Self)
        ensures
            r@ == self@,
    {
        WifiNetwork {
            ssid: self.ssid.clone(),
            signal: self.signal,
            security: self.security.clone(),
            connected: self.connected,
        }
    }
}

pub open spec fn network_views(v: Seq<WifiNetwork>) -> Seq<WifiNetworkView> {
    v.map_values(|n: WifiNetwork| n@)
}

/// A copy of a list of networks.
pub fn copy_networks(v: &Vec<WifiNetwork>) -> (r: Vec<WifiNetwork>)
    ensures
        network_views(r@) == network_views(v@),
{
    let mut r: Vec<WifiNetwork> = Vec::new();
    let mut i: usize = 0;
    while i < v.len()
        invariant
            i <= v@.len(),
            network_views(r@) == network_views(v@.take(i as int)),
        decreases v@.len() - i,
    {
        let ghost before = r@;
        r.push(v[i].copy());
        proof {
            assert(network_views(r@) =~= network_views(before).push(v@[i as int]@));
            assert(network_views(v@.take(i + 1)) =~= network_views(v@.take(i as int)).push(
                v@[i as int]@,
            ));
        }
        i = i + 1;
    }
    assert(v@.take(v@.len() as int) =~= v@);
    r
}

#[derive(Debug, Clone, PartialEq, Eq, Default)]
pub struct WifiState {
    pub enabled: bool,
    /// SSID of the active connection, if any.
    pub active: Option<String>,
    pub networks: Vec<WifiNetwork>,
}

// ---------------------------------------------------------------------------
// Bluetooth

#[derive(Debug, Clone, PartialEq, Eq, Default)]
pub struct BtDevice {
    pub mac: String,
    pub name: String,
    pub connected: bool,
    pub paired: bool,
}

pub struct BtDeviceView {
    pub mac: Seq<char>,
    pub name: Seq<char>,
    pub connected: bool,
    pub paired: bool,
}

impl View for BtDevice {
    type V = BtDeviceView;

    open spec fn view(&self) -> BtDeviceView {
        BtDeviceView {
            mac: self.mac@,
            name: self.name@,
            connected: self.connected,
            paired: self.paired,
        }
    }
}

impl BtDevice {
    pub fn copy(&self) -> (r: Self)
        ensures
            r@ == self@,
    {
        BtDevice {
            mac: self.mac.clone(),
            name: self.name.clone(),
            connected: self.connected,
            paired: self.paired,
        }
    }
}

pub open spec fn device_views(v: Seq<BtDevice>) -> Seq<BtDeviceView> {
    v.map_values(|d: BtDevice| d@)
}

/// A copy of a list of devices.
pub fn copy_devices(v: &Vec<BtDevice>) -> (r: Vec<BtDevice>)
    ensures
        device_views(r@) == device_views(v@),
{
    let mut r: Vec<BtDevice> = Vec::new();
    let mut i: usize = 0;
    while i < v.len()
        invariant
            i <= v@.len(),
            device_views(r@) == device_views(v@.take(i as int)),
        decreases v@.len() - i,
    {
        let ghost before = r@;
        r.push(v[i].copy());
        proof {
            assert(device_views(r@) =~= device_views(before).push(v@[i as int]@));
            assert(device_views(v@.take(i + 1)) =~= device_views(v@.take(i as int)).push(
                v@[i as int]@,
            ));
        }
        i = i + 1;
    }
    assert(v@.take(v@.len() as int) =~= v@);
    r
}

#[derive(Debug, Clone, PartialEq, Eq, Default)]
pub struct BtState {
    pub enabled: bool,
    pub discovering: bool,
    pub devices: Vec<BtDevice>,
}

// ---------------------------------------------------------------------------
// Audio

#[derive(Debug, Clone, PartialEq, Eq, Default)]
pub struct AudioSink {
    /// PipeWire node id (as a decimal string, the way `wpctl` wants it).
    pub id: String,
    pub name: String,
    pub default: bool,
}

pub struct AudioSinkView {
    pub id: Seq<char>,
    pub name: Seq<char>,
    pub default: bool,
}

impl View for AudioSink {
    type V = AudioSinkView;

    open spec fn view(&self) -> AudioSinkView {
        AudioSinkView { id: self.id@, name: self.name@, default: self.default }
    }
}

impl AudioSink {
    pub fn copy(&self) -> (r: Self)
        ensures
            r@ == self@,
    {
        AudioSink { id: self.id.clone(), name: self.name.clone(), default: self.default }
    }
}

pub open spec fn sink_views(v: Seq<AudioSink>) -> Seq<AudioSinkView> {
    v.map_values(|s: AudioSink| s@)
}

/// A copy of a list of sinks.
pub fn copy_sinks(v: &Vec<AudioSink>) -> (r: Vec<AudioSink>)
    ensures
        sink_views(r@) == sink_views(v@),
{
    let mut r: Vec<AudioSink> = Vec::new();
    let mut i: usize = 0;
    while i < v.len()
        invariant
            i <= v@.len(),
            sink_views(r@) == sink_views(v@.take(i as int)),
        decreases v@.len() - i,
    {
        let ghost before = r@;
        r.push(v[i].copy());
        proof {
            assert(sink_views(r@) =~= sink_views(before).push(v@[i as int]@));
            assert(sink_views(v@.take(i + 1)) =~= sink_views(v@.take(i as int)).push(
                v@[i as int]@,
            ));
        }
        i = i + 1;
    }
    assert(v@.take(v@.len() as int) =~= v@);
    r
}

// ---------------------------------------------------------------------------
// Battery / status bar

#[derive(Debug, Clone, Copy, PartialEq, Eq, Default)]
pub struct BatteryState {
    /// percent 0..=100, `None` when unknown.
    pub percent: Option<i32>,
    pub charging: bool,
}

/// Everything the status bar needs, in one snapshot.
#[derive(Debug, Clone, Copy, PartialEq, Eq, Default)]
pub struct ShellStatus {
    pub battery: BatteryState,
    pub wifi: bool,
    pub bluetooth: bool,
    pub volume: i32,
    pub muted: bool,
    pub brightness: i32,
    pub brightness_max: i32,
    pub hour: u32,
    pub minute: u32,
}

} // verus!
