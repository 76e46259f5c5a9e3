//! An in-memory stand-in for the device data provider, for driving the
//! shell without touching a real network, radio or sound server.
//! Mutations really change the fake state, so toggles, connect flows and
//! the password prompt round-trip the way the device does.
//!
//! The volume is a float and is kept by the caller beside this state.

use vstd::prelude::*;
use crate::clock::clock_hm;
use crate::data::{
    copy_devices, copy_networks, copy_sinks, device_views, network_is_open, network_views,
    opt_view, sink_views, AudioSink, AudioSinkView, BatteryState, BtDevice, BtDeviceView,
    BtState, DataError, ShellStatus, WifiNetwork, WifiNetworkView, WifiState,
};
use crate::text::{dec, hex2, push_decimal, push_hex2, push_str, string_of};

verus! {

/// The fake subsystem state.
pub struct DummyState {
    pub wifi_on: bool,
    pub active: Option<String>,
    pub networks: Vec<WifiNetwork>,
    pub bt_on: bool,
    pub bt_devices: Vec<BtDevice>,
    pub muted: bool,
    pub sinks: Vec<AudioSink>,
    pub battery: BatteryState,
    pub brightness: i32,
    pub brightness_max: i32,
}

#[verifier::ext_equal]
pub struct DummyView {
    pub wifi_on: bool,
    pub active: Option<Seq<char>>,
    pub networks: Seq<WifiNetworkView>,
    pub bt_on: bool,
    pub bt_devices: Seq<BtDeviceView>,
    pub muted: bool,
    pub sinks: Seq<AudioSinkView>,
    pub battery: BatteryState,
    pub brightness: i32,
    pub brightness_max: i32,
}

impl View for DummyState {
    type V = DummyView;

    open spec fn view(&self) -> DummyView {
        DummyView {
            wifi_on: self.wifi_on,
            active: opt_view(self.active),
            networks: network_views(self.networks@),
            bt_on: self.bt_on,
            bt_devices: device_views(self.bt_devices@),
            muted: self.muted,
            sinks: sink_views(self.sinks@),
            battery: self.battery,
            brightness: self.brightness,
            brightness_max: self.brightness_max,
        }
    }
}

// ---------------------------------------------------------------------------
// the model

pub open spec fn net(ssid: Seq<char>, signal: i32, security: Seq<char>, connected: bool) -> WifiNetworkView {
    WifiNetworkView { ssid, signal, security, connected }
}

pub open spec fn bt(mac: Seq<char>, name: Seq<char>, connected: bool, paired: bool) -> BtDeviceView {
    BtDeviceView { mac, name, connected, paired }
}

/// The networks the fake starts with.
pub open spec fn initial_networks() -> Seq<WifiNetworkView> {
    seq![
        net("Gemini-Net"@, 82, "WPA2"@, true),
        net("Planet HQ"@, 61, "WPA2"@, false),
        net("Guest"@, 44, "open"@, false),
        net("Coffee:Corner"@, 30, "WPA1 WPA2"@, false),
    ]
}

/// The Bluetooth devices the fake starts with.
pub open spec fn initial_devices() -> Seq<BtDeviceView> {
    seq![
        bt("AA:BB:CC:DD:EE:01"@, "Gemini Headset"@, true, true),
        bt("AA:BB:CC:DD:EE:02"@, "Keyboard K380"@, false, true),
    ]
}

/// The audio sinks the fake starts with.
pub open spec fn initial_sinks() -> Seq<AudioSinkView> {
    seq![
        AudioSinkView { id: "41"@, name: "Built-in Audio Analogue Stereo"@, default: true },
        AudioSinkView { id: "55"@, name: "gemini_speakers"@, default: false },
    ]
}

/// The state the fake starts in.
pub open spec fn initial_view() -> DummyView {
    DummyView {
        wifi_on: true,
        active: Some("Gemini-Net"@),
        networks: initial_networks(),
        bt_on: true,
        bt_devices: initial_devices(),
        muted: false,
        sinks: initial_sinks(),
        battery: BatteryState { percent: Some(73), charging: false },
        brightness: 40,
        brightness_max: 100,
    }
}

/// `i` is the first network named `ssid`.
pub open spec fn first_ssid_at(ns: Seq<WifiNetworkView>, ssid: Seq<char>, i: int) -> bool {
    &&& 0 <= i < ns.len()
    &&& ns[i].ssid == ssid
    &&& forall|j: int| 0 <= j < i ==> ns[j].ssid != ssid
}

pub open spec fn has_ssid(ns: Seq<WifiNetworkView>, ssid: Seq<char>) -> bool {
    exists|i: int| 0 <= i < ns.len() && ns[i].ssid == ssid
}

/// Every network named `ssid` marked connected, every other one not.
pub open spec fn with_connected(ns: Seq<WifiNetworkView>, ssid: Seq<char>) -> Seq<WifiNetworkView> {
    Seq::new(ns.len(), |i: int| net(ns[i].ssid, ns[i].signal, ns[i].security, ns[i].ssid == ssid))
}

/// Every network marked not connected.
pub open spec fn with_none_connected(ns: Seq<WifiNetworkView>) -> Seq<WifiNetworkView> {
    Seq::new(ns.len(), |i: int| net(ns[i].ssid, ns[i].signal, ns[i].security, false))
}

/// A rescan nudges a signal by 7, kept within 5..=99.
pub open spec fn rescanned_signal(s: i32) -> i32 {
    if s + 7 < 5 {
        5
    } else if s + 7 > 99 {
        99
    } else {
        (s + 7) as i32
    }
}

pub open spec fn with_rescan(ns: Seq<WifiNetworkView>) -> Seq<WifiNetworkView> {
    Seq::new(
        ns.len(),
        |i: int| net(ns[i].ssid, rescanned_signal(ns[i].signal), ns[i].security, ns[i].connected),
    )
}

/// What connecting to `ssid` does: the error message, or the new state.
pub open spec fn connect_outcome(s: DummyView, ssid: Seq<char>, has_password: bool) -> Result<DummyView, Seq<char>> {
    if !has_ssid(s.networks, ssid) {
        Err("no network "@ + ssid)
    } else if !network_is_open(
        s.networks[choose|i: int| first_ssid_at(s.networks, ssid, i)].security,
    ) && !has_password {
        Err("password required"@)
    } else {
        Ok(DummyView { active: Some(ssid), networks: with_connected(s.networks, ssid), ..s })
    }
}

pub open spec fn has_mac(ds: Seq<BtDeviceView>, mac: Seq<char>) -> bool {
    exists|i: int| 0 <= i < ds.len() && ds[i].mac == mac
}

/// Every device with address `mac` marked connected, every other one not.
pub open spec fn with_bt_connected(ds: Seq<BtDeviceView>, mac: Seq<char>) -> Seq<BtDeviceView> {
    Seq::new(ds.len(), |i: int| bt(ds[i].mac, ds[i].name, ds[i].mac == mac, ds[i].paired))
}

/// What connecting to the device `mac` does.
pub open spec fn bt_connect_outcome(s: DummyView, mac: Seq<char>) -> Result<DummyView, Seq<char>> {
    if has_mac(s.bt_devices, mac) {
        Ok(DummyView { bt_devices: with_bt_connected(s.bt_devices, mac), ..s })
    } else {
        Err("unknown device "@ + mac)
    }
}

/// The device a scan "discovers" as the `n`-th one.
pub open spec fn discovered(n: nat) -> BtDeviceView {
    bt("AA:BB:CC:DD:EE:"@ + hex2(n), "Discovered device "@ + dec(n), false, false)
}

/// Every sink with id `id` marked default, every other one not.
pub open spec fn with_default(ss: Seq<AudioSinkView>, id: Seq<char>) -> Seq<AudioSinkView> {
    Seq::new(ss.len(), |i: int| AudioSinkView { id: ss[i].id, name: ss[i].name, default: ss[i].id == id })
}

pub open spec fn clamp_percent(p: i32) -> i32 {
    if p < 1 {
        1
    } else if p > 100 {
        100
    } else {
        p
    }
}

// ---------------------------------------------------------------------------
// laws

/// Connecting to `ssid` is unique in its answer: the first network of
/// that name is the one whose security decides.
proof fn lemma_first_ssid_unique(ns: Seq<WifiNetworkView>, ssid: Seq<char>, i: int, j: int)
    requires
        first_ssid_at(ns, ssid, i),
        first_ssid_at(ns, ssid, j),
    ensures
        i == j,
{
    if i < j {
        assert(ns[i].ssid == ssid);
    } else if j < i {
        assert(ns[j].ssid == ssid);
    }
}

/// A network named `ssid` at `k` means there is a first one.
proof fn lemma_first_ssid_exists(ns: Seq<WifiNetworkView>, ssid: Seq<char>, k: int)
    requires
        0 <= k < ns.len(),
        ns[k].ssid == ssid,
    ensures
        exists|i: int| first_ssid_at(ns, ssid, i),
    decreases k,
{
    if exists|j: int| 0 <= j < k && ns[j].ssid == ssid {
        let j = choose|j: int| 0 <= j < k && ns[j].ssid == ssid;
        lemma_first_ssid_exists(ns, ssid, j);
    } else {
        assert(first_ssid_at(ns, ssid, k));
    }
}

/// The first network named `ssid`, where there is one.
proof fn lemma_first_ssid(ns: Seq<WifiNetworkView>, ssid: Seq<char>) -> (i: int)
    requires
        has_ssid(ns, ssid),
    ensures
        first_ssid_at(ns, ssid, i),
        i == choose|i: int| first_ssid_at(ns, ssid, i),
{
    let k = choose|k: int| 0 <= k < ns.len() && ns[k].ssid == ssid;
    lemma_first_ssid_exists(ns, ssid, k);
    choose|i: int| first_ssid_at(ns, ssid, i)
}

/// A successful connect leaves exactly the networks named `ssid`
/// connected, and `ssid` as the active connection.
pub proof fn law_connect_marks_target(s: DummyView, ssid: Seq<char>, has_password: bool)
    requires
        connect_outcome(s, ssid, has_password) is Ok,
    ensures
        ({
            let t = connect_outcome(s, ssid, has_password)->Ok_0;
            &&& t.active == Some(ssid)
            &&& t.networks.len() == s.networks.len()
            &&& forall|i: int| 0 <= i < t.networks.len() ==> (#[trigger] t.networks[i]).connected
                == (t.networks[i].ssid == ssid)
        }),
{
}

/// A secured network refuses a connect without a password, and an open
/// one accepts it.
pub proof fn law_password_prompt(s: DummyView, ssid: Seq<char>, i: int)
    requires
        first_ssid_at(s.networks, ssid, i),
    ensures
        !network_is_open(s.networks[i].security) ==> connect_outcome(s, ssid, false) == Err::<
            DummyView,
            Seq<char>,
        >("password required"@),
        network_is_open(s.networks[i].security) ==> connect_outcome(s, ssid, false) is Ok,
        connect_outcome(s, ssid, true) is Ok,
{
    let k = choose|k: int| first_ssid_at(s.networks, ssid, k);
    lemma_first_ssid_unique(s.networks, ssid, i, k);
}

/// Connecting twice to the same network is the same as once.
pub proof fn law_connect_idempotent(s: DummyView, ssid: Seq<char>, has_password: bool)
    requires
        connect_outcome(s, ssid, has_password) is Ok,
    ensures
        connect_outcome(connect_outcome(s, ssid, has_password)->Ok_0, ssid, has_password)
            == connect_outcome(s, ssid, has_password),
{
    let t = connect_outcome(s, ssid, has_password)->Ok_0;
    let i = lemma_first_ssid(s.networks, ssid);
    assert(first_ssid_at(t.networks, ssid, i));
    let k = choose|k: int| first_ssid_at(t.networks, ssid, k);
    lemma_first_ssid_unique(t.networks, ssid, i, k);
    assert(with_connected(t.networks, ssid) =~= t.networks);
    assert(connect_outcome(t, ssid, has_password)->Ok_0 =~= t);
}

/// A refused connect leaves the state as it was (the fake's mutators
/// return it unchanged on every error), and an unknown SSID is refused.
pub proof fn law_unknown_ssid_refused(s: DummyView, ssid: Seq<char>, has_password: bool)
    requires
        !has_ssid(s.networks, ssid),
    ensures
        connect_outcome(s, ssid, has_password) == Err::<DummyView, Seq<char>>("no network "@ + ssid),
{
}

/// Turning the radio off and on again gives back the same state.
pub proof fn law_wifi_toggle_roundtrip(s: DummyView)
    requires
        s.wifi_on,
    ensures
        (DummyView { wifi_on: true, ..DummyView { wifi_on: false, ..s } }) == s,
{
}

/// After a disconnect nothing is connected and there is no active
/// connection, and connecting again to a known network restores it.
pub proof fn law_disconnect_then_reconnect(s: DummyView, ssid: Seq<char>, has_password: bool)
    requires
        connect_outcome(s, ssid, has_password) is Ok,
    ensures
        ({
            let d = DummyView { active: None, networks: with_none_connected(s.networks), ..s };
            &&& forall|i: int| 0 <= i < d.networks.len() ==> !(#[trigger] d.networks[i]).connected
            &&& connect_outcome(d, ssid, has_password) == connect_outcome(s, ssid, has_password)
        }),
{
    let d = DummyView { active: None, networks: with_none_connected(s.networks), ..s };
    let i = lemma_first_ssid(s.networks, ssid);
    assert(first_ssid_at(d.networks, ssid, i));
    let k = choose|k: int| first_ssid_at(d.networks, ssid, k);
    lemma_first_ssid_unique(d.networks, ssid, i, k);
    assert(has_ssid(d.networks, ssid));
    assert(with_connected(d.networks, ssid) =~= with_connected(s.networks, ssid));
    assert(connect_outcome(d, ssid, has_password)->Ok_0 =~= connect_outcome(
        s,
        ssid,
        has_password,
    )->Ok_0);
}

/// A successful Bluetooth connect leaves exactly the devices with that
/// address connected.
pub proof fn law_bt_connect_marks_target(s: DummyView, mac: Seq<char>)
    requires
        has_mac(s.bt_devices, mac),
    ensures
        bt_connect_outcome(s, mac) is Ok,
        ({
            let t = bt_connect_outcome(s, mac)->Ok_0;
            forall|i: int| 0 <= i < t.bt_devices.len() ==> (#[trigger] t.bt_devices[i]).connected
                == (t.bt_devices[i].mac == mac)
        }),
{
}

/// Choosing a default sink leaves exactly the sinks with that id default.
pub proof fn law_default_sink_exclusive(ss: Seq<AudioSinkView>, id: Seq<char>)
    ensures
        with_default(ss, id).len() == ss.len(),
        forall|i: int| 0 <= i < ss.len() ==> (#[trigger] with_default(ss, id)[i]).default == (
        ss[i].id == id),
{
}

/// A rescan keeps every signal within 5..=99.
pub proof fn law_rescan_in_range(ns: Seq<WifiNetworkView>)
    ensures
        forall|i: int| 0 <= i < ns.len() ==> 5 <= (#[trigger] with_rescan(ns)[i]).signal <= 99,
{
}

// ---------------------------------------------------------------------------
// the implementation

fn network(ssid: &str, signal: i32, security: &str, connected: bool) -> (n: WifiNetwork)
    ensures
        n@ == net(ssid@, signal, security@, connected),
{
    WifiNetwork { ssid: ssid.to_owned(), signal, security: security.to_owned(), connected }
}

fn device(mac: &str, name: &str, connected: bool, paired: bool) -> (d: BtDevice)
    ensures
        d@ == bt(mac@, name@, connected, paired),
{
    BtDevice { mac: mac.to_owned(), name: name.to_owned(), connected, paired }
}

impl DummyState {
    /// The fake's starting state.
    pub fn new() -> (d: Self)
        ensures
            d@ == initial_view(),
    {
        let mut networks: Vec<WifiNetwork> = Vec::new();
        networks.push(network("Gemini-Net", 82, "WPA2", true));
        networks.push(network("Planet HQ", 61, "WPA2", false));
        networks.push(network("Guest", 44, "open", false));
        networks.push(network("Coffee:Corner", 30, "WPA1 WPA2", false));
        let mut devices: Vec<BtDevice> = Vec::new();
        devices.push(device("AA:BB:CC:DD:EE:01", "Gemini Headset", true, true));
        devices.push(device("AA:BB:CC:DD:EE:02", "Keyboard K380", false, true));
        let mut sinks: Vec<AudioSink> = Vec::new();
        sinks.push(
            AudioSink {
                id: "41".to_owned(),
                name: "Built-in Audio Analogue Stereo".to_owned(),
                default: true,
            },
        );
        sinks.push(
            AudioSink { id: "55".to_owned(), name: "gemini_speakers".to_owned(), default: false },
        );
        let d = DummyState {
            wifi_on: true,
            active: Some("Gemini-Net".to_owned()),
            networks,
            bt_on: true,
            bt_devices: devices,
            muted: false,
            sinks,
            battery: BatteryState { percent: Some(73), charging: false },
            brightness: 40,
            brightness_max: 100,
        };
        assert(d@.networks =~= initial_networks());
        assert(d@.bt_devices =~= initial_devices());
        assert(d@.sinks =~= initial_sinks());
        assert(d@ =~= initial_view());
        d
    }

    /// The status-bar snapshot; `volume` is the caller's volume in percent.
    pub fn status(&self, volume: i32) -> (st: ShellStatus)
        ensures
            st.battery == self.battery,
            st.wifi == self.wifi_on,
            st.bluetooth == self.bt_on,
            st.volume == volume,
            st.muted == self.muted,
            st.brightness == self.brightness,
            st.brightness_max == self.brightness_max,
            st.hour < 24 && st.minute < 60,
    {
        let (h, m) = clock_hm();
        ShellStatus {
            battery: self.battery,
            wifi: self.wifi_on,
            bluetooth: self.bt_on,
            volume,
            muted: self.muted,
            brightness: self.brightness,
            brightness_max: self.brightness_max,
            hour: h,
            minute: m,
        }
    }

    /// The Wi-Fi snapshot: no networks while the radio is off.
    pub fn wifi(&self) -> (w: WifiState)
        ensures
            w.enabled == self.wifi_on,
            opt_view(w.active) == opt_view(self.active),
            network_views(w.networks@) == (if self.wifi_on {
                network_views(self.networks@)
            } else {
                seq![]
            }),
    {
        let active = match &self.active {
            Some(a) => Some(a.clone()),
            None => None,
        };
        let networks = if self.wifi_on {
            copy_networks(&self.networks)
        } else {
            let v: Vec<WifiNetwork> = Vec::new();
            assert(network_views(v@) =~= seq![]);
            v
        };
        WifiState { enabled: self.wifi_on, active, networks }
    }

    pub fn set_wifi_enabled(&mut self, enabled: bool) -> (r: Result<(), DataError>)
        ensures
            r is Ok,
            final(self)@ == (DummyView { wifi_on: enabled, ..old(self)@ }),
    {
        self.wifi_on = enabled;
        assert(self@ =~= (DummyView { wifi_on: enabled, ..old(self)@ }));
        Ok(())
    }

    /// A rescan nudges every signal up by 7 (kept within 5..=99), so it
    /// visibly does something.
    pub fn scan_wifi(&mut self) -> (r: Result<(), DataError>)
        ensures
            r is Ok,
            final(self)@ == (DummyView { networks: with_rescan(old(self)@.networks), ..old(self)@ }),
    {
        let mut out: Vec<WifiNetwork> = Vec::new();
        let mut i: usize = 0;
        while i < self.networks.len()
            invariant
                i <= self.networks@.len(),
                network_views(out@) == with_rescan(network_views(self.networks@)).take(i as int),
            decreases self.networks@.len() - i,
        {
            let mut n = self.networks[i].copy();
            n.signal = if n.signal > 92 {
                99
            } else if n.signal < -2 {
                5
            } else {
                n.signal + 7
            };
            let ghost before = out@;
            out.push(n);
            proof {
                assert(network_views(out@) =~= network_views(before).push(n@));
                assert(with_rescan(network_views(self.networks@)).take(i + 1) =~= with_rescan(
                    network_views(self.networks@),
                ).take(i as int).push(n@));
            }
            i = i + 1;
        }
        proof {
            assert(with_rescan(network_views(self.networks@)).take(self.networks@.len() as int)
                =~= with_rescan(network_views(self.networks@)));
        }
        self.networks = out;
        assert(self@ =~= (DummyView { networks: with_rescan(old(self)@.networks), ..old(self)@ }));
        Ok(())
    }

    /// Connect to `ssid`: refused for an unknown name, and for a secured
    /// network without a password; otherwise it becomes the one connected
    /// network and the active connection.
    pub fn connect_wifi(&mut self, ssid: &str, password: Option<&str>) -> (r: Result<(), DataError>)
        ensures
            match connect_outcome(old(self)@, ssid@, password is Some) {
                Ok(t) => r is Ok && final(self)@ == t,
                Err(m) => r is Err && r->Err_0.0@ == m && final(self)@ == old(self)@,
            },
    {
        let target = ssid.to_owned();
        let ghost ns = self@.networks;
        let mut i: usize = 0;
        while i < self.networks.len()
            invariant
                i <= self.networks@.len(),
                ns == network_views(self.networks@),
                target@ == ssid@,
                forall|j: int| 0 <= j < i ==> ns[j].ssid != ssid@,
            ensures
                i <= self.networks@.len(),
                forall|j: int| 0 <= j < i ==> ns[j].ssid != ssid@,
                i < self.networks@.len() ==> ns[i as int].ssid == ssid@,
            decreases self.networks@.len() - i,
        {
            if self.networks[i].ssid == target {
                break;
            }
            i = i + 1;
        }
        if i == self.networks.len() {
            proof {
                assert(!has_ssid(ns, ssid@));
            }
            let mut msg: Vec<char> = Vec::new();
            push_str(&mut msg, "no network ");
            push_str(&mut msg, ssid);
            return Err(DataError::new(string_of(&msg)));
        }
        proof {
            assert(ns[i as int].ssid == ssid@);
            assert(first_ssid_at(ns, ssid@, i as int));
            let k = choose|k: int| first_ssid_at(ns, ssid@, k);
            lemma_first_ssid_unique(ns, ssid@, i as int, k);
        }
        if !self.networks[i].is_open() && password.is_none() {
            return Err(DataError::new("password required".to_owned()));
        }
        let mut out: Vec<WifiNetwork> = Vec::new();
        let mut j: usize = 0;
        while j < self.networks.len()
            invariant
                j <= self.networks@.len(),
                ns == network_views(self.networks@),
                target@ == ssid@,
                network_views(out@) == with_connected(ns, ssid@).take(j as int),
            decreases self.networks@.len() - j,
        {
            let mut n = self.networks[j].copy();
            n.connected = self.networks[j].ssid == target;
            let ghost before = out@;
            out.push(n);
            proof {
                assert(network_views(out@) =~= network_views(before).push(n@));
                assert(with_connected(ns, ssid@).take(j + 1) =~= with_connected(ns, ssid@).take(
                    j as int,
                ).push(n@));
            }
            j = j + 1;
        }
        proof {
            assert(with_connected(ns, ssid@).take(ns.len() as int) =~= with_connected(ns, ssid@));
        }
        self.networks = out;
        self.active = Some(target);
        assert(self@ =~= connect_outcome(old(self)@, ssid@, password is Some)->Ok_0);
        Ok(())
    }

    /// Drop the active connection.
    pub fn disconnect_wifi(&mut self) -> (r: Result<(), DataError>)
        ensures
            r is Ok,
            final(self)@ == (DummyView {
                active: None,
                networks: with_none_connected(old(self)@.networks),
                ..old(self)@
            }),
    {
        let ghost ns = self@.networks;
        let mut out: Vec<WifiNetwork> = Vec::new();
        let mut j: usize = 0;
        while j < self.networks.len()
            invariant
                j <= self.networks@.len(),
                ns == network_views(self.networks@),
                network_views(out@) == with_none_connected(ns).take(j as int),
            decreases self.networks@.len() - j,
        {
            let mut n = self.networks[j].copy();
            n.connected = false;
            let ghost before = out@;
            out.push(n);
            proof {
                assert(network_views(out@) =~= network_views(before).push(n@));
                assert(with_none_connected(ns).take(j + 1) =~= with_none_connected(ns).take(
                    j as int,
                ).push(n@));
            }
            j = j + 1;
        }
        proof {
            assert(with_none_connected(ns).take(ns.len() as int) =~= with_none_connected(ns));
        }
        self.networks = out;
        self.active = None;
        assert(self@ =~= (DummyView {
            active: None,
            networks: with_none_connected(old(self)@.networks),
            ..old(self)@
        }));
        Ok(())
    }

    /// The Bluetooth snapshot: no devices while the radio is off, never
    /// discovering.
    pub fn bluetooth(&self) -> (b: BtState)
        ensures
            b.enabled == self.bt_on,
            !b.discovering,
            device_views(b.devices@) == (if self.bt_on {
                device_views(self.bt_devices@)
            } else {
                seq![]
            }),
    {
        let devices = if self.bt_on {
            copy_devices(&self.bt_devices)
        } else {
            let v: Vec<BtDevice> = Vec::new();
            assert(device_views(v@) =~= seq![]);
            v
        };
        BtState { enabled: self.bt_on, discovering: false, devices }
    }

    pub fn set_bluetooth_enabled(&mut self, enabled: bool) -> (r: Result<(), DataError>)
        ensures
            r is Ok,
            final(self)@ == (DummyView { bt_on: enabled, ..old(self)@ }),
    {
        self.bt_on = enabled;
        assert(self@ =~= (DummyView { bt_on: enabled, ..old(self)@ }));
        Ok(())
    }

    /// Connect to the device `mac`: refused for an unknown address;
    /// otherwise it becomes the one connected device.
    pub fn connect_bluetooth(&mut self, mac: &str) -> (r: Result<(), DataError>)
        ensures
            match bt_connect_outcome(old(self)@, mac@) {
                Ok(t) => r is Ok && final(self)@ == t,
                Err(m) => r is Err && r->Err_0.0@ == m && final(self)@ == old(self)@,
            },
    {
        let target = mac.to_owned();
        let ghost ds = self@.bt_devices;
        let mut found = false;
        let mut out: Vec<BtDevice> = Vec::new();
        let mut j: usize = 0;
        while j < self.bt_devices.len()
            invariant
                j <= self.bt_devices@.len(),
                ds == device_views(self.bt_devices@),
                target@ == mac@,
                device_views(out@) == with_bt_connected(ds, mac@).take(j as int),
                found == exists|k: int| 0 <= k < j && ds[k].mac == mac@,
            decreases self.bt_devices@.len() - j,
        {
            let mut d = self.bt_devices[j].copy();
            let hit = self.bt_devices[j].mac == target;
            d.connected = hit;
            if hit {
                found = true;
            }
            let ghost before = out@;
            out.push(d);
            proof {
                assert(device_views(out@) =~= device_views(before).push(d@));
                assert(with_bt_connected(ds, mac@).take(j + 1) =~= with_bt_connected(
                    ds,
                    mac@,
                ).take(j as int).push(d@));
                if hit {
                    assert(ds[j as int].mac == mac@);
                }
            }
            j = j + 1;
        }
        if !found {
            let mut msg: Vec<char> = Vec::new();
            push_str(&mut msg, "unknown device ");
            push_str(&mut msg, mac);
            return Err(DataError::new(string_of(&msg)));
        }
        proof {
            assert(with_bt_connected(ds, mac@).take(ds.len() as int) =~= with_bt_connected(
                ds,
                mac@,
            ));
        }
        self.bt_devices = out;
        assert(self@ =~= bt_connect_outcome(old(self)@, mac@)->Ok_0);
        Ok(())
    }

    /// A scan "discovers" one more, unpaired device, numbered after the
    /// ones already known.
    pub fn scan_bluetooth(&mut self) -> (r: Result<(), DataError>)
        requires
            old(self).bt_devices@.len() < u64::MAX,
        ensures
            r is Ok,
            final(self)@ == (DummyView {
                bt_devices: old(self)@.bt_devices.push(
                    discovered((old(self)@.bt_devices.len() + 1) as nat),
                ),
                ..old(self)@
            }),
    {
        let n = self.bt_devices.len() as u64 + 1;
        let mut mac: Vec<char> = Vec::new();
        push_str(&mut mac, "AA:BB:CC:DD:EE:");
        push_hex2(&mut mac, n);
        let mut name: Vec<char> = Vec::new();
        push_str(&mut name, "Discovered device ");
        push_decimal(&mut name, n);
        let d = BtDevice {
            mac: string_of(&mac),
            name: string_of(&name),
            connected: false,
            paired: false,
        };
        let ghost before = self.bt_devices@;
        self.bt_devices.push(d);
        proof {
            assert(device_views(self.bt_devices@) =~= device_views(before).push(d@));
        }
        assert(self@ =~= (DummyView {
            bt_devices: old(self)@.bt_devices.push(
                discovered((old(self)@.bt_devices.len() + 1) as nat),
            ),
            ..old(self)@
        }));
        Ok(())
    }

    /// The audio sinks.
    pub fn sink_list(&self) -> (v: Vec<AudioSink>)
        ensures
            sink_views(v@) == sink_views(self.sinks@),
    {
        copy_sinks(&self.sinks)
    }

    /// Make `id` the default sink (every other sink stops being default).
    pub fn set_default_sink(&mut self, id: &str) -> (r: Result<(), DataError>)
        ensures
            r is Ok,
            final(self)@ == (DummyView { sinks: with_default(old(self)@.sinks, id@), ..old(self)@ }),
    {
        let target = id.to_owned();
        let ghost ss = self@.sinks;
        let mut out: Vec<AudioSink> = Vec::new();
        let mut j: usize = 0;
        while j < self.sinks.len()
            invariant
                j <= self.sinks@.len(),
                ss == sink_views(self.sinks@),
                target@ == id@,
                sink_views(out@) == with_default(ss, id@).take(j as int),
            decreases self.sinks@.len() - j,
        {
            let mut s = self.sinks[j].copy();
            s.default = self.sinks[j].id == target;
            let ghost before = out@;
            out.push(s);
            proof {
                assert(sink_views(out@) =~= sink_views(before).push(s@));
                assert(with_default(ss, id@).take(j + 1) =~= with_default(ss, id@).take(
                    j as int,
                ).push(s@));
            }
            j = j + 1;
        }
        proof {
            assert(with_default(ss, id@).take(ss.len() as int) =~= with_default(ss, id@));
        }
        self.sinks = out;
        assert(self@ =~= (DummyView { sinks: with_default(old(self)@.sinks, id@), ..old(self)@ }));
        Ok(())
    }

    pub fn set_muted(&mut self, muted: bool) -> (r: Result<(), DataError>)
        ensures
            r is Ok,
            final(self)@ == (DummyView { muted, ..old(self)@ }),
    {
        self.muted = muted;
        assert(self@ =~= (DummyView { muted, ..old(self)@ }));
        Ok(())
    }

    /// Set the backlight percentage, kept within 1..=100.
    pub fn set_brightness(&mut self, percent: i32) -> (r: Result<(), DataError>)
        ensures
            r is Ok,
            final(self)@ == (DummyView { brightness: clamp_percent(percent), ..old(self)@ }),
    {
        self.brightness = if percent < 1 {
            1
        } else if percent > 100 {
            100
        } else {
            percent
        };
        assert(self@ =~= (DummyView { brightness: clamp_percent(percent), ..old(self)@ }));
        Ok(())
    }
}

} // verus!
