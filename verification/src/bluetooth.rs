//! BlueZ (`bluetoothctl`) output: adapter state and device lists.

use vstd::prelude::*;
use crate::data::{device_views, BtDevice, BtDeviceView, BtState};
use crate::text::{
    ascii_ci_eq, chars_of, copy_range, eq_chars, eq_ignore_case, find_char, first_index, lines,
    lines_of, split_of, split_on, string_of, trim, trim_all, views,
};

verus! {

/// Does some line of `out`, trimmed, read `want` (ASCII case ignored)?
pub open spec fn has_line(out: Seq<char>, want: Seq<char>) -> bool {
    exists|i: int| 0 <= i < lines(out).len() && ascii_ci_eq(trim(#[trigger] lines(out)[i]), want)
}

fn any_line_is(ls: &Vec<Vec<char>>, want: &[char]) -> (r: bool)
    ensures
        r == exists|i: int| 0 <= i < ls@.len() && ascii_ci_eq(trim(#[trigger] views(ls@)[i]), want@),
{
    let mut i: usize = 0;
    while i < ls.len()
        invariant
            i <= ls@.len(),
            forall|j: int| 0 <= j < i ==> !ascii_ci_eq(trim(#[trigger] views(ls@)[j]), want@),
        decreases ls@.len() - i,
    {
        let t = trim_all(ls[i].as_slice());
        proof {
            assert(views(ls@)[i as int] == ls@[i as int]@);
        }
        if eq_ignore_case(&t, want) {
            return true;
        }
        i = i + 1;
    }
    false
}

/// Every character of `s` is whitespace.
pub open spec fn all_ws(s: Seq<char>) -> bool {
    forall|i: int| 0 <= i < s.len() ==> crate::text::is_ws(#[trigger] s[i])
}

proof fn lemma_trim_padded(pre: Seq<char>, x: Seq<char>, suf: Seq<char>)
    requires
        all_ws(pre),
        all_ws(suf),
        x.len() > 0,
        !crate::text::is_ws(x[0]),
        !crate::text::is_ws(x.last()),
    ensures
        trim(pre + x + suf) == x,
{
    lemma_trim_start_padded(pre, x + suf);
    assert(pre + x + suf =~= pre + (x + suf));
    lemma_trim_end_padded(x, suf);
}

proof fn lemma_trim_start_padded(pre: Seq<char>, rest: Seq<char>)
    requires
        all_ws(pre),
        rest.len() > 0,
        !crate::text::is_ws(rest[0]),
    ensures
        crate::text::trim_start(pre + rest) == rest,
    decreases pre.len(),
{
    if pre.len() > 0 {
        let p2 = pre.drop_first();
        assert forall|i: int| 0 <= i < p2.len() implies crate::text::is_ws(#[trigger] p2[i]) by {
            assert(p2[i] == pre[i + 1]);
        }
        lemma_trim_start_padded(p2, rest);
        assert((pre + rest)[0] == pre[0]);
        assert((pre + rest).drop_first() =~= p2 + rest);
    } else {
        assert(pre + rest =~= rest);
    }
}

proof fn lemma_trim_end_padded(x: Seq<char>, suf: Seq<char>)
    requires
        all_ws(suf),
        x.len() > 0,
        !crate::text::is_ws(x.last()),
    ensures
        crate::text::trim_end(x + suf) == x,
    decreases suf.len(),
{
    if suf.len() > 0 {
        let s2 = suf.drop_last();
        assert forall|i: int| 0 <= i < s2.len() implies crate::text::is_ws(#[trigger] s2[i]) by {
            assert(s2[i] == suf[i]);
        }
        lemma_trim_end_padded(x, s2);
        assert((x + suf).last() == suf.last());
        assert((x + suf).drop_last() =~= x + s2);
    } else {
        assert(x + suf =~= x);
    }
}

/// A line counts however it is indented or padded: when some line of
/// `out` is `want` (ASCII case ignored) with only whitespace before and
/// after it, `out` has that line. So `parse_bluetoothctl_show` reports the
/// adapter powered (or discovering) for the tab-indented lines of real
/// `bluetoothctl show` output.
pub proof fn law_show_lines_count_when_indented(
    out: Seq<char>,
    want: Seq<char>,
    i: int,
    pre: Seq<char>,
    x: Seq<char>,
    suf: Seq<char>,
)
    requires
        0 <= i < lines(out).len(),
        lines(out)[i] == pre + x + suf,
        all_ws(pre),
        all_ws(suf),
        x.len() > 0,
        !crate::text::is_ws(x[0]),
        !crate::text::is_ws(x.last()),
        ascii_ci_eq(x, want),
    ensures
        has_line(out, want),
{
    lemma_trim_padded(pre, x, suf);
}

/// `bluetoothctl show` → `(powered, discovering)`.
pub fn parse_bluetoothctl_show(out: &str) -> (r: (bool, bool))
    ensures
        r.0 == has_line(out@, "Powered: yes"@),
        r.1 == has_line(out@, "Discovering: yes"@),
{
    let cs = chars_of(out);
    let ls = lines_of(&cs);
    let powered = any_line_is(&ls, chars_of("Powered: yes").as_slice());
    let discovering = any_line_is(&ls, chars_of("Discovering: yes").as_slice());
    (powered, discovering)
}

pub open spec fn is_hex(c: char) -> bool {
    ('0' <= c <= '9') || ('a' <= c <= 'f') || ('A' <= c <= 'F')
}

/// Six colon-separated groups of two hex digits.
pub open spec fn mac_ok(s: Seq<char>) -> bool {
    let parts = split_on(s, ':');
    parts.len() == 6 && forall|i: int|
        0 <= i < 6 ==> (#[trigger] parts[i]).len() == 2 && is_hex(parts[i][0]) && is_hex(parts[i][1])
}

fn is_mac(s: &[char]) -> (r: bool)
    ensures
        r == mac_ok(s@),
{
    let parts = split_of(s, ':');
    if parts.len() != 6 {
        return false;
    }
    let mut i: usize = 0;
    while i < 6
        invariant
            i <= 6,
            parts@.len() == 6,
            views(parts@) == split_on(s@, ':'),
            forall|j: int|
                0 <= j < i ==> (#[trigger] views(parts@)[j]).len() == 2 && is_hex(
                    views(parts@)[j][0],
                ) && is_hex(views(parts@)[j][1]),
        decreases 6 - i,
    {
        let p = &parts[i];
        proof {
            assert(views(parts@)[i as int] == p@);
        }
        if p.len() != 2 {
            return false;
        }
        let a = p[0];
        let b = p[1];
        let ha = ('0' <= a && a <= '9') || ('a' <= a && a <= 'f') || ('A' <= a && a <= 'F');
        let hb = ('0' <= b && b <= '9') || ('a' <= b && b <= 'f') || ('A' <= b && b <= 'F');
        if !(ha && hb) {
            return false;
        }
        i = i + 1;
    }
    true
}

/// The device that one `bluetoothctl devices` line names: `Device`, a
/// space, a MAC up to the next space, then the rest of the line, trimmed,
/// as the name (the MAC when that is empty).
pub open spec fn device_of_line(line: Seq<char>) -> Option<BtDeviceView> {
    let i0 = first_index(line, ' ');
    let r1 = line.skip(i0 + 1 as int);
    let i1 = first_index(r1, ' ');
    let mac = r1.take(i1 as int);
    let rest: Seq<char> = if i1 < r1.len() {
        r1.skip(i1 + 1 as int)
    } else {
        seq![]
    };
    if i0 >= line.len() || line.take(i0 as int) != "Device"@ || !mac_ok(mac) {
        None
    } else {
        let name = trim(rest);
        Some(
            BtDeviceView {
                mac,
                name: if name.len() == 0 {
                    mac
                } else {
                    name
                },
                connected: false,
                paired: true,
            },
        )
    }
}

fn device_line(cs: &[char]) -> (r: Option<BtDevice>)
    ensures
        match r {
            Some(d) => device_of_line(cs@) == Some(d@),
            None => device_of_line(cs@) is None,
        },
{
    let i0 = find_char(cs, 0, ' ');
    proof {
        assert(cs@.skip(0) =~= cs@);
    }
    if i0 >= cs.len() {
        return None;
    }
    let w0 = copy_range(cs, 0, i0);
    proof {
        assert(w0@ =~= cs@.take(i0 as int));
    }
    if !eq_chars(&w0, chars_of("Device").as_slice()) {
        return None;
    }
    let i1 = find_char(cs, i0 + 1, ' ');
    let ghost r1 = cs@.skip(i0 + 1 as int);
    let mac = copy_range(cs, i0 + 1, i1);
    proof {
        assert(mac@ =~= r1.take(i1 - i0 - 1));
    }
    if !is_mac(&mac) {
        return None;
    }
    let rest = if i1 < cs.len() {
        let v = copy_range(cs, i1 + 1, cs.len());
        proof {
            assert(v@ =~= r1.skip(i1 - i0 - 1 + 1));
        }
        v
    } else {
        Vec::new()
    };
    let name = trim_all(&rest);
    let shown = if name.len() == 0 {
        string_of(&mac)
    } else {
        string_of(&name)
    };
    Some(BtDevice { mac: string_of(&mac), name: shown, connected: false, paired: true })
}

/// The devices that the lines `ls` name, in order.
pub open spec fn devices_of(ls: Seq<Seq<char>>) -> Seq<BtDeviceView>
    decreases ls.len(),
{
    if ls.len() == 0 {
        seq![]
    } else {
        let prev = devices_of(ls.drop_last());
        match device_of_line(ls.last()) {
            Some(d) => prev.push(d),
            None => prev,
        }
    }
}

/// `bluetoothctl devices` / `bluetoothctl devices Connected` → list.
/// Lines look like `Device AA:BB:CC:DD:EE:FF Some Name`.
pub fn parse_bluetoothctl_devices(out: &str) -> (devices: Vec<BtDevice>)
    ensures
        device_views(devices@) == devices_of(lines(out@)),
{
    let cs = chars_of(out);
    let ls = lines_of(&cs);
    let mut devices: Vec<BtDevice> = Vec::new();
    let mut k: usize = 0;
    proof {
        assert(views(ls@).take(0) =~= seq![]);
        assert(device_views(devices@) =~= seq![]);
    }
    while k < ls.len()
        invariant
            k <= ls@.len(),
            device_views(devices@) == devices_of(views(ls@).take(k as int)),
        decreases ls@.len() - k,
    {
        let ghost line = ls@[k as int]@;
        let ghost prev = device_views(devices@);
        proof {
            assert(views(ls@).take(k + 1).drop_last() =~= views(ls@).take(k as int));
            assert(views(ls@).take(k + 1).last() == line);
        }
        proof {
            assert(views(ls@)[k as int] == line);
        }
        match device_line(ls[k].as_slice()) {
            Some(d) => {
                devices.push(d);
                proof {
                    assert(device_views(devices@) =~= prev.push(device_of_line(line).unwrap()));
                }
            },
            None => {},
        }
        k = k + 1;
    }
    proof {
        assert(views(ls@).take(ls@.len() as int) =~= views(ls@));
    }
    devices
}

/// `devices` with each one marked connected exactly when its MAC is
/// among `connected`.
pub open spec fn marked_connected(
    devices: Seq<BtDeviceView>,
    connected: Seq<BtDeviceView>,
) -> Seq<BtDeviceView> {
    devices.map_values(
        |d: BtDeviceView|
            BtDeviceView {
                connected: exists|j: int| 0 <= j < connected.len() && connected[j].mac == d.mac,
                ..d
            },
    )
}

fn any_mac(connected: &Vec<BtDevice>, mac: &String) -> (r: bool)
    ensures
        r == exists|j: int|
            0 <= j < connected@.len() && device_views(connected@)[j].mac == mac@,
{
    let m = chars_of(mac.as_str());
    let mut j: usize = 0;
    while j < connected.len()
        invariant
            j <= connected@.len(),
            m@ == mac@,
            forall|i: int| 0 <= i < j ==> device_views(connected@)[i].mac != mac@,
        decreases connected@.len() - j,
    {
        let c = chars_of(connected[j].mac.as_str());
        if eq_chars(&c, &m) {
            assert(device_views(connected@)[j as int].mac == mac@);
            return true;
        }
        j = j + 1;
    }
    false
}

/// The Bluetooth snapshot from the outputs of `bluetoothctl show`,
/// `bluetoothctl devices` and `bluetoothctl devices Connected`.
pub fn bluetooth_state(show: &str, devices: &str, connected: &str) -> (st: BtState)
    ensures
        st.enabled == has_line(show@, "Powered: yes"@),
        st.discovering == has_line(show@, "Discovering: yes"@),
        device_views(st.devices@) == marked_connected(
            devices_of(lines(devices@)),
            devices_of(lines(connected@)),
        ),
{
    let (enabled, discovering) = parse_bluetoothctl_show(show);
    let all = parse_bluetoothctl_devices(devices);
    let conn = parse_bluetoothctl_devices(connected);
    let mut out: Vec<BtDevice> = Vec::new();
    let mut i: usize = 0;
    while i < all.len()
        invariant
            i <= all@.len(),
            device_views(out@) == marked_connected(device_views(all@), device_views(conn@)).take(
                i as int,
            ),
        decreases all@.len() - i,
    {
        let d = all[i].copy();
        let is_conn = any_mac(&conn, &d.mac);
        let ghost before = device_views(out@);
        let ghost target = marked_connected(device_views(all@), device_views(conn@));
        proof {
            assert(device_views(all@)[i as int] == all@[i as int]@);
            assert(target[i as int] == BtDeviceView { connected: is_conn, ..all@[i as int]@ });
        }
        out.push(BtDevice { mac: d.mac, name: d.name, connected: is_conn, paired: d.paired });
        proof {
            assert(device_views(out@) =~= before.push(target[i as int]));
            assert(device_views(out@) =~= marked_connected(device_views(all@), device_views(conn@)).take(
                i + 1,
            ));
        }
        i = i + 1;
    }
    proof {
        assert(marked_connected(device_views(all@), device_views(conn@)).take(all@.len() as int)
            =~= marked_connected(device_views(all@), device_views(conn@)));
    }
    BtState { enabled, discovering, devices: out }
}

} // verus!
