//! The settings client's lists and decisions: the rows each section
//! shows (built from the `nmcli`, `bluetoothctl` and `wpctl` outputs),
//! what a tap or key does, and the status line. Running the tools and
//! drawing are the caller's.

use vstd::prelude::*;
use crate::nmcli::{i32_or_zero, nmcli_unescaped, unescape_nmcli};
use crate::settings::{parse_wpctl_sink, sink_line, Section};
use crate::text::{
    lower, lower_text, chars_of, contains_seq, copy_range, eq_chars, find_char, first_index, has_infix, has_prefix,
    int_chars, int_text, lemma_first_index, lines, lines_of, parse_int, push_chars, push_str,
    starts_with, string_of, strip_end, strip_start, trim, trim_all, trim_end, trim_start, views,
    TrimSet,
};

verus! {

/// What a row does when tapped.
pub enum Action {
    Tab(Section),
    WifiToggle,
    WifiDisconnect,
    WifiSelect(String),
    BtToggle,
    BtSelect(String),
    BtScan,
    AudioDefault(String),
    VolUp,
    VolDown,
    Mute,
    PassSubmit,
    PassCancel,
    Close,
}

pub enum ActionView {
    Tab(Section),
    WifiToggle,
    WifiDisconnect,
    WifiSelect(Seq<char>),
    BtToggle,
    BtSelect(Seq<char>),
    BtScan,
    AudioDefault(Seq<char>),
    VolUp,
    VolDown,
    Mute,
    PassSubmit,
    PassCancel,
    Close,
}

impl View for Action {
    type V = ActionView;

    open spec fn view(&self) -> ActionView {
        match self {
            Action::Tab(s) => ActionView::Tab(*s),
            Action::WifiToggle => ActionView::WifiToggle,
            Action::WifiDisconnect => ActionView::WifiDisconnect,
            Action::WifiSelect(s) => ActionView::WifiSelect(s@),
            Action::BtToggle => ActionView::BtToggle,
            Action::BtSelect(s) => ActionView::BtSelect(s@),
            Action::BtScan => ActionView::BtScan,
            Action::AudioDefault(s) => ActionView::AudioDefault(s@),
            Action::VolUp => ActionView::VolUp,
            Action::VolDown => ActionView::VolDown,
            Action::Mute => ActionView::Mute,
            Action::PassSubmit => ActionView::PassSubmit,
            Action::PassCancel => ActionView::PassCancel,
            Action::Close => ActionView::Close,
        }
    }
}

impl Action {
    pub fn copy(&self) -> (r: Action)
        ensures
            r@ == self@,
    {
        match self {
            Action::Tab(s) => Action::Tab(*s),
            Action::WifiToggle => Action::WifiToggle,
            Action::WifiDisconnect => Action::WifiDisconnect,
            Action::WifiSelect(s) => Action::WifiSelect(s.clone()),
            Action::BtToggle => Action::BtToggle,
            Action::BtSelect(s) => Action::BtSelect(s.clone()),
            Action::BtScan => Action::BtScan,
            Action::AudioDefault(s) => Action::AudioDefault(s.clone()),
            Action::VolUp => Action::VolUp,
            Action::VolDown => Action::VolDown,
            Action::Mute => Action::Mute,
            Action::PassSubmit => Action::PassSubmit,
            Action::PassCancel => Action::PassCancel,
            Action::Close => Action::Close,
        }
    }
}

/// One list row.
pub struct Row {
    pub label: String,
    pub sub: String,
    /// right-side toggle state (None = no toggle)
    pub toggle: Option<bool>,
    /// highlighted (the active/default item)
    pub active: bool,
    pub action: Action,
}

pub struct RowView {
    pub label: Seq<char>,
    pub sub: Seq<char>,
    pub toggle: Option<bool>,
    pub active: bool,
    pub action: ActionView,
}

impl View for Row {
    type V = RowView;

    open spec fn view(&self) -> RowView {
        RowView {
            label: self.label@,
            sub: self.sub@,
            toggle: self.toggle,
            active: self.active,
            action: self.action@,
        }
    }
}

pub open spec fn row_views(rs: Seq<Row>) -> Seq<RowView> {
    rs.map_values(|r: Row| r@)
}

pub open spec fn row(label: Seq<char>, sub: Seq<char>, toggle: Option<bool>, active: bool, action: ActionView) -> RowView {
    RowView { label, sub, toggle, active, action }
}

fn make_row(label: &[char], sub: &[char], toggle: Option<bool>, active: bool, action: Action) -> (r: Row)
    ensures
        r@ == row(label@, sub@, toggle, active, action@),
{
    Row { label: string_of(label), sub: string_of(sub), toggle, active, action }
}

fn push_row(rows: &mut Vec<Row>, r: Row)
    ensures
        row_views(final(rows)@) == row_views(old(rows)@).push(r@),
{
    rows.push(r);
    assert(row_views(final(rows)@) =~= row_views(old(rows)@).push(r@));
}

// ---------------------------------------------------------------------------
// splitting

/// `s.splitn(2, c)` when it gives two pieces.
pub open spec fn split2(s: Seq<char>, c: char) -> Option<(Seq<char>, Seq<char>)> {
    let i = first_index(s, c);
    if i < s.len() {
        Some((s.take(i as int), s.skip(i + 1 as int)))
    } else {
        None
    }
}

/// `s.splitn(4, ':')` when it gives four pieces.
pub open spec fn split4(s: Seq<char>) -> Option<(Seq<char>, Seq<char>, Seq<char>, Seq<char>)> {
    match split2(s, ':') {
        None => None,
        Some((a, r1)) => match split2(r1, ':') {
            None => None,
            Some((b, r2)) => match split2(r2, ':') {
                None => None,
                Some((c, d)) => Some((a, b, c, d)),
            },
        },
    }
}

fn split_at(cs: &[char], c: char) -> (r: Option<(Vec<char>, Vec<char>)>)
    ensures
        match split2(cs@, c) {
            Some((a, b)) => r matches Some((x, y)) && x@ == a && y@ == b,
            None => r is None,
        },
{
    let i = find_char(cs, 0, c);
    proof {
        assert(cs@.skip(0) =~= cs@);
        lemma_first_index(cs@, c);
    }
    if i < cs.len() {
        let mut a: Vec<char> = Vec::new();
        let mut k: usize = 0;
        while k < i
            invariant
                k <= i < cs@.len(),
                a@ == cs@.take(k as int),
            decreases i - k,
        {
            a.push(cs[k]);
            assert(cs@.take(k + 1) =~= cs@.take(k as int).push(cs@[k as int]));
            k = k + 1;
        }
        let mut b: Vec<char> = Vec::new();
        let mut k: usize = i + 1;
        while k < cs.len()
            invariant
                i + 1 <= k <= cs@.len(),
                b@ == cs@.subrange(i + 1, k as int),
            decreases cs@.len() - k,
        {
            b.push(cs[k]);
            assert(cs@.subrange(i + 1, k + 1) =~= cs@.subrange(i + 1, k as int).push(
                cs@[k as int],
            ));
            k = k + 1;
        }
        assert(b@ =~= cs@.skip(i + 1));
        Some((a, b))
    } else {
        None
    }
}

// ---------------------------------------------------------------------------
// Wi-Fi

/// The Wi-Fi connection named by the active-connection lines: the last
/// `NAME:TYPE` line whose type is `802-11-wireless…`, unescaped; empty
/// when there is none.
pub open spec fn current_wifi(ls: Seq<Seq<char>>) -> Seq<char>
    decreases ls.len(),
{
    if ls.len() == 0 {
        seq![]
    } else {
        match split2(ls.last(), ':') {
            Some((name, ty)) => if starts_with(ty, "802-11-wireless"@) {
                nmcli_unescaped(name)
            } else {
                current_wifi(ls.drop_last())
            },
            None => current_wifi(ls.drop_last()),
        }
    }
}

/// The row of one access point.
pub open spec fn ap_row(in_use: bool, ssid: Seq<char>, signal: i32, sec: Seq<char>) -> RowView {
    row(
        ssid,
        int_text(signal as int) + "%  ·  "@ + sec,
        None,
        in_use,
        ActionView::WifiSelect(ssid),
    )
}

/// The access-point rows of the `IN-USE:SSID:SIGNAL:SECURITY` lines
/// `ls`, and the SSIDs seen: a line without four fields, an empty SSID
/// and an SSID seen before add no row; an empty security reads `open`.
pub open spec fn ap_rows(ls: Seq<Seq<char>>) -> (Seq<RowView>, Seq<Seq<char>>)
    decreases ls.len(),
{
    if ls.len() == 0 {
        (seq![], seq![])
    } else {
        let (rows, seen) = ap_rows(ls.drop_last());
        match split4(ls.last()) {
            None => (rows, seen),
            Some((a, b, c, d)) => {
                let ssid = nmcli_unescaped(b);
                if ssid.len() == 0 || seen.contains(ssid) {
                    (rows, seen)
                } else {
                    let sec = trim(d);
                    (
                        rows.push(
                            ap_row(
                                trim(a) == seq!['*'],
                                ssid,
                                i32_or_zero(trim(c)),
                                if sec.len() == 0 {
                                    "open"@
                                } else {
                                    sec
                                },
                            ),
                        ),
                        seen.push(ssid),
                    )
                }
            },
        }
    }
}

/// Each access point is listed once: the rows' SSIDs are the ones seen,
/// in order, and no SSID is seen twice.
pub proof fn law_ap_rows_distinct(ls: Seq<Seq<char>>)
    ensures
        ap_rows(ls).0.len() == ap_rows(ls).1.len(),
        forall|i: int| 0 <= i < ap_rows(ls).0.len() ==> (#[trigger] ap_rows(ls).0[i]).label == ap_rows(ls).1[i],
        forall|i: int, j: int|
            0 <= i < j < ap_rows(ls).1.len() ==> (#[trigger] ap_rows(ls).1[i]) != (#[trigger] ap_rows(ls).1[j]),
    decreases ls.len(),
{
    if ls.len() > 0 {
        law_ap_rows_distinct(ls.drop_last());
        let (rows, seen) = ap_rows(ls.drop_last());
        let now = ap_rows(ls);
        assert forall|i: int, j: int| 0 <= i < j < now.1.len() implies (#[trigger] now.1[i]) != (
        #[trigger] now.1[j]) by {
            if now.1.len() > seen.len() && j == now.1.len() - 1 {
                assert(now.1[i] == seen[i]);
                if now.1[i] == now.1[j] {
                    assert(seen.contains(now.1[j]));
                }
            } else if now.1.len() > seen.len() {
                assert(now.1[i] == seen[i]);
                assert(now.1[j] == seen[j]);
            }
        }
        assert forall|i: int| 0 <= i < now.0.len() implies (#[trigger] now.0[i]).label == now.1[i] by {
            if now.0.len() > rows.len() && i < rows.len() {
                assert(now.0[i] == rows[i]);
                assert(now.1[i] == seen[i]);
            }
        }
    }
}

/// The Wi-Fi section: whether the radio is on (`nmcli radio wifi` reads
/// `enabled`, any ASCII case), the current connection, the rows (the
/// radio toggle, then, with the radio on, the access points) and the
/// status line.
pub open spec fn wifi_panel(radio: bool, current: Seq<char>, list: Seq<char>) -> (Seq<RowView>, Seq<char>) {
    let toggle = row(
        "Wi-Fi"@,
        if radio {
            "radio on"@
        } else {
            "radio off"@
        },
        Some(radio),
        false,
        ActionView::WifiToggle,
    );
    if radio {
        (
            seq![toggle] + ap_rows(lines(list)).0,
            if current.len() == 0 {
                "Not connected"@
            } else {
                "Connected: "@ + current
            },
        )
    } else {
        (seq![toggle], "Wi-Fi is off"@)
    }
}

/// The current Wi-Fi connection from the active-connection lines.
pub fn wifi_current(active_out: &str) -> (r: String)
    ensures
        r@ == current_wifi(lines(active_out@)),
{
    let cs = chars_of(active_out);
    let ls = lines_of(&cs);
    let ghost all = views(ls@);
    let mut cur = String::new();
    let mut i: usize = 0;
    proof {
        assert(all.take(0) =~= seq![]);
    }
    while i < ls.len()
        invariant
            i <= ls@.len(),
            all == views(ls@),
            cur@ == current_wifi(all.take(i as int)),
        decreases ls@.len() - i,
    {
        proof {
            assert(all.take(i + 1).drop_last() =~= all.take(i as int));
            assert(all.take(i + 1).last() == ls@[i as int]@);
        }
        match split_at(ls[i].as_slice(), ':') {
            Some((name, ty)) => {
                let want = chars_of("802-11-wireless");
                if has_prefix(&ty, &want) {
                    let n = string_of(&name);
                    cur = unescape_nmcli(n.as_str());
                }
            },
            None => {},
        }
        i = i + 1;
    }
    proof {
        assert(all.take(ls@.len() as int) =~= all);
    }
    cur
}

fn seen_has(seen: &Vec<Vec<char>>, s: &[char]) -> (r: bool)
    ensures
        r == views(seen@).contains(s@),
{
    let mut i: usize = 0;
    while i < seen.len()
        invariant
            i <= seen@.len(),
            forall|j: int| 0 <= j < i ==> views(seen@)[j] != s@,
        decreases seen@.len() - i,
    {
        if eq_chars(seen[i].as_slice(), s) {
            assert(views(seen@)[i as int] == s@);
            return true;
        }
        i = i + 1;
    }
    false
}

fn one_ap(line: &[char], rows: &mut Vec<Row>, seen: &mut Vec<Vec<char>>)
    ensures
        ({
            let before = (row_views(old(rows)@), views(old(seen)@));
            let after = match split4(line@) {
                None => before,
                Some((a, b, c, d)) => {
                    let ssid = nmcli_unescaped(b);
                    if ssid.len() == 0 || before.1.contains(ssid) {
                        before
                    } else {
                        let sec = trim(d);
                        (
                            before.0.push(
                                ap_row(
                                    trim(a) == seq!['*'],
                                    ssid,
                                    i32_or_zero(trim(c)),
                                    if sec.len() == 0 {
                                        "open"@
                                    } else {
                                        sec
                                    },
                                ),
                            ),
                            before.1.push(ssid),
                        )
                    }
                },
            };
            row_views(final(rows)@) == after.0 && views(final(seen)@) == after.1
        }),
{
    let (a, r1) = match split_at(line, ':') {
        Some(p) => p,
        None => {
            return ;
        },
    };
    let (b, r2) = match split_at(&r1, ':') {
        Some(p) => p,
        None => {
            return ;
        },
    };
    let (c, d) = match split_at(&r2, ':') {
        Some(p) => p,
        None => {
            return ;
        },
    };
    let bs = string_of(&b);
    let ssid_s = unescape_nmcli(bs.as_str());
    let ssid = chars_of(ssid_s.as_str());
    if ssid.len() == 0 || seen_has(seen, &ssid) {
        return ;
    }
    let at = trim_all(&a);
    let star = chars_of("*");
    assert(star@ =~= seq!['*']) by {
        reveal_strlit("*");
    }
    let in_use = eq_chars(&at, &star);
    let ct = trim_all(&c);
    let signal: i32 = match parse_int(&ct, true, i32::MIN as i128, i32::MAX as i128) {
        Some(v) => v as i32,
        None => 0,
    };
    let dt = trim_all(&d);
    let sec = if dt.len() == 0 {
        chars_of("open")
    } else {
        dt
    };
    let mut sub = int_chars(signal as i128);
    push_str(&mut sub, "%  ·  ");
    push_chars(&mut sub, &sec);
    let r = make_row(&ssid, &sub, None, in_use, Action::WifiSelect(ssid_s));
    push_row(rows, r);
    let ghost before_seen = seen@;
    seen.push(ssid);
    proof {
        crate::text::lemma_views_push(before_seen, seen@.last());
    }
}

/// The Wi-Fi section from the tools' outputs: `nmcli radio wifi`, the
/// active connections (`NAME,TYPE`) and, read only with the radio on,
/// the access-point list (`IN-USE,SSID,SIGNAL,SECURITY`). Gives whether
/// the radio is on, the current connection, the rows and the status.
pub fn wifi_section(radio_out: &str, active_out: &str, list_out: Option<&str>) -> (r: (
    bool,
    String,
    Vec<Row>,
    String,
))
    ensures
        r.0 == crate::text::ascii_ci_eq(trim(radio_out@), "enabled"@),
        r.1@ == current_wifi(lines(active_out@)),
        ({
            let list = match list_out {
                Some(l) => l@,
                None => seq![],
            };
            (row_views(r.2@), r.3@) == wifi_panel(r.0, r.1@, list)
        }),
{
    let radio = crate::nmcli::parse_nmcli_radio(radio_out);
    let current = wifi_current(active_out);
    let mut rows: Vec<Row> = Vec::new();
    let tsub = if radio {
        chars_of("radio on")
    } else {
        chars_of("radio off")
    };
    let t = make_row(&chars_of("Wi-Fi"), &tsub, Some(radio), false, Action::WifiToggle);
    push_row(&mut rows, t);
    let ghost list = match list_out {
        Some(l) => l@,
        None => seq![],
    };
    if radio {
        let lcs = match list_out {
            Some(l) => chars_of(l),
            None => Vec::new(),
        };
        let ls = lines_of(&lcs);
        let ghost all = views(ls@);
        let mut seen: Vec<Vec<char>> = Vec::new();
        let mut i: usize = 0;
        proof {
            assert(all.take(0) =~= seq![]);
            assert(views(seen@) =~= seq![]);
            assert(row_views(rows@) =~= seq![t@] + ap_rows(all.take(0)).0);
        }
        while i < ls.len()
            invariant
                i <= ls@.len(),
                all == views(ls@),
                all == lines(list),
                row_views(rows@) == seq![t@] + ap_rows(all.take(i as int)).0,
                views(seen@) == ap_rows(all.take(i as int)).1,
            decreases ls@.len() - i,
        {
            proof {
                assert(all.take(i + 1).drop_last() =~= all.take(i as int));
                assert(all.take(i + 1).last() == ls@[i as int]@);
            }
            one_ap(ls[i].as_slice(), &mut rows, &mut seen);
            assert(row_views(rows@) =~= seq![t@] + ap_rows(all.take(i + 1)).0);
            i = i + 1;
        }
        proof {
            assert(all.take(ls@.len() as int) =~= all);
        }
        let mut status: Vec<char> = Vec::new();
        if current.as_str().is_empty() {
            push_str(&mut status, "Not connected");
        } else {
            push_str(&mut status, "Connected: ");
            push_str(&mut status, current.as_str());
        }
        (radio, current, rows, string_of(&status))
    } else {
        proof {
            assert(row_views(rows@) =~= seq![t@]);
        }
        (radio, current, rows, string_of(&chars_of("Wi-Fi is off")))
    }
}

// ---------------------------------------------------------------------------
// Bluetooth

/// The row of a `Device MAC NAME` line of `bluetoothctl devices` (split
/// at the first two spaces; a missing name reads as the address); `None`
/// for a line without a second field.
pub open spec fn device_row(line: Seq<char>) -> Option<RowView> {
    match split2(line, ' ') {
        None => None,
        Some((_first, rest)) => {
            let (mac, name) = match split2(rest, ' ') {
                Some((m, n)) => (m, n),
                None => (rest, rest),
            };
            Some(row(name, mac, None, false, ActionView::BtSelect(mac)))
        },
    }
}

pub open spec fn device_rows(ls: Seq<Seq<char>>) -> Seq<RowView>
    decreases ls.len(),
{
    if ls.len() == 0 {
        seq![]
    } else {
        match device_row(ls.last()) {
            Some(r) => device_rows(ls.drop_last()).push(r),
            None => device_rows(ls.drop_last()),
        }
    }
}

/// Some line of `bluetoothctl show`, trimmed, is exactly `Powered: yes`.
pub open spec fn bt_powered(show: Seq<char>) -> bool {
    exists|i: int| 0 <= i < lines(show).len() && trim(#[trigger] lines(show)[i]) == "Powered: yes"@
}

/// The Bluetooth section: the power toggle, a row per known device, and
/// the scan row with the number of devices; and the status line.
pub open spec fn bt_panel(show: Seq<char>, devices: Seq<char>) -> (Seq<RowView>, Seq<char>) {
    let p = bt_powered(show);
    let ds = device_rows(lines(devices));
    (
        seq![
            row(
                "Bluetooth"@,
                if p {
                    "powered"@
                } else {
                    "off"@
                },
                Some(p),
                false,
                ActionView::BtToggle,
            ),
        ] + ds + seq![
            row(
                "Scan"@,
                int_text(ds.len() as int) + " known device(s) — tap to scan 5 s"@,
                None,
                false,
                ActionView::BtScan,
            ),
        ],
        if p {
            "Bluetooth on"@
        } else {
            "Bluetooth off"@
        },
    )
}

fn exact_line(ls: &Vec<Vec<char>>, want: &str) -> (r: bool)
    ensures
        r == exists|i: int| 0 <= i < ls@.len() && trim(#[trigger] views(ls@)[i]) == want@,
{
    let w = chars_of(want);
    let mut i: usize = 0;
    while i < ls.len()
        invariant
            i <= ls@.len(),
            w@ == want@,
            forall|j: int| 0 <= j < i ==> trim(#[trigger] views(ls@)[j]) != want@,
        decreases ls@.len() - i,
    {
        let t = trim_all(ls[i].as_slice());
        assert(views(ls@)[i as int] == ls@[i as int]@);
        if eq_chars(&t, &w) {
            return true;
        }
        i = i + 1;
    }
    false
}

fn one_device(line: &[char]) -> (r: Option<Row>)
    ensures
        match device_row(line@) {
            Some(v) => r is Some && r->0@ == v,
            None => r is None,
        },
{
    match split_at(line, ' ') {
        None => None,
        Some((_first, rest)) => {
            let (mac, name) = match split_at(&rest, ' ') {
                Some((m, n)) => (m, n),
                None => (copy_all(&rest), rest),
            };
            let ms = string_of(&mac);
            Some(make_row(&name, &mac, None, false, Action::BtSelect(ms)))
        },
    }
}

fn copy_all(cs: &Vec<char>) -> (r: Vec<char>)
    ensures
        r@ == cs@,
{
    vstd::slice::slice_to_vec(cs.as_slice())
}

/// The Bluetooth section from `bluetoothctl show` and `bluetoothctl
/// devices`: whether it is powered, the rows and the status.
pub fn bt_section(show_out: &str, devices_out: &str) -> (r: (bool, Vec<Row>, String))
    ensures
        r.0 == bt_powered(show_out@),
        (row_views(r.1@), r.2@) == bt_panel(show_out@, devices_out@),
{
    let scs = chars_of(show_out);
    let sls = lines_of(&scs);
    let powered = exact_line(&sls, "Powered: yes");
    let mut rows: Vec<Row> = Vec::new();
    let tsub = if powered {
        chars_of("powered")
    } else {
        chars_of("off")
    };
    let t = make_row(&chars_of("Bluetooth"), &tsub, Some(powered), false, Action::BtToggle);
    push_row(&mut rows, t);
    let dcs = chars_of(devices_out);
    let dls = lines_of(&dcs);
    let ghost all = views(dls@);
    let mut count: usize = 0;
    let mut i: usize = 0;
    proof {
        assert(all.take(0) =~= seq![]);
        assert(row_views(rows@) =~= seq![t@] + device_rows(all.take(0)));
    }
    while i < dls.len()
        invariant
            i <= dls@.len(),
            all == views(dls@),
            all == lines(devices_out@),
            row_views(rows@) == seq![t@] + device_rows(all.take(i as int)),
            count == device_rows(all.take(i as int)).len(),
            count <= i,
        decreases dls@.len() - i,
    {
        proof {
            assert(all.take(i + 1).drop_last() =~= all.take(i as int));
            assert(all.take(i + 1).last() == dls@[i as int]@);
        }
        match one_device(dls[i].as_slice()) {
            Some(r) => {
                push_row(&mut rows, r);
                count = count + 1;
                assert(row_views(rows@) =~= seq![t@] + device_rows(all.take(i + 1)));
            },
            None => {},
        }
        i = i + 1;
    }
    proof {
        assert(all.take(dls@.len() as int) =~= all);
    }
    let mut sub = int_chars(count as i128);
    push_str(&mut sub, " known device(s) — tap to scan 5 s");
    let scan = make_row(&chars_of("Scan"), &sub, None, false, Action::BtScan);
    push_row(&mut rows, scan);
    let status = if powered {
        string_of(&chars_of("Bluetooth on"))
    } else {
        string_of(&chars_of("Bluetooth off"))
    };
    proof {
        assert(row_views(rows@) =~= bt_panel(show_out@, devices_out@).0);
    }
    (powered, rows, status)
}

// ---------------------------------------------------------------------------
// audio

/// Scanning `wpctl status` for the sinks block, one line `raw` on from
/// (whether the `Sinks:` header was seen, whether the block has ended at
/// a blank line): the new state.
pub open spec fn sink_state(st: (bool, bool), raw: Seq<char>) -> (bool, bool) {
    let (inside, ended) = st;
    let t = trim_end(raw);
    if ended {
        st
    } else if starts_with(trim_start(t), "Sinks:"@) {
        (true, false)
    } else if !inside {
        st
    } else if trim(t).len() == 0 {
        (inside, true)
    } else {
        st
    }
}

/// The sink row that line `raw` adds in state `st`, if any.
pub open spec fn sink_new_row(st: (bool, bool), raw: Seq<char>) -> Option<RowView> {
    let (inside, ended) = st;
    let t = trim_end(raw);
    if ended || starts_with(trim_start(t), "Sinks:"@) || !inside || trim(t).len() == 0 {
        None
    } else {
        match sink_line(t) {
            Some((id, name, def)) => Some(
                row(name, "sink "@ + id, None, def, ActionView::AudioDefault(id)),
            ),
            None => None,
        }
    }
}

/// The scan state and the sink rows after the lines `ls`.
pub open spec fn sink_scan(ls: Seq<Seq<char>>) -> (bool, bool, Seq<RowView>)
    decreases ls.len(),
{
    if ls.len() == 0 {
        (false, false, seq![])
    } else {
        let (inside, ended, rows) = sink_scan(ls.drop_last());
        let st = sink_state((inside, ended), ls.last());
        (
            st.0,
            st.1,
            match sink_new_row((inside, ended), ls.last()) {
                Some(r) => rows.push(r),
                None => rows,
            },
        )
    }
}

/// The audio section for a volume of `pct` percent: the volume row, a
/// row per sink, the mute toggle; and the status line. Muted when the
/// `wpctl get-volume` output contains `MUTED`.
pub open spec fn audio_panel(pct: i32, vol_out: Seq<char>, status_out: Seq<char>) -> (Seq<RowView>, Seq<char>) {
    let m = contains_seq(vol_out, "MUTED"@);
    (
        seq![
            row(
                "Volume"@,
                int_text(pct as int) + "%"@ + if m {
                    " (muted)"@
                } else {
                    seq![]
                },
                None,
                false,
                ActionView::VolUp,
            ),
        ] + sink_scan(lines(status_out)).2 + seq![
            row(
                "Mute"@,
                if m {
                    "muted"@
                } else {
                    "unmuted"@
                },
                Some(m),
                false,
                ActionView::Mute,
            ),
        ],
        "Output "@ + int_text(pct as int) + "%"@,
    )
}

/// One line of the sinks scan.
fn sink_step(raw: &[char], inside: bool, ended: bool, rows: &mut Vec<Row>) -> (r: (bool, bool))
    ensures
        r == sink_state((inside, ended), raw@),
        row_views(final(rows)@) == match sink_new_row((inside, ended), raw@) {
            Some(x) => row_views(old(rows)@).push(x),
            None => row_views(old(rows)@),
        },
{
    let t = strip_end(raw, &TrimSet::Space);
    if ended {
        return (inside, ended);
    }
    let ts = strip_start(&t, &TrimSet::Space);
    let hdr = chars_of("Sinks:");
    if has_prefix(&ts, &hdr) {
        return (true, false);
    }
    if !inside {
        return (inside, ended);
    }
    let tt = trim_all(&t);
    if tt.len() == 0 {
        return (inside, true);
    }
    let ts2 = string_of(&t);
    match parse_wpctl_sink(ts2.as_str()) {
        Some((id, name, def)) => {
            let mut sub = chars_of("sink ");
            push_str(&mut sub, id.as_str());
            let r = make_row(&chars_of(name.as_str()), &sub, None, def, Action::AudioDefault(id));
            push_row(rows, r);
        },
        None => {},
    }
    (inside, ended)
}

/// The audio section from the volume percentage (from the float that
/// `wpctl get-volume` prints), that command's output and `wpctl status`:
/// whether it is muted, the rows and the status.
pub fn audio_section(pct: i32, vol_out: &str, status_out: &str) -> (r: (bool, Vec<Row>, String))
    ensures
        r.0 == contains_seq(vol_out@, "MUTED"@),
        (row_views(r.1@), r.2@) == audio_panel(pct, vol_out@, status_out@),
{
    let vcs = chars_of(vol_out);
    let muted = has_infix(&vcs, &chars_of("MUTED"));
    let mut rows: Vec<Row> = Vec::new();
    let mut vsub = int_chars(pct as i128);
    push_str(&mut vsub, "%");
    if muted {
        push_str(&mut vsub, " (muted)");
    }
    proof {
        if !muted {
            assert(vsub@ =~= int_text(pct as int) + "%"@ + seq![]);
        }
    }
    let v = make_row(&chars_of("Volume"), &vsub, None, false, Action::VolUp);
    push_row(&mut rows, v);
    let scs = chars_of(status_out);
    let sls = lines_of(&scs);
    let ghost all = views(sls@);
    let mut inside = false;
    let mut ended = false;
    let mut i: usize = 0;
    proof {
        assert(all.take(0) =~= seq![]);
        assert(row_views(rows@) =~= seq![v@] + sink_scan(all.take(0)).2);
    }
    while i < sls.len()
        invariant
            i <= sls@.len(),
            all == views(sls@),
            all == lines(status_out@),
            (inside, ended) == (sink_scan(all.take(i as int)).0, sink_scan(all.take(i as int)).1),
            row_views(rows@) == seq![v@] + sink_scan(all.take(i as int)).2,
        decreases sls@.len() - i,
    {
        proof {
            assert(all.take(i + 1).drop_last() =~= all.take(i as int));
            assert(all.take(i + 1).last() == sls@[i as int]@);
        }
        let (a, b) = sink_step(sls[i].as_slice(), inside, ended, &mut rows);
        proof {
            assert(row_views(rows@) =~= seq![v@] + sink_scan(all.take(i + 1)).2);
        }
        inside = a;
        ended = b;
        i = i + 1;
    }
    proof {
        assert(all.take(sls@.len() as int) =~= all);
    }
    let msub = if muted {
        chars_of("muted")
    } else {
        chars_of("unmuted")
    };
    let m = make_row(&chars_of("Mute"), &msub, Some(muted), false, Action::Mute);
    push_row(&mut rows, m);
    let mut status = chars_of("Output ");
    push_chars(&mut status, &int_chars(pct as i128));
    push_str(&mut status, "%");
    proof {
        assert(row_views(rows@) =~= audio_panel(pct, vol_out@, status_out@).0);
    }
    (muted, rows, string_of(&status))
}

// ---------------------------------------------------------------------------
// actions

/// The status after `nmcli device wifi connect SSID ...` printed `out`:
/// connected when its last line says `success` (any case), otherwise the
/// failure with the first 60 characters of that line.
pub open spec fn connect_status(ssid: Seq<char>, out: Seq<char>) -> Seq<char> {
    let last = crate::device::last_line(out);
    if contains_seq(lower(last), "success"@) {
        "Connected to "@ + ssid
    } else {
        "Failed: "@ + if last.len() <= 60 {
            last
        } else {
            last.take(60)
        }
    }
}

pub fn connect_result(ssid: &str, out: &str) -> (r: String)
    ensures
        r@ == connect_status(ssid@, out@),
{
    let cs = chars_of(out);
    let ls = lines_of(&cs);
    let last: Vec<char> = if ls.len() == 0 {
        Vec::new()
    } else {
        copy_all(&ls[ls.len() - 1])
    };
    proof {
        if ls@.len() > 0 {
            assert(views(ls@).last() == ls@[ls@.len() - 1]@);
        }
    }
    let ls_str = string_of(&last);
    let low = lower_text(ls_str.as_str());
    let lcs = chars_of(low.as_str());
    let mut msg: Vec<char> = Vec::new();
    if has_infix(&lcs, &chars_of("success")) {
        push_str(&mut msg, "Connected to ");
        push_str(&mut msg, ssid);
    } else {
        push_str(&mut msg, "Failed: ");
        if last.len() <= 60 {
            push_chars(&mut msg, &last);
        } else {
            let head = copy_range(&last, 0, 60);
            assert(head@ =~= last@.take(60));
            push_chars(&mut msg, &head);
        }
    }
    string_of(&msg)
}

/// What tapping an access point does.
#[derive(Clone, Copy, PartialEq, Eq, Debug, Structural)]
pub enum Selected {
    /// connect without a password (an open network)
    Connect,
    /// ask for the password first
    AskPassword,
    /// the SSID is not listed: nothing
    Ignore,
}

/// `i` is the first row that selects `ssid`.
pub open spec fn first_select_at(rows: Seq<RowView>, ssid: Seq<char>, i: int) -> bool {
    &&& 0 <= i < rows.len()
    &&& rows[i].action == ActionView::WifiSelect(ssid)
    &&& forall|j: int| 0 <= j < i ==> rows[j].action != ActionView::WifiSelect(ssid)
}

/// Tapping the access point `ssid`: an open network (its row's subtitle
/// mentions `open`) connects at once, a secured one asks for the
/// password.
pub fn select_wifi(rows: &Vec<Row>, ssid: &str) -> (r: Selected)
    ensures
        (forall|j: int| 0 <= j < rows@.len() ==> rows@[j]@.action != ActionView::WifiSelect(ssid@))
            ==> r == Selected::Ignore,
        forall|i: int| first_select_at(row_views(rows@), ssid@, i) ==> r == if contains_seq(
            rows@[i]@.sub,
            "open"@,
        ) {
            Selected::Connect
        } else {
            Selected::AskPassword
        },
{
    let want = ssid.to_owned();
    let mut i: usize = 0;
    while i < rows.len()
        invariant
            i <= rows@.len(),
            want@ == ssid@,
            forall|j: int| 0 <= j < i ==> rows@[j]@.action != ActionView::WifiSelect(ssid@),
        decreases rows@.len() - i,
    {
        let hit = match &rows[i].action {
            Action::WifiSelect(s) => *s == want,
            _ => false,
        };
        if hit {
            assert forall|k: int| first_select_at(row_views(rows@), ssid@, k) implies k == i by {
                if k < i {
                    assert(row_views(rows@)[k] == rows@[k]@);
                } else if k > i {
                    assert(row_views(rows@)[i as int] == rows@[i as int]@);
                }
            }
            let sub = chars_of(rows[i].sub.as_str());
            if has_infix(&sub, &chars_of("open")) {
                return Selected::Connect;
            } else {
                return Selected::AskPassword;
            }
        }
        i = i + 1;
    }
    Selected::Ignore
}

// xkb keysyms the settings client reacts to.
pub const KEY_ESCAPE: u32 = 0xff1b;
pub const KEY_RETURN: u32 = 0xff0d;
pub const KEY_KP_ENTER: u32 = 0xff8d;
pub const KEY_BACKSPACE: u32 = 0xff08;

/// What a key press does in the settings client.
pub enum KeyEffect {
    /// leave the password prompt (clearing the password)
    CancelPassword,
    /// quit the client
    Quit,
    /// connect with the password entered
    Submit,
    /// delete the last character of the password
    DeleteChar,
    /// append to the password
    Append(String),
    Nothing,
}

/// `char::is_control`: the Unicode `Cc` characters.
pub open spec fn is_control(c: char) -> bool {
    (c as u32) <= 0x1f || (0x7f <= (c as u32) && (c as u32) <= 0x9f)
}

pub open spec fn not_control() -> spec_fn(char) -> bool {
    |c: char| !is_control(c)
}

/// The effect of pressing the key with keysym `sym` whose text is `text`:
/// Escape leaves the password prompt (or quits when none is open);
/// Return and keypad Enter submit the password, Backspace deletes from
/// it, and other keys type their printable characters into it, all only
/// while the prompt is open.
pub open spec fn key_effect(sym: u32, prompt_open: bool, text: Seq<char>) -> Option<Seq<char>> {
    if sym != KEY_ESCAPE && sym != KEY_RETURN && sym != KEY_KP_ENTER && sym != KEY_BACKSPACE
        && prompt_open && text.filter(not_control()).len() > 0 {
        Some(text.filter(not_control()))
    } else {
        None
    }
}

pub fn settings_key(sym: u32, prompt_open: bool, text: &str) -> (r: KeyEffect)
    ensures
        sym == KEY_ESCAPE ==> (if prompt_open {
            r is CancelPassword
        } else {
            r is Quit
        }),
        (sym == KEY_RETURN || sym == KEY_KP_ENTER) ==> (if prompt_open {
            r is Submit
        } else {
            r is Nothing
        }),
        sym == KEY_BACKSPACE ==> (if prompt_open {
            r is DeleteChar
        } else {
            r is Nothing
        }),
        sym != KEY_ESCAPE && sym != KEY_RETURN && sym != KEY_KP_ENTER && sym != KEY_BACKSPACE ==> match key_effect(sym, prompt_open, text@) {
            Some(t) => (r matches KeyEffect::Append(s) && s@ == t),
            None => r is Nothing,
        },
{
    if sym == KEY_ESCAPE {
        if prompt_open {
            KeyEffect::CancelPassword
        } else {
            KeyEffect::Quit
        }
    } else if sym == KEY_RETURN || sym == KEY_KP_ENTER {
        if prompt_open {
            KeyEffect::Submit
        } else {
            KeyEffect::Nothing
        }
    } else if sym == KEY_BACKSPACE {
        if prompt_open {
            KeyEffect::DeleteChar
        } else {
            KeyEffect::Nothing
        }
    } else if prompt_open {
        let cs = chars_of(text);
        let mut out: Vec<char> = Vec::new();
        let mut i: usize = 0;
        proof {
            reveal_with_fuel(Seq::<_>::filter, 1);
            assert(cs@.take(0).filter(not_control()) =~= seq![]);
        }
        while i < cs.len()
            invariant
                i <= cs@.len(),
                out@ == cs@.take(i as int).filter(not_control()),
            decreases cs@.len() - i,
        {
            proof {
                reveal_with_fuel(Seq::<_>::filter, 1);
                assert(cs@.take(i + 1).drop_last() =~= cs@.take(i as int));
            }
            let c = cs[i];
            let n = c as u32;
            if !(n <= 0x1f || (0x7f <= n && n <= 0x9f)) {
                out.push(c);
            }
            i = i + 1;
        }
        assert(cs@.take(cs@.len() as int) =~= cs@);
        if out.len() > 0 {
            KeyEffect::Append(string_of(&out))
        } else {
            KeyEffect::Nothing
        }
    } else {
        KeyEffect::Nothing
    }
}

/// A tappable rectangle.
pub struct Hit {
    pub x: i32,
    pub y: i32,
    pub w: i32,
    pub h: i32,
    pub action: Action,
}

pub open spec fn hit_contains(h: Hit, x: i32, y: i32) -> bool {
    h.x <= x < h.x + h.w && h.y <= y < h.y + h.h
}

/// The action under the point `(x, y)`: of the last hit rectangle drawn
/// there, since later ones are on top.
pub fn hit_test(hits: &Vec<Hit>, x: i32, y: i32) -> (r: Option<Action>)
    ensures
        (forall|j: int| 0 <= j < hits@.len() ==> !hit_contains(hits@[j], x, y)) ==> r is None,
        forall|i: int|
            0 <= i < hits@.len() && hit_contains(hits@[i], x, y) && (forall|j: int|
                i < j < hits@.len() ==> !hit_contains(hits@[j], x, y)) ==> (r matches Some(a) && a@
                == hits@[i].action@),
{
    let mut i: usize = hits.len();
    while i > 0
        invariant
            i <= hits@.len(),
            forall|j: int| i <= j < hits@.len() ==> !hit_contains(hits@[j], x, y),
        decreases i,
    {
        let k = i - 1;
        let h = &hits[k];
        let inside = (h.x as i64) <= (x as i64) && (x as i64) < (h.x as i64) + (h.w as i64)
            && (h.y as i64) <= (y as i64) && (y as i64) < (h.y as i64) + (h.h as i64);
        if inside {
            return Some(h.action.copy());
        }
        i = k;
    }
    None
}

/// The settings window's size and layout constants (pixels).
pub const PANEL_W: i32 = 1080;
pub const PANEL_H: i32 = 2160;
pub const HEADER_H: i32 = 132;
pub const TAB_H: i32 = 120;
pub const ROW_H: i32 = 140;
pub const PAD: i32 = 28;

/// A hit rectangle as plain values.
pub open spec fn hit_view(h: Hit) -> (int, int, int, int, ActionView) {
    (h.x as int, h.y as int, h.w as int, h.h as int, h.action@)
}

pub open spec fn hit_views(hs: Seq<Hit>) -> Seq<(int, int, int, int, ActionView)> {
    hs.map_values(|h: Hit| hit_view(h))
}

/// The tabs, left to right.
pub open spec fn tab_of(i: int) -> Section {
    if i == 0 {
        Section::Wifi
    } else if i == 1 {
        Section::Bluetooth
    } else {
        Section::Audio
    }
}

/// Where the list rows start: below the header, the tabs and the padding,
/// and below the status line when there is one.
pub open spec fn rows_top(has_status: bool) -> int {
    HEADER_H + TAB_H + PAD + if has_status {
        70int
    } else {
        0int
    }
}

/// The hit rectangles of one frame of the settings window, in drawing
/// order: the close button, the three tabs, one per list row (with the
/// row's action), the audio quick controls on the audio tab, and the
/// password dialog's two buttons while it is open.
pub open spec fn hit_layout_of(
    section: Section,
    has_status: bool,
    row_actions: Seq<ActionView>,
    password_open: bool,
) -> Seq<(int, int, int, int, ActionView)> {
    let close = seq![((PANEL_W - 96) as int, 30int, 68int, 68int, ActionView::Close)];
    let tabs = Seq::new(3, |i: int| (i * (PANEL_W / 3), HEADER_H as int, (PANEL_W / 3) as int, TAB_H as int, ActionView::Tab(tab_of(i))));
    let top = rows_top(has_status);
    let rows = Seq::new(
        row_actions.len(),
        |k: int| (PAD as int, top + k * ROW_H, (PANEL_W - 2 * PAD) as int, (ROW_H - 12) as int, row_actions[k]),
    );
    let bw: int = (PANEL_W - 2 * PAD - 2 * 24) / 3;
    let audio = if section == Section::Audio {
        seq![
            (PAD as int, (PANEL_H - 260) as int, bw, 120int, ActionView::VolDown),
            (PAD + (bw + 24), (PANEL_H - 260) as int, bw, 120int, ActionView::Mute),
            (PAD + 2 * (bw + 24), (PANEL_H - 260) as int, bw, 120int, ActionView::VolUp),
        ]
    } else {
        seq![]
    };
    let bx: int = PAD as int;
    let pw: int = (PANEL_W - 2 * PAD) as int;
    let by: int = (PANEL_H / 2 - 260) as int;
    let hw: int = (pw - 100) / 2;
    let dialog = if password_open {
        seq![
            (bx + 40, by + 300, hw, 110int, ActionView::PassSubmit),
            (bx + 40 + (pw - 80) / 2 + 20, by + 300, hw, 110int, ActionView::PassCancel),
        ]
    } else {
        seq![]
    };
    close + tabs + rows + audio + dialog
}

fn push_hit(hits: &mut Vec<Hit>, x: i32, y: i32, w: i32, h: i32, action: Action)
    ensures
        hit_views(final(hits)@) == hit_views(old(hits)@).push((x as int, y as int, w as int, h as int, action@)),
{
    hits.push(Hit { x, y, w, h, action });
    assert(hit_views(hits@) =~= hit_views(old(hits)@).push((x as int, y as int, w as int, h as int, action@)));
}

/// The hit rectangles the settings window draws for a frame showing
/// `section`, a status line or not, the list `rows`, and the password
/// dialog or not (see [`hit_layout_of`]); [`hit_test`] reads them.
pub fn hit_layout(section: Section, has_status: bool, rows: &Vec<Row>, password_open: bool) -> (r: Vec<Hit>)
    requires
        rows@.len() <= 1_000_000,
    ensures
        hit_views(r@) == hit_layout_of(
            section,
            has_status,
            rows@.map_values(|row: Row| row.action@),
            password_open,
        ),
{
    let ghost acts = rows@.map_values(|row: Row| row.action@);
    let mut hits: Vec<Hit> = Vec::new();
    push_hit(&mut hits, PANEL_W - 96, 30, 68, 68, Action::Close);
    let tab_w = PANEL_W / 3;
    push_hit(&mut hits, 0, HEADER_H, tab_w, TAB_H, Action::Tab(Section::Wifi));
    push_hit(&mut hits, tab_w, HEADER_H, tab_w, TAB_H, Action::Tab(Section::Bluetooth));
    push_hit(&mut hits, 2 * tab_w, HEADER_H, tab_w, TAB_H, Action::Tab(Section::Audio));
    let ghost head = hit_views(hits@);
    let ghost close = seq![((PANEL_W - 96) as int, 30int, 68int, 68int, ActionView::Close)];
    let ghost tabs = Seq::new(3, |i: int| (i * (PANEL_W / 3), HEADER_H as int, (PANEL_W / 3) as int, TAB_H as int, ActionView::Tab(tab_of(i))));
    assert(head =~= close + tabs);
    let top: i32 = if has_status {
        HEADER_H + TAB_H + PAD + 70
    } else {
        HEADER_H + TAB_H + PAD
    };
    let ghost rows_spec = Seq::new(
        acts.len(),
        |k: int| (PAD as int, rows_top(has_status) + k * ROW_H, (PANEL_W - 2 * PAD) as int, (ROW_H - 12) as int, acts[k]),
    );
    let mut k: usize = 0;
    while k < rows.len()
        invariant
            k <= rows@.len() <= 1_000_000,
            top == rows_top(has_status),
            acts == rows@.map_values(|row: Row| row.action@),
            rows_spec == Seq::new(
                acts.len(),
                |k: int| (PAD as int, rows_top(has_status) + k * ROW_H, (PANEL_W - 2 * PAD) as int, (ROW_H - 12) as int, acts[k]),
            ),
            hit_views(hits@) == head + rows_spec.take(k as int),
        decreases rows@.len() - k,
    {
        let y = top + (k as i32) * ROW_H;
        let a = rows[k].action.copy();
        push_hit(&mut hits, PAD, y, PANEL_W - 2 * PAD, ROW_H - 12, a);
        proof {
            assert(rows_spec.take(k + 1) =~= rows_spec.take(k as int).push(rows_spec[k as int]));
            assert(head + rows_spec.take(k + 1) =~= (head + rows_spec.take(k as int)).push(rows_spec[k as int]));
        }
        k = k + 1;
    }
    proof {
        assert(rows_spec.take(rows@.len() as int) =~= rows_spec);
    }
    if section == Section::Audio {
        let by = PANEL_H - 260;
        let bw = (PANEL_W - 2 * PAD - 2 * 24) / 3;
        push_hit(&mut hits, PAD, by, bw, 120, Action::VolDown);
        push_hit(&mut hits, PAD + (bw + 24), by, bw, 120, Action::Mute);
        push_hit(&mut hits, PAD + 2 * (bw + 24), by, bw, 120, Action::VolUp);
    }
    if password_open {
        let bx = PAD;
        let bw = PANEL_W - 2 * PAD;
        let by = PANEL_H / 2 - 260;
        let hw = (bw - 100) / 2;
        push_hit(&mut hits, bx + 40, by + 300, hw, 110, Action::PassSubmit);
        push_hit(&mut hits, bx + 40 + (bw - 80) / 2 + 20, by + 300, hw, 110, Action::PassCancel);
    }
    assert(hit_views(hits@) =~= hit_layout_of(section, has_status, acts, password_open));
    hits
}

} // verus!
