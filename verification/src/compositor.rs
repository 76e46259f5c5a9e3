//! The compositor's integer decisions: which keys are shortcuts and what
//! they do, the app switcher's selection, volume and backlight steps,
//! configure serials; and the data its protocol objects carry.
//! Rendering, geometry and the protocol plumbing stay with the caller.

use vstd::prelude::*;
use crate::stack::{first_index_u32, first_pos};
use crate::text::div_trunc;

verus! {

/// Where a window is snapped.
#[derive(Clone, Copy, PartialEq, Eq, Debug, Structural)]
pub enum Snap {
    /// not snapped
    Unsnapped,
    Left,
    Right,
    Top,
    Bottom,
    Max,
}

// ---------------------------------------------------------------------------
// data carried by protocol objects

#[derive(Clone, Copy, Debug, PartialEq, Eq, Structural)]
pub struct XdgToplevelData {
    pub window: u32,
}

#[derive(Clone, Copy, Debug, PartialEq, Eq, Structural)]
pub struct XdgPopupData {
    pub window: u32,
    /// parent toplevel window id
    pub parent: Option<u32>,
}

#[derive(Default, Clone, Copy, Debug, PartialEq, Eq, Structural)]
pub struct OutputData {}

#[derive(Default, Clone, Copy, Debug, PartialEq, Eq, Structural)]
pub struct CompositorData {}

#[derive(Default, Clone, Copy, Debug, PartialEq, Eq, Structural)]
pub struct ShmData {}

#[derive(Default, Clone, Copy, Debug, PartialEq, Eq, Structural)]
pub struct RegionData {}

#[derive(Default, Clone, Copy, Debug, PartialEq, Eq, Structural)]
pub struct WmBaseData {}

#[derive(Default, Clone, Copy, Debug, PartialEq, Eq, Structural)]
pub struct DecorationManagerData {}

#[derive(Clone, Copy, Debug, PartialEq, Eq, Structural)]
pub struct ToplevelDecorationData {
    pub window: u32,
}

/// The data-device manager's global data (no clipboard).
#[derive(Default, Clone, Copy, Debug, PartialEq, Eq, Structural)]
pub struct DataDeviceManagerData {}

// ---------------------------------------------------------------------------
// shortcuts

// X keysyms of the Fn layer of the device's keyboard layout.
pub const XK_ESCAPE: u32 = 0xff1b;
pub const XK_GRAVE: u32 = 0x60;
pub const XK_HOME: u32 = 0xff50;
pub const XK_END: u32 = 0xff57;
pub const XK_PRIOR: u32 = 0xff55;
pub const XK_NEXT: u32 = 0xff56;
pub const XK_DELETE: u32 = 0xffff;
pub const XF86_SLEEP: u32 = 0x1008ff2f;
pub const XF86_TOOLS: u32 = 0x1008ff81;
pub const XF86_TASK_PANE: u32 = 0x1008ff7f;
pub const XF86_TOP_MENU: u32 = 0x1008ffa2;
pub const XF86_AUDIO_LOWER: u32 = 0x1008ff11;
pub const XF86_AUDIO_MUTE: u32 = 0x1008ff12;
pub const XF86_AUDIO_RAISE: u32 = 0x1008ff13;
pub const XF86_MON_BRIGHT_DOWN: u32 = 0x1008ff03;
pub const XF86_MON_BRIGHT_UP: u32 = 0x1008ff02;

/// The Fn-layer modifier bit.
pub const MOD5: u32 = 256;

/// What a key press does when it is a compositor shortcut.
#[derive(Clone, Copy, PartialEq, Eq, Debug, Structural)]
pub enum Shortcut {
    /// open or close the launcher (closing the switcher)
    ToggleLauncher,
    /// open the app switcher, or move its selection on
    Switcher,
    /// close the focused window
    CloseFocused,
    /// change the volume by this many percent
    VolumeStep(i32),
    ToggleMute,
    /// change the backlight by this many percent
    BrightnessStep(i32),
    /// close the launcher and the switcher
    CloseOverlays,
    WorkspacePrev,
    WorkspaceNext,
    SnapLeft,
    SnapRight,
    ToggleMaximize,
    /// close the launcher or switcher when one is open
    Escape,
}

pub open spec fn fn_layer(mods: u32) -> bool {
    mods & MOD5 != 0
}

/// The shortcut a pressed key is, if any; delete and Fn+Backspace close
/// the focused window only while the switcher is closed.
pub open spec fn shortcut_of(keysym: u32, mods: u32, switcher_open: bool) -> Option<Shortcut> {
    if keysym == XF86_TASK_PANE {
        Some(Shortcut::ToggleLauncher)
    } else if keysym == XF86_TOP_MENU {
        Some(Shortcut::Switcher)
    } else if (keysym == XF86_TOOLS || keysym == XK_DELETE) && !switcher_open {
        Some(Shortcut::CloseFocused)
    } else if keysym == XF86_AUDIO_LOWER {
        Some(Shortcut::VolumeStep(-10i32))
    } else if keysym == XF86_AUDIO_RAISE {
        Some(Shortcut::VolumeStep(10i32))
    } else if keysym == XF86_AUDIO_MUTE {
        Some(Shortcut::ToggleMute)
    } else if keysym == XF86_MON_BRIGHT_DOWN {
        Some(Shortcut::BrightnessStep(-10i32))
    } else if keysym == XF86_MON_BRIGHT_UP {
        Some(Shortcut::BrightnessStep(10i32))
    } else if keysym == XF86_SLEEP {
        Some(Shortcut::CloseOverlays)
    } else if keysym == XK_PRIOR && fn_layer(mods) {
        Some(Shortcut::WorkspacePrev)
    } else if keysym == XK_NEXT && fn_layer(mods) {
        Some(Shortcut::WorkspaceNext)
    } else if keysym == XK_HOME && fn_layer(mods) {
        Some(Shortcut::SnapLeft)
    } else if keysym == XK_END && fn_layer(mods) {
        Some(Shortcut::SnapRight)
    } else if keysym == XK_GRAVE && fn_layer(mods) {
        Some(Shortcut::ToggleMaximize)
    } else if keysym == XK_ESCAPE {
        Some(Shortcut::Escape)
    } else {
        None
    }
}

/// The shortcut a pressed key is (`None`: the key goes to the focused
/// client).
pub fn shortcut(keysym: u32, mods: u32, switcher_open: bool) -> (r: Option<Shortcut>)
    ensures
        r == shortcut_of(keysym, mods, switcher_open),
{
    let fl = mods & MOD5 != 0;
    if keysym == XF86_TASK_PANE {
        Some(Shortcut::ToggleLauncher)
    } else if keysym == XF86_TOP_MENU {
        Some(Shortcut::Switcher)
    } else if (keysym == XF86_TOOLS || keysym == XK_DELETE) && !switcher_open {
        Some(Shortcut::CloseFocused)
    } else if keysym == XF86_AUDIO_LOWER {
        Some(Shortcut::VolumeStep(-10i32))
    } else if keysym == XF86_AUDIO_RAISE {
        Some(Shortcut::VolumeStep(10i32))
    } else if keysym == XF86_AUDIO_MUTE {
        Some(Shortcut::ToggleMute)
    } else if keysym == XF86_MON_BRIGHT_DOWN {
        Some(Shortcut::BrightnessStep(-10i32))
    } else if keysym == XF86_MON_BRIGHT_UP {
        Some(Shortcut::BrightnessStep(10i32))
    } else if keysym == XF86_SLEEP {
        Some(Shortcut::CloseOverlays)
    } else if keysym == XK_PRIOR && fl {
        Some(Shortcut::WorkspacePrev)
    } else if keysym == XK_NEXT && fl {
        Some(Shortcut::WorkspaceNext)
    } else if keysym == XK_HOME && fl {
        Some(Shortcut::SnapLeft)
    } else if keysym == XK_END && fl {
        Some(Shortcut::SnapRight)
    } else if keysym == XK_GRAVE && fl {
        Some(Shortcut::ToggleMaximize)
    } else if keysym == XK_ESCAPE {
        Some(Shortcut::Escape)
    } else {
        None
    }
}

/// A key press that is a shortcut is never forwarded to a client, and
/// the Fn-layer shortcuts need the Fn modifier.
pub proof fn law_fn_layer_needed(keysym: u32, switcher_open: bool)
    ensures
        keysym == XK_PRIOR || keysym == XK_NEXT || keysym == XK_HOME || keysym == XK_END
            || keysym == XK_GRAVE ==> shortcut_of(keysym, 0, switcher_open) is None,
{
    assert(0u32 & 256u32 == 0) by (bit_vector);
}

// ---------------------------------------------------------------------------
// the app switcher

/// Each further press moves the switcher's selection on, wrapping.
pub fn switcher_next(index: usize, n: usize) -> (r: usize)
    requires
        index < usize::MAX,
    ensures
        n == 0 ==> r == index,
        n > 0 ==> r == (index + 1) % (n as int),
{
    if n > 0 {
        (index + 1) % n
    } else {
        index
    }
}

/// Where the selection starts when the switcher opens: on the focused
/// window's first place in `ids`, else the first.
pub open spec fn switcher_start_of(ids: Seq<u32>, focus: Option<u32>) -> int {
    match focus {
        Some(f) => match first_pos(ids, f) {
            Some(c) => c,
            None => 0,
        },
        None => 0,
    }
}

/// Where the selection starts when the switcher opens: on the focused
/// window's place in `ids`, else the first.
pub fn switcher_start(ids: &Vec<u32>, focus: Option<u32>) -> (r: usize)
    ensures
        r == switcher_start_of(ids@, focus),
        focus is None ==> r == 0,
        focus matches Some(f) ==> if exists|i: int| 0 <= i < ids@.len() && ids@[i] == f {
            0 <= r < ids@.len() && ids@[r as int] == f && forall|j: int| 0 <= j < r ==> ids@[j] != f
        } else {
            r == 0
        },
{
    match focus {
        None => 0,
        Some(f) => match first_index_u32(ids, f) {
            Some(i) => i,
            None => 0,
        },
    }
}

// ---------------------------------------------------------------------------
// the keyboard

/// The keyboard-facing part of the compositor's state.
pub struct KeyState {
    /// the settings panel is open (it then owns the keyboard)
    pub settings_open: bool,
    /// the panel is asking for a password
    pub password_prompt: bool,
    pub launcher_open: bool,
    pub switcher_open: bool,
    /// the switcher's selection
    pub switcher_index: usize,
    /// the keysyms held down, in the order they went down
    pub pressed: Vec<u32>,
}

pub struct KeyStateView {
    pub settings_open: bool,
    pub password_prompt: bool,
    pub launcher_open: bool,
    pub switcher_open: bool,
    pub switcher_index: int,
    pub pressed: Seq<u32>,
}

impl View for KeyState {
    type V = KeyStateView;

    open spec fn view(&self) -> KeyStateView {
        KeyStateView {
            settings_open: self.settings_open,
            password_prompt: self.password_prompt,
            launcher_open: self.launcher_open,
            switcher_open: self.switcher_open,
            switcher_index: self.switcher_index as int,
            pressed: self.pressed@,
        }
    }
}

/// What a key event does besides changing the state.
#[derive(Clone, Copy, PartialEq, Eq, Debug, Structural)]
pub enum KeyOutcome {
    /// The settings panel takes the key; `true` when it should close
    /// (Escape pressed with no password prompt).
    ToSettings(bool),
    /// A key release, forwarded to the focused client; `true` when the
    /// switcher closed on it and its selection is to be activated first.
    Release(bool),
    /// A press forwarded to the focused client.
    Forward,
    /// A press consumed as this compositor shortcut.
    Consumed(Shortcut),
}

/// `ks` without `k`.
pub open spec fn without(ks: Seq<u32>, k: u32) -> Seq<u32> {
    ks.filter(other_than(k))
}

pub open spec fn other_than(k: u32) -> spec_fn(u32) -> bool {
    |x: u32| x != k
}

/// `ks` with `k` added at the end unless it is already there.
pub open spec fn with_key(ks: Seq<u32>, k: u32) -> Seq<u32> {
    if ks.contains(k) {
        ks
    } else {
        ks.push(k)
    }
}

/// One key event: the next keyboard state and what else it does, given
/// the switcher's window ids and the focused window.
pub open spec fn key_step_of(
    st: KeyStateView,
    keysym: u32,
    pressed: bool,
    mods: u32,
    switcher_ids: Seq<u32>,
    focus: Option<u32>,
) -> (KeyStateView, KeyOutcome) {
    if st.settings_open {
        (st, KeyOutcome::ToSettings(pressed && keysym == XK_ESCAPE && !st.password_prompt))
    } else if !pressed {
        let activate = keysym == XF86_TOP_MENU && st.switcher_open;
        (
            KeyStateView {
                pressed: without(st.pressed, keysym),
                switcher_open: if activate {
                    false
                } else {
                    st.switcher_open
                },
                ..st
            },
            KeyOutcome::Release(activate),
        )
    } else {
        let st1 = KeyStateView { pressed: with_key(st.pressed, keysym), ..st };
        match shortcut_of(keysym, mods, st.switcher_open) {
            None => (st1, KeyOutcome::Forward),
            Some(sc) => (
                match sc {
                    Shortcut::ToggleLauncher => KeyStateView {
                        launcher_open: !st.launcher_open,
                        switcher_open: false,
                        ..st1
                    },
                    Shortcut::Switcher => if st.switcher_open {
                        KeyStateView {
                            switcher_index: if switcher_ids.len() > 0 {
                                (st.switcher_index + 1) % (switcher_ids.len() as int)
                            } else {
                                st.switcher_index
                            },
                            ..st1
                        }
                    } else {
                        KeyStateView {
                            switcher_open: true,
                            launcher_open: false,
                            switcher_index: switcher_start_of(switcher_ids, focus),
                            ..st1
                        }
                    },
                    Shortcut::CloseOverlays | Shortcut::Escape => KeyStateView {
                        launcher_open: false,
                        switcher_open: false,
                        ..st1
                    },
                    _ => st1,
                },
                KeyOutcome::Consumed(sc),
            ),
        }
    }
}

fn without_key(ks: &Vec<u32>, k: u32) -> (r: Vec<u32>)
    ensures
        r@ == without(ks@, k),
{
    let mut r: Vec<u32> = Vec::new();
    let mut i: usize = 0;
    while i < ks.len()
        invariant
            i <= ks@.len(),
            r@ == ks@.take(i as int).filter(other_than(k)),
        decreases ks@.len() - i,
    {
        proof {
            assert(ks@.take(i + 1).drop_last() =~= ks@.take(i as int));
            reveal(Seq::filter);
        }
        if ks[i] != k {
            r.push(ks[i]);
        }
        i = i + 1;
    }
    proof {
        assert(ks@.take(ks@.len() as int) =~= ks@);
    }
    r
}

fn with_key_added(ks: &Vec<u32>, k: u32) -> (r: Vec<u32>)
    ensures
        r@ == with_key(ks@, k),
{
    let mut r: Vec<u32> = Vec::new();
    let mut found = false;
    let mut i: usize = 0;
    while i < ks.len()
        invariant
            i <= ks@.len(),
            r@ == ks@.take(i as int),
            found <==> ks@.take(i as int).contains(k),
        decreases ks@.len() - i,
    {
        proof {
            assert(ks@.take(i + 1) =~= ks@.take(i as int).push(ks@[i as int]));
        }
        if ks[i] == k {
            found = true;
        }
        r.push(ks[i]);
        proof {
            if ks@[i as int] == k {
                assert(ks@.take(i + 1)[i as int] == k);
            }
            if ks@.take(i + 1).contains(k) && ks@[i as int] != k {
                let t = ks@.take(i + 1);
                let w = choose|w: int| #![trigger t[w]] 0 <= w < t.len() && t[w] == k;
                assert(ks@.take(i as int)[w] == k);
            }
        }
        i = i + 1;
    }
    proof {
        assert(ks@.take(ks@.len() as int) =~= ks@);
    }
    if !found {
        r.push(k);
    }
    r
}

/// One key event of the compositor: the settings panel, when open, owns
/// the keyboard; a release is forwarded (closing the switcher and
/// activating its selection when it is the switcher key); a press is a
/// shortcut (see [`shortcut`]) that changes the launcher and switcher, or
/// is forwarded to the focused client. `switcher_ids` are the windows the
/// switcher lists and `focus` the focused one.
pub fn key_step(
    st: &KeyState,
    keysym: u32,
    pressed: bool,
    mods: u32,
    switcher_ids: &Vec<u32>,
    focus: Option<u32>,
) -> (r: (KeyState, KeyOutcome))
    requires
        st.switcher_index < usize::MAX,
    ensures
        (r.0@, r.1) == key_step_of(st@, keysym, pressed, mods, switcher_ids@, focus),
{
    if st.settings_open {
        let keep = KeyState {
            settings_open: st.settings_open,
            password_prompt: st.password_prompt,
            launcher_open: st.launcher_open,
            switcher_open: st.switcher_open,
            switcher_index: st.switcher_index,
            pressed: copy_keys(&st.pressed),
        };
        return (keep, KeyOutcome::ToSettings(pressed && keysym == XK_ESCAPE && !st.password_prompt));
    }
    if !pressed {
        let activate = keysym == XF86_TOP_MENU && st.switcher_open;
        let next = KeyState {
            settings_open: st.settings_open,
            password_prompt: st.password_prompt,
            launcher_open: st.launcher_open,
            switcher_open: if activate {
                false
            } else {
                st.switcher_open
            },
            switcher_index: st.switcher_index,
            pressed: without_key(&st.pressed, keysym),
        };
        return (next, KeyOutcome::Release(activate));
    }
    let keys = with_key_added(&st.pressed, keysym);
    let sc = shortcut(keysym, mods, st.switcher_open);
    let mut next = KeyState {
        settings_open: st.settings_open,
        password_prompt: st.password_prompt,
        launcher_open: st.launcher_open,
        switcher_open: st.switcher_open,
        switcher_index: st.switcher_index,
        pressed: keys,
    };
    match sc {
        None => (next, KeyOutcome::Forward),
        Some(s) => {
            match s {
                Shortcut::ToggleLauncher => {
                    next.launcher_open = !st.launcher_open;
                    next.switcher_open = false;
                },
                Shortcut::Switcher => {
                    if st.switcher_open {
                        next.switcher_index = switcher_next(st.switcher_index, switcher_ids.len());
                    } else {
                        next.switcher_open = true;
                        next.launcher_open = false;
                        next.switcher_index = switcher_start(switcher_ids, focus);
                    }
                },
                Shortcut::CloseOverlays | Shortcut::Escape => {
                    next.launcher_open = false;
                    next.switcher_open = false;
                },
                _ => {},
            }
            (next, KeyOutcome::Consumed(s))
        },
    }
}

fn copy_keys(ks: &Vec<u32>) -> (r: Vec<u32>)
    ensures
        r@ == ks@,
{
    let mut r: Vec<u32> = Vec::new();
    let mut i: usize = 0;
    while i < ks.len()
        invariant
            i <= ks@.len(),
            r@ == ks@.take(i as int),
        decreases ks@.len() - i,
    {
        proof {
            assert(ks@.take(i + 1) =~= ks@.take(i as int).push(ks@[i as int]));
        }
        r.push(ks[i]);
        i = i + 1;
    }
    proof {
        assert(ks@.take(ks@.len() as int) =~= ks@);
    }
    r
}

// ---------------------------------------------------------------------------
// volume and backlight steps

pub open spec fn clamp_pct(v: int) -> int {
    if v < 0 {
        0
    } else if v > 100 {
        100
    } else {
        v
    }
}

/// The volume after a step: kept within 0..=100.
pub fn volume_step_target(volume: i32, delta: i32) -> (r: i32)
    requires
        i32::MIN <= volume + delta <= i32::MAX,
    ensures
        r == clamp_pct(volume + delta),
{
    let t = volume + delta;
    if t < 0 {
        0
    } else if t > 100 {
        100
    } else {
        t
    }
}

/// A backlight step: the current level as a percentage of `max` (taken
/// as at least 1), moved by `delta` and kept within 0..=100; and the level
/// that percentage is.
pub open spec fn brightness_step_of(brightness: i32, max: i32, delta: i32) -> (int, int) {
    let m: int = if max < 1 {
        1
    } else {
        max as int
    };
    let cur = div_trunc(brightness * 100, m);
    let target = clamp_pct(cur + delta);
    (target, target * m / 100)
}

pub fn brightness_step(brightness: i32, max: i32, delta: i32) -> (r: (i32, i32))
    requires
        i32::MIN <= brightness * 100 <= i32::MAX,
        (if max < 1 {
            1
        } else {
            max as int
        }) * 100 <= i32::MAX,
    ensures
        r.0 == brightness_step_of(brightness, max, delta).0,
        r.1 == brightness_step_of(brightness, max, delta).1,
        0 <= r.0 <= 100,
{
    let m: i32 = if max < 1 {
        1
    } else {
        max
    };
    let scaled: i64 = brightness as i64 * 100;
    let m64: i64 = m as i64;
    let cur64: i64 = if scaled >= 0 {
        scaled / m64
    } else {
        -((-scaled) / m64)
    };
    proof {
        let a: int = if scaled >= 0 {
            scaled as int
        } else {
            -scaled
        };
        assert(0 <= a / (m64 as int) <= a) by (nonlinear_arith)
            requires
                m64 >= 1,
                a >= 0,
        ;
    }
    let cur: i32 = cur64 as i32;
    let target: i32 = if cur < 0 && delta < 0 - cur {
        0
    } else if cur > 0 && delta > 100 - cur {
        100
    } else if cur + delta < 0 {
        0
    } else if cur + delta > 100 {
        100
    } else {
        cur + delta
    };
    proof {
        assert(0 <= target * m <= 100 * m) by (nonlinear_arith)
            requires
                0 <= target <= 100,
                m >= 1,
        ;
    }
    (target, target * m / 100)
}

// ---------------------------------------------------------------------------
// configure serials

/// The serial after `s`: it wraps around and skips 0, which a client
/// would read as "no serial".
pub fn next_configure_serial(s: u32) -> (r: u32)
    ensures
        r != 0,
        s < u32::MAX ==> r == s + 1,
        s == u32::MAX ==> r == 1,
{
    let n = s.wrapping_add(1);
    if n < 1 {
        1
    } else {
        n
    }
}

} // verus!
