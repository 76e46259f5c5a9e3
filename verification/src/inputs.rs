//! Which evdev nodes are the keyboard and the touchscreen, from what
//! sysfs says of each input device: its name and its `capabilities/ev`,
//! `capabilities/abs` and `capabilities/key` bitmaps. Listing the devices
//! and reading the files is the caller's I/O.

use vstd::prelude::*;
use crate::text::{chars_of, contains_seq, eq_chars, has_infix, lower, lower_text, string_of, trim, trim_all, words, words_of, views};

verus! {

pub open spec fn hex_digit_value(c: char) -> int {
    if '0' <= c <= '9' {
        c as int - 48
    } else if 'a' <= c <= 'f' {
        c as int - 87
    } else if 'A' <= c <= 'F' {
        c as int - 55
    } else {
        -1
    }
}

pub open spec fn all_hex(s: Seq<char>) -> bool {
    forall|i: int| 0 <= i < s.len() ==> hex_digit_value(#[trigger] s[i]) >= 0
}

pub open spec fn hex_value(s: Seq<char>) -> int
    decreases s.len(),
{
    if s.len() == 0 {
        0
    } else {
        hex_value(s.drop_last()) * 16 + hex_digit_value(s.last())
    }
}

/// One capability word: `u64::from_str_radix(word, 16)`, or 0 when that
/// fails (an optional `+`, then one or more hex digits, below 2^64).
pub open spec fn cap_word(t: Seq<char>) -> u64 {
    let d = if t.len() > 0 && t[0] == '+' {
        t.drop_first()
    } else {
        t
    };
    if d.len() > 0 && all_hex(d) && hex_value(d) <= u64::MAX {
        hex_value(d) as u64
    } else {
        0
    }
}

/// A capability file: its whitespace-separated hex words OR-ed together
/// (0 when it could not be read).
pub open spec fn caps_of_words(ws: Seq<Seq<char>>) -> u64
    decreases ws.len(),
{
    if ws.len() == 0 {
        0
    } else {
        caps_of_words(ws.drop_last()) | cap_word(ws.last())
    }
}

pub open spec fn caps(text: Option<Seq<char>>) -> u64 {
    match text {
        Some(t) => caps_of_words(words(t)),
        None => 0,
    }
}

proof fn lemma_hex_value_bound(s: Seq<char>, k: int)
    requires
        0 <= k <= s.len(),
        all_hex(s),
    ensures
        0 <= hex_value(s.take(k)) <= hex_value(s),
    decreases s.len(),
{
    if s.len() > 0 {
        if k == s.len() {
            assert(s.take(k) =~= s);
            lemma_hex_value_bound(s.drop_last(), s.len() - 1);
            assert(s.drop_last().take(s.len() - 1) =~= s.drop_last());
        } else {
            lemma_hex_value_bound(s.drop_last(), k);
            assert(s.drop_last().take(k) =~= s.take(k));
            lemma_hex_value_bound(s.drop_last(), s.len() - 1);
            assert(s.drop_last().take(s.len() - 1) =~= s.drop_last());
        }
    }
}

fn cap_word_of(t: &[char]) -> (r: u64)
    ensures
        r == cap_word(t@),
{
    let start: usize = if t.len() > 0 && t[0] == '+' {
        1
    } else {
        0
    };
    let ghost d = t@.skip(start as int);
    proof {
        if start == 1 {
            assert(d =~= t@.drop_first());
        } else {
            assert(d =~= t@);
        }
    }
    if start >= t.len() {
        return 0;
    }
    let mut acc: u128 = 0;
    let mut i: usize = start;
    while i < t.len()
        invariant
            start <= i <= t@.len(),
            d == t@.skip(start as int),
            d == (if t@.len() > 0 && t@[0] == '+' {
                t@.drop_first()
            } else {
                t@
            }),
            d.len() > 0,
            forall|k: int| 0 <= k < i - start ==> hex_digit_value(#[trigger] d[k]) >= 0,
            acc == hex_value(d.take(i - start)),
            acc <= u64::MAX,
        decreases t@.len() - i,
    {
        let c = t[i];
        let v: u128 = if '0' <= c && c <= '9' {
            (c as u32 - 48) as u128
        } else if 'a' <= c && c <= 'f' {
            (c as u32 - 87) as u128
        } else if 'A' <= c && c <= 'F' {
            (c as u32 - 55) as u128
        } else {
            assert(hex_digit_value(d[i - start]) < 0);
            assert(!all_hex(d));
            return 0;
        };
        let ghost k = i - start;
        proof {
            assert(d[k] == c);
            assert(d.take(k + 1).drop_last() =~= d.take(k));
            assert(d.take(k + 1).last() == d[k]);
        }
        let next = acc * 16 + v;
        if next > u64::MAX as u128 {
            proof {
                assert(all_hex(d) ==> hex_value(d) > u64::MAX) by {
                    if all_hex(d) {
                        lemma_hex_value_bound(d, k + 1);
                    }
                }
            }
            return 0;
        }
        acc = next;
        i = i + 1;
    }
    proof {
        assert(d.take(d.len() as int) =~= d);
    }
    acc as u64
}

/// The capability bitmap a file's text holds.
pub fn caps_from(text: &Option<String>) -> (r: u64)
    ensures
        r == caps(match text {
            Some(s) => Some(s@),
            None => None,
        }),
{
    match text {
        Some(s) => {
            let cs = chars_of(s.as_str());
            let ws = words_of(&cs);
            let ghost all = views(ws@);
            let mut acc: u64 = 0;
            let mut i: usize = 0;
            proof {
                assert(all.take(0) =~= seq![]);
            }
            while i < ws.len()
                invariant
                    i <= ws@.len(),
                    all == views(ws@),
                    acc == caps_of_words(all.take(i as int)),
                decreases ws@.len() - i,
            {
                proof {
                    assert(all.take(i + 1).drop_last() =~= all.take(i as int));
                    assert(all.take(i + 1).last() == ws@[i as int]@);
                }
                acc = acc | cap_word_of(ws[i].as_slice());
                i = i + 1;
            }
            proof {
                assert(all.take(ws@.len() as int) =~= all);
            }
            acc
        },
        None => 0,
    }
}

/// What an input device is.
#[derive(Clone, Copy, PartialEq, Eq, Debug, Structural)]
pub enum NodeKind {
    /// absolute axes including `ABS_MT_SLOT`: a multitouch screen
    Touch,
    /// key events; `preferred` for the main keyboard by name (`aw9523`
    /// in it, or exactly `keyboard`, any case)
    Keyboard(bool),
    Other,
}

/// The kind of a device named `name` (trimmed) with capability bitmaps
/// `ev`, `abs` and `key`.
pub open spec fn node_kind(name: Seq<char>, ev: u64, abs: u64, key: u64) -> NodeKind {
    if ev & 8 != 0 && abs & 0x8000_0000_0000 != 0 {
        NodeKind::Touch
    } else if ev & 2 != 0 && key != 0 {
        NodeKind::Keyboard(contains_seq(lower(name), "aw9523"@) || lower(name) == "keyboard"@)
    } else {
        NodeKind::Other
    }
}

pub fn classify(name: &str, ev: u64, abs: u64, key: u64) -> (k: NodeKind)
    ensures
        k == node_kind(name@, ev, abs, key),
{
    if ev & 8 != 0 && abs & 0x8000_0000_0000 != 0 {
        NodeKind::Touch
    } else if ev & 2 != 0 && key != 0 {
        let low = lower_text(name);
        let lc = chars_of(low.as_str());
        let pref = has_infix(&lc, &chars_of("aw9523")) || eq_chars(&lc, &chars_of("keyboard"));
        NodeKind::Keyboard(pref)
    } else {
        NodeKind::Other
    }
}

/// One input device as listed: its node path, its name text and its
/// capability file texts (`ev`, `abs`, `key`).
pub struct InputDev {
    pub path: String,
    pub name: String,
    pub ev: Option<String>,
    pub abs: Option<String>,
    pub key: Option<String>,
}

pub open spec fn opt_text(o: Option<String>) -> Option<Seq<char>> {
    match o {
        Some(s) => Some(s@),
        None => None,
    }
}

pub open spec fn dev_kind(d: InputDev) -> NodeKind {
    node_kind(trim(d.name@), caps(opt_text(d.ev)), caps(opt_text(d.abs)), caps(opt_text(d.key)))
}

/// Scanning the devices in order: the preferred keyboard (the first
/// one), the first other keyboard (a preferred one found after the first
/// goes here too), and the touchscreen (the last one), as indexes.
pub open spec fn pick(ds: Seq<InputDev>) -> (Option<int>, Option<int>, Option<int>)
    decreases ds.len(),
{
    if ds.len() == 0 {
        (None, None, None)
    } else {
        let (kbd, fallback, touch) = pick(ds.drop_last());
        let i = ds.len() - 1;
        match dev_kind(ds.last()) {
            NodeKind::Touch => (kbd, fallback, Some(i)),
            NodeKind::Keyboard(pref) => if pref && kbd is None {
                (Some(i), fallback, touch)
            } else if fallback is None {
                (kbd, Some(i), touch)
            } else {
                (kbd, fallback, touch)
            },
            NodeKind::Other => (kbd, fallback, touch),
        }
    }
}

/// The keyboard chosen: the preferred one, else the fallback.
pub open spec fn chosen_kbd(ds: Seq<InputDev>) -> Option<int> {
    match pick(ds).0 {
        Some(i) => Some(i),
        None => pick(ds).1,
    }
}

/// The (keyboard path, touchscreen path, keyboard name, touchscreen
/// name) for the devices `ds`; a missing device gives `None` and an
/// empty name.
pub fn find_nodes(ds: &Vec<InputDev>) -> (r: (Option<String>, Option<String>, String, String))
    ensures
        match chosen_kbd(ds@) {
            Some(i) => r.0 matches Some(p) && p@ == ds@[i].path@ && r.2@ == trim(ds@[i].name@),
            None => r.0 is None && r.2@.len() == 0,
        },
        match pick(ds@).2 {
            Some(i) => r.1 matches Some(p) && p@ == ds@[i].path@ && r.3@ == trim(ds@[i].name@),
            None => r.1 is None && r.3@.len() == 0,
        },
{
    let mut kbd: Option<usize> = None;
    let mut fallback: Option<usize> = None;
    let mut touch: Option<usize> = None;
    let mut i: usize = 0;
    proof {
        assert(ds@.take(0) =~= seq![]);
    }
    while i < ds.len()
        invariant
            i <= ds@.len(),
            pick(ds@.take(i as int)) == (
                match kbd {
                    Some(k) => Some(k as int),
                    None => None,
                },
                match fallback {
                    Some(k) => Some(k as int),
                    None => None,
                },
                match touch {
                    Some(k) => Some(k as int),
                    None => None,
                },
            ),
            kbd matches Some(k) ==> k < i,
            fallback matches Some(k) ==> k < i,
            touch matches Some(k) ==> k < i,
        decreases ds@.len() - i,
    {
        proof {
            assert(ds@.take(i + 1).drop_last() =~= ds@.take(i as int));
            assert(ds@.take(i + 1).last() == ds@[i as int]);
        }
        let d = &ds[i];
        let name = string_of(&trim_all(&chars_of(d.name.as_str())));
        let kind = classify(name.as_str(), caps_from(&d.ev), caps_from(&d.abs), caps_from(&d.key));
        match kind {
            NodeKind::Touch => {
                touch = Some(i);
            },
            NodeKind::Keyboard(pref) => {
                if pref && kbd.is_none() {
                    kbd = Some(i);
                } else if fallback.is_none() {
                    fallback = Some(i);
                }
            },
            NodeKind::Other => {},
        }
        i = i + 1;
    }
    proof {
        assert(ds@.take(ds@.len() as int) =~= ds@);
    }
    let k = match kbd {
        Some(k) => Some(k),
        None => fallback,
    };
    let (kp, kn) = match k {
        Some(k) => (Some(ds[k].path.clone()), string_of(&trim_all(&chars_of(ds[k].name.as_str())))),
        None => (None, String::new()),
    };
    let (tp, tn) = match touch {
        Some(t) => (Some(ds[t].path.clone()), string_of(&trim_all(&chars_of(ds[t].name.as_str())))),
        None => (None, String::new()),
    };
    (kp, tp, kn, tn)
}

} // verus!
