//! Launcher entries from XDG desktop files: the `[Desktop Entry]` keys
//! that decide whether an app is shown, and the argv of its `Exec=` line.

use vstd::prelude::*;
use crate::data::string_views;
use crate::text::{
    chars_of, eq_chars, find_char, first_index, lemma_first_index, lines, lines_of, string_of,
    strip_end, strip_start, trim, trim_all, trim_end_by, trim_start_by, trimmed, views, words,
    words_of, is_char_pred, set_pred, TrimSet,
};

use crate::sleep::{lemma_text_lt_asymmetric, lemma_text_lt_total, lemma_text_lt_transitive, text_less, text_lt};
use crate::text::{lower, lower_text};

verus! {

// ---------------------------------------------------------------------------
// Exec= lines

/// A field code such as `%f` or `%U`.
pub open spec fn is_field_code(t: Seq<char>) -> bool {
    t.len() > 0 && t[0] == '%'
}

/// The words of an `Exec=` line other than its field codes.
pub open spec fn exec_words(line: Seq<char>) -> Seq<Seq<char>> {
    words(line).filter(not_field_code())
}

pub open spec fn not_field_code() -> spec_fn(Seq<char>) -> bool {
    |t: Seq<char>| !is_field_code(t)
}

/// No argument of an `Exec=` line's argv is a field code.
pub proof fn law_argv_has_no_field_codes(line: Seq<char>)
    ensures
        forall|i: int| 0 <= i < exec_words(line).len() ==> !is_field_code(#[trigger] exec_words(line)[i]),
{
    assert forall|i: int| 0 <= i < exec_words(line).len() implies !is_field_code(
        #[trigger] exec_words(line)[i],
    ) by {
        words(line).lemma_filter_pred(not_field_code(), i);
    }
}

/// Turn an `Exec=` line into argv: its words without the field codes
/// (`%f %u %U %F %d %D %n %c %k ...`, the app is launched plain); `None`
/// when no word is left.
pub fn exec_argv(line: &str) -> (r: Option<Vec<String>>)
    ensures
        exec_words(line@).len() == 0 ==> r is None,
        exec_words(line@).len() > 0 ==> r is Some && string_views(r->0@) == exec_words(line@),
{
    let cs = chars_of(line);
    let ws = words_of(&cs);
    let ghost all = views(ws@);
    let mut out: Vec<String> = Vec::new();
    let mut i: usize = 0;
    proof {
        reveal_with_fuel(Seq::<_>::filter, 1);
        assert(all.take(0).filter(not_field_code()) =~= seq![]);
        assert(string_views(out@) =~= seq![]);
    }
    while i < ws.len()
        invariant
            i <= ws@.len(),
            all == views(ws@),
            string_views(out@) == all.take(i as int).filter(not_field_code()),
        decreases ws@.len() - i,
    {
        proof {
            reveal_with_fuel(Seq::<_>::filter, 1);
            assert(all.take(i + 1).drop_last() =~= all.take(i as int));
            assert(all.take(i + 1).last() == ws@[i as int]@);
        }
        let w = &ws[i];
        if !(w.len() > 0 && w[0] == '%') {
            let ghost before = out@;
            out.push(string_of(w.as_slice()));
            proof {
                assert(string_views(out@) =~= string_views(before).push(ws@[i as int]@));
            }
        }
        i = i + 1;
    }
    proof {
        assert(all.take(ws@.len() as int) =~= all);
    }
    if out.len() == 0 {
        None
    } else {
        Some(out)
    }
}

// ---------------------------------------------------------------------------
// desktop entries

/// The launcher's view of a desktop file.
pub struct DesktopEntry {
    pub name: String,
    /// the `Exec=` line
    pub command: String,
    /// may be empty
    pub icon: String,
}

/// `line.split_once('=')`.
pub open spec fn split_eq(line: Seq<char>) -> Option<(Seq<char>, Seq<char>)> {
    let i = first_index(line, '=');
    if i < line.len() {
        Some((line.take(i as int), line.skip(i + 1 as int)))
    } else {
        None
    }
}

/// A section header's name: the line without its leading `[`s and
/// trailing `]`s.
pub open spec fn header_name(line: Seq<char>) -> Seq<char> {
    trim_end_by(trim_start_by(line, is_char_pred('[')), is_char_pred(']'))
}

/// The scan state after one more line: whether the last section header
/// seen was `[Desktop Entry]`, and the keys set inside such sections (a
/// later line replaces an earlier value).
pub open spec fn scan_step(
    st: (bool, Map<Seq<char>, Seq<char>>),
    raw: Seq<char>,
) -> (bool, Map<Seq<char>, Seq<char>>) {
    let (inside, kv) = st;
    let line = trim(raw);
    if line.len() == 0 || line[0] == '#' {
        (inside, kv)
    } else if line[0] == '[' {
        (header_name(line) == "Desktop Entry"@, kv)
    } else if !inside {
        (inside, kv)
    } else {
        match split_eq(line) {
            Some((k, v)) => (inside, kv.insert(trim(k), trim(v))),
            None => (inside, kv),
        }
    }
}

/// The scan state after the lines `ls`.
pub open spec fn entry_scan(ls: Seq<Seq<char>>) -> (bool, Map<Seq<char>, Seq<char>>)
    decreases ls.len(),
{
    if ls.len() == 0 {
        (false, Map::empty())
    } else {
        scan_step(entry_scan(ls.drop_last()), ls.last())
    }
}

/// Whether the last section header among `ls` (a line that, trimmed,
/// starts with `[`) names exactly `[Desktop Entry]`; false before any
/// header.
pub open spec fn in_desktop_entry(ls: Seq<Seq<char>>) -> bool
    decreases ls.len(),
{
    if ls.len() == 0 {
        false
    } else {
        let t = trim(ls.last());
        if t.len() > 0 && t[0] == '[' {
            header_name(t) == "Desktop Entry"@
        } else {
            in_desktop_entry(ls.drop_last())
        }
    }
}

/// Line `k` of `ls` sets `key` to `value` inside the `[Desktop Entry]`
/// section.
pub open spec fn entry_line_sets(ls: Seq<Seq<char>>, k: int, key: Seq<char>, value: Seq<char>) -> bool {
    &&& in_desktop_entry(ls.take(k))
    &&& split_eq(trim(ls[k])) matches Some((a, b))
    &&& trim(a) == key
    &&& trim(b) == value
}

/// Some line of `ls` sets `key` to `value` inside `[Desktop Entry]`.
pub open spec fn set_in_entry(ls: Seq<Seq<char>>, key: Seq<char>, value: Seq<char>) -> bool {
    exists|k: int| 0 <= k < ls.len() && entry_line_sets(ls, k, key, value)
}

proof fn lemma_entry_scan_sections(ls: Seq<Seq<char>>)
    ensures
        entry_scan(ls).0 == in_desktop_entry(ls),
        forall|key: Seq<char>| #[trigger] entry_scan(ls).1.dom().contains(key) ==> set_in_entry(
            ls,
            key,
            entry_scan(ls).1[key],
        ),
    decreases ls.len(),
{
    if ls.len() > 0 {
        let init = ls.drop_last();
        lemma_entry_scan_sections(init);
        let n = ls.len() - 1;
        assert(ls.take(n) =~= init);
        assert(ls[n] == ls.last());
        let kv0 = entry_scan(init).1;
        let kv = entry_scan(ls).1;
        assert forall|key: Seq<char>| #[trigger] kv.dom().contains(key) implies set_in_entry(ls, key, kv[key]) by {
            let line = trim(ls.last());
            let new_key = line.len() > 0 && line[0] != '#' && line[0] != '[' && entry_scan(init).0 && (
            split_eq(line) matches Some((a, b)) && trim(a) == key);
            if new_key {
                assert(entry_line_sets(ls, n, key, kv[key]));
            } else {
                assert(kv0.dom().contains(key) && kv[key] == kv0[key]);
                assert(set_in_entry(init, key, kv0[key]));
                let k = choose|k: int| 0 <= k < init.len() && entry_line_sets(init, k, key, kv0[key]);
                assert(init.take(k) =~= ls.take(k));
                assert(init[k] == ls[k]);
                assert(entry_line_sets(ls, k, key, kv[key]));
            }
        }
    }
}

/// Only the `[Desktop Entry]` section counts: every key the scan keeps
/// was set, to the value kept, by a `key=value` line whose most recent
/// section header above it is exactly `[Desktop Entry]`; the keys of any
/// other section (such as `[Desktop Action ...]`) never reach the entry.
pub proof fn law_keys_come_from_desktop_entry(ls: Seq<Seq<char>>)
    ensures
        forall|key: Seq<char>| #[trigger] entry_scan(ls).1.dom().contains(key) ==> set_in_entry(
            ls,
            key,
            entry_scan(ls).1[key],
        ),
{
    lemma_entry_scan_sections(ls);
}

pub open spec fn lookup(kv: Map<Seq<char>, Seq<char>>, k: Seq<char>) -> Option<Seq<char>> {
    if kv.dom().contains(k) {
        Some(kv[k])
    } else {
        None
    }
}

/// The entry a desktop file's text gives: `Name` and `Exec` must be set
/// and not empty, and the app is hidden by `NoDisplay=true` and by
/// `Terminal=true` (no terminal emulator to run it in). The icon is
/// `Icon`, or empty.
pub open spec fn desktop_entry(text: Seq<char>) -> Option<(Seq<char>, Seq<char>, Seq<char>)> {
    let kv = entry_scan(lines(text)).1;
    match (lookup(kv, "Name"@), lookup(kv, "Exec"@)) {
        (Some(name), Some(cmd)) => {
            if lookup(kv, "NoDisplay"@) == Some("true"@) || lookup(kv, "Terminal"@) == Some(
                "true"@,
            ) || name.len() == 0 || cmd.len() == 0 {
                None
            } else {
                Some(
                    (
                        name,
                        cmd,
                        match lookup(kv, "Icon"@) {
                            Some(i) => i,
                            None => seq![],
                        },
                    ),
                )
            }
        },
        _ => None,
    }
}

pub open spec fn opt_chars(o: Option<Vec<char>>) -> Option<Seq<char>> {
    match o {
        Some(v) => Some(v@),
        None => None,
    }
}

/// The values of the keys the launcher reads.
struct Keys {
    name: Option<Vec<char>>,
    command: Option<Vec<char>>,
    no_display: Option<Vec<char>>,
    terminal: Option<Vec<char>>,
    icon: Option<Vec<char>>,
}

spec fn keys_match(k: Keys, kv: Map<Seq<char>, Seq<char>>) -> bool {
    &&& opt_chars(k.name) == lookup(kv, "Name"@)
    &&& opt_chars(k.command) == lookup(kv, "Exec"@)
    &&& opt_chars(k.no_display) == lookup(kv, "NoDisplay"@)
    &&& opt_chars(k.terminal) == lookup(kv, "Terminal"@)
    &&& opt_chars(k.icon) == lookup(kv, "Icon"@)
}

fn is_text(v: &Option<Vec<char>>, lit: &str) -> (r: bool)
    ensures
        r == (opt_chars(*v) == Some(lit@)),
{
    match v {
        Some(cs) => {
            let l = chars_of(lit);
            eq_chars(cs.as_slice(), l.as_slice())
        },
        None => false,
    }
}

/// Set `slot` to `v` when `k` is the key `name`.
fn set_if(slot: &mut Option<Vec<char>>, name: &str, k: &Vec<char>, v: &Vec<char>)
    ensures
        k@ == name@ ==> opt_chars(*final(slot)) == Some(v@),
        k@ != name@ ==> *final(slot) == *old(slot),
{
    let n = chars_of(name);
    if eq_chars(k.as_slice(), n.as_slice()) {
        *slot = Some(vstd::slice::slice_to_vec(v.as_slice()));
    }
}

/// One line of the scan.
fn scan_line(
    raw: &[char],
    inside: bool,
    keys: Keys,
    Ghost(kv): Ghost<Map<Seq<char>, Seq<char>>>,
) -> (r: (bool, Keys))
    requires
        keys_match(keys, kv),
    ensures
        r.0 == scan_step((inside, kv), raw@).0,
        keys_match(r.1, scan_step((inside, kv), raw@).1),
{
    let mut inside = inside;
    let mut keys = keys;
    let line = trim_all(raw);
    if line.len() == 0 || line[0] == '#' {
    } else if line[0] == '[' {
        let a = strip_start(line.as_slice(), &TrimSet::Only('['));
        let b = strip_end(a.as_slice(), &TrimSet::Only(']'));
        let de = chars_of("Desktop Entry");
        inside = eq_chars(b.as_slice(), de.as_slice());
        proof {
            assert(set_pred(TrimSet::Only('[')) == is_char_pred('['));
            assert(set_pred(TrimSet::Only(']')) == is_char_pred(']'));
        }
    } else if inside {
        let j = find_char(line.as_slice(), 0, '=');
        proof {
            assert(line@.skip(0) =~= line@);
            lemma_first_index(line@, '=');
        }
        if j < line.len() {
            let k = trimmed(line.as_slice(), 0, j);
            let v = trimmed(line.as_slice(), j + 1, line.len());
            proof {
                assert(line@.subrange(0, j as int) =~= line@.take(j as int));
                assert(line@.subrange(j + 1, line@.len() as int) =~= line@.skip(j + 1));
            }
            set_if(&mut keys.name, "Name", &k, &v);
            set_if(&mut keys.command, "Exec", &k, &v);
            set_if(&mut keys.no_display, "NoDisplay", &k, &v);
            set_if(&mut keys.terminal, "Terminal", &k, &v);
            set_if(&mut keys.icon, "Icon", &k, &v);
        }
    }
    (inside, keys)
}

/// Parse a desktop file's text.
pub fn parse_entry(text: &str) -> (r: Option<DesktopEntry>)
    ensures
        match desktop_entry(text@) {
            None => r is None,
            Some((name, cmd, icon)) => r is Some && r->0.name@ == name && r->0.command@ == cmd
                && r->0.icon@ == icon,
        },
{
    let cs = chars_of(text);
    let ls = lines_of(&cs);
    let ghost all = views(ls@);
    let mut inside = false;
    let mut keys = Keys { name: None, command: None, no_display: None, terminal: None, icon: None };
    let ghost mut kv: Map<Seq<char>, Seq<char>> = Map::empty();
    let mut i: usize = 0;
    proof {
        assert(all.take(0) =~= seq![]);
    }
    while i < ls.len()
        invariant
            i <= ls@.len(),
            all == views(ls@),
            all == lines(text@),
            entry_scan(all.take(i as int)) == (inside, kv),
            keys_match(keys, kv),
        decreases ls@.len() - i,
    {
        proof {
            assert(all.take(i + 1).drop_last() =~= all.take(i as int));
            assert(all.take(i + 1).last() == ls@[i as int]@);
        }
        let ghost old_inside = inside;
        let (ins, ks) = scan_line(ls[i].as_slice(), inside, keys, Ghost(kv));
        inside = ins;
        keys = ks;
        proof {
            kv = scan_step((old_inside, kv), all[i as int]).1;
        }
        i = i + 1;
    }
    proof {
        assert(all.take(ls@.len() as int) =~= all);
    }
    if is_text(&keys.no_display, "true") || is_text(&keys.terminal, "true") {
        return None;
    }
    match (keys.name, keys.command) {
        (Some(name), Some(cmd)) => {
            if name.len() == 0 || cmd.len() == 0 {
                return None;
            }
            let icon = match keys.icon {
                Some(ic) => string_of(ic.as_slice()),
                None => String::new(),
            };
            Some(
                DesktopEntry {
                    name: string_of(name.as_slice()),
                    command: string_of(cmd.as_slice()),
                    icon,
                },
            )
        },
        _ => None,
    }
}

// ---------------------------------------------------------------------------
// the launcher's list

/// A desktop entry found on disk, with the path of its file.
pub struct DesktopApp {
    pub name: String,
    pub command: String,
    pub icon: String,
    pub path: String,
}

pub struct DesktopAppView {
    pub name: Seq<char>,
    pub command: Seq<char>,
    pub icon: Seq<char>,
    pub path: Seq<char>,
}

impl View for DesktopApp {
    type V = DesktopAppView;

    open spec fn view(&self) -> DesktopAppView {
        DesktopAppView {
            name: self.name@,
            command: self.command@,
            icon: self.icon@,
            path: self.path@,
        }
    }
}

pub open spec fn app_views(s: Seq<DesktopApp>) -> Seq<DesktopAppView> {
    s.map_values(|a: DesktopApp| a@)
}

/// The key an app is listed and told apart by: its name, lower-cased.
pub open spec fn app_key(a: DesktopAppView) -> Seq<char> {
    lower(a.name)
}

/// `s[j]` is the first entry with its key.
pub open spec fn first_of_key(s: Seq<DesktopAppView>, j: int) -> bool {
    forall|i: int| 0 <= i < j ==> app_key(#[trigger] s[i]) != app_key(s[j])
}

/// Strictly increasing keys (so no key twice).
pub open spec fn sorted_by_key(s: Seq<DesktopAppView>) -> bool {
    forall|i: int, j: int| 0 <= i < j < s.len() ==> text_lt(app_key(#[trigger] s[i]), app_key(#[trigger] s[j]))
}

/// `a` is, among `fs[..n]`, the first entry of its key.
pub open spec fn listed_first(fs: Seq<DesktopAppView>, n: int, a: DesktopAppView) -> bool {
    exists|m: int| #![trigger fs[m]] 0 <= m < n && first_of_key(fs, m) && fs[m] == a
}

/// `a` is an entry of `r`.
pub open spec fn in_list(r: Seq<DesktopAppView>, a: DesktopAppView) -> bool {
    exists|i: int| #![trigger r[i]] 0 <= i < r.len() && r[i] == a
}

/// Some entry of `r` has key `k`.
pub open spec fn has_key(r: Seq<DesktopAppView>, k: Seq<char>) -> bool {
    exists|i: int| #![trigger r[i]] 0 <= i < r.len() && app_key(r[i]) == k
}

/// Every entry of `r` is the first entry of its key in `fs[..n]`.
#[verifier::opaque]
pub open spec fn all_first(r: Seq<DesktopAppView>, fs: Seq<DesktopAppView>, n: int) -> bool {
    forall|i: int| 0 <= i < r.len() ==> listed_first(fs, n, #[trigger] r[i])
}

/// Every first entry of a key among `fs[..n]` is in `r`.
#[verifier::opaque]
pub open spec fn none_lost(r: Seq<DesktopAppView>, fs: Seq<DesktopAppView>, n: int) -> bool {
    forall|m: int| 0 <= m < n && first_of_key(fs, m) ==> in_list(r, #[trigger] fs[m])
}

/// Every key among `fs[..n]` is a key of `r`.
#[verifier::opaque]
pub open spec fn keys_seen(r: Seq<DesktopAppView>, fs: Seq<DesktopAppView>, n: int) -> bool {
    forall|m: int| 0 <= m < n ==> has_key(r, app_key(#[trigger] fs[m]))
}

impl DesktopApp {
    pub fn copy(&self) -> (r: Self)
        ensures
            r@ == self@,
    {
        DesktopApp {
            name: self.name.clone(),
            command: self.command.clone(),
            icon: self.icon.clone(),
            path: self.path.clone(),
        }
    }
}

fn find_key(keys: &Vec<Vec<char>>, k: &[char]) -> (r: Option<usize>)
    ensures
        match r {
            Some(q) => q < keys@.len() && keys@[q as int]@ == k@,
            None => forall|i: int| 0 <= i < keys@.len() ==> #[trigger] keys@[i]@ != k@,
        },
{
    let mut q: usize = 0;
    while q < keys.len()
        invariant
            q <= keys@.len(),
            forall|i: int| 0 <= i < q ==> #[trigger] keys@[i]@ != k@,
        decreases keys@.len() - q,
    {
        if eq_chars(keys[q].as_slice(), k) {
            return Some(q);
        }
        q = q + 1;
    }
    None
}

/// Where `k` goes among the increasing `keys`, none of them `k`.
fn insert_point(keys: &Vec<Vec<char>>, k: &[char]) -> (p: usize)
    requires
        forall|i: int, j: int| 0 <= i < j < keys@.len() ==> text_lt(#[trigger] keys@[i]@, #[trigger] keys@[j]@),
        forall|i: int| 0 <= i < keys@.len() ==> #[trigger] keys@[i]@ != k@,
    ensures
        p <= keys@.len(),
        forall|i: int| 0 <= i < p ==> text_lt(#[trigger] keys@[i]@, k@),
        forall|i: int| p <= i < keys@.len() ==> text_lt(k@, #[trigger] keys@[i]@),
{
    let mut p: usize = 0;
    while p < keys.len() && !text_less(k, keys[p].as_slice())
        invariant
            p <= keys@.len(),
            forall|i: int| 0 <= i < p ==> text_lt(#[trigger] keys@[i]@, k@),
            forall|i: int| 0 <= i < keys@.len() ==> #[trigger] keys@[i]@ != k@,
        decreases keys@.len() - p,
    {
        proof {
            lemma_text_lt_total(keys@[p as int]@, k@);
        }
        p = p + 1;
    }
    proof {
        assert forall|i: int| p <= i < keys@.len() implies text_lt(k@, #[trigger] keys@[i]@) by {
            if i > p {
                lemma_text_lt_transitive(k@, keys@[p as int]@, keys@[i]@);
            }
        }
    }
    p
}

proof fn lemma_all_first_grow(r: Seq<DesktopAppView>, fs: Seq<DesktopAppView>, n: int)
    requires
        all_first(r, fs, n),
    ensures
        all_first(r, fs, n + 1),
{
    reveal(all_first);
    assert forall|i: int| 0 <= i < r.len() implies listed_first(fs, n + 1, #[trigger] r[i]) by {
        assert(listed_first(fs, n, r[i]));
        let m = choose|m: int| #![trigger fs[m]] 0 <= m < n && first_of_key(fs, m) && fs[m] == r[i];
        assert(0 <= m < n + 1 && first_of_key(fs, m) && fs[m] == r[i]);
    }
}

proof fn lemma_listed_not_first(os: Seq<DesktopAppView>, fs: Seq<DesktopAppView>, j: int, q: int)
    requires
        0 <= j < fs.len(),
        0 <= q < os.len(),
        app_key(os[q]) == app_key(fs[j]),
        all_first(os, fs, j),
    ensures
        !first_of_key(fs, j),
{
    reveal(all_first);
    assert(listed_first(fs, j, os[q]));
    let m = choose|m: int| #![trigger fs[m]] 0 <= m < j && first_of_key(fs, m) && fs[m] == os[q];
    assert(app_key(fs[m]) == app_key(fs[j]));
}

proof fn lemma_none_lost_skip(r: Seq<DesktopAppView>, fs: Seq<DesktopAppView>, j: int)
    requires
        none_lost(r, fs, j),
        !first_of_key(fs, j),
    ensures
        none_lost(r, fs, j + 1),
{
    reveal(none_lost);
    assert forall|m: int| 0 <= m < j + 1 && first_of_key(fs, m) implies in_list(r, #[trigger] fs[m]) by {
        if m < j {
            assert(in_list(r, fs[m]));
        }
    }
}

proof fn lemma_keys_seen_witness(r: Seq<DesktopAppView>, fs: Seq<DesktopAppView>, j: int, q: int)
    requires
        keys_seen(r, fs, j),
        0 <= q < r.len(),
        app_key(r[q]) == app_key(fs[j]),
    ensures
        keys_seen(r, fs, j + 1),
{
    reveal(keys_seen);
    assert forall|m: int| 0 <= m < j + 1 implies has_key(r, app_key(#[trigger] fs[m])) by {
        if m == j {
            assert(app_key(r[q]) == app_key(fs[m]));
        } else {
            assert(has_key(r, app_key(fs[m])));
        }
    }
}

proof fn lemma_is_first(os: Seq<DesktopAppView>, fs: Seq<DesktopAppView>, j: int)
    requires
        0 <= j < fs.len(),
        keys_seen(os, fs, j),
        forall|i: int| 0 <= i < os.len() ==> app_key(#[trigger] os[i]) != app_key(fs[j]),
    ensures
        first_of_key(fs, j),
{
    reveal(keys_seen);
    assert forall|i: int| 0 <= i < j implies app_key(#[trigger] fs[i]) != app_key(fs[j]) by {
        assert(has_key(os, app_key(fs[i])));
        let w = choose|w: int| #![trigger os[w]] 0 <= w < os.len() && app_key(os[w]) == app_key(fs[i]);
    }
}

proof fn lemma_sorted_insert(os: Seq<DesktopAppView>, a: DesktopAppView, p: int)
    requires
        0 <= p <= os.len(),
        sorted_by_key(os),
        forall|i: int| 0 <= i < p ==> text_lt(app_key(#[trigger] os[i]), app_key(a)),
        forall|i: int| p <= i < os.len() ==> text_lt(app_key(a), app_key(#[trigger] os[i])),
    ensures
        sorted_by_key(os.insert(p, a)),
{
    let ns = os.insert(p, a);
    assert forall|x: int, y: int| 0 <= x < y < ns.len() implies text_lt(
        app_key(#[trigger] ns[x]),
        app_key(#[trigger] ns[y]),
    ) by {
        if y < p {
            assert(ns[x] == os[x] && ns[y] == os[y]);
        } else if y == p {
            assert(ns[x] == os[x]);
        } else if x > p {
            assert(ns[x] == os[x - 1] && ns[y] == os[y - 1]);
        } else if x == p {
            assert(ns[y] == os[y - 1]);
        } else {
            assert(ns[x] == os[x] && ns[y] == os[y - 1]);
            lemma_text_lt_transitive(app_key(os[x]), app_key(a), app_key(os[y - 1]));
        }
    }
}

proof fn lemma_all_first_insert(os: Seq<DesktopAppView>, fs: Seq<DesktopAppView>, j: int, p: int)
    requires
        0 <= j < fs.len(),
        0 <= p <= os.len(),
        first_of_key(fs, j),
        all_first(os, fs, j),
    ensures
        all_first(os.insert(p, fs[j]), fs, j + 1),
{
    reveal(all_first);
    let ns = os.insert(p, fs[j]);
    assert forall|i: int| 0 <= i < ns.len() implies listed_first(fs, j + 1, #[trigger] ns[i]) by {
        if i == p {
            assert(ns[i] == fs[j]);
        } else {
            let o = if i < p {
                i
            } else {
                i - 1
            };
            assert(ns[i] == os[o]);
            assert(listed_first(fs, j, os[o]));
            let m = choose|m: int| #![trigger fs[m]] 0 <= m < j && first_of_key(fs, m) && fs[m] == os[o];
            assert(0 <= m < j + 1 && first_of_key(fs, m) && fs[m] == ns[i]);
        }
    }
}

proof fn lemma_none_lost_insert(os: Seq<DesktopAppView>, fs: Seq<DesktopAppView>, j: int, p: int)
    requires
        0 <= j < fs.len(),
        0 <= p <= os.len(),
        none_lost(os, fs, j),
    ensures
        none_lost(os.insert(p, fs[j]), fs, j + 1),
{
    reveal(none_lost);
    let ns = os.insert(p, fs[j]);
    assert forall|m: int| 0 <= m < j + 1 && first_of_key(fs, m) implies in_list(ns, #[trigger] fs[m]) by {
        if m < j {
            assert(in_list(os, fs[m]));
            let i = choose|i: int| #![trigger os[i]] 0 <= i < os.len() && os[i] == fs[m];
            if i < p {
                assert(ns[i] == os[i]);
            } else {
                assert(ns[i + 1] == os[i]);
            }
        } else {
            assert(ns[p] == fs[m]);
        }
    }
}

proof fn lemma_keys_seen_insert(os: Seq<DesktopAppView>, fs: Seq<DesktopAppView>, j: int, p: int)
    requires
        0 <= j < fs.len(),
        0 <= p <= os.len(),
        keys_seen(os, fs, j),
    ensures
        keys_seen(os.insert(p, fs[j]), fs, j + 1),
{
    reveal(keys_seen);
    let ns = os.insert(p, fs[j]);
    assert forall|m: int| 0 <= m < j + 1 implies has_key(ns, app_key(#[trigger] fs[m])) by {
        if m < j {
            assert(has_key(os, app_key(fs[m])));
            let i = choose|i: int| #![trigger os[i]] 0 <= i < os.len() && app_key(os[i]) == app_key(fs[m]);
            if i < p {
                assert(ns[i] == os[i]);
            } else {
                assert(ns[i + 1] == os[i]);
            }
        } else {
            assert(ns[p] == fs[m]);
        }
    }
}

/// The launcher's list from the entries found, highest-precedence
/// directory first: the first entry of each name (any case) wins, and
/// the list is sorted by name, case-insensitively.
pub fn pick_apps(found: Vec<DesktopApp>) -> (r: Vec<DesktopApp>)
    ensures
        sorted_by_key(app_views(r@)),
        all_first(app_views(r@), app_views(found@), found@.len() as int),
        none_lost(app_views(r@), app_views(found@), found@.len() as int),
{
    let ghost fs = app_views(found@);
    let mut out: Vec<DesktopApp> = Vec::new();
    let mut keys: Vec<Vec<char>> = Vec::new();
    let mut j: usize = 0;
    proof {
        assert(app_views(out@) =~= Seq::<DesktopAppView>::empty());
        reveal(all_first);
        reveal(none_lost);
        reveal(keys_seen);
    }
    while j < found.len()
        invariant
            j <= found@.len(),
            fs == app_views(found@),
            out@.len() == keys@.len(),
            forall|i: int| 0 <= i < keys@.len() ==> #[trigger] keys@[i]@ == app_key(app_views(out@)[i]),
            sorted_by_key(app_views(out@)),
            all_first(app_views(out@), fs, j as int),
            none_lost(app_views(out@), fs, j as int),
            keys_seen(app_views(out@), fs, j as int),
        decreases found@.len() - j,
    {
        let ghost os = app_views(out@);
        assert(fs[j as int] == found@[j as int]@);
        let low = lower_text(found[j].name.as_str());
        let k = chars_of(low.as_str());
        match find_key(&keys, k.as_slice()) {
            Some(q) => {
                proof {
                    assert(keys@[q as int]@ == app_key(os[q as int]));
                    lemma_listed_not_first(os, fs, j as int, q as int);
                    lemma_all_first_grow(os, fs, j as int);
                    lemma_none_lost_skip(os, fs, j as int);
                    lemma_keys_seen_witness(os, fs, j as int, q as int);
                }
            },
            None => {
                proof {
                    assert forall|i: int| 0 <= i < os.len() implies app_key(#[trigger] os[i]) != app_key(
                        fs[j as int],
                    ) by {
                        assert(keys@[i]@ != k@);
                    }
                    lemma_is_first(os, fs, j as int);
                    assert forall|x: int, y: int| 0 <= x < y < keys@.len() implies text_lt(
                        #[trigger] keys@[x]@,
                        #[trigger] keys@[y]@,
                    ) by {
                        assert(keys@[x]@ == app_key(os[x]));
                        assert(keys@[y]@ == app_key(os[y]));
                    }
                }
                let p = insert_point(&keys, k.as_slice());
                proof {
                    assert forall|i: int| 0 <= i < p implies text_lt(app_key(#[trigger] os[i]), app_key(fs[j as int])) by {
                        assert(keys@[i]@ == app_key(os[i]));
                    }
                    assert forall|i: int| p <= i < os.len() implies text_lt(app_key(fs[j as int]), app_key(#[trigger] os[i])) by {
                        assert(keys@[i]@ == app_key(os[i]));
                    }
                    lemma_sorted_insert(os, fs[j as int], p as int);
                    lemma_all_first_insert(os, fs, j as int, p as int);
                    lemma_none_lost_insert(os, fs, j as int, p as int);
                    lemma_keys_seen_insert(os, fs, j as int, p as int);
                }
                let item = found[j].copy();
                let ghost old_keys = keys@;
                out.insert(p, item);
                keys.insert(p, k);
                proof {
                    assert(app_views(out@) =~= os.insert(p as int, fs[j as int]));
                    assert forall|i: int| 0 <= i < keys@.len() implies #[trigger] keys@[i]@ == app_key(
                        app_views(out@)[i],
                    ) by {
                        if i < p {
                            assert(keys@[i] == old_keys[i]);
                        } else if i > p {
                            assert(keys@[i] == old_keys[i - 1]);
                        }
                    }
                }
            },
        }
        j = j + 1;
    }
    out
}

} // verus!
