//! PipeWire (`wpctl`) output: the audio sinks of `wpctl status`, the
//! properties of `wpctl inspect`, and the sink list the settings panel
//! shows once names and the default are resolved.

use vstd::prelude::*;
use crate::data::{opt_view, sink_views, string_views, AudioSink, AudioSinkView};
use crate::text::{
    chars_of, contains_seq, copy_range, dec, eq_chars, ends_with, find_char, has_infix, has_prefix,
    int_chars, lines, lines_of, parse_in, parse_int, set_pred, starts_with, string_of, strip_end,
    strip_start, tree_char, trim, trim_all, trim_end_by, trim_start, trim_start_by, first_index,
    views, TrimSet,
};

verus! {

/// `s` without its tree-drawing characters `│ ├ └ ─`.
pub open spec fn without_tree(s: Seq<char>) -> Seq<char>
    decreases s.len(),
{
    if s.len() == 0 {
        seq![]
    } else if tree_char(s.last()) {
        without_tree(s.drop_last())
    } else {
        without_tree(s.drop_last()).push(s.last())
    }
}

fn drop_tree(cs: &[char]) -> (v: Vec<char>)
    ensures
        v@ == without_tree(cs@),
{
    let mut v: Vec<char> = Vec::new();
    let mut i: usize = 0;
    while i < cs.len()
        invariant
            i <= cs@.len(),
            v@ == without_tree(cs@.take(i as int)),
        decreases cs@.len() - i,
    {
        let c = cs[i];
        proof {
            assert(cs@.take(i + 1).drop_last() =~= cs@.take(i as int));
        }
        if !(c == '\u{2502}' || c == '\u{251c}' || c == '\u{2514}' || c == '\u{2500}') {
            v.push(c);
        }
        i = i + 1;
    }
    proof {
        assert(cs@.take(cs@.len() as int) =~= cs@);
    }
    v
}

/// The block headers of `wpctl status`.
pub open spec fn is_section_name(s: Seq<char>) -> bool {
    s == "Devices"@ || s == "Sinks"@ || s == "Sources"@ || s == "Filters"@ || s == "Streams"@
}

/// The part of a `wpctl status` entry after its default marker and dash.
pub open spec fn entry_body(t: Seq<char>) -> Seq<char> {
    trim_start(trim_start_by(trim_start(trim_start_by(t, set_pred(TrimSet::Only('*')))), set_pred(TrimSet::Only('-'))))
}

/// `s` cut before its first `[`, trimmed (unchanged when there is none).
pub open spec fn before_bracket(s: Seq<char>) -> Seq<char> {
    let b = first_index(s, '[');
    if b < s.len() {
        trim(s.take(b as int))
    } else {
        s
    }
}

/// The sink that a trimmed `wpctl status` entry `t` in block `section`
/// describes: `[*] [-] ID. NAME [tags]`; outside `Sinks:` only an entry
/// tagged `[Audio/Sink]` is a sink.
pub open spec fn sink_of_entry(t: Seq<char>, section: Seq<char>) -> Option<AudioSinkView> {
    let body = entry_body(t);
    let dot = first_index(body, '.');
    if dot >= body.len() {
        None
    } else {
        match parse_in(trim(body.take(dot as int)), false, 0, u32::MAX as int) {
            None => None,
            Some(id) => {
                let name = before_bracket(trim(body.skip(dot + 1 as int)));
                if name.len() == 0 {
                    None
                } else if section != "Sinks"@ && !contains_seq(t, "[Audio/Sink]"@) {
                    None
                } else {
                    Some(AudioSinkView { id: dec(id as nat), name, default: starts_with(t, seq!['*']) })
                }
            },
        }
    }
}

/// Is there a sink with this id?
pub open spec fn has_sink_id(sinks: Seq<AudioSinkView>, id: Seq<char>) -> bool {
    exists|j: int| 0 <= j < sinks.len() && (#[trigger] sinks[j]).id == id
}

/// One `wpctl status` line folded into (sinks so far, current block).
pub open spec fn sinks_step(
    st: (Seq<AudioSinkView>, Seq<char>),
    line: Seq<char>,
) -> (Seq<AudioSinkView>, Seq<char>) {
    let t = trim(without_tree(line));
    if t.len() == 0 {
        st
    } else if ends_with(t, seq![':']) && is_section_name(t.drop_last()) {
        (st.0, t.drop_last())
    } else {
        match sink_of_entry(t, st.1) {
            Some(s) => if has_sink_id(st.0, s.id) {
                st
            } else {
                (st.0.push(s), st.1)
            },
            None => st,
        }
    }
}

pub open spec fn sinks_scan(ls: Seq<Seq<char>>) -> (Seq<AudioSinkView>, Seq<char>)
    decreases ls.len(),
{
    if ls.len() == 0 {
        (seq![], seq![])
    } else {
        sinks_step(sinks_scan(ls.drop_last()), ls.last())
    }
}

/// The sink list never names a sink id twice.
pub proof fn law_sink_ids_distinct(ls: Seq<Seq<char>>)
    ensures
        forall|i: int, j: int|
            0 <= i < j < sinks_scan(ls).0.len() ==> (#[trigger] sinks_scan(ls).0[i]).id != (
            #[trigger] sinks_scan(ls).0[j]).id,
    decreases ls.len(),
{
    if ls.len() > 0 {
        law_sink_ids_distinct(ls.drop_last());
        let st = sinks_scan(ls.drop_last());
        let now = sinks_scan(ls);
        assert(now == sinks_step(st, ls.last()));
        assert forall|i: int, j: int| 0 <= i < j < now.0.len() implies (#[trigger] now.0[i]).id != (
        #[trigger] now.0[j]).id by {
            if now.0.len() > st.0.len() {
                if j == now.0.len() - 1 {
                    assert(now.0[i] == st.0[i]);
                    if now.0[i].id == now.0[j].id {
                        assert(has_sink_id(st.0, now.0[j].id));
                    }
                } else {
                    assert(now.0[i] == st.0[i]);
                    assert(now.0[j] == st.0[j]);
                }
            }
        }
    }
}

/// The block a `wpctl status` line heads, if it is a block header
/// (`Sinks:`, `Sources:`, ... once the tree drawing is gone).
pub open spec fn block_header(line: Seq<char>) -> Option<Seq<char>> {
    let t = trim(without_tree(line));
    if t.len() > 0 && t[t.len() - 1] == ':' && is_section_name(t.drop_last()) {
        Some(t.drop_last())
    } else {
        None
    }
}

/// The block line `k` of `ls` stands in: the name of the last block
/// header above it (empty above the first one).
pub open spec fn block_at(ls: Seq<Seq<char>>, k: int) -> Seq<char>
    decreases k,
{
    if k <= 0 {
        seq![]
    } else {
        match block_header(ls[k - 1]) {
            Some(n) => n,
            None => block_at(ls, k - 1),
        }
    }
}

/// A sink that line `k` of `ls` is allowed to give: the entry, read as a
/// sink, is `s`, and it stands in the `Sinks:` block or is tagged
/// `[Audio/Sink]`.
pub open spec fn sink_from_line(ls: Seq<Seq<char>>, k: int, s: AudioSinkView) -> bool {
    let t = trim(without_tree(ls[k]));
    &&& sink_of_entry(t, "Sinks"@) == Some(s)
    &&& (block_at(ls, k) == "Sinks"@ || contains_seq(t, "[Audio/Sink]"@))
}

/// Some line of `ls` is allowed to give the sink `s`.
pub open spec fn from_sink_line(ls: Seq<Seq<char>>, s: AudioSinkView) -> bool {
    exists|k: int| 0 <= k < ls.len() && sink_from_line(ls, k, s)
}

proof fn lemma_block_tracked(ls: Seq<Seq<char>>)
    ensures
        sinks_scan(ls).1 == block_at(ls, ls.len() as int),
        forall|i: int| 0 <= i < sinks_scan(ls).0.len() ==> from_sink_line(ls, #[trigger] sinks_scan(ls).0[i]),
    decreases ls.len(),
{
    if ls.len() > 0 {
        let init = ls.drop_last();
        lemma_block_tracked(init);
        let n = ls.len() - 1;
        let line = ls.last();
        let t = trim(without_tree(line));
        assert(ls[n] == line);
        assert forall|k: int| 0 <= k <= init.len() implies block_at(init, k) == block_at(ls, k) by {
            lemma_block_at_prefix(ls, init, k);
        }
        if t.len() > 0 {
            assert(ends_with(t, seq![':']) == (t[t.len() - 1] == ':')) by {
                if t[t.len() - 1] == ':' {
                    assert(t.skip(t.len() - 1) =~= seq![':']);
                }
                if ends_with(t, seq![':']) {
                    assert(t.skip(t.len() - 1)[0] == t[t.len() - 1]);
                }
            }
        }
        let st = sinks_scan(init);
        let now = sinks_scan(ls);
        assert forall|i: int| 0 <= i < now.0.len() implies from_sink_line(ls, #[trigger] now.0[i]) by {
            if i < st.0.len() {
                assert(now.0[i] == st.0[i]);
                assert(from_sink_line(init, st.0[i]));
                let k = choose|k: int| 0 <= k < init.len() && sink_from_line(init, k, st.0[i]);
                assert(init[k] == ls[k]);
                lemma_block_at_prefix(ls, init, k);
                assert(sink_from_line(ls, k, now.0[i]));
            } else {
                let sk = now.0[i];
                assert(sink_of_entry(t, st.1) == Some(sk));
                assert(sink_from_line(ls, n, sk));
            }
        }
    }
}

proof fn lemma_block_at_prefix(ls: Seq<Seq<char>>, init: Seq<Seq<char>>, k: int)
    requires
        ls.len() > 0,
        init == ls.drop_last(),
        0 <= k <= init.len(),
    ensures
        block_at(init, k) == block_at(ls, k),
    decreases k,
{
    if k > 0 {
        assert(init[k - 1] == ls[k - 1]);
        lemma_block_at_prefix(ls, init, k - 1);
    }
}

/// Only sinks are listed: every sink `wpctl status` yields is read from
/// an entry that stands in the `Sinks:` block or is tagged
/// `[Audio/Sink]`; an untagged entry of `Sources:` (or any other block)
/// never is.
pub proof fn law_sinks_come_from_sink_entries(ls: Seq<Seq<char>>)
    ensures
        forall|i: int| 0 <= i < sinks_scan(ls).0.len() ==> from_sink_line(ls, #[trigger] sinks_scan(ls).0[i]),
{
    lemma_block_tracked(ls);
}

fn section_name(t: &[char]) -> (r: bool)
    ensures
        r == is_section_name(t@),
{
    eq_chars(t, chars_of("Devices").as_slice()) || eq_chars(t, chars_of("Sinks").as_slice())
        || eq_chars(t, chars_of("Sources").as_slice()) || eq_chars(t, chars_of("Filters").as_slice())
        || eq_chars(t, chars_of("Streams").as_slice())
}

/// The sink that an entry describes (see [`sink_of_entry`]).
fn sink_entry(t: &[char], section: &[char]) -> (r: Option<AudioSink>)
    ensures
        match r {
            Some(s) => sink_of_entry(t@, section@) == Some(s@),
            None => sink_of_entry(t@, section@) is None,
        },
{
    let a = strip_start(t, &TrimSet::Only('*'));
    let b = strip_start(&a, &TrimSet::Space);
    let c = strip_start(&b, &TrimSet::Only('-'));
    let body = strip_start(&c, &TrimSet::Space);
    let dot = find_char(&body, 0, '.');
    proof {
        assert(body@.skip(0) =~= body@);
    }
    if dot >= body.len() {
        return None;
    }
    let id_text = crate::text::trimmed(&body, 0, dot);
    proof {
        assert(body@.subrange(0, dot as int) =~= body@.take(dot as int));
    }
    let id = match parse_int(&id_text, false, 0, u32::MAX as i128) {
        Some(v) => v,
        None => {
            return None;
        },
    };
    let name0 = crate::text::trimmed(&body, dot + 1, body.len());
    proof {
        assert(body@.subrange(dot + 1, body@.len() as int) =~= body@.skip(dot + 1));
        assert(name0@.skip(0) =~= name0@);
    }
    let br = find_char(&name0, 0, '[');
    let name = if br < name0.len() {
        proof {
            assert(name0@.subrange(0, br as int) =~= name0@.take(br as int));
        }
        crate::text::trimmed(&name0, 0, br)
    } else {
        name0
    };
    if name.len() == 0 {
        return None;
    }
    if !eq_chars(section, chars_of("Sinks").as_slice()) && !has_infix(
        t,
        chars_of("[Audio/Sink]").as_slice(),
    ) {
        return None;
    }
    let id_chars = int_chars(id);
    let default = has_prefix(t, &['*']);
    proof {
        assert(seq!['*'] =~= [ '*' ]@);
    }
    Some(AudioSink { id: string_of(&id_chars), name: string_of(&name), default })
}

fn has_id(sinks: &Vec<AudioSink>, id: &String) -> (r: bool)
    ensures
        r == has_sink_id(sink_views(sinks@), id@),
{
    let want = chars_of(id.as_str());
    let mut j: usize = 0;
    while j < sinks.len()
        invariant
            j <= sinks@.len(),
            want@ == id@,
            forall|i: int| 0 <= i < j ==> sink_views(sinks@)[i].id != id@,
        decreases sinks@.len() - j,
    {
        let have = chars_of(sinks[j].id.as_str());
        if eq_chars(&have, &want) {
            assert(sink_views(sinks@)[j as int].id == id@);
            return true;
        }
        j = j + 1;
    }
    false
}

/// `wpctl status` → the audio *sink* nodes as [`AudioSink`]s: every entry
/// of the `Sinks:` block, and elsewhere the entries tagged
/// `[Audio/Sink]` (the virtual filter sink); one per id, in order.
pub fn parse_wpctl_status_sinks(out: &str) -> (sinks: Vec<AudioSink>)
    ensures
        sink_views(sinks@) == sinks_scan(lines(out@)).0,
{
    let cs = chars_of(out);
    let ls = lines_of(&cs);
    let mut sinks: Vec<AudioSink> = Vec::new();
    let mut section: Vec<char> = Vec::new();
    let mut k: usize = 0;
    proof {
        assert(views(ls@).take(0) =~= seq![]);
        assert(sink_views(sinks@) =~= seq![]);
    }
    while k < ls.len()
        invariant
            k <= ls@.len(),
            (sink_views(sinks@), section@) == sinks_scan(views(ls@).take(k as int)),
        decreases ls@.len() - k,
    {
        let ghost line = ls@[k as int]@;
        let ghost prev = (sink_views(sinks@), section@);
        proof {
            assert(views(ls@).take(k + 1).drop_last() =~= views(ls@).take(k as int));
            assert(views(ls@).take(k + 1).last() == line);
        }
        let cleaned = drop_tree(ls[k].as_slice());
        let t = trim_all(&cleaned);
        if t.len() > 0 {
            let is_header = t[t.len() - 1] == ':' && {
                let name = copy_range(&t, 0, t.len() - 1);
                proof {
                    assert(name@ =~= t@.drop_last());
                }
                section_name(&name)
            };
            proof {
                assert(ends_with(t@, seq![':']) == (t@[t@.len() - 1] == ':')) by {
                    if t@[t@.len() - 1] == ':' {
                        assert(t@.skip(t@.len() - 1) =~= seq![':']);
                    }
                    if ends_with(t@, seq![':']) {
                        assert(t@.skip(t@.len() - 1)[0] == t@[t@.len() - 1]);
                    }
                }
            }
            if is_header {
                section = copy_range(&t, 0, t.len() - 1);
                proof {
                    assert(section@ =~= t@.drop_last());
                }
            } else {
                match sink_entry(&t, &section) {
                    Some(s) => {
                        if !has_id(&sinks, &s.id) {
                            sinks.push(s);
                            proof {
                                assert(sink_views(sinks@) =~= prev.0.push(s@));
                            }
                        }
                    },
                    None => {},
                }
            }
        }
        k = k + 1;
    }
    proof {
        assert(views(ls@).take(ls@.len() as int) =~= views(ls@));
    }
    sinks
}

/// The value that one `wpctl inspect` line gives `key`: after the tree
/// decoration, `key`, optional spaces, `=`, then the value trimmed and
/// stripped of its quotes.
pub open spec fn prop_of_line(line: Seq<char>, key: Seq<char>) -> Option<Seq<char>> {
    let t = trim_start_by(line, set_pred(TrimSet::TreeDecor));
    if starts_with(t, key) {
        let rest = trim_start(t.skip(key.len() as int));
        if rest.len() > 0 && rest[0] == '=' {
            Some(
                trim_end_by(
                    trim_start_by(trim(rest.drop_first()), set_pred(TrimSet::Only('"'))),
                    set_pred(TrimSet::Only('"')),
                ),
            )
        } else {
            None
        }
    } else {
        None
    }
}

/// The first line among `ls` that gives `key` a value.
pub open spec fn first_prop(ls: Seq<Seq<char>>, key: Seq<char>) -> Option<Seq<char>>
    decreases ls.len(),
{
    if ls.len() == 0 {
        None
    } else if prop_of_line(ls[0], key) is Some {
        prop_of_line(ls[0], key)
    } else {
        first_prop(ls.drop_first(), key)
    }
}

fn prop_line(line: &[char], key: &[char]) -> (r: Option<Vec<char>>)
    ensures
        match r {
            Some(v) => prop_of_line(line@, key@) == Some(v@),
            None => prop_of_line(line@, key@) is None,
        },
{
    let t = strip_start(line, &TrimSet::TreeDecor);
    if !has_prefix(&t, key) {
        return None;
    }
    let after = copy_range(&t, key.len(), t.len());
    proof {
        assert(after@ =~= t@.skip(key@.len() as int));
    }
    let rest = strip_start(&after, &TrimSet::Space);
    if rest.len() == 0 || rest[0] != '=' {
        return None;
    }
    let value = crate::text::trimmed(&rest, 1, rest.len());
    proof {
        assert(rest@.subrange(1, rest@.len() as int) =~= rest@.drop_first());
    }
    let a = strip_start(&value, &TrimSet::Only('"'));
    let b = strip_end(&a, &TrimSet::Only('"'));
    Some(b)
}

/// Extract one quoted `key = "value"` property from `wpctl inspect`.
pub fn parse_wpctl_prop(out: &str, key: &str) -> (r: Option<String>)
    ensures
        opt_view(r) == first_prop(lines(out@), key@),
{
    let cs = chars_of(out);
    let kc = chars_of(key);
    let ls = lines_of(&cs);
    let mut k: usize = 0;
    proof {
        assert(views(ls@).skip(0) =~= views(ls@));
    }
    while k < ls.len()
        invariant
            k <= ls@.len(),
            views(ls@) == lines(cs@),
            cs@ == out@,
            kc@ == key@,
            first_prop(views(ls@), key@) == first_prop(views(ls@).skip(k as int), key@),
        decreases ls@.len() - k,
    {
        let ghost rest = views(ls@).skip(k as int);
        proof {
            assert(rest[0] == ls@[k as int]@);
        }
        match prop_line(ls[k].as_slice(), &kc) {
            Some(v) => {
                proof {
                    assert(first_prop(rest, key@) == prop_of_line(rest[0], key@));
                }
                return Some(string_of(&v));
            },
            None => {},
        }
        proof {
            assert(rest.drop_first() =~= views(ls@).skip(k + 1));
        }
        k = k + 1;
    }
    proof {
        assert(views(ls@).skip(k as int) =~= seq![]);
    }
    None
}

/// `wpctl inspect @DEFAULT_SINK@` → the default sink's `node.name`.
pub fn parse_wpctl_default_name(out: &str) -> (r: Option<String>)
    ensures
        opt_view(r) == first_prop(lines(out@), "node.name"@),
{
    parse_wpctl_prop(out, "node.name")
}

/// A sink once its `wpctl inspect` output `info` is known: a non-empty
/// `node.description` becomes its name, and it is the default when its
/// `node.name` is the default sink's.
pub open spec fn resolved_sink(s: AudioSinkView, info: Seq<char>, default_name: Option<Seq<char>>) -> AudioSinkView {
    let desc = first_prop(lines(info), "node.description"@);
    let node = first_prop(lines(info), "node.name"@);
    AudioSinkView {
        name: match desc {
            Some(d) => if d.len() > 0 {
                d
            } else {
                s.name
            },
            None => s.name,
        },
        default: s.default || (node is Some && default_name == node),
        ..s
    }
}

/// The sinks of `wpctl status` with their descriptions and the default
/// resolved: `infos[i]` is `wpctl inspect` of `sinks[i]`, `default_info`
/// is `wpctl inspect @DEFAULT_SINK@`.
pub fn resolve_sinks(sinks: &Vec<AudioSink>, default_info: &str, infos: &Vec<String>) -> (r: Vec<
    AudioSink,
>)
    requires
        infos@.len() == sinks@.len(),
    ensures
        r@.len() == sinks@.len(),
        forall|i: int|
            0 <= i < sinks@.len() ==> (#[trigger] r@[i])@ == resolved_sink(
                sinks@[i]@,
                infos@[i]@,
                first_prop(lines(default_info@), "node.name"@),
            ),
{
    let default_name = parse_wpctl_default_name(default_info);
    let mut out: Vec<AudioSink> = Vec::new();
    let mut i: usize = 0;
    while i < sinks.len()
        invariant
            i <= sinks@.len(),
            infos@.len() == sinks@.len(),
            opt_view(default_name) == first_prop(lines(default_info@), "node.name"@),
            out@.len() == i,
            forall|j: int|
                0 <= j < i ==> (#[trigger] out@[j])@ == resolved_sink(
                    sinks@[j]@,
                    infos@[j]@,
                    first_prop(lines(default_info@), "node.name"@),
                ),
        decreases sinks@.len() - i,
    {
        let s = sinks[i].copy();
        let info = infos[i].as_str();
        let desc = parse_wpctl_prop(info, "node.description");
        let node = parse_wpctl_prop(info, "node.name");
        let name = match desc {
            Some(d) => {
                let dc = chars_of(d.as_str());
                if dc.len() > 0 {
                    d
                } else {
                    s.name
                }
            },
            None => s.name,
        };
        let is_default = match (&node, &default_name) {
            (Some(n), Some(dn)) => {
                let a = chars_of(n.as_str());
                let b = chars_of(dn.as_str());
                eq_chars(&a, &b)
            },
            _ => false,
        };
        out.push(AudioSink { id: s.id, name, default: s.default || is_default });
        i = i + 1;
    }
    out
}

} // verus!
