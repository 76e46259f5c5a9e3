//! Clamshell light sleep: the state file that records what `sleep on`
//! tore down so that `sleep off` restores exactly that, and the
//! decisions of the wake path, the status report and the sleep-key
//! daemon.
//!
//! The state file holds `key=value` lines sorted by key (the order of
//! `String`'s `Ord`, i.e. by character code); reading it back gives the
//! same map.

use vstd::prelude::*;
use crate::data::{opt_view, string_views};
use crate::text::{
    all_digits, dec, decimal_value, digit_char, digit_value, digits_value, int_chars, int_text, is_digit,
    parse_in, parse_int, unsigned_value,
    chars_of, copy_range, eq_chars, join_with, joined, find_char, first_index, lemma_first_index, lines, lines_of,
    push_chars, push_str, split_of, split_on, string_of, strip_cr, trim, trimmed, views,
};

verus! {

// ---------------------------------------------------------------------------
// key order

/// `a < b` in the order of `String`'s `Ord` (lexicographic by character
/// code, which is the order of the UTF-8 bytes).
pub open spec fn text_lt(a: Seq<char>, b: Seq<char>) -> bool
    decreases a.len(),
{
    if a.len() == 0 {
        b.len() > 0
    } else if b.len() == 0 {
        false
    } else if a[0] != b[0] {
        a[0] < b[0]
    } else {
        text_lt(a.drop_first(), b.drop_first())
    }
}

pub proof fn lemma_text_lt_irreflexive(a: Seq<char>)
    ensures
        !text_lt(a, a),
    decreases a.len(),
{
    if a.len() > 0 {
        lemma_text_lt_irreflexive(a.drop_first());
    }
}

pub proof fn lemma_text_lt_transitive(a: Seq<char>, b: Seq<char>, c: Seq<char>)
    requires
        text_lt(a, b),
        text_lt(b, c),
    ensures
        text_lt(a, c),
    decreases a.len(),
{
    if a.len() > 0 && b.len() > 0 && c.len() > 0 {
        if a[0] == b[0] && b[0] == c[0] {
            lemma_text_lt_transitive(a.drop_first(), b.drop_first(), c.drop_first());
        }
    }
}

pub proof fn lemma_text_lt_total(a: Seq<char>, b: Seq<char>)
    ensures
        a == b || text_lt(a, b) || text_lt(b, a),
    decreases a.len(),
{
    if a.len() > 0 && b.len() > 0 && a[0] == b[0] {
        lemma_text_lt_total(a.drop_first(), b.drop_first());
        if a.drop_first() == b.drop_first() {
            assert(a =~= seq![a[0]] + a.drop_first());
            assert(b =~= seq![b[0]] + b.drop_first());
        }
    } else if a.len() == 0 && b.len() == 0 {
        assert(a =~= b);
    }
}

pub proof fn lemma_text_lt_asymmetric(a: Seq<char>, b: Seq<char>)
    requires
        text_lt(a, b),
    ensures
        !text_lt(b, a),
        a != b,
{
    if text_lt(b, a) {
        lemma_text_lt_transitive(a, b, a);
        lemma_text_lt_irreflexive(a);
    }
    if a == b {
        lemma_text_lt_irreflexive(a);
    }
}

/// `a < b` (see [`text_lt`]).
pub fn text_less(a: &[char], b: &[char]) -> (r: bool)
    ensures
        r == text_lt(a@, b@),
{
    let mut i: usize = 0;
    proof {
        assert(a@.skip(0) =~= a@);
        assert(b@.skip(0) =~= b@);
    }
    while i < a.len() && i < b.len()
        invariant
            i <= a@.len(),
            i <= b@.len(),
            text_lt(a@, b@) == text_lt(a@.skip(i as int), b@.skip(i as int)),
        decreases a@.len() - i,
    {
        proof {
            assert(a@.skip(i as int)[0] == a@[i as int]);
            assert(b@.skip(i as int)[0] == b@[i as int]);
            assert(a@.skip(i as int).drop_first() =~= a@.skip(i + 1));
            assert(b@.skip(i as int).drop_first() =~= b@.skip(i + 1));
        }
        if a[i] != b[i] {
            return a[i] < b[i];
        }
        i = i + 1;
    }
    i < b.len()
}

// ---------------------------------------------------------------------------
// the state map

pub type Entries = Seq<(Seq<char>, Seq<char>)>;

/// Keys strictly increasing (so each key occurs once).
pub open spec fn sorted_keys(es: Entries) -> bool {
    forall|i: int, j: int| 0 <= i < j < es.len() ==> text_lt(#[trigger] es[i].0, #[trigger] es[j].0)
}

/// The map that the entries `es` describe (a later entry for a key wins).
pub open spec fn entries_map(es: Entries) -> Map<Seq<char>, Seq<char>>
    decreases es.len(),
{
    if es.len() == 0 {
        Map::empty()
    } else {
        entries_map(es.drop_last()).insert(es.last().0, es.last().1)
    }
}

pub proof fn lemma_entries_map_lookup(es: Entries)
    requires
        sorted_keys(es),
    ensures
        forall|k: Seq<char>|
            #[trigger] entries_map(es).contains_key(k) <==> exists|j: int|
                0 <= j < es.len() && es[j].0 == k,
        forall|j: int| 0 <= j < es.len() ==> entries_map(es)[#[trigger] es[j].0] == es[j].1,
        entries_map(es).dom().finite(),
        entries_map(es).dom().len() == es.len(),
    decreases es.len(),
{
    if es.len() > 0 {
        let pre = es.drop_last();
        assert(sorted_keys(pre)) by {
            assert forall|i: int, j: int| 0 <= i < j < pre.len() implies text_lt(
                #[trigger] pre[i].0,
                #[trigger] pre[j].0,
            ) by {
                assert(pre[i] == es[i] && pre[j] == es[j]);
            }
        }
        lemma_entries_map_lookup(pre);
        let last = es.last();
        assert(!entries_map(pre).contains_key(last.0)) by {
            if entries_map(pre).contains_key(last.0) {
                let j = choose|j: int| 0 <= j < pre.len() && pre[j].0 == last.0;
                assert(es[j] == pre[j]);
                assert(text_lt(es[j].0, es[es.len() - 1].0));
                lemma_text_lt_irreflexive(last.0);
            }
        }
        assert forall|k: Seq<char>| #[trigger] entries_map(es).contains_key(k) <==> exists|j: int|
            0 <= j < es.len() && es[j].0 == k by {
            if entries_map(es).contains_key(k) && k != last.0 {
                let j = choose|j: int| 0 <= j < pre.len() && pre[j].0 == k;
                assert(es[j] == pre[j]);
            }
            if exists|j: int| 0 <= j < es.len() && es[j].0 == k {
                let j = choose|j: int| 0 <= j < es.len() && es[j].0 == k;
                if j < pre.len() {
                    assert(es[j] == pre[j]);
                }
            }
        }
        assert forall|j: int| 0 <= j < es.len() implies entries_map(es)[#[trigger] es[j].0]
            == es[j].1 by {
            if j < pre.len() {
                assert(es[j] == pre[j]);
                assert(text_lt(es[j].0, es[es.len() - 1].0));
                lemma_text_lt_asymmetric(es[j].0, last.0);
            }
        }
    }
}

/// A `key=value` map as the state file holds it. Its entries are kept
/// sorted by key.
pub struct StateMap {
    entries: Vec<(String, String)>,
}

pub open spec fn entry_views(v: Seq<(String, String)>) -> Entries {
    v.map_values(|e: (String, String)| (e.0@, e.1@))
}

impl View for StateMap {
    type V = Map<Seq<char>, Seq<char>>;

    closed spec fn view(&self) -> Map<Seq<char>, Seq<char>> {
        entries_map(entry_views(self.entries@))
    }
}

/// `es` with `(key, value)` put at `j`: replacing the entry there when it
/// has the key, inserted before it otherwise.
pub open spec fn placed(es: Entries, key: Seq<char>, value: Seq<char>, j: int) -> Entries {
    if j < es.len() && es[j].0 == key {
        es.update(j, (key, value))
    } else {
        es.insert(j, (key, value))
    }
}

proof fn lemma_placed(es: Entries, key: Seq<char>, value: Seq<char>, j: int)
    requires
        sorted_keys(es),
        0 <= j <= es.len(),
        forall|i: int| 0 <= i < j ==> text_lt(#[trigger] es[i].0, key),
        j == es.len() || !text_lt(es[j].0, key),
    ensures
        sorted_keys(placed(es, key, value, j)),
        entries_map(placed(es, key, value, j)) == entries_map(es).insert(key, value),
{
    lemma_entries_map_lookup(es);
    let same = j < es.len() && es[j].0 == key;
    let new_es = placed(es, key, value, j);

            // everything from j on is greater than the key (or equal at j)
            assert forall|i: int| j <= i < es.len() && !(same && i == j) implies text_lt(
                key,
                #[trigger] es[i].0,
            ) by {
                lemma_text_lt_total(es[j].0, key);
                if i > j {
                    if es[j].0 == key {
                        assert(text_lt(es[j].0, es[i].0));
                    } else {
                        lemma_text_lt_transitive(key, es[j].0, es[i].0);
                    }
                }
            }
            assert(sorted_keys(new_es)) by {
                assert forall|a: int, b: int| 0 <= a < b < new_es.len() implies text_lt(
                    #[trigger] new_es[a].0,
                    #[trigger] new_es[b].0,
                ) by {
                    if same {
                        if a == j {
                            assert(es[j].0 == key);
                        } else if b == j {
                            assert(es[j].0 == key);
                        }
                    } else {
                        if b == j {
                        } else if a == j {
                            assert(new_es[b] == es[b - 1]);
                        } else if a > j {
                            assert(new_es[a] == es[a - 1] && new_es[b] == es[b - 1]);
                        } else if b > j {
                            assert(new_es[b] == es[b - 1]);
                            if b - 1 > a {
                            } else {
                                assert(b - 1 == a || b - 1 > a);
                            }
                        }
                    }
                }
            }
            lemma_entries_map_lookup(new_es);
            assert(entries_map(new_es) =~= entries_map(es).insert(key, value)) by {
                assert forall|x: Seq<char>| #[trigger] entries_map(new_es).contains_key(x)
                    <==> entries_map(es).insert(key, value).contains_key(x) by {
                    if entries_map(new_es).contains_key(x) {
                        let i = choose|i: int| 0 <= i < new_es.len() && new_es[i].0 == x;
                        if x != key {
                            if same {
                                assert(es[i].0 == x);
                            } else if i < j {
                                assert(es[i].0 == x);
                            } else {
                                assert(es[i - 1].0 == x);
                            }
                        }
                    }
                    if entries_map(es).contains_key(x) && x != key {
                        let i = choose|i: int| 0 <= i < es.len() && es[i].0 == x;
                        if same || i < j {
                            assert(new_es[i].0 == x);
                        } else {
                            assert(new_es[i + 1].0 == x);
                        }
                    }
                    if x == key {
                        assert(new_es[j].0 == x);
                    }
                }
                assert forall|x: Seq<char>| #[trigger] entries_map(new_es).contains_key(x) implies
                    entries_map(new_es)[x] == entries_map(es).insert(key, value)[x] by {
                    let i = choose|i: int| 0 <= i < new_es.len() && new_es[i].0 == x;
                    if x != key {
                        if same || i < j {
                            assert(es[i].0 == x);
                            assert(entries_map(es)[es[i].0] == es[i].1);
                        } else {
                            assert(es[i - 1].0 == x);
                            assert(entries_map(es)[es[i - 1].0] == es[i - 1].1);
                        }
                    } else {
                        assert(new_es[j].0 == x);
                        assert(entries_map(new_es)[new_es[j].0] == new_es[j].1);
                    }
                }
            }
        }

fn key_less_at(es: &Vec<(String, String)>, j: usize, k: &Vec<char>) -> (r: bool)
    requires
        j < es@.len(),
    ensures
        r == text_lt(es@[j as int].0@, k@),
{
    let ek = chars_of(es[j].0.as_str());
    text_less(&ek, k)
}

impl StateMap {
    /// The entries in key order.
    pub closed spec fn entries(&self) -> Entries {
        entry_views(self.entries@)
    }

    #[verifier::type_invariant]
    spec fn wf(&self) -> bool {
        sorted_keys(entry_views(self.entries@))
    }

    pub fn new() -> (m: Self)
        ensures
            m@ == Map::<Seq<char>, Seq<char>>::empty(),
            m.entries().len() == 0,
    {
        let m = StateMap { entries: Vec::new() };
        assert(entry_views(m.entries@) =~= seq![]);
        m
    }

    /// Set `key` to `value`.
    pub fn insert(&mut self, key: String, value: String)
        ensures
            final(self)@ == old(self)@.insert(key@, value@),
    {
        proof {
            use_type_invariant(&*self);
        }
        let k = chars_of(key.as_str());
        let ghost es = entry_views(self.entries@);
        let mut j: usize = 0;
        while j < self.entries.len() && key_less_at(&self.entries, j, &k)
            invariant
                es == entry_views(self.entries@),
                sorted_keys(es),
                k@ == key@,
                j <= es.len(),
                forall|i: int| 0 <= i < j ==> text_lt(#[trigger] es[i].0, key@),
            decreases es.len() - j,
        {
            j = j + 1;
        }
        proof {
            lemma_entries_map_lookup(es);
        }
        let same = j < self.entries.len() && {
            let ek = chars_of(self.entries[j].0.as_str());
            eq_chars(&ek, &k)
        };
        let ghost new_es = placed(es, key@, value@, j as int);
        proof {
            lemma_placed(es, key@, value@, j as int);
        }
        let mut es_v: Vec<(String, String)> = Vec::new();
        proof {
            assert(entry_views(es_v@) =~= seq![]);
        }
        std::mem::swap(&mut es_v, &mut self.entries);
        if same {
            es_v.set(j, (key, value));
        } else {
            es_v.insert(j, (key, value));
        }
        proof {
            assert(entry_views(es_v@) =~= new_es);
        }
        self.entries = es_v;
    }

    /// The value of `key`, if set.
    pub fn get(&self, key: &str) -> (r: Option<String>)
        ensures
            opt_view(r) == (if self@.contains_key(key@) {
                Some(self@[key@])
            } else {
                None
            }),
    {
        proof {
            use_type_invariant(self);
            lemma_entries_map_lookup(self.entries());
        }
        let k = chars_of(key);
        let mut j: usize = 0;
        while j < self.entries.len()
            invariant
                j <= self.entries@.len(),
                k@ == key@,
                forall|i: int| 0 <= i < j ==> (#[trigger] self.entries()[i]).0 != key@,
            decreases self.entries@.len() - j,
        {
            let ek = chars_of(self.entries[j].0.as_str());
            proof {
                assert(self.entries()[j as int].0 == ek@);
            }
            if eq_chars(&ek, &k) {
                proof {
                    use_type_invariant(self);
                    lemma_entries_map_lookup(self.entries());
                    assert(self@[self.entries()[j as int].0] == self.entries()[j as int].1);
                }
                return Some(self.entries[j].1.clone());
            }
            j = j + 1;
        }
        proof {
            use_type_invariant(self);
            lemma_entries_map_lookup(self.entries());
        }
        None
    }

    /// The entries, in key order.
    pub fn pairs(&self) -> (r: Vec<(String, String)>)
        ensures
            entry_views(r@) == self.entries(),
    {
        let mut r: Vec<(String, String)> = Vec::new();
        let mut j: usize = 0;
        while j < self.entries.len()
            invariant
                j <= self.entries@.len(),
                entry_views(r@) == self.entries().take(j as int),
            decreases self.entries@.len() - j,
        {
            let e = (self.entries[j].0.clone(), self.entries[j].1.clone());
            let ghost before = r@;
            r.push(e);
            proof {
                assert(entry_views(r@) =~= entry_views(before).push(self.entries()[j as int]));
                assert(self.entries().take(j + 1) =~= self.entries().take(j as int).push(
                    self.entries()[j as int],
                ));
            }
            j = j + 1;
        }
        proof {
            assert(self.entries().take(self.entries().len() as int) =~= self.entries());
        }
        r
    }
}

// ---------------------------------------------------------------------------
// the state file

/// One state-file line: split at its first `=`, key and value trimmed
/// (`None` for a line without `=`).
pub open spec fn state_line(l: Seq<char>) -> Option<(Seq<char>, Seq<char>)> {
    let i = first_index(l, '=');
    if i < l.len() {
        Some((trim(l.take(i as int)), trim(l.skip(i + 1 as int))))
    } else {
        None
    }
}

/// The map that the lines `ls` of a state file give (a later line for a
/// key wins).
pub open spec fn parsed_state(ls: Seq<Seq<char>>) -> Map<Seq<char>, Seq<char>>
    decreases ls.len(),
{
    if ls.len() == 0 {
        Map::empty()
    } else {
        match state_line(ls.last()) {
            Some(kv) => parsed_state(ls.drop_last()).insert(kv.0, kv.1),
            None => parsed_state(ls.drop_last()),
        }
    }
}

/// Read a state file's text.
pub fn parse_state(text: &str) -> (m: StateMap)
    ensures
        m@ == parsed_state(lines(text@)),
{
    let cs = chars_of(text);
    let ls = lines_of(&cs);
    let mut m = StateMap::new();
    let mut k: usize = 0;
    proof {
        assert(views(ls@).take(0) =~= seq![]);
    }
    while k < ls.len()
        invariant
            k <= ls@.len(),
            m@ == parsed_state(views(ls@).take(k as int)),
        decreases ls@.len() - k,
    {
        let line = ls[k].as_slice();
        proof {
            assert(views(ls@).take(k + 1).drop_last() =~= views(ls@).take(k as int));
            assert(views(ls@).take(k + 1).last() == line@);
        }
        let eq = find_char(line, 0, '=');
        proof {
            assert(line@.skip(0) =~= line@);
        }
        if eq < line.len() {
            let key = trimmed(line, 0, eq);
            let value = trimmed(line, eq + 1, line.len());
            proof {
                assert(line@.subrange(0, eq as int) =~= line@.take(eq as int));
                assert(line@.subrange(eq + 1, line@.len() as int) =~= line@.skip(eq + 1));
            }
            m.insert(string_of(&key), string_of(&value));
        }
        k = k + 1;
    }
    proof {
        assert(views(ls@).take(ls@.len() as int) =~= views(ls@));
    }
    m
}

/// `key=value` for an entry.
pub open spec fn entry_line(e: (Seq<char>, Seq<char>)) -> Seq<char> {
    e.0 + seq!['='] + e.1
}

/// The state file text for entries: one `key=value` line each, in order.
pub open spec fn state_text(es: Entries) -> Seq<char>
    decreases es.len(),
{
    if es.len() == 0 {
        seq![]
    } else {
        entry_line(es[0]) + seq!['\n'] + state_text(es.drop_first())
    }
}

proof fn lemma_state_text_push(es: Entries, e: (Seq<char>, Seq<char>))
    ensures
        state_text(es.push(e)) == state_text(es) + entry_line(e) + seq!['\n'],
    decreases es.len(),
{
    if es.len() == 0 {
        assert(es.push(e).drop_first() =~= seq![]);
        assert(es.push(e)[0] == e);
        assert(state_text(es.push(e).drop_first()) == Seq::<char>::empty());
        assert(state_text(es) == Seq::<char>::empty());
        assert(state_text(es.push(e)) =~= entry_line(e) + seq!['\n']);
    } else {
        lemma_state_text_push(es.drop_first(), e);
        assert(es.push(e).drop_first() =~= es.drop_first().push(e));
        assert(state_text(es.push(e)) =~= state_text(es) + entry_line(e) + seq!['\n']);
    }
}

/// The state file text of `m`: its entries in key order.
pub fn render_state(m: &StateMap) -> (s: String)
    ensures
        s@ == state_text(m.entries()),
        sorted_keys(m.entries()),
        entries_map(m.entries()) == m@,
{
    proof {
        use_type_invariant(m);
    }
    let es = m.pairs();
    let mut out: Vec<char> = Vec::new();
    let mut i: usize = 0;
    proof {
        assert(entry_views(es@).take(0) =~= seq![]);
    }
    while i < es.len()
        invariant
            i <= es@.len(),
            out@ == state_text(entry_views(es@).take(i as int)),
        decreases es@.len() - i,
    {
        push_str(&mut out, es[i].0.as_str());
        out.push('=');
        push_str(&mut out, es[i].1.as_str());
        out.push('\n');
        proof {
            let pre = entry_views(es@).take(i as int);
            let e = entry_views(es@)[i as int];
            lemma_state_text_push(pre, e);
            assert(entry_views(es@).take(i + 1) =~= pre.push(e));
            assert(out@ =~= state_text(pre) + entry_line(e) + seq!['\n']);
        }
        i = i + 1;
    }
    proof {
        assert(entry_views(es@).take(es@.len() as int) =~= entry_views(es@));
    }
    string_of(&out)
}

/// An entry that survives the state file unchanged: the key holds no
/// `=`, neither holds a line break, and neither has surrounding
/// whitespace.
pub open spec fn clean_entry(e: (Seq<char>, Seq<char>)) -> bool {
    &&& forall|i: int| 0 <= i < e.0.len() ==> #[trigger] e.0[i] != '=' && e.0[i] != '\n'
    &&& forall|i: int| 0 <= i < e.1.len() ==> #[trigger] e.1[i] != '\n'
    &&& trim(e.0) == e.0
    &&& trim(e.1) == e.1
}

proof fn lemma_trimmed_last(s: Seq<char>)
    requires
        trim(s) == s,
        s.len() > 0,
    ensures
        !crate::text::is_ws(s.last()),
{
    let t = crate::text::trim_start(s);
    assert(crate::text::trim_end(t) == s);
    if crate::text::is_ws(s.last()) {
        lemma_trim_end_len(t);
        if t.len() > 0 && crate::text::is_ws(t.last()) {
            lemma_trim_end_len(t.drop_last());
        }
        lemma_trim_start_len(s);
        if s.len() > 0 && crate::text::is_ws(s[0]) {
            lemma_trim_start_len(s.drop_first());
        }
        lemma_trim_start_suffix(s);
        assert(t.len() > 0 ==> t.last() == s.last());
    }
}

proof fn lemma_trim_end_len(s: Seq<char>)
    ensures
        crate::text::trim_end(s).len() <= s.len(),
    decreases s.len(),
{
    if s.len() > 0 && crate::text::is_ws(s.last()) {
        lemma_trim_end_len(s.drop_last());
    }
}

proof fn lemma_trim_start_len(s: Seq<char>)
    ensures
        crate::text::trim_start(s).len() <= s.len(),
    decreases s.len(),
{
    if s.len() > 0 && crate::text::is_ws(s[0]) {
        lemma_trim_start_len(s.drop_first());
    }
}

/// `trim_start(s)` is a suffix of `s`.
proof fn lemma_trim_start_suffix(s: Seq<char>)
    ensures
        crate::text::trim_start(s) == s.skip(s.len() - crate::text::trim_start(s).len()),
    decreases s.len(),
{
    lemma_trim_start_len(s);
    if s.len() > 0 && crate::text::is_ws(s[0]) {
        lemma_trim_start_suffix(s.drop_first());
        lemma_trim_start_len(s.drop_first());
        assert(crate::text::ws_pred()(s[0]));
        assert(crate::text::trim_start(s) == crate::text::trim_start(s.drop_first()));
        assert(s.drop_first().skip(s.drop_first().len() - crate::text::trim_start(s).len()) =~= s.skip(
            s.len() - crate::text::trim_start(s).len(),
        ));
    } else {
        assert(s.skip(0) =~= s);
    }
}

proof fn lemma_lines_of_state_text(es: Entries)
    requires
        forall|i: int| 0 <= i < es.len() ==> clean_entry(#[trigger] es[i]),
    ensures
        lines(state_text(es)) == es.map_values(|e: (Seq<char>, Seq<char>)| entry_line(e)),
    decreases es.len(),
{
    if es.len() == 0 {
        assert(es.map_values(|e: (Seq<char>, Seq<char>)| entry_line(e)) =~= seq![]);
    } else {
        let e = es[0];
        assert(clean_entry(e));
        let l = entry_line(e);
        let rest = state_text(es.drop_first());
        let s = state_text(es);
        assert(s == l + seq!['\n'] + rest);
        assert forall|k: int| 0 <= k < l.len() implies s[k] != '\n' by {
            assert(s[k] == l[k]);
            if k < e.0.len() {
                assert(l[k] == e.0[k]);
            } else if k > e.0.len() {
                assert(l[k] == e.1[k - e.0.len() - 1]);
            }
        }
        assert(s[l.len() as int] == '\n');
        crate::text::lemma_first_index_at(s, '\n', l.len() as int);
        assert(s.take(l.len() as int) =~= l);
        assert(s.skip(l.len() + 1 as int) =~= rest);
        assert(strip_cr(l) == l) by {
            if e.1.len() > 0 {
                lemma_trimmed_last(e.1);
                assert(l.last() == e.1.last());
            } else {
                assert(l.last() == '=');
            }
        }
        assert forall|i: int| 0 <= i < es.drop_first().len() implies clean_entry(
            #[trigger] es.drop_first()[i],
        ) by {
            assert(es.drop_first()[i] == es[i + 1]);
        }
        lemma_lines_of_state_text(es.drop_first());
        assert(es.map_values(|e: (Seq<char>, Seq<char>)| entry_line(e)) =~= seq![l]
            + es.drop_first().map_values(|e: (Seq<char>, Seq<char>)| entry_line(e)));
    }
}

proof fn lemma_state_line_of_entry(e: (Seq<char>, Seq<char>))
    requires
        clean_entry(e),
    ensures
        state_line(entry_line(e)) == Some(e),
{
    let l = entry_line(e);
    assert forall|k: int| 0 <= k < e.0.len() implies l[k] != '=' by {
        assert(l[k] == e.0[k]);
    }
    crate::text::lemma_first_index_at(l, '=', e.0.len() as int);
    assert(l.take(e.0.len() as int) =~= e.0);
    assert(l.skip(e.0.len() + 1 as int) =~= e.1);
}

proof fn lemma_parsed_entries(es: Entries)
    requires
        forall|i: int| 0 <= i < es.len() ==> clean_entry(#[trigger] es[i]),
    ensures
        parsed_state(es.map_values(|e: (Seq<char>, Seq<char>)| entry_line(e))) == entries_map(es),
    decreases es.len(),
{
    let ls = es.map_values(|e: (Seq<char>, Seq<char>)| entry_line(e));
    if es.len() > 0 {
        assert forall|i: int| 0 <= i < es.drop_last().len() implies clean_entry(
            #[trigger] es.drop_last()[i],
        ) by {
            assert(es.drop_last()[i] == es[i]);
        }
        lemma_parsed_entries(es.drop_last());
        assert(ls.drop_last() =~= es.drop_last().map_values(
            |e: (Seq<char>, Seq<char>)| entry_line(e),
        ));
        assert(clean_entry(es[es.len() - 1]));
        lemma_state_line_of_entry(es.last());
    }
}

/// Reading back a state file gives the map that was written: for entries
/// whose keys hold no `=`, that hold no line break and have no
/// surrounding whitespace, the lines of their state file text parse to
/// the same map.
pub proof fn law_state_roundtrip(es: Entries)
    requires
        forall|i: int| 0 <= i < es.len() ==> clean_entry(#[trigger] es[i]),
    ensures
        parsed_state(lines(state_text(es))) == entries_map(es),
{
    lemma_lines_of_state_text(es);
    lemma_parsed_entries(es);
}

// ---------------------------------------------------------------------------
// decisions around the state

pub open spec fn has_value(m: Map<Seq<char>, Seq<char>>, k: Seq<char>, v: Seq<char>) -> bool {
    m.contains_key(k) && m[k] == v
}

fn value_is(m: &StateMap, key: &str, want: &str) -> (r: bool)
    ensures
        r == has_value(m@, key@, want@),
{
    match m.get(key) {
        Some(v) => {
            let a = chars_of(v.as_str());
            let b = chars_of(want);
            eq_chars(&a, &b)
        },
        None => false,
    }
}

/// Asleep: the state records `state=sleeping`.
pub fn sleeping(state: &StateMap) -> (r: bool)
    ensures
        r == has_value(state@, "state"@, "sleeping"@),
{
    value_is(state, "state", "sleeping")
}

/// The non-empty pieces of `ps`, in order.
pub open spec fn non_empty(ps: Seq<Seq<char>>) -> Seq<Seq<char>>
    decreases ps.len(),
{
    if ps.len() == 0 {
        seq![]
    } else if ps.last().len() == 0 {
        non_empty(ps.drop_last())
    } else {
        non_empty(ps.drop_last()).push(ps.last())
    }
}

/// The comma-separated, non-empty items of `s`.
pub fn comma_items(s: &str) -> (r: Vec<String>)
    ensures
        string_views(r@) == non_empty(split_on(s@, ',')),
{
    let cs = chars_of(s);
    let ps = split_of(&cs, ',');
    let mut r: Vec<String> = Vec::new();
    let mut i: usize = 0;
    proof {
        assert(views(ps@).take(0) =~= seq![]);
        assert(string_views(r@) =~= seq![]);
    }
    while i < ps.len()
        invariant
            i <= ps@.len(),
            string_views(r@) == non_empty(views(ps@).take(i as int)),
        decreases ps@.len() - i,
    {
        proof {
            assert(views(ps@).take(i + 1).drop_last() =~= views(ps@).take(i as int));
            assert(views(ps@).take(i + 1).last() == ps@[i as int]@);
        }
        if ps[i].len() > 0 {
            let ghost before = r@;
            r.push(string_of(ps[i].as_slice()));
            proof {
                assert(string_views(r@) =~= string_views(before).push(ps@[i as int]@));
            }
        }
        i = i + 1;
    }
    proof {
        assert(views(ps@).take(ps@.len() as int) =~= views(ps@));
    }
    r
}

/// `items.join(",")`.
pub fn join_commas(items: &Vec<String>) -> (r: String)
    ensures
        r@ == joined(string_views(items@), ','),
{
    join_with(items, ',')
}

/// One step of entering sleep.
#[derive(Clone, Copy, PartialEq, Eq, Structural, Debug)]
pub enum SleepOnStep {
    /// write `state=sleeping` (and the time) to the state file
    MarkAsleep,
    /// record the backlight level and switch the backlight off
    BacklightOff,
    /// unbind the keyboard matrix and the touchscreen
    InputsOff,
    /// power the A72 cluster down when it is up (while the A53s are up)
    ClusterDown,
    /// take the A53 cpus 1..7 offline and record them
    CpusOffline,
    /// write the state gathered so far
    SaveProgress,
    /// stop the running heavyweight services and record them
    StopServices,
    /// take Wi-Fi down and record that it was up
    WifiDown,
    /// the final write of the state file
    SaveFinal,
}

/// The order of `sleep on`: the sleep is marked in the state file before
/// anything is torn down (so the power-profile watcher stands down first,
/// and a crash mid-way leaves a wakeable device), the backlight goes off
/// next as instant feedback, the A72 cluster goes down while the A53s
/// are still online, and the state is written again before and after
/// the slow steps.
pub open spec fn sleep_on_order() -> Seq<SleepOnStep> {
    seq![
        SleepOnStep::MarkAsleep,
        SleepOnStep::BacklightOff,
        SleepOnStep::InputsOff,
        SleepOnStep::ClusterDown,
        SleepOnStep::CpusOffline,
        SleepOnStep::SaveProgress,
        SleepOnStep::StopServices,
        SleepOnStep::WifiDown,
        SleepOnStep::SaveFinal,
    ]
}

/// The steps `sleep on` takes: none when the state already says asleep,
/// else [`sleep_on_order`].
pub fn sleep_on_plan(state: &StateMap) -> (r: Vec<SleepOnStep>)
    ensures
        has_value(state@, "state"@, "sleeping"@) ==> r@.len() == 0,
        !has_value(state@, "state"@, "sleeping"@) ==> r@ == sleep_on_order(),
        // the sleep is marked before any teardown step
        r@.len() > 0 ==> r@[0] == SleepOnStep::MarkAsleep,
        forall|i: int| 0 < i < r@.len() ==> r@[i] != SleepOnStep::MarkAsleep,
{
    if sleeping(state) {
        return Vec::new();
    }
    let r = vec![
        SleepOnStep::MarkAsleep,
        SleepOnStep::BacklightOff,
        SleepOnStep::InputsOff,
        SleepOnStep::ClusterDown,
        SleepOnStep::CpusOffline,
        SleepOnStep::SaveProgress,
        SleepOnStep::StopServices,
        SleepOnStep::WifiDown,
        SleepOnStep::SaveFinal,
    ];
    assert(r@ =~= sleep_on_order());
    r
}

// ---------------------------------------------------------------------------
// what a sleep records, and reading it back

proof fn lemma_first_index_concat(a: Seq<char>, x: Seq<char>, c: char)
    ensures
        first_index(a, c) < a.len() ==> first_index(a + x, c) == first_index(a, c),
        first_index(a, c) >= a.len() ==> first_index(a + x, c) == a.len() + first_index(x, c),
    decreases a.len(),
{
    if a.len() > 0 {
        assert((a + x)[0] == a[0]);
        if a[0] != c {
            lemma_first_index_concat(a.drop_first(), x, c);
            assert((a + x).drop_first() =~= a.drop_first() + x);
        }
    } else {
        assert(a + x =~= x);
    }
}

/// Splitting at an added separator splits the two sides apart.
proof fn lemma_split_concat(a: Seq<char>, b: Seq<char>, c: char)
    ensures
        split_on(a + seq![c] + b, c) == split_on(a, c) + split_on(b, c),
    decreases a.len(),
{
    let s = a + seq![c] + b;
    lemma_first_index(a, c);
    lemma_first_index_concat(a, seq![c] + b, c);
    assert(s =~= a + (seq![c] + b));
    let i = first_index(a, c);
    if i >= a.len() {
        assert(first_index(seq![c] + b, c) == 0);
        assert(s.take(a.len() as int) =~= a);
        assert(s.skip(a.len() + 1 as int) =~= b);
    } else {
        let r = a.skip(i + 1 as int);
        lemma_split_concat(r, b, c);
        assert(s.take(i as int) =~= a.take(i as int));
        assert(s.skip(i + 1 as int) =~= r + seq![c] + b);
        assert(split_on(a, c) == seq![a.take(i as int)] + split_on(r, c));
        assert(seq![a.take(i as int)] + (split_on(r, c) + split_on(b, c)) =~= (seq![a.take(i as int)]
            + split_on(r, c)) + split_on(b, c));
    }
}

proof fn lemma_split_plain(b: Seq<char>, c: char)
    requires
        !b.contains(c),
    ensures
        split_on(b, c) == seq![b],
{
    lemma_first_index(b, c);
    if first_index(b, c) < b.len() {
        assert(b[first_index(b, c) as int] == c);
    }
}

/// Joining items that hold no separator, then splitting, gives the items.
proof fn lemma_split_joined(items: Seq<Seq<char>>, c: char)
    requires
        items.len() >= 1,
        forall|i: int| 0 <= i < items.len() ==> !(#[trigger] items[i]).contains(c),
    ensures
        split_on(joined(items, c), c) == items,
    decreases items.len(),
{
    let last = items.last();
    lemma_split_plain(last, c);
    if items.len() == 1 {
        assert(items =~= seq![last]);
    } else {
        let init = items.drop_last();
        assert forall|i: int| 0 <= i < init.len() implies !(#[trigger] init[i]).contains(c) by {
            assert(init[i] == items[i]);
        }
        lemma_split_joined(init, c);
        lemma_split_concat(joined(init, c), last, c);
        assert(init + seq![last] =~= items);
    }
}

proof fn lemma_non_empty_all(ps: Seq<Seq<char>>)
    requires
        forall|i: int| 0 <= i < ps.len() ==> (#[trigger] ps[i]).len() > 0,
    ensures
        non_empty(ps) == ps,
    decreases ps.len(),
{
    if ps.len() > 0 {
        let init = ps.drop_last();
        assert forall|i: int| 0 <= i < init.len() implies (#[trigger] init[i]).len() > 0 by {
            assert(init[i] == ps[i]);
        }
        lemma_non_empty_all(init);
        assert(init.push(ps.last()) =~= ps);
    }
}

proof fn lemma_dec_digits(n: nat)
    ensures
        dec(n).len() > 0,
        all_digits(dec(n)),
        digits_value(dec(n)) == n,
    decreases n,
{
    if n < 10 {
        assert(digit_char(n as int) as u32 == n + 48);
        assert(dec(n)[0] == digit_char(n as int));
        assert(dec(n).drop_last() =~= Seq::<char>::empty());
        assert(digit_value(dec(n).last()) == n);
        assert(digits_value(dec(n).drop_last()) == 0);
        assert(digits_value(dec(n)) == n);
    } else {
        lemma_dec_digits(n / 10);
        let d = dec(n / 10);
        let x = digit_char((n % 10) as int);
        assert(x as u32 == (n % 10) + 48);
        let s = d.push(x);
        assert(s.drop_last() =~= d);
        assert forall|i: int| 0 <= i < s.len() implies is_digit(#[trigger] s[i]) by {
            if i < d.len() {
                assert(s[i] == d[i]);
            }
        }
        assert(digit_value(s.last()) == n % 10);
        assert(digits_value(s) == digits_value(d) * 10 + digit_value(s.last()));
        assert(n == (n / 10) * 10 + n % 10);
        assert(dec(n) == s);
        assert(digits_value(dec(n)) == n);
    }
}

/// The decimal texts of the cpu numbers `cs`.
pub open spec fn cpu_texts(cs: Seq<u32>) -> Seq<Seq<char>> {
    cs.map_values(|c: u32| dec(c as nat))
}

/// The state file's map after a complete `sleep on` that recorded the
/// time `stamp`, the backlight level `pct`, whether the A72 cluster was
/// up, the cpus it took offline (in that order), the services it stopped
/// (in order) and whether it took Wi-Fi down.
pub open spec fn sleep_record(
    stamp: Seq<char>,
    pct: i64,
    a72: bool,
    cpus: Seq<u32>,
    services: Seq<Seq<char>>,
    wifi: bool,
) -> Map<Seq<char>, Seq<char>> {
    let m0 = Map::<Seq<char>, Seq<char>>::empty().insert("state"@, "sleeping"@).insert("stamp"@, stamp).insert(
        "backlight_pct"@,
        int_text(pct as int),
    );
    let m1 = if a72 {
        m0.insert("a72"@, "1"@)
    } else {
        m0
    };
    let m2 = m1.insert("cpus_offline"@, joined(cpu_texts(cpus), ',')).insert("services"@, joined(services, ','));
    if wifi {
        m2.insert("wifi"@, "1"@)
    } else {
        m2
    }
}

/// Record that sleep began at `stamp`.
pub fn record_mark(m: &mut StateMap, stamp: &str)
    ensures
        final(m)@ == old(m)@.insert("state"@, "sleeping"@).insert("stamp"@, stamp@),
{
    m.insert(string_of(&chars_of("state")), string_of(&chars_of("sleeping")));
    m.insert(string_of(&chars_of("stamp")), string_of(&chars_of(stamp)));
}

/// Record the backlight level (percent) before it went off.
pub fn record_backlight(m: &mut StateMap, pct: i64)
    ensures
        final(m)@ == old(m)@.insert("backlight_pct"@, int_text(pct as int)),
{
    m.insert(string_of(&chars_of("backlight_pct")), string_of(&int_chars(pct as i128)));
}

/// Record that the A72 cluster was up.
pub fn record_cluster(m: &mut StateMap)
    ensures
        final(m)@ == old(m)@.insert("a72"@, "1"@),
{
    m.insert(string_of(&chars_of("a72")), string_of(&chars_of("1")));
}

/// Record the cpus taken offline, in the order they went.
pub fn record_cpus(m: &mut StateMap, cpus: &Vec<u32>)
    ensures
        final(m)@ == old(m)@.insert("cpus_offline"@, joined(cpu_texts(cpus@), ',')),
{
    let mut texts: Vec<String> = Vec::new();
    let mut i: usize = 0;
    while i < cpus.len()
        invariant
            i <= cpus@.len(),
            string_views(texts@) == cpu_texts(cpus@.take(i as int)),
        decreases cpus@.len() - i,
    {
        let t = string_of(&int_chars(cpus[i] as i128));
        proof {
            assert(t@ == dec(cpus@[i as int] as nat));
        }
        let ghost before = string_views(texts@);
        texts.push(t);
        proof {
            assert(string_views(texts@) =~= before.push(t@));
            assert(cpus@.take(i + 1) =~= cpus@.take(i as int).push(cpus@[i as int]));
            assert(cpu_texts(cpus@.take(i + 1)) =~= cpu_texts(cpus@.take(i as int)).push(dec(cpus@[i as int] as nat)));
        }
        i = i + 1;
    }
    proof {
        assert(cpus@.take(cpus@.len() as int) =~= cpus@);
    }
    m.insert(string_of(&chars_of("cpus_offline")), join_with(&texts, ','));
}

/// Record the services stopped, in the order they were.
pub fn record_services(m: &mut StateMap, services: &Vec<String>)
    ensures
        final(m)@ == old(m)@.insert("services"@, joined(string_views(services@), ',')),
{
    m.insert(string_of(&chars_of("services")), join_commas(services));
}

/// Record that Wi-Fi was taken down.
pub fn record_wifi(m: &mut StateMap)
    ensures
        final(m)@ == old(m)@.insert("wifi"@, "1"@),
{
    m.insert(string_of(&chars_of("wifi")), string_of(&chars_of("1")));
}

/// The cpus to bring back online from the recorded items: each item that
/// reads as a `u32` other than 0 (cpu0 always stays up), in order.
pub open spec fn cpu_numbers(items: Seq<Seq<char>>) -> Seq<u32>
    decreases items.len(),
{
    if items.len() == 0 {
        seq![]
    } else {
        let prev = cpu_numbers(items.drop_last());
        match parse_in(items.last(), false, 0, u32::MAX as int) {
            Some(v) => if v != 0 {
                prev.push(v as u32)
            } else {
                prev
            },
            None => prev,
        }
    }
}

/// The cpus a recorded `cpus_offline` list brings back online.
pub fn cpus_to_online(list: &str) -> (r: Vec<u32>)
    ensures
        r@ == cpu_numbers(non_empty(split_on(list@, ','))),
        forall|i: int| 0 <= i < r@.len() ==> r@[i] != 0,
{
    let items = comma_items(list);
    let ghost vs = string_views(items@);
    let mut r: Vec<u32> = Vec::new();
    let mut i: usize = 0;
    proof {
        assert(vs.take(0) =~= seq![]);
    }
    while i < items.len()
        invariant
            i <= items@.len(),
            vs == string_views(items@),
            r@ == cpu_numbers(vs.take(i as int)),
            forall|j: int| 0 <= j < r@.len() ==> r@[j] != 0,
        decreases items@.len() - i,
    {
        proof {
            assert(vs.take(i + 1).drop_last() =~= vs.take(i as int));
            assert(vs.take(i + 1).last() == items@[i as int]@);
        }
        match parse_int(chars_of(items[i].as_str()).as_slice(), false, 0, 0xffff_ffff) {
            Some(v) => {
                if v != 0 {
                    r.push(v as u32);
                }
            },
            None => {},
        }
        i = i + 1;
    }
    proof {
        assert(vs.take(vs.len() as int) =~= vs);
    }
    r
}

proof fn lemma_cpu_numbers_of_texts(cpus: Seq<u32>)
    requires
        forall|i: int| 0 <= i < cpus.len() ==> cpus[i] != 0,
    ensures
        cpu_numbers(cpu_texts(cpus)) == cpus,
        forall|i: int| 0 <= i < cpus.len() ==> (#[trigger] cpu_texts(cpus)[i]).len() > 0 && !cpu_texts(
            cpus,
        )[i].contains(','),
    decreases cpus.len(),
{
    if cpus.len() > 0 {
        let init = cpus.drop_last();
        let c = cpus.last();
        lemma_cpu_numbers_of_texts(init);
        assert(cpu_texts(cpus).drop_last() =~= cpu_texts(init));
        lemma_dec_digits(c as nat);
        let t = dec(c as nat);
        assert(cpu_texts(cpus).last() == t);
        assert(t[0] != '+');
        assert(decimal_value(t, false) == Some(c as int));
        assert(init.push(c) =~= cpus);
        assert forall|i: int| 0 <= i < cpus.len() implies (#[trigger] cpu_texts(cpus)[i]).len() > 0
            && !cpu_texts(cpus)[i].contains(',') by {
            lemma_dec_digits(cpus[i] as nat);
            let u = dec(cpus[i] as nat);
            assert(cpu_texts(cpus)[i] == u);
            if u.contains(',') {
                let w = choose|w: int| 0 <= w < u.len() && u[w] == ',';
                assert(is_digit(u[w]));
            }
        }
    }
}

/// What `sleep off` gets back from what `sleep on` recorded: the state
/// says asleep, and the backlight level, the A72 flag, the cpus to bring
/// online (never cpu0), the services to start (exactly those stopped, in
/// order) and the Wi-Fi flag are the ones recorded — for service names
/// that are not empty and hold no comma, and cpu numbers other than 0.
pub proof fn law_sleep_restores_what_was_recorded(
    stamp: Seq<char>,
    pct: i64,
    a72: bool,
    cpus: Seq<u32>,
    services: Seq<Seq<char>>,
    wifi: bool,
)
    requires
        forall|i: int| 0 <= i < services.len() ==> (#[trigger] services[i]).len() > 0 && !services[i].contains(','),
        forall|i: int| 0 <= i < cpus.len() ==> cpus[i] != 0,
    ensures
        ({
            let m = sleep_record(stamp, pct, a72, cpus, services, wifi);
            &&& has_value(m, "state"@, "sleeping"@)
            &&& value_or(m, "backlight_pct"@, "?"@) == int_text(pct as int)
            &&& has_value(m, "a72"@, "1"@) == a72
            &&& has_value(m, "wifi"@, "1"@) == wifi
            &&& m.contains_key("services"@)
            &&& non_empty(split_on(m["services"@], ',')) == services
            &&& cpu_numbers(non_empty(split_on(value_or(m, "cpus_offline"@, "1,2,3,4,5,6,7"@), ','))) == cpus
        }),
{
    reveal_strlit("state");
    reveal_strlit("stamp");
    reveal_strlit("backlight_pct");
    reveal_strlit("a72");
    reveal_strlit("cpus_offline");
    reveal_strlit("services");
    reveal_strlit("wifi");
    reveal_strlit("1");
    reveal_strlit("sleeping");
    assert("state"@ != "stamp"@) by {
        assert("state"@[3] != "stamp"@[3]);
    }
    assert("state"@.len() == 5 && "stamp"@.len() == 5 && "backlight_pct"@.len() == 13 && "a72"@.len() == 3
        && "cpus_offline"@.len() == 12 && "services"@.len() == 8 && "wifi"@.len() == 4);
    assert("state"@ != "backlight_pct"@ && "state"@ != "a72"@ && "state"@ != "cpus_offline"@ && "state"@
        != "services"@ && "state"@ != "wifi"@);
    assert("a72"@ != "stamp"@ && "a72"@ != "backlight_pct"@ && "a72"@ != "cpus_offline"@ && "a72"@
        != "services"@ && "a72"@ != "wifi"@);
    assert("wifi"@ != "stamp"@ && "wifi"@ != "backlight_pct"@ && "wifi"@ != "cpus_offline"@ && "wifi"@
        != "services"@);
    assert("services"@ != "stamp"@ && "services"@ != "backlight_pct"@ && "services"@ != "cpus_offline"@);
    assert("cpus_offline"@ != "stamp"@ && "cpus_offline"@ != "backlight_pct"@);
    assert("backlight_pct"@ != "stamp"@);
    let m = sleep_record(stamp, pct, a72, cpus, services, wifi);
    lemma_cpu_numbers_of_texts(cpus);
    if services.len() == 0 {
        assert(split_on(Seq::<char>::empty(), ',') =~= seq![Seq::<char>::empty()]) by {
            lemma_first_index(Seq::<char>::empty(), ',');
        }
        assert(non_empty(seq![Seq::<char>::empty()]) =~= Seq::<Seq<char>>::empty()) by {
            assert(seq![Seq::<char>::empty()].drop_last() =~= Seq::<Seq<char>>::empty());
            assert(non_empty(Seq::<Seq<char>>::empty()) == Seq::<Seq<char>>::empty());
        }
    } else {
        lemma_split_joined(services, ',');
        lemma_non_empty_all(services);
    }
    let texts = cpu_texts(cpus);
    if cpus.len() == 0 {
        assert(texts =~= Seq::<Seq<char>>::empty());
        assert(split_on(Seq::<char>::empty(), ',') =~= seq![Seq::<char>::empty()]) by {
            lemma_first_index(Seq::<char>::empty(), ',');
        }
        assert(non_empty(seq![Seq::<char>::empty()]) =~= Seq::<Seq<char>>::empty()) by {
            assert(seq![Seq::<char>::empty()].drop_last() =~= Seq::<Seq<char>>::empty());
            assert(non_empty(Seq::<Seq<char>>::empty()) == Seq::<Seq<char>>::empty());
        }
    } else {
        assert(texts.len() == cpus.len());
        lemma_split_joined(texts, ',');
        lemma_non_empty_all(texts);
    }
    assert(has_value(m, "state"@, "sleeping"@));
    assert(value_or(m, "backlight_pct"@, "?"@) == int_text(pct as int));
    assert(has_value(m, "a72"@, "1"@) == a72);
    assert(has_value(m, "wifi"@, "1"@) == wifi);
    assert(m.contains_key("services"@) && m["services"@] == joined(services, ','));
    assert(value_or(m, "cpus_offline"@, "1,2,3,4,5,6,7"@) == joined(texts, ','));
}

/// What `sleep off` restores, from the recorded state.
pub struct WakePlan {
    /// The recorded backlight percentage (`?` when not recorded).
    pub backlight_pct: String,
    /// The A53 cpus to bring back online (all of 1..7 when not recorded).
    pub cpus_offline: String,
    /// The A72 cluster was up.
    pub a72: bool,
    /// The services to start again.
    pub services: Vec<String>,
    /// Wi-Fi was up.
    pub wifi: bool,
    /// The cpus to bring back online, in the recorded order (never cpu0).
    pub cpus: Vec<u32>,
    /// What `sleep off` does, in order.
    pub steps: Vec<WakeStep>,
}

/// One step of waking.
#[derive(Clone, Copy, PartialEq, Eq, Structural, Debug)]
pub enum WakeStep {
    /// the backlight on (instant feedback)
    BacklightOn,
    /// bind the touchscreen, then the keyboard matrix
    InputsOn,
    /// bring the recorded cpus back online
    CpusOnline,
    /// bring the A72 cluster back (after the A53s)
    ClusterUp,
    /// start the recorded services again, in order
    StartServices,
    /// bring Wi-Fi back up
    WifiUp,
    /// remove the state file: the device is awake
    ClearState,
}

/// The order of `sleep off`: visible things first, the cluster after the
/// A53 cpus, and the state file removed last.
pub open spec fn wake_order(a72: bool, services: bool, wifi: bool) -> Seq<WakeStep> {
    seq![WakeStep::BacklightOn, WakeStep::InputsOn, WakeStep::CpusOnline] + (if a72 {
        seq![WakeStep::ClusterUp]
    } else {
        seq![]
    }) + (if services {
        seq![WakeStep::StartServices]
    } else {
        seq![]
    }) + (if wifi {
        seq![WakeStep::WifiUp]
    } else {
        seq![]
    }) + seq![WakeStep::ClearState]
}

fn wake_steps(a72: bool, services: bool, wifi: bool) -> (r: Vec<WakeStep>)
    ensures
        r@ == wake_order(a72, services, wifi),
{
    let mut r: Vec<WakeStep> = vec![WakeStep::BacklightOn, WakeStep::InputsOn, WakeStep::CpusOnline];
    if a72 {
        r.push(WakeStep::ClusterUp);
    }
    if services {
        r.push(WakeStep::StartServices);
    }
    if wifi {
        r.push(WakeStep::WifiUp);
    }
    r.push(WakeStep::ClearState);
    assert(r@ =~= wake_order(a72, services, wifi));
    r
}

pub open spec fn value_or(m: Map<Seq<char>, Seq<char>>, k: Seq<char>, d: Seq<char>) -> Seq<char> {
    if m.contains_key(k) {
        m[k]
    } else {
        d
    }
}

fn get_or(m: &StateMap, key: &str, dflt: &str) -> (r: String)
    ensures
        r@ == value_or(m@, key@, dflt@),
{
    match m.get(key) {
        Some(v) => v,
        None => string_of(&chars_of(dflt)),
    }
}

/// The wake plan: `None` when the state does not record a sleep.
pub fn wake_plan(state: &StateMap) -> (r: Option<WakePlan>)
    ensures
        r is None <==> !has_value(state@, "state"@, "sleeping"@),
        r matches Some(p) ==> {
            &&& p.backlight_pct@ == value_or(state@, "backlight_pct"@, "?"@)
            &&& p.cpus_offline@ == value_or(state@, "cpus_offline"@, "1,2,3,4,5,6,7"@)
            &&& p.a72 == has_value(state@, "a72"@, "1"@)
            &&& p.wifi == has_value(state@, "wifi"@, "1"@)
            &&& p.cpus@ == cpu_numbers(non_empty(split_on(p.cpus_offline@, ',')))
            &&& p.steps@ == wake_order(p.a72, p.services@.len() > 0, p.wifi)
            &&& string_views(p.services@) == (if state@.contains_key("services"@) {
                non_empty(split_on(state@["services"@], ','))
            } else {
                seq![]
            })
        },
{
    if !sleeping(state) {
        return None;
    }
    let services = match state.get("services") {
        Some(v) => comma_items(v.as_str()),
        None => {
            let v: Vec<String> = Vec::new();
            assert(string_views(v@) =~= seq![]);
            v
        },
    };
    let cpus_offline = get_or(state, "cpus_offline", "1,2,3,4,5,6,7");
    let cpus = cpus_to_online(cpus_offline.as_str());
    let a72 = value_is(state, "a72", "1");
    let wifi = value_is(state, "wifi", "1");
    let steps = wake_steps(a72, services.len() > 0, wifi);
    Some(
        WakePlan {
            backlight_pct: get_or(state, "backlight_pct", "?"),
            cpus_offline,
            a72,
            services,
            wifi,
            cpus,
            steps,
        },
    )
}

/// A recorded value, or `(none)` when it is empty.
pub open spec fn or_none(v: Seq<char>) -> Seq<char> {
    if v.len() == 0 {
        "(none)"@
    } else {
        v
    }
}

/// The report `sleep status` prints while asleep.
pub open spec fn asleep_report(m: Map<Seq<char>, Seq<char>>) -> Seq<Seq<char>> {
    let l0 = seq!["state: ASLEEP (since "@ + value_or(m, "stamp"@, "?"@) + ")"@];
    let l1 = if m.contains_key("services"@) {
        l0.push("services stopped: "@ + or_none(m["services"@]))
    } else {
        l0
    };
    let l2 = if m.contains_key("cpus_offline"@) {
        l1.push("cpus offline: "@ + or_none(m["cpus_offline"@]))
    } else {
        l1
    };
    let l3 = if m.contains_key("a72"@) {
        l2.push(
            "A72 cluster: "@ + (if m["a72"@] == "1"@ {
                "was up (will be restored)"@
            } else {
                "was down"@
            }),
        )
    } else {
        l2
    };
    let l4 = if m.contains_key("backlight_pct"@) {
        l3.push("backlight was: "@ + m["backlight_pct"@] + "%"@)
    } else {
        l3
    };
    if m.contains_key("wifi"@) {
        l4.push(
            "wifi was: "@ + (if m["wifi"@] == "1"@ {
                "on (will re-associate)"@
            } else {
                "off"@
            }),
        )
    } else {
        l4
    }
}

fn labelled(label: &str, v: &String, none_if_empty: bool) -> (r: String)
    ensures
        r@ == label@ + (if none_if_empty {
            or_none(v@)
        } else {
            v@
        }),
{
    let mut out = chars_of(label);
    let vc = chars_of(v.as_str());
    if none_if_empty && vc.len() == 0 {
        push_str(&mut out, "(none)");
    } else {
        push_chars(&mut out, &vc);
    }
    string_of(&out)
}

fn push_line(ls: &mut Vec<String>, s: String)
    ensures
        string_views(final(ls)@) == string_views(old(ls)@).push(s@),
{
    let ghost before = ls@;
    ls.push(s);
    assert(string_views(ls@) =~= string_views(before).push(s@));
}

fn cat2(a: &str, b: &str) -> (r: String)
    ensures
        r@ == a@ + b@,
{
    let mut out = chars_of(a);
    push_str(&mut out, b);
    string_of(&out)
}

/// The report of `sleep status` when asleep (`None` when awake: the
/// awake report reads the live system).
pub fn sleep_report(state: &StateMap) -> (r: Option<Vec<String>>)
    ensures
        r is None <==> !has_value(state@, "state"@, "sleeping"@),
        r matches Some(ls) ==> string_views(ls@) == asleep_report(state@),
{
    if !sleeping(state) {
        return None;
    }
    let mut ls: Vec<String> = Vec::new();
    let stamp = get_or(state, "stamp", "?");
    let mut first = chars_of("state: ASLEEP (since ");
    push_str(&mut first, stamp.as_str());
    push_str(&mut first, ")");
    push_line(&mut ls, string_of(&first));
    match state.get("services") {
        Some(v) => push_line(&mut ls, labelled("services stopped: ", &v, true)),
        None => {},
    }
    match state.get("cpus_offline") {
        Some(v) => push_line(&mut ls, labelled("cpus offline: ", &v, true)),
        None => {},
    }
    match state.get("a72") {
        Some(v) => {
            let one = eq_chars(chars_of(v.as_str()).as_slice(), chars_of("1").as_slice());
            push_line(
                &mut ls,
                cat2(
                    "A72 cluster: ",
                    if one {
                        "was up (will be restored)"
                    } else {
                        "was down"
                    },
                ),
            );
        },
        None => {},
    }
    match state.get("backlight_pct") {
        Some(v) => {
            let mut l = chars_of("backlight was: ");
            push_str(&mut l, v.as_str());
            push_str(&mut l, "%");
            push_line(&mut ls, string_of(&l));
        },
        None => {},
    }
    match state.get("wifi") {
        Some(v) => {
            let one = eq_chars(chars_of(v.as_str()).as_slice(), chars_of("1").as_slice());
            push_line(
                &mut ls,
                cat2(
                    "wifi was: ",
                    if one {
                        "on (will re-associate)"
                    } else {
                        "off"
                    },
                ),
            );
        },
        None => {},
    }
    proof {
        assert(string_views(ls@) =~= asleep_report(state@));
    }
    Some(ls)
}

// ---------------------------------------------------------------------------
// the sleep key

/// `EV_KEY` (linux/input-event-codes.h).
pub const EV_KEY: u16 = 0x01;

/// `KEY_SLEEP` (linux/input-event-codes.h).
pub const KEY_SLEEP: u16 = 142;

/// Presses closer than this to a handled press are ignored (one physical
/// press = one toggle even if the polled driver double-reports).
pub const DEBOUNCE_MS: u64 = 1000;

/// What the sleep-key daemon does with one input event.
#[derive(Clone, Copy, PartialEq, Eq, Structural, Debug)]
pub enum KeyAction {
    /// Not a fresh KEY_SLEEP press.
    Ignore,
    /// A press too soon after the last handled one.
    Debounced,
    /// Toggle sleep.
    Toggle,
}

/// The decision for one event (see [`key_action`]).
pub open spec fn key_action_of(ev_type: u16, code: u16, value: i32, since_last_ms: u128) -> KeyAction {
    if ev_type != EV_KEY || code != KEY_SLEEP || value != 1 {
        KeyAction::Ignore
    } else if since_last_ms < DEBOUNCE_MS as u128 {
        KeyAction::Debounced
    } else {
        KeyAction::Toggle
    }
}

/// The daemon's decision for an event of `ev_type`, `code` and `value`
/// arriving `since_last_ms` after the last handled press: only a fresh
/// press (value 1) of KEY_SLEEP counts, and only once the debounce
/// interval has passed.
pub fn key_action(ev_type: u16, code: u16, value: i32, since_last_ms: u128) -> (r: KeyAction)
    ensures
        r == key_action_of(ev_type, code, value, since_last_ms),
        r == KeyAction::Toggle ==> since_last_ms >= DEBOUNCE_MS as u128 && value == 1,
{
    if ev_type != EV_KEY || code != KEY_SLEEP || value != 1 {
        KeyAction::Ignore
    } else if since_last_ms < DEBOUNCE_MS as u128 {
        KeyAction::Debounced
    } else {
        KeyAction::Toggle
    }
}

/// The sleep-key daemon's state: when (in milliseconds on its monotonic
/// clock) it last handled a press, and whether it is discarding the
/// events queued while a toggle ran.
#[derive(Clone, Copy, PartialEq, Eq, Structural, Debug)]
pub struct SleepKey {
    pub last_press_ms: Option<u64>,
    pub draining: bool,
}

/// What the daemon gets: an input event (type, code, value, and the time
/// it was read), or the news that no queued event is left.
#[derive(Clone, Copy, PartialEq, Eq, Structural, Debug)]
pub enum KeyInput {
    Event(u16, u16, i32, u64),
    QueueEmpty,
}

/// What the daemon does with one input.
#[derive(Clone, Copy, PartialEq, Eq, Structural, Debug)]
pub enum KeyStep {
    /// A live event, decided by [`key_action`].
    Act(KeyAction),
    /// An event queued while a toggle ran: dropped.
    Discard,
    /// The queue is drained; live events count again.
    Resume,
}

/// Milliseconds since the last handled press (the longest span when
/// there was none; 0 when the clock reads earlier).
pub open spec fn since_ms(last: Option<u64>, now: u64) -> u128 {
    match last {
        None => u128::MAX,
        Some(t) => if now >= t {
            (now - t) as u128
        } else {
            0
        },
    }
}

pub open spec fn key_step_spec(st: SleepKey, inp: KeyInput) -> (SleepKey, KeyStep) {
    match inp {
        KeyInput::QueueEmpty => (SleepKey { draining: false, ..st }, KeyStep::Resume),
        KeyInput::Event(ty, code, value, now) => if st.draining {
            (st, KeyStep::Discard)
        } else {
            let a = key_action_of(ty, code, value, since_ms(st.last_press_ms, now));
            if a == KeyAction::Toggle {
                (SleepKey { last_press_ms: Some(now), draining: true }, KeyStep::Act(a))
            } else {
                (st, KeyStep::Act(a))
            }
        },
    }
}

impl SleepKey {
    /// The state at the daemon's start: no press handled yet.
    pub fn new() -> (r: Self)
        ensures
            r == (SleepKey { last_press_ms: None, draining: false }),
    {
        SleepKey { last_press_ms: None, draining: false }
    }
}

/// One step of the sleep-key daemon. After a toggle it discards every
/// event until told the queue is empty; a live event is decided by
/// [`key_action`] with the time since the last toggle.
pub fn sleep_key_step(st: SleepKey, inp: KeyInput) -> (r: (SleepKey, KeyStep))
    ensures
        r == key_step_spec(st, inp),
{
    match inp {
        KeyInput::QueueEmpty => (SleepKey { last_press_ms: st.last_press_ms, draining: false }, KeyStep::Resume),
        KeyInput::Event(ty, code, value, now) => {
            if st.draining {
                (st, KeyStep::Discard)
            } else {
                let since: u128 = match st.last_press_ms {
                    None => u128::MAX,
                    Some(t) => if now >= t {
                        (now - t) as u128
                    } else {
                        0
                    },
                };
                let a = key_action(ty, code, value, since);
                match a {
                    KeyAction::Toggle => (SleepKey { last_press_ms: Some(now), draining: true }, KeyStep::Act(a)),
                    _ => (st, KeyStep::Act(a)),
                }
            }
        },
    }
}

/// The state after the inputs `s`, from the start.
pub open spec fn key_run(s: Seq<KeyInput>) -> SleepKey
    decreases s.len(),
{
    if s.len() == 0 {
        SleepKey { last_press_ms: None, draining: false }
    } else {
        key_step_spec(key_run(s.drop_last()), s.last()).0
    }
}

/// Input `j` of `s` toggled sleep.
pub open spec fn toggled_at(s: Seq<KeyInput>, j: int) -> bool {
    key_step_spec(key_run(s.take(j)), s[j]).1 == KeyStep::Act(KeyAction::Toggle)
}

/// The time of the last input of `s` that toggled sleep.
pub open spec fn last_toggle(s: Seq<KeyInput>) -> Option<u64>
    decreases s.len(),
{
    if s.len() == 0 {
        None
    } else if toggled_at(s, s.len() - 1) {
        match s.last() {
            KeyInput::Event(_, _, _, now) => Some(now),
            KeyInput::QueueEmpty => None,
        }
    } else {
        last_toggle(s.drop_last())
    }
}

/// A toggle happened in `s` and no "queue empty" came after it.
pub open spec fn awaiting_drain(s: Seq<KeyInput>) -> bool
    decreases s.len(),
{
    if s.len() == 0 {
        false
    } else if s.last() is QueueEmpty {
        false
    } else if toggled_at(s, s.len() - 1) {
        true
    } else {
        awaiting_drain(s.drop_last())
    }
}

proof fn lemma_key_run(s: Seq<KeyInput>)
    ensures
        key_run(s) == (SleepKey { last_press_ms: last_toggle(s), draining: awaiting_drain(s) }),
    decreases s.len(),
{
    if s.len() > 0 {
        lemma_key_run(s.drop_last());
        assert(s.take(s.len() - 1) =~= s.drop_last());
    }
}

/// The sleep key toggles only on a fresh press of KEY_SLEEP, never while
/// the events queued during a toggle are being discarded, and only once
/// at least the debounce interval has passed since the last toggle; an
/// event that arrives while the queue is being drained is discarded.
pub proof fn law_sleep_key_debounce(s: Seq<KeyInput>, k: int)
    requires
        0 <= k < s.len(),
    ensures
        toggled_at(s, k) ==> !awaiting_drain(s.take(k)) && (s[k] matches KeyInput::Event(ty, code, value, now)
            && ty == EV_KEY && code == KEY_SLEEP && value == 1 && (last_toggle(s.take(k)) matches Some(t)
            ==> now >= t + DEBOUNCE_MS)),
        (s[k] is Event && awaiting_drain(s.take(k))) ==> key_step_spec(key_run(s.take(k)), s[k]).1
            == KeyStep::Discard,
{
    lemma_key_run(s.take(k));
}

/// The heavyweight services stopped on sleep when running (sshd, the
/// battery guard and the sleep daemon itself are never among them).
pub open spec fn services() -> Seq<Seq<char>> {
    seq![
        "display-manager.service"@,
        "gemini-gemshell.service"@,
        "gemwl.service"@,
        "pipewire.service"@,
        "wireplumber.service"@,
        "pipewire-pulse.service"@,
    ]
}

/// The services, in order.
pub fn service_names() -> (r: Vec<String>)
    ensures
        string_views(r@) == services(),
{
    let mut r: Vec<String> = Vec::new();
    push_line(&mut r, string_of(&chars_of("display-manager.service")));
    push_line(&mut r, string_of(&chars_of("gemini-gemshell.service")));
    push_line(&mut r, string_of(&chars_of("gemwl.service")));
    push_line(&mut r, string_of(&chars_of("pipewire.service")));
    push_line(&mut r, string_of(&chars_of("wireplumber.service")));
    push_line(&mut r, string_of(&chars_of("pipewire-pulse.service")));
    assert(string_views(r@) =~= services());
    r
}

/// The services among `names` whose entry in `active` is set, in order.
pub open spec fn running(names: Seq<Seq<char>>, active: Seq<bool>) -> Seq<Seq<char>>
    decreases names.len(),
{
    if names.len() == 0 {
        seq![]
    } else if active[names.len() - 1] {
        running(names.drop_last(), active).push(names.last())
    } else {
        running(names.drop_last(), active)
    }
}

/// The services to stop, given which of [`services`] are active.
pub fn services_running(active: &Vec<bool>) -> (r: Vec<String>)
    requires
        active@.len() == 6,
    ensures
        string_views(r@) == running(services(), active@),
{
    let names = service_names();
    let mut r: Vec<String> = Vec::new();
    let mut i: usize = 0;
    proof {
        assert(string_views(names@).take(0) =~= seq![]);
        assert(string_views(r@) =~= seq![]);
        assert(string_views(names@).len() == names@.len());
    }
    while i < 6
        invariant
            i <= 6,
            active@.len() == 6,
            string_views(names@) == services(),
            names@.len() == 6,
            string_views(r@) == running(string_views(names@).take(i as int), active@),
        decreases 6 - i,
    {
        proof {
            assert(string_views(names@).take(i + 1).drop_last() =~= string_views(names@).take(i as int));
            assert(string_views(names@).take(i + 1).last() == names@[i as int]@);
        }
        if active[i] {
            push_line(&mut r, names[i].clone());
        }
        i = i + 1;
    }
    proof {
        assert(string_views(names@).take(6) =~= string_views(names@));
    }
    r
}

} // verus!
