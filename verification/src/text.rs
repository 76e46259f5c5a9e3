//! Character-level text primitives shared by the tool-output parsers.
//!
//! Every parser in this crate works on the characters of its input
//! (`Seq<char>` in specifications, `&[char]` / `Vec<char>` at run time).
//! The spec functions here say what the usual `str` operations compute:
//! whitespace trimming, line splitting, splitting on a separator,
//! ASCII case folding and decimal integers.

use vstd::prelude::*;

verus! {

/// `String::push` (std): the contract claims that the string afterwards
/// holds its former characters followed by `ch`, as std documents.
pub assume_specification[ String::push ](s: &mut String, ch: char)
    ensures
        final(s)@ == old(s)@.push(ch),
;

// ---------------------------------------------------------------------------
// conversions

/// The characters of `s`, in order.
pub fn chars_of(s: &str) -> (v: Vec<char>)
    ensures
        v@ == s@,
{
    let mut v: Vec<char> = Vec::new();
    for c in it: s.chars()
        invariant
            v@ == it.seq().take(it.index() as int),
    {
        v.push(c);
    }
    v
}

/// A `String` holding exactly the characters of `cs`.
pub fn string_of(cs: &[char]) -> (s: String)
    ensures
        s@ == cs@,
{
    let mut s = String::new();
    let mut i: usize = 0;
    while i < cs.len()
        invariant
            i <= cs@.len(),
            s@ == cs@.take(i as int),
        decreases cs@.len() - i,
    {
        s.push(cs[i]);
        assert(cs@.take(i as int).push(cs@[i as int]) =~= cs@.take(i + 1));
        i = i + 1;
    }
    assert(cs@.take(cs@.len() as int) =~= cs@);
    s
}

/// A copy of `cs[lo..hi]`.
pub fn copy_range(cs: &[char], lo: usize, hi: usize) -> (v: Vec<char>)
    requires
        lo <= hi <= cs@.len(),
    ensures
        v@ == cs@.subrange(lo as int, hi as int),
{
    let mut v: Vec<char> = Vec::new();
    let mut i: usize = lo;
    while i < hi
        invariant
            lo <= i <= hi <= cs@.len(),
            v@ == cs@.subrange(lo as int, i as int),
        decreases hi - i,
    {
        v.push(cs[i]);
        assert(cs@.subrange(lo as int, i as int).push(cs@[i as int]) =~= cs@.subrange(
            lo as int,
            i + 1,
        ));
        i = i + 1;
    }
    v
}

/// `a == b`, character by character.
pub fn eq_chars(a: &[char], b: &[char]) -> (r: bool)
    ensures
        r == (a@ == b@),
{
    if a.len() != b.len() {
        return false;
    }
    let mut i: usize = 0;
    while i < a.len()
        invariant
            a@.len() == b@.len(),
            i <= a@.len(),
            forall|k: int| 0 <= k < i ==> a@[k] == b@[k],
        decreases a@.len() - i,
    {
        if a[i] != b[i] {
            return false;
        }
        i = i + 1;
    }
    assert(a@ =~= b@);
    true
}

/// Does `s` begin with `p`?
pub open spec fn starts_with(s: Seq<char>, p: Seq<char>) -> bool {
    p.len() <= s.len() && s.take(p.len() as int) == p
}

/// Does `s` end with `p`?
pub open spec fn ends_with(s: Seq<char>, p: Seq<char>) -> bool {
    p.len() <= s.len() && s.skip(s.len() - p.len()) == p
}

pub fn has_prefix(s: &[char], p: &[char]) -> (r: bool)
    ensures
        r == starts_with(s@, p@),
{
    if p.len() > s.len() {
        return false;
    }
    let mut i: usize = 0;
    while i < p.len()
        invariant
            p@.len() <= s@.len(),
            i <= p@.len(),
            forall|k: int| 0 <= k < i ==> s@[k] == p@[k],
        decreases p@.len() - i,
    {
        if s[i] != p[i] {
            assert(s@.take(p@.len() as int)[i as int] != p@[i as int]);
            return false;
        }
        i = i + 1;
    }
    assert(s@.take(p@.len() as int) =~= p@);
    true
}

/// Does `p` occur somewhere in `s`?
pub open spec fn contains_seq(s: Seq<char>, p: Seq<char>) -> bool {
    exists|i: int| 0 <= i && i + p.len() <= s.len() && #[trigger] s.subrange(i, i + p.len()) == p
}

pub fn has_infix(s: &[char], p: &[char]) -> (r: bool)
    ensures
        r == contains_seq(s@, p@),
{
    if p.len() > s.len() {
        return false;
    }
    let last = s.len() - p.len();
    let mut i: usize = 0;
    loop
        invariant
            p@.len() <= s@.len(),
            last == s@.len() - p@.len(),
            i <= last,
            i + p@.len() <= s@.len(),
            s@.len() <= usize::MAX,
            forall|j: int| 0 <= j < i ==> #[trigger] s@.subrange(j, j + p@.len()) != p@,
        decreases last - i,
    {
        let piece = copy_range(s, i, i + p.len());
        if eq_chars(&piece, p) {
            return true;
        }
        if i == last {
            return false;
        }
        i = i + 1;
    }
}

/// Index of the first `c` in `s`, or `s.len()` when there is none.
pub open spec fn first_index(s: Seq<char>, c: char) -> nat
    decreases s.len(),
{
    if s.len() == 0 {
        0
    } else if s[0] == c {
        0
    } else {
        1 + first_index(s.drop_first(), c)
    }
}

pub proof fn lemma_first_index(s: Seq<char>, c: char)
    ensures
        first_index(s, c) <= s.len(),
        first_index(s, c) < s.len() ==> s[first_index(s, c) as int] == c,
        forall|k: int| 0 <= k < first_index(s, c) ==> s[k] != c,
    decreases s.len(),
{
    if s.len() > 0 && s[0] != c {
        lemma_first_index(s.drop_first(), c);
        assert forall|k: int| 0 <= k < first_index(s, c) implies s[k] != c by {
            if k > 0 {
                assert(s[k] == s.drop_first()[k - 1]);
            }
        }
    }
}

/// Position of the first `c` at or after `from` (`cs.len()` when none).
pub fn find_char(cs: &[char], from: usize, c: char) -> (r: usize)
    requires
        from <= cs@.len(),
    ensures
        from <= r <= cs@.len(),
        r == from + first_index(cs@.skip(from as int), c),
{
    let mut i = from;
    while i < cs.len() && cs[i] != c
        invariant
            from <= i <= cs@.len(),
            forall|k: int| from <= k < i ==> cs@[k] != c,
        decreases cs@.len() - i,
    {
        i = i + 1;
    }
    proof {
        lemma_first_index_at(cs@.skip(from as int), c, (i - from) as int);
    }
    i
}

/// `first_index` is the `k` before which no `c` occurs and at which one
/// does (or the end).
pub proof fn lemma_first_index_at(s: Seq<char>, c: char, k: int)
    requires
        0 <= k <= s.len(),
        forall|j: int| 0 <= j < k ==> s[j] != c,
        k == s.len() || s[k] == c,
    ensures
        first_index(s, c) == k,
    decreases s.len(),
{
    if s.len() > 0 && k > 0 {
        assert forall|j: int| 0 <= j < k - 1 implies s.drop_first()[j] != c by {
            assert(s.drop_first()[j] == s[j + 1]);
        }
        lemma_first_index_at(s.drop_first(), c, k - 1);
    }
}


// ---------------------------------------------------------------------------
// whitespace and trimming

/// `char::is_whitespace`: the Unicode `White_Space` characters.
pub open spec fn is_ws(c: char) -> bool {
    let n = c as u32;
    (0x09 <= n <= 0x0d) || n == 0x20 || n == 0x85 || n == 0xa0 || n == 0x1680 || (0x2000 <= n
        <= 0x200a) || n == 0x2028 || n == 0x2029 || n == 0x202f || n == 0x205f || n == 0x3000
}

pub fn char_is_ws(c: char) -> (r: bool)
    ensures
        r == is_ws(c),
{
    let n = c as u32;
    (0x09 <= n && n <= 0x0d) || n == 0x20 || n == 0x85 || n == 0xa0 || n == 0x1680 || (0x2000 <= n
        && n <= 0x200a) || n == 0x2028 || n == 0x2029 || n == 0x202f || n == 0x205f || n == 0x3000
}

/// `s` without its leading characters that satisfy `f`
/// (`str::trim_start_matches` with a character predicate).
pub open spec fn trim_start_by(s: Seq<char>, f: spec_fn(char) -> bool) -> Seq<char>
    decreases s.len(),
{
    if s.len() > 0 && f(s[0]) {
        trim_start_by(s.drop_first(), f)
    } else {
        s
    }
}

/// `s` without its trailing characters that satisfy `f`.
pub open spec fn trim_end_by(s: Seq<char>, f: spec_fn(char) -> bool) -> Seq<char>
    decreases s.len(),
{
    if s.len() > 0 && f(s.last()) {
        trim_end_by(s.drop_last(), f)
    } else {
        s
    }
}

pub open spec fn ws_pred() -> spec_fn(char) -> bool {
    |c: char| is_ws(c)
}

pub open spec fn is_char_pred(x: char) -> spec_fn(char) -> bool {
    |c: char| c == x
}

/// `str::trim_start`.
pub open spec fn trim_start(s: Seq<char>) -> Seq<char> {
    trim_start_by(s, ws_pred())
}

/// `str::trim_end`.
pub open spec fn trim_end(s: Seq<char>) -> Seq<char> {
    trim_end_by(s, ws_pred())
}

/// `str::trim`.
pub open spec fn trim(s: Seq<char>) -> Seq<char> {
    trim_end(trim_start(s))
}

/// The character classes that the trimming helpers strip.
pub enum TrimSet {
    /// `char::is_whitespace`.
    Space,
    /// One given character.
    Only(char),
    /// The tree-drawing characters `│ ├ └ ─`, a space or `*`.
    TreeDecor,
}

pub open spec fn tree_char(c: char) -> bool {
    c == '\u{2502}' || c == '\u{251c}' || c == '\u{2514}' || c == '\u{2500}'
}

pub open spec fn set_pred(t: TrimSet) -> spec_fn(char) -> bool {
    match t {
        TrimSet::Space => ws_pred(),
        TrimSet::Only(x) => is_char_pred(x),
        TrimSet::TreeDecor => |c: char| tree_char(c) || c == ' ' || c == '*',
    }
}

fn in_set(c: char, t: &TrimSet) -> (r: bool)
    ensures
        r == set_pred(*t)(c),
{
    match t {
        TrimSet::Space => char_is_ws(c),
        TrimSet::Only(x) => c == *x,
        TrimSet::TreeDecor => c == '\u{2502}' || c == '\u{251c}' || c == '\u{2514}' || c == '\u{2500}'
            || c == ' ' || c == '*',
    }
}

/// Where the characters left by `trim_start_by(cs[lo..hi], set_pred(t))` begin.
pub fn skip_start(cs: &[char], lo: usize, hi: usize, t: &TrimSet) -> (r: usize)
    requires
        lo <= hi <= cs@.len(),
    ensures
        lo <= r <= hi,
        cs@.subrange(r as int, hi as int) == trim_start_by(cs@.subrange(lo as int, hi as int), set_pred(*t)),
{
    let ghost f = set_pred(*t);
    let mut i = lo;
    while i < hi && in_set(cs[i], t)
        invariant
            lo <= i <= hi <= cs@.len(),
            f == set_pred(*t),
            trim_start_by(cs@.subrange(lo as int, hi as int), f) == trim_start_by(
                cs@.subrange(i as int, hi as int),
                f,
            ),
        decreases hi - i,
    {
        assert(cs@.subrange(i as int, hi as int).drop_first() =~= cs@.subrange(i + 1, hi as int));
        i = i + 1;
    }
    i
}

/// Where the characters left by `trim_end_by(cs[lo..hi], set_pred(t))` end.
pub fn skip_end(cs: &[char], lo: usize, hi: usize, t: &TrimSet) -> (r: usize)
    requires
        lo <= hi <= cs@.len(),
    ensures
        lo <= r <= hi,
        cs@.subrange(lo as int, r as int) == trim_end_by(cs@.subrange(lo as int, hi as int), set_pred(*t)),
{
    let ghost f = set_pred(*t);
    let mut j = hi;
    while j > lo && in_set(cs[j - 1], t)
        invariant
            lo <= j <= hi <= cs@.len(),
            f == set_pred(*t),
            trim_end_by(cs@.subrange(lo as int, hi as int), f) == trim_end_by(
                cs@.subrange(lo as int, j as int),
                f,
            ),
        decreases j - lo,
    {
        assert(cs@.subrange(lo as int, j as int).drop_last() =~= cs@.subrange(lo as int, j - 1));
        j = j - 1;
    }
    j
}

/// `cs.trim_start_matches(..)` for the characters of `t`, as a new vector.
pub fn strip_start(cs: &[char], t: &TrimSet) -> (v: Vec<char>)
    ensures
        v@ == trim_start_by(cs@, set_pred(*t)),
{
    assert(cs@.subrange(0, cs@.len() as int) =~= cs@);
    let a = skip_start(cs, 0, cs.len(), t);
    copy_range(cs, a, cs.len())
}

/// `cs.trim_end_matches(..)` for the characters of `t`, as a new vector.
pub fn strip_end(cs: &[char], t: &TrimSet) -> (v: Vec<char>)
    ensures
        v@ == trim_end_by(cs@, set_pred(*t)),
{
    assert(cs@.subrange(0, cs@.len() as int) =~= cs@);
    let b = skip_end(cs, 0, cs.len(), t);
    copy_range(cs, 0, b)
}

/// `cs[lo..hi].trim()`, as a new vector.
pub fn trimmed(cs: &[char], lo: usize, hi: usize) -> (v: Vec<char>)
    requires
        lo <= hi <= cs@.len(),
    ensures
        v@ == trim(cs@.subrange(lo as int, hi as int)),
{
    let a = skip_start(cs, lo, hi, &TrimSet::Space);
    let b = skip_end(cs, a, hi, &TrimSet::Space);
    copy_range(cs, a, b)
}

/// `cs.trim()`, as a new vector.
pub fn trim_all(cs: &[char]) -> (v: Vec<char>)
    ensures
        v@ == trim(cs@),
{
    assert(cs@.subrange(0, cs@.len() as int) =~= cs@);
    trimmed(cs, 0, cs.len())
}

// ---------------------------------------------------------------------------
// lines and separators

/// `line` without one trailing carriage return.
pub open spec fn strip_cr(l: Seq<char>) -> Seq<char> {
    if l.len() > 0 && l.last() == '\r' {
        l.drop_last()
    } else {
        l
    }
}

/// `str::lines`: the pieces between line feeds, each without its
/// terminating `\n` or `\r\n`; a final line ending adds no empty line.
pub open spec fn lines(s: Seq<char>) -> Seq<Seq<char>>
    decreases s.len(),
{
    if s.len() == 0 {
        seq![]
    } else {
        let i = first_index(s, '\n');
        if i >= s.len() {
            seq![s]
        } else {
            seq![strip_cr(s.take(i as int))] + lines(s.skip(i + 1 as int))
        }
    }
}

/// `str::split(c)`: the pieces between the occurrences of `c`.
pub open spec fn split_on(s: Seq<char>, c: char) -> Seq<Seq<char>>
    decreases s.len(),
{
    let i = first_index(s, c);
    if i >= s.len() {
        seq![s]
    } else {
        seq![s.take(i as int)] + split_on(s.skip(i + 1 as int), c)
    }
}

/// The words of `s` after the ones already collected in `cur`: the
/// maximal runs of non-whitespace characters.
pub open spec fn words_from(s: Seq<char>, cur: Seq<char>) -> Seq<Seq<char>>
    decreases s.len(),
{
    let done: Seq<Seq<char>> = if cur.len() > 0 {
        seq![cur]
    } else {
        seq![]
    };
    if s.len() == 0 {
        done
    } else if is_ws(s[0]) {
        done + words_from(s.drop_first(), seq![])
    } else {
        words_from(s.drop_first(), cur.push(s[0]))
    }
}

/// `str::split_whitespace`.
pub open spec fn words(s: Seq<char>) -> Seq<Seq<char>> {
    words_from(s, seq![])
}

pub open spec fn views(v: Seq<Vec<char>>) -> Seq<Seq<char>> {
    v.map_values(|x: Vec<char>| x@)
}

pub proof fn lemma_views_push(v: Seq<Vec<char>>, x: Vec<char>)
    ensures
        views(v.push(x)) == views(v).push(x@),
{
    assert(views(v.push(x)) =~= views(v).push(x@));
}

/// The lines of `cs`.
pub fn lines_of(cs: &[char]) -> (ls: Vec<Vec<char>>)
    ensures
        views(ls@) == lines(cs@),
{
    let mut ls: Vec<Vec<char>> = Vec::new();
    let mut i: usize = 0;
    proof {
        assert(cs@.skip(0) =~= cs@);
        assert(views(ls@) =~= seq![]);
    }
    while i < cs.len()
        invariant
            i <= cs@.len(),
            lines(cs@) == views(ls@) + lines(cs@.skip(i as int)),
        decreases cs@.len() - i,
    {
        let j = find_char(cs, i, '\n');
        let ghost rest = cs@.skip(i as int);
        proof {
            lemma_first_index(rest, '\n');
        }
        if j == cs.len() {
            let piece = copy_range(cs, i, j);
            proof {
                assert(piece@ =~= rest);
                lemma_views_push(ls@, piece);
                assert(cs@.skip(j as int) =~= seq![]);
                assert(lines(rest) == seq![rest]);
            }
            ls.push(piece);
            proof {
                assert(views(ls@) + lines(cs@.skip(j as int)) =~= views(ls@));
            }
            i = j;
        } else {
            let mut e = j;
            if e > i && cs[e - 1] == '\r' {
                e = e - 1;
            }
            let piece = copy_range(cs, i, e);
            proof {
                assert(rest.take((j - i) as int) =~= cs@.subrange(i as int, j as int));
                assert(piece@ =~= strip_cr(rest.take((j - i) as int)));
                assert(rest.skip((j - i) + 1) =~= cs@.skip(j + 1));
                lemma_views_push(ls@, piece);
            }
            ls.push(piece);
            proof {
                assert(views(ls@) + lines(cs@.skip(j + 1)) =~= views(ls@.drop_last()) + lines(rest));
            }
            i = j + 1;
        }
    }
    proof {
        assert(cs@.skip(i as int) =~= seq![]);
        assert(views(ls@) + lines(cs@.skip(i as int)) =~= views(ls@));
    }
    ls
}

/// The whitespace-separated words of `cs`.
pub fn words_of(cs: &[char]) -> (ws: Vec<Vec<char>>)
    ensures
        views(ws@) == words(cs@),
{
    let mut ws: Vec<Vec<char>> = Vec::new();
    let mut cur: Vec<char> = Vec::new();
    let mut i: usize = 0;
    proof {
        assert(cs@.skip(0) =~= cs@);
        assert(views(ws@) =~= seq![]);
    }
    while i < cs.len()
        invariant
            i <= cs@.len(),
            words(cs@) == views(ws@) + words_from(cs@.skip(i as int), cur@),
        decreases cs@.len() - i,
    {
        let ghost rest = cs@.skip(i as int);
        proof {
            assert(rest[0] == cs@[i as int]);
            assert(rest.drop_first() =~= cs@.skip(i + 1));
        }
        let c = cs[i];
        if char_is_ws(c) {
            if cur.len() > 0 {
                let ghost before = ws@;
                ws.push(cur);
                proof {
                    lemma_views_push(before, ws@.last());
                }
                cur = Vec::new();
                assert(views(ws@) + words_from(cs@.skip(i + 1), cur@) =~= views(before) + (seq![
                    ws@.last()@,
                ] + words_from(cs@.skip(i + 1), seq![])));
            } else {
                assert(words_from(rest, cur@) =~= words_from(cs@.skip(i + 1), seq![]));
                cur = Vec::new();
            }
        } else {
            cur.push(c);
        }
        i = i + 1;
    }
    proof {
        assert(cs@.skip(cs@.len() as int) =~= seq![]);
    }
    if cur.len() > 0 {
        let ghost before = ws@;
        ws.push(cur);
        proof {
            lemma_views_push(before, ws@.last());
        }
    } else {
        assert(views(ws@) + seq![] =~= views(ws@));
    }
    ws
}

/// The pieces of `cs` between occurrences of `c`.
pub fn split_of(cs: &[char], c: char) -> (ps: Vec<Vec<char>>)
    ensures
        views(ps@) == split_on(cs@, c),
{
    let mut ps: Vec<Vec<char>> = Vec::new();
    let mut i: usize = 0;
    proof {
        assert(cs@.skip(0) =~= cs@);
        assert(views(ps@) =~= seq![]);
    }
    loop
        invariant
            i <= cs@.len(),
            split_on(cs@, c) == views(ps@) + split_on(cs@.skip(i as int), c),
        decreases cs@.len() - i,
    {
        let j = find_char(cs, i, c);
        let ghost rest = cs@.skip(i as int);
        proof {
            lemma_first_index(rest, c);
        }
        let piece = copy_range(cs, i, j);
        proof {
            lemma_views_push(ps@, piece);
        }
        if j == cs.len() {
            proof {
                assert(piece@ =~= rest);
            }
            ps.push(piece);
            proof {
                assert(views(ps@) =~= views(ps@.drop_last()) + split_on(rest, c));
            }
            return ps;
        }
        proof {
            assert(rest.take((j - i) as int) =~= piece@);
            assert(rest.skip((j - i) + 1) =~= cs@.skip(j + 1));
        }
        ps.push(piece);
        proof {
            assert(views(ps@) + split_on(cs@.skip(j + 1), c) =~= views(ps@.drop_last())
                + split_on(rest, c));
        }
        i = j + 1;
    }
}

// ---------------------------------------------------------------------------
// ASCII case folding

/// `char::to_ascii_lowercase`.
pub open spec fn ascii_lower(c: char) -> char {
    if 'A' <= c <= 'Z' {
        ((c as u32) + 32) as char
    } else {
        c
    }
}

pub fn to_ascii_lower(c: char) -> (r: char)
    ensures
        r == ascii_lower(c),
{
    if 'A' <= c && c <= 'Z' {
        ((c as u8) + 32) as char
    } else {
        c
    }
}

/// `str::eq_ignore_ascii_case` against an all-ASCII `b`.
pub open spec fn ascii_ci_eq(a: Seq<char>, b: Seq<char>) -> bool {
    a.len() == b.len() && forall|i: int| 0 <= i < a.len() ==> ascii_lower(a[i]) == ascii_lower(b[i])
}

pub fn eq_ignore_case(a: &[char], b: &[char]) -> (r: bool)
    ensures
        r == ascii_ci_eq(a@, b@),
{
    if a.len() != b.len() {
        return false;
    }
    let mut i: usize = 0;
    while i < a.len()
        invariant
            a@.len() == b@.len(),
            i <= a@.len(),
            forall|k: int| 0 <= k < i ==> ascii_lower(a@[k]) == ascii_lower(b@[k]),
        decreases a@.len() - i,
    {
        if to_ascii_lower(a[i]) != to_ascii_lower(b[i]) {
            return false;
        }
        i = i + 1;
    }
    true
}

/// `s.to_lowercase()`.
pub uninterp spec fn lower(s: Seq<char>) -> Seq<char>;

/// `str::to_lowercase` (Unicode lower-casing); the contract names the
/// result and claims only that it depends on `s` alone.
#[verifier::external_body]
pub(crate) fn lower_text(s: &str) -> (r: String)
    ensures
        r@ == lower(s@),
{
    s.to_lowercase()
}

/// `s.to_uppercase()`.
pub uninterp spec fn upper(s: Seq<char>) -> Seq<char>;

/// `str::to_uppercase` (Unicode upper-casing); the contract names the
/// result and claims only that it depends on `s` alone.
#[verifier::external_body]
pub(crate) fn upper_text(s: &str) -> (r: String)
    ensures
        r@ == upper(s@),
{
    s.to_uppercase()
}

// ---------------------------------------------------------------------------
// decimal integers

pub open spec fn is_digit(c: char) -> bool {
    '0' <= c <= '9'
}

pub open spec fn digit_value(c: char) -> int {
    (c as u32) as int - 48
}

pub open spec fn all_digits(s: Seq<char>) -> bool {
    forall|i: int| 0 <= i < s.len() ==> is_digit(#[trigger] s[i])
}

/// The number that the decimal digits `s` denote.
pub open spec fn digits_value(s: Seq<char>) -> int
    decreases s.len(),
{
    if s.len() == 0 {
        0
    } else {
        digits_value(s.drop_last()) * 10 + digit_value(s.last())
    }
}

/// One or more decimal digits, and their value.
pub open spec fn unsigned_value(s: Seq<char>) -> Option<int> {
    if s.len() > 0 && all_digits(s) {
        Some(digits_value(s))
    } else {
        None
    }
}

/// What `str::parse` accepts for an integer type, before its range is
/// checked: an optional `+` (or, for a signed type, `-`) and one or more
/// ASCII digits, nothing else.
pub open spec fn decimal_value(s: Seq<char>, signed: bool) -> Option<int> {
    if s.len() > 0 && s[0] == '+' {
        unsigned_value(s.drop_first())
    } else if signed && s.len() > 0 && s[0] == '-' {
        match unsigned_value(s.drop_first()) {
            Some(v) => Some(-v),
            None => None,
        }
    } else {
        unsigned_value(s)
    }
}

/// `str::parse` for an integer type whose values are `lo..=hi`.
pub open spec fn parse_in(s: Seq<char>, signed: bool, lo: int, hi: int) -> Option<int> {
    match decimal_value(s, signed) {
        Some(v) => if lo <= v <= hi {
            Some(v)
        } else {
            None
        },
        None => None,
    }
}

pub proof fn lemma_digits_value_prefix(s: Seq<char>, k: int)
    requires
        all_digits(s),
        0 <= k <= s.len(),
    ensures
        0 <= digits_value(s.take(k)) <= digits_value(s),
    decreases s.len(),
{
    if s.len() > 0 {
        let p = s.drop_last();
        assert(all_digits(p)) by {
            assert forall|i: int| 0 <= i < p.len() implies is_digit(#[trigger] p[i]) by {
                assert(p[i] == s[i]);
            }
        }
        assert(is_digit(s[s.len() - 1]));
        if k == s.len() {
            assert(s.take(k) =~= s);
            lemma_digits_value_prefix(p, p.len() as int);
            assert(p.take(p.len() as int) =~= p);
        } else {
            lemma_digits_value_prefix(p, k);
            assert(p.take(k) =~= s.take(k));
        }
    }
}

const DIGITS_CAP: u128 = 0x1_0000_0000_0000_0000_0000;

/// `cs.parse()` for an integer type whose values are `lo..=hi`.
pub fn parse_int(cs: &[char], signed: bool, lo: i128, hi: i128) -> (r: Option<i128>)
    requires
        -0x1_0000_0000_0000_0000 <= lo <= hi <= 0x1_0000_0000_0000_0000,
    ensures
        r == (match parse_in(cs@, signed, lo as int, hi as int) {
            Some(v) => Some(v as i128),
            None => None::<i128>,
        }),
{
    let mut start: usize = 0;
    let mut neg = false;
    if cs.len() > 0 && cs[0] == '+' {
        start = 1;
    } else if signed && cs.len() > 0 && cs[0] == '-' {
        start = 1;
        neg = true;
    }
    let ghost d = cs@.skip(start as int);
    proof {
        if start == 1 {
            assert(d =~= cs@.drop_first());
        } else {
            assert(d =~= cs@);
        }
    }
    if start >= cs.len() {
        assert(d.len() == 0);
        return None;
    }
    let mut acc: u128 = 0;
    let mut big = false;
    let mut i: usize = start;
    while i < cs.len()
        invariant
            start <= i <= cs@.len(),
            d == cs@.skip(start as int),
            decimal_value(cs@, signed) == (if neg {
                match unsigned_value(d) {
                    Some(v) => Some(-v),
                    None => None,
                }
            } else {
                unsigned_value(d)
            }),
            forall|k: int| 0 <= k < i - start ==> is_digit(#[trigger] d[k]),
            !big ==> acc == digits_value(d.take(i - start)),
            !big ==> acc <= DIGITS_CAP,
            big ==> digits_value(d.take(i - start)) > DIGITS_CAP,
        decreases cs@.len() - i,
    {
        let c = cs[i];
        if !('0' <= c && c <= '9') {
            assert(!is_digit(d[i - start]));
            assert(!all_digits(d));
            assert(unsigned_value(d) is None);
            assert(decimal_value(cs@, signed) is None);
            return None;
        }
        let ghost k = i - start;
        proof {
            assert(d.take(k + 1).drop_last() =~= d.take(k));
            assert(d.take(k + 1).last() == d[k]);
            assert(digits_value(d.take(k + 1)) == digits_value(d.take(k)) * 10 + digit_value(d[k]));
            assert(0 <= digits_value(d.take(k))) by {
                assert(all_digits(d.take(k))) by {
                    assert forall|j: int| 0 <= j < d.take(k).len() implies is_digit(
                        #[trigger] d.take(k)[j],
                    ) by {
                        assert(d.take(k)[j] == d[j]);
                    }
                }
                lemma_digits_value_prefix(d.take(k), k);
                assert(d.take(k).take(k) =~= d.take(k));
            }
        }
        if !big {
            let dv = (c as u32 - 48) as u128;
            acc = acc * 10 + dv;
            if acc > DIGITS_CAP {
                big = true;
            }
        }
        i = i + 1;
    }
    proof {
        assert(d.take(d.len() as int) =~= d);
        assert(all_digits(d));
    }
    if big {
        proof {
            lemma_digits_value_prefix(d, d.len() as int);
        }
        return None;
    }
    let v = acc as i128;
    let v = if neg { -v } else { v };
    if lo <= v && v <= hi {
        Some(v)
    } else {
        None
    }
}

pub open spec fn digit_char(d: int) -> char {
    (d + 48) as char
}

/// The decimal digits of `n`, without leading zeros.
pub open spec fn dec(n: nat) -> Seq<char>
    decreases n,
{
    if n < 10 {
        seq![digit_char(n as int)]
    } else {
        dec(n / 10).push(digit_char((n % 10) as int))
    }
}

/// What `to_string` gives for an integer `v`.
pub open spec fn int_text(v: int) -> Seq<char> {
    if v < 0 {
        seq!['-'] + dec((-v) as nat)
    } else {
        dec(v as nat)
    }
}

fn push_dec(out: &mut Vec<char>, n: u128)
    ensures
        final(out)@ == old(out)@ + dec(n as nat),
    decreases n,
{
    if n >= 10 {
        push_dec(out, n / 10);
    }
    let d = (n % 10) as u8;
    out.push((d + 48) as char);
    proof {
        if n < 10 {
            assert(dec(n as nat) == seq![digit_char(n as int)]);
        }
        assert(old(out)@ + dec(n as nat) =~= (old(out)@ + dec(n as nat).drop_last()).push(
            digit_char((n % 10) as int),
        ));
    }
}

/// The decimal text of `v`.
pub fn int_chars(v: i128) -> (r: Vec<char>)
    requires
        -0x1_0000_0000_0000_0000 <= v <= 0x1_0000_0000_0000_0000,
    ensures
        r@ == int_text(v as int),
{
    let mut out: Vec<char> = Vec::new();
    if v < 0 {
        out.push('-');
        push_dec(&mut out, (-v) as u128);
    } else {
        push_dec(&mut out, v as u128);
    }
    out
}

/// The character of hexadecimal digit `d` (upper case).
pub open spec fn hex_char(d: int) -> char {
    if d < 10 {
        (d + 48) as char
    } else {
        (d + 55) as char
    }
}

/// The upper-case hexadecimal digits of `n`, without leading zeros.
pub open spec fn hex(n: nat) -> Seq<char>
    decreases n,
{
    if n < 16 {
        seq![hex_char(n as int)]
    } else {
        hex(n / 16).push(hex_char((n % 16) as int))
    }
}

/// What `format!("{n:02X}")` gives: the hexadecimal digits of `n`,
/// padded with a zero to at least two.
pub open spec fn hex2(n: nat) -> Seq<char> {
    if n < 16 {
        seq!['0'] + hex(n)
    } else {
        hex(n)
    }
}

fn push_hex(out: &mut Vec<char>, n: u64)
    ensures
        final(out)@ == old(out)@ + hex(n as nat),
    decreases n,
{
    if n >= 16 {
        push_hex(out, n / 16);
    }
    let d = (n % 16) as u8;
    let c = if d < 10 {
        (d + 48) as char
    } else {
        (d + 55) as char
    };
    out.push(c);
    proof {
        if n < 16 {
            assert(hex(n as nat) == seq![hex_char(n as int)]);
        }
        assert(old(out)@ + hex(n as nat) =~= (old(out)@ + hex(n as nat).drop_last()).push(
            hex_char((n % 16) as int),
        ));
    }
}

/// Append `format!("{n:02X}")`.
pub fn push_hex2(out: &mut Vec<char>, n: u64)
    ensures
        final(out)@ == old(out)@ + hex2(n as nat),
{
    if n < 16 {
        out.push('0');
        push_hex(out, n);
        assert(old(out)@ + hex2(n as nat) =~= old(out)@.push('0') + hex(n as nat));
    } else {
        push_hex(out, n);
    }
}

/// Append the decimal digits of `n`.
pub fn push_decimal(out: &mut Vec<char>, n: u64)
    ensures
        final(out)@ == old(out)@ + dec(n as nat),
{
    push_dec(out, n as u128);
}

// ---------------------------------------------------------------------------
// building text

/// Append the characters of `s`.
pub fn push_str(v: &mut Vec<char>, s: &str)
    ensures
        final(v)@ == old(v)@ + s@,
{
    let cs = chars_of(s);
    push_chars(v, &cs);
}

/// Append the characters of `cs`.
pub fn push_chars(v: &mut Vec<char>, cs: &[char])
    ensures
        final(v)@ == old(v)@ + cs@,
{
    let ghost start = v@;
    let mut i: usize = 0;
    while i < cs.len()
        invariant
            i <= cs@.len(),
            v@ == start + cs@.take(i as int),
        decreases cs@.len() - i,
    {
        v.push(cs[i]);
        assert(start + cs@.take(i + 1) =~= (start + cs@.take(i as int)).push(cs@[i as int]));
        i = i + 1;
    }
    assert(cs@.take(cs@.len() as int) =~= cs@);
}

/// `a / b` rounded toward zero, as Rust's integer division does.
pub open spec fn div_trunc(a: int, b: int) -> int {
    if a >= 0 {
        a / b
    } else {
        -((-a) / b)
    }
}

/// `items` joined with `sep` between neighbours.
pub open spec fn joined(items: Seq<Seq<char>>, sep: char) -> Seq<char>
    decreases items.len(),
{
    if items.len() == 0 {
        seq![]
    } else if items.len() == 1 {
        items[0]
    } else {
        joined(items.drop_last(), sep) + seq![sep] + items.last()
    }
}

/// `items.join(sep)`.
pub fn join_with(items: &Vec<String>, sep: char) -> (r: String)
    ensures
        r@ == joined(items@.map_values(|s: String| s@), sep),
{
    let ghost vs = items@.map_values(|s: String| s@);
    let mut out: Vec<char> = Vec::new();
    let mut i: usize = 0;
    proof {
        assert(vs.take(0) =~= seq![]);
    }
    while i < items.len()
        invariant
            i <= items@.len(),
            vs == items@.map_values(|s: String| s@),
            out@ == joined(vs.take(i as int), sep),
        decreases items@.len() - i,
    {
        let ghost pre = vs.take(i as int);
        if i > 0 {
            out.push(sep);
        }
        push_str(&mut out, items[i].as_str());
        proof {
            let now = vs.take(i + 1);
            assert(now.drop_last() =~= pre);
            assert(now.last() == items@[i as int]@);
            if i == 0 {
                assert(out@ =~= now[0]);
            } else {
                assert(out@ =~= joined(pre, sep) + seq![sep] + items@[i as int]@);
            }
        }
        i = i + 1;
    }
    proof {
        assert(vs.take(items@.len() as int) =~= vs);
    }
    string_of(&out)
}

} // verus!
