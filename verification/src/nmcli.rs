//! NetworkManager (`nmcli`) output: terse-mode field splitting and the
//! Wi-Fi radio, active-connection and access-point list parsers.

use vstd::prelude::*;
use crate::data::{network_views, opt_view, string_views, strings_of, WifiNetwork, WifiNetworkView};
use crate::text::{
    ascii_ci_eq, chars_of, eq_chars, eq_ignore_case, has_prefix, lines, lines_of, parse_in,
    parse_int, starts_with, string_of, trim, trim_all, views,
};

verus! {

// ---------------------------------------------------------------------------
// terse-mode escaping

/// `c` put in front of the first field of `fs`.
pub open spec fn glue(c: Seq<char>, fs: Seq<Seq<char>>) -> Seq<Seq<char>> {
    seq![c + fs[0]] + fs.drop_first()
}

/// The fields of an `nmcli -t` line: split on colons, where `\x` stands
/// for the character `x` (so `\:` is a colon inside a field and `\\` a
/// backslash); a lone backslash at the very end is dropped.
pub open spec fn nmcli_fields(s: Seq<char>) -> Seq<Seq<char>>
    decreases s.len(),
{
    if s.len() == 0 {
        seq![seq![]]
    } else if s[0] == '\\' {
        if s.len() == 1 {
            seq![seq![]]
        } else {
            glue(seq![s[1]], nmcli_fields(s.skip(2)))
        }
    } else if s[0] == ':' {
        seq![seq![]] + nmcli_fields(s.drop_first())
    } else {
        glue(seq![s[0]], nmcli_fields(s.drop_first()))
    }
}

/// `s` with nmcli's escapes removed (`\x` becomes `x`).
pub open spec fn nmcli_unescaped(s: Seq<char>) -> Seq<char>
    decreases s.len(),
{
    if s.len() == 0 {
        seq![]
    } else if s[0] == '\\' {
        if s.len() == 1 {
            seq![]
        } else {
            seq![s[1]] + nmcli_unescaped(s.skip(2))
        }
    } else {
        seq![s[0]] + nmcli_unescaped(s.drop_first())
    }
}

pub proof fn lemma_fields_nonempty(s: Seq<char>)
    ensures
        nmcli_fields(s).len() >= 1,
    decreases s.len(),
{
    if s.len() > 1 && s[0] == '\\' {
        lemma_fields_nonempty(s.skip(2));
    } else if s.len() > 0 && s[0] != '\\' {
        lemma_fields_nonempty(s.drop_first());
    }
}

/// A field as `nmcli -t` writes it: every backslash doubled and a
/// backslash put before every colon.
pub open spec fn nmcli_escaped(f: Seq<char>) -> Seq<char>
    decreases f.len(),
{
    if f.len() == 0 {
        seq![]
    } else if f[0] == '\\' {
        seq!['\\', '\\'] + nmcli_escaped(f.drop_first())
    } else if f[0] == ':' {
        seq!['\\', ':'] + nmcli_escaped(f.drop_first())
    } else {
        seq![f[0]] + nmcli_escaped(f.drop_first())
    }
}

/// A terse-mode line: the escaped fields joined with colons.
pub open spec fn nmcli_line(fs: Seq<Seq<char>>) -> Seq<char>
    decreases fs.len(),
{
    if fs.len() <= 1 {
        if fs.len() == 1 {
            nmcli_escaped(fs[0])
        } else {
            seq![]
        }
    } else {
        nmcli_escaped(fs[0]) + (seq![':'] + nmcli_line(fs.drop_first()))
    }
}

proof fn lemma_glue_glue(a: Seq<char>, b: Seq<char>, fs: Seq<Seq<char>>)
    requires
        fs.len() >= 1,
    ensures
        glue(a, glue(b, fs)) == glue(a + b, fs),
{
    let g = glue(b, fs);
    assert(g[0] == b + fs[0]);
    assert(g.drop_first() =~= fs.drop_first());
    assert(a + (b + fs[0]) =~= (a + b) + fs[0]);
    assert(glue(a, g) =~= glue(a + b, fs));
}

proof fn lemma_fields_after_escaped(f: Seq<char>, t: Seq<char>)
    ensures
        nmcli_fields(nmcli_escaped(f) + t) == glue(f, nmcli_fields(t)),
    decreases f.len(),
{
    lemma_fields_nonempty(t);
    if f.len() == 0 {
        assert(nmcli_escaped(f) + t =~= t);
        assert(glue(f, nmcli_fields(t)) =~= nmcli_fields(t));
    } else {
        let r = f.drop_first();
        lemma_fields_after_escaped(r, t);
        lemma_fields_nonempty(nmcli_escaped(r) + t);
        let s = nmcli_escaped(f) + t;
        if f[0] == '\\' || f[0] == ':' {
            assert(s =~= seq!['\\', f[0]] + (nmcli_escaped(r) + t));
            assert(s.skip(2) =~= nmcli_escaped(r) + t);
            assert(s[1] == f[0]);
        } else {
            assert(s =~= seq![f[0]] + (nmcli_escaped(r) + t));
            assert(s.drop_first() =~= nmcli_escaped(r) + t);
        }
        lemma_glue_glue(seq![f[0]], r, nmcli_fields(t));
        assert(seq![f[0]] + r =~= f);
    }
}

/// Splitting undoes nmcli's terse escaping exactly: the fields of a line
/// made of escaped fields joined with colons are those fields (a `\:`
/// is a literal colon, a `\\` a literal backslash, and only unescaped
/// colons separate fields).
pub proof fn law_nmcli_escaping_roundtrip(fs: Seq<Seq<char>>)
    requires
        fs.len() >= 1,
    ensures
        nmcli_fields(nmcli_line(fs)) == fs,
    decreases fs.len(),
{
    if fs.len() == 1 {
        lemma_fields_after_escaped(fs[0], seq![]);
        assert(nmcli_escaped(fs[0]) + seq![] =~= nmcli_escaped(fs[0]));
        assert(glue(fs[0], seq![seq![]]) =~= fs);
    } else {
        let rest = fs.drop_first();
        law_nmcli_escaping_roundtrip(rest);
        let j = nmcli_line(rest);
        lemma_fields_after_escaped(fs[0], seq![':'] + j);
        assert((seq![':'] + j).drop_first() =~= j);
        assert(nmcli_fields(seq![':'] + j) == seq![seq![]] + nmcli_fields(j));
        assert(glue(fs[0], seq![seq![]] + rest) =~= fs);
    }
}

/// The fields of `cs` (see [`nmcli_fields`]).
pub fn nmcli_split(cs: &[char]) -> (fs: Vec<Vec<char>>)
    ensures
        views(fs@) == nmcli_fields(cs@),
{
    let mut fields: Vec<Vec<char>> = Vec::new();
    let mut cur: Vec<char> = Vec::new();
    let mut i: usize = 0;
    proof {
        assert(cs@.skip(0) =~= cs@);
        lemma_fields_nonempty(cs@);
        assert(glue(seq![], nmcli_fields(cs@)) =~= nmcli_fields(cs@));
        assert(views(fields@) =~= seq![]);
        assert(views(fields@) + nmcli_fields(cs@) =~= nmcli_fields(cs@));
    }
    while i < cs.len()
        invariant
            i <= cs@.len(),
            nmcli_fields(cs@) == views(fields@) + glue(cur@, nmcli_fields(cs@.skip(i as int))),
        decreases cs@.len() - i,
    {
        let ghost rest = cs@.skip(i as int);
        let c = cs[i];
        if c == '\\' {
            if i + 1 < cs.len() {
                let n = cs[i + 1];
                let ghost before = cur@;
                cur.push(n);
                proof {
                    assert(rest.skip(2) =~= cs@.skip(i + 2));
                    lemma_fields_nonempty(cs@.skip(i + 2));
                    let f = nmcli_fields(cs@.skip(i + 2));
                    assert(before + (seq![n] + f[0]) =~= cur@ + f[0]);
                    assert(glue(before, glue(seq![n], f)) =~= glue(cur@, f));
                }
                i = i + 2;
            } else {
                proof {
                    assert(cs@.skip(i + 1) =~= seq![]);
                    assert(glue(cur@, nmcli_fields(rest)) =~= glue(cur@, nmcli_fields(cs@.skip(i + 1))));
                }
                i = i + 1;
            }
        } else if c == ':' {
            let done = cur;
            cur = Vec::new();
            let ghost before = fields@;
            fields.push(done);
            proof {
                assert(rest.drop_first() =~= cs@.skip(i + 1));
                lemma_fields_nonempty(cs@.skip(i + 1));
                let f = nmcli_fields(cs@.skip(i + 1));
                assert(views(fields@) =~= views(before).push(done@));
                assert(glue(cur@, f) =~= f);
                assert(views(before) + glue(done@, seq![seq![]] + f) =~= views(fields@) + glue(cur@, f));
            }
            i = i + 1;
        } else {
            let ghost before = cur@;
            cur.push(c);
            proof {
                assert(rest.drop_first() =~= cs@.skip(i + 1));
                lemma_fields_nonempty(cs@.skip(i + 1));
                let f = nmcli_fields(cs@.skip(i + 1));
                assert(before + (seq![c] + f[0]) =~= cur@ + f[0]);
                assert(glue(before, glue(seq![c], f)) =~= glue(cur@, f));
            }
            i = i + 1;
        }
    }
    let ghost before = fields@;
    let last = cur;
    fields.push(last);
    proof {
        assert(cs@.skip(i as int) =~= seq![]);
        assert(views(fields@) =~= views(before).push(last@));
        assert(glue(last@, seq![seq![]]) =~= seq![last@]);
    }
    fields
}

/// Split an `nmcli -t` line on *unescaped* colons (`\:` is a literal
/// colon, `\\` a literal backslash — nmcli's terse escaping).
pub fn split_nmcli_t(line: &str) -> (r: Vec<String>)
    ensures
        string_views(r@) == nmcli_fields(line@),
{
    let cs = chars_of(line);
    let fs = nmcli_split(&cs);
    strings_of(&fs)
}

/// Remove nmcli's terse-mode escapes from one value.
pub fn unescape_nmcli(s: &str) -> (r: String)
    ensures
        r@ == nmcli_unescaped(s@),
{
    let cs = chars_of(s);
    let mut out: Vec<char> = Vec::new();
    let mut i: usize = 0;
    proof {
        assert(cs@.skip(0) =~= cs@);
    }
    while i < cs.len()
        invariant
            i <= cs@.len(),
            nmcli_unescaped(cs@) == out@ + nmcli_unescaped(cs@.skip(i as int)),
        decreases cs@.len() - i,
    {
        let ghost rest = cs@.skip(i as int);
        let ghost before = out@;
        if cs[i] == '\\' {
            if i + 1 < cs.len() {
                out.push(cs[i + 1]);
                proof {
                    assert(rest.skip(2) =~= cs@.skip(i + 2));
                    assert(before + (seq![cs@[i + 1]] + nmcli_unescaped(cs@.skip(i + 2)))
                        =~= out@ + nmcli_unescaped(cs@.skip(i + 2)));
                }
                i = i + 2;
            } else {
                proof {
                    assert(cs@.skip(i + 1) =~= seq![]);
                }
                i = i + 1;
            }
        } else {
            out.push(cs[i]);
            proof {
                assert(rest.drop_first() =~= cs@.skip(i + 1));
                assert(before + (seq![cs@[i as int]] + nmcli_unescaped(cs@.skip(i + 1)))
                    =~= out@ + nmcli_unescaped(cs@.skip(i + 1)));
            }
            i = i + 1;
        }
    }
    proof {
        assert(cs@.skip(i as int) =~= seq![]);
        assert(out@ + seq![] =~= out@);
    }
    string_of(&out)
}

// ---------------------------------------------------------------------------
// parsers

/// `nmcli radio wifi` → `"enabled"` means on.
pub fn parse_nmcli_radio(out: &str) -> (r: bool)
    ensures
        r == ascii_ci_eq(trim(out@), "enabled"@),
{
    let cs = chars_of(out);
    let t = trim_all(&cs);
    let want = chars_of("enabled");
    eq_ignore_case(&t, &want)
}

/// The SSID that an active-connections line names, if it is Wi-Fi.
pub open spec fn active_wifi_name(line: Seq<char>) -> Option<Seq<char>> {
    let f = nmcli_fields(line);
    if f.len() >= 2 && starts_with(f[1], "802-11-wireless"@) && trim(f[0]).len() > 0 {
        Some(trim(f[0]))
    } else {
        None
    }
}

/// The first Wi-Fi connection among `ls`.
pub open spec fn first_active_wifi(ls: Seq<Seq<char>>) -> Option<Seq<char>>
    decreases ls.len(),
{
    if ls.len() == 0 {
        None
    } else if active_wifi_name(ls[0]) is Some {
        active_wifi_name(ls[0])
    } else {
        first_active_wifi(ls.drop_first())
    }
}

/// `nmcli -t -f NAME,TYPE connection show --active` → active Wi-Fi SSID.
pub fn parse_nmcli_active(out: &str) -> (r: Option<String>)
    ensures
        opt_view(r) == first_active_wifi(lines(out@)),
{
    let cs = chars_of(out);
    let ls = lines_of(&cs);
    let wireless = chars_of("802-11-wireless");
    let mut k: usize = 0;
    proof {
        assert(views(ls@).skip(0) =~= views(ls@));
    }
    while k < ls.len()
        invariant
            k <= ls@.len(),
            views(ls@) == lines(cs@),
            cs@ == out@,
            wireless@ == "802-11-wireless"@,
            first_active_wifi(views(ls@)) == first_active_wifi(views(ls@).skip(k as int)),
        decreases ls@.len() - k,
    {
        let ghost rest = views(ls@).skip(k as int);
        let f = nmcli_split(ls[k].as_slice());
        if f.len() >= 2 && has_prefix(f[1].as_slice(), wireless.as_slice()) {
            let name = trim_all(f[0].as_slice());
            if name.len() > 0 {
                proof {
                    assert(rest[0] == ls@[k as int]@);
                    assert(views(f@)[0] == f@[0]@);
                    assert(views(f@)[1] == f@[1]@);
                    assert(active_wifi_name(rest[0]) == Some(name@));
                    assert(rest.len() > 0);
                    assert(first_active_wifi(rest) == active_wifi_name(rest[0]));
                }
                return Some(string_of(&name));
            }
        }
        proof {
            assert(rest[0] == ls@[k as int]@);
            assert(views(f@)[0] == f@[0]@);
            if f@.len() >= 2 {
                assert(views(f@)[1] == f@[1]@);
            }
            assert(active_wifi_name(rest[0]) is None);
            assert(rest.drop_first() =~= views(ls@).skip(k + 1));
        }
        k = k + 1;
    }
    proof {
        assert(views(ls@).skip(k as int) =~= seq![]);
    }
    None
}

/// `s.parse::<i32>()`, or 0 when it does not parse.
pub open spec fn i32_or_zero(s: Seq<char>) -> i32 {
    match parse_in(s, true, i32::MIN as int, i32::MAX as int) {
        Some(v) => v as i32,
        None => 0,
    }
}

/// Index of the first network named `ssid` (-1 when none).
pub open spec fn index_of_ssid(nets: Seq<WifiNetworkView>, ssid: Seq<char>) -> int
    decreases nets.len(),
{
    if nets.len() == 0 {
        -1
    } else if nets.last().ssid == ssid && index_of_ssid(nets.drop_last(), ssid) < 0 {
        nets.len() - 1
    } else {
        index_of_ssid(nets.drop_last(), ssid)
    }
}

/// One line of `nmcli ... device wifi list` folded into `nets`: a new
/// SSID is appended; a known one keeps the stronger signal and is
/// connected if either report says so.
pub open spec fn wifi_list_step(nets: Seq<WifiNetworkView>, line: Seq<char>) -> Seq<WifiNetworkView> {
    let f = nmcli_fields(line);
    if f.len() < 4 {
        nets
    } else {
        let connected = trim(f[0]) == seq!['*'];
        let ssid = trim(f[1]);
        if ssid.len() == 0 {
            nets
        } else {
            let signal = i32_or_zero(trim(f[2]));
            let sec = trim(f[3]);
            let security = if sec.len() == 0 {
                "open"@
            } else {
                sec
            };
            let k = index_of_ssid(nets, ssid);
            if k >= 0 {
                let e = nets[k];
                nets.update(
                    k,
                    WifiNetworkView {
                        signal: if signal > e.signal {
                            signal
                        } else {
                            e.signal
                        },
                        connected: e.connected || connected,
                        ..e
                    },
                )
            } else {
                nets.push(WifiNetworkView { ssid, signal, security, connected })
            }
        }
    }
}

/// The networks that the lines `ls` describe, in order of first mention.
pub open spec fn wifi_list(ls: Seq<Seq<char>>) -> Seq<WifiNetworkView>
    decreases ls.len(),
{
    if ls.len() == 0 {
        seq![]
    } else {
        wifi_list_step(wifi_list(ls.drop_last()), ls.last())
    }
}

proof fn lemma_index_of_ssid(nets: Seq<WifiNetworkView>, ssid: Seq<char>, k: int)
    requires
        0 <= k <= nets.len(),
        forall|j: int| 0 <= j < k ==> nets[j].ssid != ssid,
        k == nets.len() || nets[k].ssid == ssid,
    ensures
        index_of_ssid(nets, ssid) == (if k == nets.len() {
            -1
        } else {
            k
        }),
    decreases nets.len(),
{
    if nets.len() > 0 {
        if k == nets.len() {
            lemma_index_of_ssid(nets.drop_last(), ssid, k - 1);
        } else {
            lemma_index_of_ssid(nets.drop_last(), ssid, if k == nets.len() - 1 {
                k
            } else {
                k
            });
        }
    }
}

proof fn lemma_index_of_ssid_found(nets: Seq<WifiNetworkView>, ssid: Seq<char>)
    ensures
        -1 <= index_of_ssid(nets, ssid) < nets.len(),
        index_of_ssid(nets, ssid) < 0 ==> forall|j: int| 0 <= j < nets.len() ==> nets[j].ssid != ssid,
        index_of_ssid(nets, ssid) >= 0 ==> nets[index_of_ssid(nets, ssid)].ssid == ssid,
    decreases nets.len(),
{
    if nets.len() > 0 {
        lemma_index_of_ssid_found(nets.drop_last(), ssid);
        assert forall|j: int| 0 <= j < nets.len() - 1 implies nets.drop_last()[j] == nets[j] by {}
    }
}

/// What one line of the access-point list reports: (SSID, signal,
/// in use), or `None` for a line that is skipped.
pub open spec fn ap_report(line: Seq<char>) -> Option<(Seq<char>, i32, bool)> {
    let f = nmcli_fields(line);
    if f.len() < 4 || trim(f[1]).len() == 0 {
        None
    } else {
        Some((trim(f[1]), i32_or_zero(trim(f[2])), trim(f[0]) == seq!['*']))
    }
}

pub open spec fn ssids_distinct(nets: Seq<WifiNetworkView>) -> bool {
    forall|i: int, j: int| 0 <= i < j < nets.len() ==> nets[i].ssid != nets[j].ssid
}

/// A report is covered by the list: its SSID is listed with at least its
/// signal, and connected if the report says in use.
pub open spec fn covered(nets: Seq<WifiNetworkView>, r: (Seq<char>, i32, bool)) -> bool {
    let (ssid, signal, in_use) = r;
    exists|i: int|
        0 <= i < nets.len() && nets[i].ssid == ssid && nets[i].signal >= signal && (in_use
            ==> nets[i].connected)
}

/// The access-point list is de-duplicated: each SSID appears once, none
/// is empty, and every reported SSID is listed with at least the
/// strongest signal reported for it, connected if any report says so.
pub proof fn law_wifi_list_dedup(ls: Seq<Seq<char>>)
    ensures
        ssids_distinct(wifi_list(ls)),
        forall|i: int| 0 <= i < wifi_list(ls).len() ==> (#[trigger] wifi_list(ls)[i]).ssid.len() > 0,
        forall|k: int|
            0 <= k < ls.len() ==> match #[trigger] ap_report(ls[k]) {
                Some(r) => covered(wifi_list(ls), r),
                None => true,
            },
    decreases ls.len(),
{
    if ls.len() > 0 {
        let pre = ls.drop_last();
        law_wifi_list_dedup(pre);
        let nets = wifi_list(pre);
        let line = ls.last();
        let now = wifi_list(ls);
        assert(now == wifi_list_step(nets, line));
        let f = nmcli_fields(line);
        if f.len() >= 4 && trim(f[1]).len() > 0 {
            let ssid = trim(f[1]);
            lemma_index_of_ssid_found(nets, ssid);
            let k = index_of_ssid(nets, ssid);
            assert forall|m: int| 0 <= m < ls.len() implies match #[trigger] ap_report(ls[m]) {
                Some(r) => covered(now, r),
                None => true,
            } by {
                if let Some(r) = ap_report(ls[m]) {
                    if m < ls.len() - 1 {
                        assert(ls[m] == pre[m]);
                        assert(covered(nets, r));
                        let i = choose|i: int|
                            0 <= i < nets.len() && nets[i].ssid == r.0 && nets[i].signal >= r.1
                                && (r.2 ==> nets[i].connected);
                        assert(now[i].ssid == nets[i].ssid);
                    } else {
                        if k >= 0 {
                            assert(now[k].ssid == ssid);
                        } else {
                            assert(now[nets.len() as int].ssid == ssid);
                        }
                    }
                }
            }
        } else {
            assert(now == nets);
            assert forall|m: int| 0 <= m < ls.len() implies match #[trigger] ap_report(ls[m]) {
                Some(r) => covered(now, r),
                None => true,
            } by {
                if m < ls.len() - 1 {
                    assert(ls[m] == pre[m]);
                }
            }
        }
    }
}

fn find_ssid(nets: &Vec<WifiNetwork>, ssid: &[char]) -> (r: Option<usize>)
    ensures
        match r {
            Some(k) => k < nets@.len() && index_of_ssid(network_views(nets@), ssid@) == k,
            None => index_of_ssid(network_views(nets@), ssid@) < 0,
        },
{
    let mut i: usize = 0;
    while i < nets.len()
        invariant
            i <= nets@.len(),
            forall|j: int| 0 <= j < i ==> network_views(nets@)[j].ssid != ssid@,
        decreases nets@.len() - i,
    {
        let name = chars_of(nets[i].ssid.as_str());
        if eq_chars(&name, ssid) {
            proof {
                lemma_index_of_ssid(network_views(nets@), ssid@, i as int);
            }
            return Some(i);
        }
        i = i + 1;
    }
    proof {
        lemma_index_of_ssid(network_views(nets@), ssid@, i as int);
    }
    None
}

/// `nmcli -t -f IN-USE,SSID,SIGNAL,SECURITY device wifi list` → networks
/// (strongest report per SSID, de-duplicated).
pub fn parse_nmcli_wifi_list(out: &str) -> (nets: Vec<WifiNetwork>)
    ensures
        network_views(nets@) == wifi_list(lines(out@)),
{
    let cs = chars_of(out);
    let ls = lines_of(&cs);
    let star = chars_of("*");
    let open = chars_of("open");
    let mut nets: Vec<WifiNetwork> = Vec::new();
    let mut k: usize = 0;
    proof {
        assert(star@ =~= seq!['*']) by {
            reveal_strlit("*");
        }
        assert(views(ls@).take(0) =~= seq![]);
        assert(network_views(nets@) =~= seq![]);
    }
    while k < ls.len()
        invariant
            k <= ls@.len(),
            star@ == seq!['*'],
            open@ == "open"@,
            network_views(nets@) == wifi_list(views(ls@).take(k as int)),
        decreases ls@.len() - k,
    {
        let ghost line = ls@[k as int]@;
        let ghost prev = network_views(nets@);
        proof {
            assert(views(ls@).take(k + 1).drop_last() =~= views(ls@).take(k as int));
            assert(views(ls@).take(k + 1).last() == line);
        }
        let f = nmcli_split(ls[k].as_slice());
        if f.len() >= 4 {
            let in_use = trim_all(f[0].as_slice());
            let connected = eq_chars(&in_use, &star);
            let ssid = trim_all(f[1].as_slice());
            if ssid.len() > 0 {
                let sig_text = trim_all(f[2].as_slice());
                let signal: i32 = match parse_int(&sig_text, true, i32::MIN as i128, i32::MAX as i128) {
                    Some(v) => v as i32,
                    None => 0,
                };
                let sec = trim_all(f[3].as_slice());
                match find_ssid(&nets, &ssid) {
                    Some(j) => {
                        let e = nets[j].copy();
                        let upd = WifiNetwork {
                            ssid: e.ssid,
                            signal: if signal > e.signal {
                                signal
                            } else {
                                e.signal
                            },
                            security: e.security,
                            connected: e.connected || connected,
                        };
                        nets.set(j, upd);
                        proof {
                            assert(network_views(nets@) =~= wifi_list_step(prev, line));
                        }
                    },
                    None => {
                        let security = if sec.len() == 0 {
                            string_of(&open)
                        } else {
                            string_of(&sec)
                        };
                        nets.push(WifiNetwork { ssid: string_of(&ssid), signal, security, connected });
                        proof {
                            assert(network_views(nets@) =~= wifi_list_step(prev, line));
                        }
                    },
                }
            }
        }
        k = k + 1;
    }
    proof {
        assert(views(ls@).take(ls@.len() as int) =~= views(ls@));
    }
    nets
}

} // verus!
