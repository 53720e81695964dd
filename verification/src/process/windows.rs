//! Windows attribution helpers: reading `tasklist /NH /FO CSV` output.
use vstd::prelude::*;
use std::collections::HashMap;
use crate::decode::http::{parse_uint, parse_uint_exec};
use crate::identity::find_nl;
use crate::text::{chars_to_string, string_chars};
use crate::process::linux::{field_bounds, fields_from};
use crate::process::macos::{endpoint_parts, endpoint_text};

verus! {

broadcast use {vstd::string::group_string_axioms, vstd::std_specs::hash::group_hash_axioms};

/// Resolving the full image path on Windows needs OpenProcess and
/// QueryFullProcessImageName, which are not used: no path is known.
pub fn exe_path_for_pid_windows(pid: u32) -> (r: Option<String>)
    ensures
        r is None,
{
    None
}

/// The column separator of the CSV output: `","`.
pub open spec fn csv_sep() -> Seq<char> {
    seq!['"', ',', '"']
}

/// First position at or after `i` where `","` starts.
pub open spec fn find_sep(l: Seq<char>, i: int) -> Option<int>
    decreases l.len() - i,
{
    if i < 0 || i + 3 > l.len() {
        None
    } else if l.subrange(i, i + 3) == csv_sep() {
        Some(i)
    } else {
        find_sep(l, i + 1)
    }
}

/// `s` without leading `"`.
pub open spec fn strip_lead_quotes(s: Seq<char>) -> Seq<char>
    decreases s.len(),
{
    if s.len() > 0 && s[0] == '"' {
        strip_lead_quotes(s.drop_first())
    } else {
        s
    }
}

/// `s` without leading or trailing `"`.
pub open spec fn strip_quotes(s: Seq<char>) -> Seq<char>
    decreases s.len(),
{
    if s.len() > 0 && s[0] == '"' {
        strip_quotes(s.drop_first())
    } else if s.len() > 0 && s.last() == '"' {
        strip_quotes(s.drop_last())
    } else {
        s
    }
}

/// One CSV line `"Image Name","PID",...`: the image name (leading quotes
/// dropped) under its pid, when the second column is a number.
pub open spec fn tasklist_line(m: Map<u32, Seq<char>>, l: Seq<char>) -> Map<u32, Seq<char>> {
    match find_sep(l, 0) {
        None => m,
        Some(a) => {
            let name = strip_lead_quotes(l.take(a));
            let col1 = match find_sep(l, a + 3) {
                Some(b) => l.subrange(a + 3, b),
                None => l.skip(a + 3),
            };
            match crate::decode::http::parse_uint(strip_quotes(col1), u32::MAX as nat) {
                Some(pid) => m.insert(pid as u32, name),
                None => m,
            }
        },
    }
}

/// The lines of `t` from `p` on (split at `\n`; the `\r` of a `\r\n` ending dropped),
/// folded into `m`.
pub open spec fn tasklist_from(t: Seq<char>, p: int, m: Map<u32, Seq<char>>) -> Map<u32, Seq<char>>
    decreases t.len() - p,
{
    if p < 0 || p >= t.len() {
        m
    } else {
        let e = match find_nl(t, p) {
            Some(e) => e,
            None => t.len() as int,
        };
        let raw = t.subrange(p, e);
        let line = if find_nl(t, p) is Some && raw.len() > 0 && raw.last() == '\r' {
            raw.drop_last()
        } else {
            raw
        };
        let m2 = tasklist_line(m, line);
        proof {
            crate::identity::lemma_find_nl(t, p);
        }
        match find_nl(t, p) {
            Some(e2) => tasklist_from(t, e2 + 1, m2),
            None => m2,
        }
    }
}

pub open spec fn names_view(m: Map<u32, String>) -> Map<u32, Seq<char>> {
    m.map_values(|s: String| s@)
}

fn find_sep_e(l: &[char], i: usize) -> (r: Option<usize>)
    requires
        i <= l@.len(),
    ensures
        match r {
            Some(a) => find_sep(l@, i as int) == Some(a as int) && i <= a && a + 3 <= l@.len(),
            None => find_sep(l@, i as int) is None,
        },
{
    let n = l.len();
    let mut k = i;
    while n >= 3 && k <= n - 3
        invariant
            n == l@.len(),
            i <= k <= n,
            find_sep(l@, i as int) == find_sep(l@, k as int),
        decreases n - k,
    {
        if l[k] == '"' && l[k + 1] == ',' && l[k + 2] == '"' {
            assert(l@.subrange(k as int, k + 3) =~= csv_sep());
            return Some(k);
        }
        assert(l@.subrange(k as int, k + 3) != csv_sep()) by {
            assert(l@.subrange(k as int, k + 3)[0] == l@[k as int]);
            assert(l@.subrange(k as int, k + 3)[1] == l@[k + 1]);
            assert(l@.subrange(k as int, k + 3)[2] == l@[k + 2]);
        }
        k = k + 1;
    }
    None
}

fn strip_lead_quotes_e(s: &[char]) -> (r: usize)
    ensures
        r <= s@.len(),
        s@.skip(r as int) == strip_lead_quotes(s@),
{
    let mut a: usize = 0;
    assert(s@.skip(0) =~= s@);
    while a < s.len() && s[a] == '"'
        invariant
            a <= s@.len(),
            strip_lead_quotes(s@) == strip_lead_quotes(s@.skip(a as int)),
        decreases s@.len() - a,
    {
        assert(s@.skip(a as int).drop_first() =~= s@.skip(a + 1));
        a = a + 1;
    }
    a
}

fn strip_quotes_e(s: &[char]) -> (r: (usize, usize))
    ensures
        r.0 <= r.1 <= s@.len(),
        s@.subrange(r.0 as int, r.1 as int) == strip_quotes(s@),
{
    let mut a: usize = 0;
    let mut b: usize = s.len();
    assert(s@.subrange(0, s@.len() as int) =~= s@);
    while a < b && s[a] == '"'
        invariant
            a <= b == s@.len(),
            strip_quotes(s@) == strip_quotes(s@.subrange(a as int, b as int)),
        decreases b - a,
    {
        assert(s@.subrange(a as int, b as int).drop_first() =~= s@.subrange(a + 1, b as int));
        a = a + 1;
    }
    while a < b && s[b - 1] == '"'
        invariant
            a <= b <= s@.len(),
            a == b || s@[a as int] != '"',
            strip_quotes(s@) == strip_quotes(s@.subrange(a as int, b as int)),
        decreases b - a,
    {
        assert(s@.subrange(a as int, b as int).drop_last() =~= s@.subrange(a as int, b - 1));
        b = b - 1;
    }
    (a, b)
}

fn tasklist_line_e(line: &[char], map: &mut HashMap<u32, String>)
    ensures
        names_view(final(map)@) == tasklist_line(names_view(old(map)@), line@),
{
    let n = line.len();
    let a = match find_sep_e(line, 0) {
        Some(a) => a,
        None => return ,
    };
    let col0 = &line[0..a];
    assert(col0@ =~= line@.take(a as int));
    let s0 = strip_lead_quotes_e(col0);
    let name_chars = &col0[s0..a];
    assert(name_chars@ =~= col0@.skip(s0 as int));
    let end1 = match find_sep_e(line, a + 3) {
        Some(b) => b,
        None => n,
    };
    let col1 = &line[a + 3..end1];
    let (q0, q1) = strip_quotes_e(col1);
    let digits = &col1[q0..q1];
    assert(digits@ =~= col1@.subrange(q0 as int, q1 as int));
    match parse_uint_exec(digits, 4294967295u64) {
        Some(pid) => {
            let name = chars_to_string(name_chars);
            let ghost before = map@;
            let ghost nv = name@;
            map.insert(pid as u32, name);
            assert(names_view(map@) =~= names_view(before).insert(pid as u32, nv));
        },
        None => {},
    }
}

/// Reads `tasklist /NH /FO CSV` output into `map`, pid to image name; later
/// lines win.
pub fn parse_tasklist(text: &str, map: &mut HashMap<u32, String>)
    ensures
        names_view(final(map)@) == tasklist_from(text@, 0, names_view(old(map)@)),
{
    let tv = string_chars(text);
    let t: &[char] = tv.as_slice();
    let ghost target = tasklist_from(t@, 0, names_view(map@));
    let mut p: usize = 0;
    let n = t.len();
    while p < n
        invariant_except_break
            n == t@.len(),
            p <= n,
            target == tasklist_from(t@, p as int, names_view(map@)),
        ensures
            target == names_view(map@),
        decreases n - p,
    {
        let mut e: usize = p;
        while e < n && t[e] != '\n'
            invariant
                n == t@.len(),
                p <= e <= n,
                find_nl(t@, p as int) == find_nl(t@, e as int),
            decreases n - e,
        {
            e = e + 1;
        }
        let raw = &t[p..e];
        assert(raw@ =~= t@.subrange(p as int, e as int));
        let line = if e < n && raw.len() > 0 && raw[raw.len() - 1] == '\r' {
            let l = &raw[0..raw.len() - 1];
            assert(l@ =~= raw@.drop_last());
            l
        } else {
            raw
        };
        tasklist_line_e(line, map);
        if e == n {
            break ;
        }
        p = e + 1;
    }
}

/// Splits a `netstat` endpoint, `ADDR:PORT` or `[ADDR%ZONE]:PORT`, into its
/// address text (zone dropped) and port; none for a wildcard address `*`, a
/// missing `:` or a port that is not a decimal `u16`.
pub fn parse_endpoint(s: &str) -> (r: Option<(String, u16)>)
    ensures
        match r {
            Some((a, port)) => endpoint_text(s@, true) == Some((a@, port)),
            None => endpoint_text(s@, true) is None,
        },
{
    let cs = string_chars(s);
    endpoint_parts(cs.as_slice(), true)
}

/// A `netstat` socket as plain values: protocol, address text, port, pid.
pub type NetstatSocketV = (u8, Seq<char>, u16, u32);

pub open spec fn netstat_view(v: Seq<(u8, String, u16, u32)>) -> Seq<NetstatSocketV> {
    v.map_values(|x: (u8, String, u16, u32)| (x.0, x.1@, x.2, x.3))
}

/// One line of `netstat -ano`: with at least four white-space separated
/// fields, a first field `TCP` (6) or `UDP` (17), a last field that is a pid
/// and a second field, the local endpoint, that splits.
pub open spec fn netstat_line(l: Seq<char>) -> Option<NetstatSocketV> {
    let f = fields_from(l, 0);
    if f.len() < 4 {
        None
    } else {
        let proto = if f[0] == seq!['T', 'C', 'P'] {
            Some(6u8)
        } else if f[0] == seq!['U', 'D', 'P'] {
            Some(17u8)
        } else {
            None
        };
        match proto {
            None => None,
            Some(pr) => match parse_uint(f.last(), u32::MAX as nat) {
                None => None,
                Some(pid) => match endpoint_text(f[1], true) {
                    Some((a, port)) => Some((pr, a, port, pid as u32)),
                    None => None,
                },
            },
        }
    }
}

/// The sockets of the lines of `t` from `p` on (`str::lines`).
pub open spec fn netstat_from(t: Seq<char>, p: int) -> Seq<NetstatSocketV>
    decreases t.len() - p,
{
    if p < 0 || p >= t.len() {
        Seq::empty()
    } else {
        let e = match find_nl(t, p) {
            Some(e) => e,
            None => t.len() as int,
        };
        let raw = t.subrange(p, e);
        let line = if find_nl(t, p) is Some && raw.len() > 0 && raw.last() == '\r' {
            raw.drop_last()
        } else {
            raw
        };
        let here = match netstat_line(line) {
            Some(x) => seq![x],
            None => Seq::empty(),
        };
        proof {
            crate::identity::lemma_find_nl(t, p);
        }
        match find_nl(t, p) {
            Some(e2) => here + netstat_from(t, e2 + 1),
            None => here,
        }
    }
}

fn netstat_line_e(l: &[char]) -> (r: Option<(u8, String, u16, u32)>)
    ensures
        match r {
            Some(x) => netstat_line(l@) == Some((x.0, x.1@, x.2, x.3)),
            None => netstat_line(l@) is None,
        },
{
    let f = field_bounds(l);
    let ghost fs = fields_from(l@, 0);
    if f.len() < 4 {
        return None;
    }
    let (a0, b0) = f[0];
    let f0 = &l[a0..b0];
    assert(f0@ =~= fs[0]);
    let pr = if f0.len() == 3 && f0[0] == 'T' && f0[1] == 'C' && f0[2] == 'P' {
        assert(f0@ =~= seq!['T', 'C', 'P']);
        6u8
    } else if f0.len() == 3 && f0[0] == 'U' && f0[1] == 'D' && f0[2] == 'P' {
        assert(f0@ =~= seq!['U', 'D', 'P']);
        17u8
    } else {
        assert(f0@ == seq!['T', 'C', 'P'] ==> f0@.len() == 3 && f0@[0] == 'T' && f0@[1] == 'C'
            && f0@[2] == 'P');
        assert(f0@ == seq!['U', 'D', 'P'] ==> f0@.len() == 3 && f0@[0] == 'U' && f0@[1] == 'D'
            && f0@[2] == 'P');
        return None;
    };
    let last = f.len() - 1;
    let (al, bl) = f[last];
    let fl = &l[al..bl];
    assert(fl@ =~= fs.last());
    let pid = match parse_uint_exec(fl, 4294967295) {
        Some(v) => v as u32,
        None => return None,
    };
    let (a1, b1) = f[1];
    let f1 = &l[a1..b1];
    assert(f1@ =~= fs[1]);
    match endpoint_parts(f1, true) {
        Some((a, port)) => Some((pr, a, port, pid)),
        None => None,
    }
}

/// Reads `netstat -ano` output: each TCP or UDP line with a pid and a local
/// endpoint that splits gives a socket, in order (a later one for the same
/// endpoint supersedes an earlier one).
pub fn parse_netstat(text: &str) -> (v: Vec<(u8, String, u16, u32)>)
    ensures
        netstat_view(v@) == netstat_from(text@, 0),
{
    let tv = string_chars(text);
    let t: &[char] = tv.as_slice();
    let n = t.len();
    let mut out: Vec<(u8, String, u16, u32)> = Vec::new();
    let mut p: usize = 0;
    let ghost target = netstat_from(t@, 0);
    assert(netstat_view(out@) + target =~= target);
    while p < n
        invariant_except_break
            n == t@.len(),
            p <= n,
            target == netstat_view(out@) + netstat_from(t@, p as int),
        ensures
            target == netstat_view(out@),
        decreases n - p,
    {
        let mut e: usize = p;
        while e < n && t[e] != '\n'
            invariant
                n == t@.len(),
                p <= e <= n,
                find_nl(t@, p as int) == find_nl(t@, e as int),
            decreases n - e,
        {
            e = e + 1;
        }
        let raw = &t[p..e];
        assert(raw@ =~= t@.subrange(p as int, e as int));
        let line = if e < n && raw.len() > 0 && raw[raw.len() - 1] == '\r' {
            let l = &raw[0..raw.len() - 1];
            assert(l@ =~= raw@.drop_last());
            l
        } else {
            raw
        };
        let ghost before = netstat_view(out@);
        let ghost here = match netstat_line(line@) {
            Some(x) => seq![x],
            None => Seq::<NetstatSocketV>::empty(),
        };
        match netstat_line_e(line) {
            Some(x) => {
                out.push(x);
            },
            None => {},
        }
        proof {
            crate::identity::lemma_find_nl(t@, p as int);
            assert(netstat_view(out@) =~= before + here);
            if e == n {
                assert(netstat_from(t@, p as int) == here);
                assert(before + here + Seq::<NetstatSocketV>::empty() =~= before + here);
            } else {
                assert(netstat_from(t@, p as int) == here + netstat_from(t@, e + 1));
                assert(before + (here + netstat_from(t@, e + 1)) =~= (before + here)
                    + netstat_from(t@, e + 1));
            }
        }
        if e == n {
            break ;
        }
        p = e + 1;
    }
    proof {
        if p >= n {
            assert(netstat_view(out@) + Seq::<NetstatSocketV>::empty() =~= netstat_view(out@));
        }
    }
    out
}

} // verus!
