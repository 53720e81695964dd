//! macOS attribution helpers: reading `lsof -F pcPn` output, and the
//! `ADDR:PORT` endpoint text that `lsof` and `netstat` print.
//!
//! The address part of an endpoint is handed back as text: turning it into
//! an address is the caller's part.
use vstd::prelude::*;
use crate::decode::http::{parse_uint, parse_uint_exec};
use crate::identity::{find_nl, lemma_find_nl};
use crate::text::{chars_to_string, string_chars};

verus! {

broadcast use vstd::string::group_string_axioms;

/// The first position at or after `i` where `a` is directly followed by `b`.
pub open spec fn find_pair(s: Seq<char>, a: char, b: char, i: int) -> Option<int>
    decreases s.len() - i,
{
    if i < 0 || i + 2 > s.len() {
        None
    } else if s[i] == a && s[i + 1] == b {
        Some(i)
    } else {
        find_pair(s, a, b, i + 1)
    }
}

/// The last position of `c` in `s`.
pub open spec fn last_of(s: Seq<char>, c: char) -> Option<int>
    decreases s.len(),
{
    if s.len() == 0 {
        None
    } else if s.last() == c {
        Some(s.len() - 1)
    } else {
        last_of(s.drop_last(), c)
    }
}

/// `s` up to its first `c` (all of it where there is none).
pub open spec fn before_char(s: Seq<char>, c: char) -> Seq<char> {
    s.take(crate::process::linux::first_of(s, c, 0))
}

/// `[ADDR]:PORT` or `ADDR:PORT` (split at the last `:`): the address text
/// and the port. None where the brackets are not closed by `]:`, where there
/// is no `:`, where the address is `*`, or where the port is not a decimal
/// `u16`. With `strip_zone`, a bracketed address loses its `%zone` suffix.
pub open spec fn endpoint_text(s: Seq<char>, strip_zone: bool) -> Option<(Seq<char>, u16)> {
    if s.len() > 0 && s[0] == '[' {
        let rest = s.drop_first();
        match find_pair(rest, ']', ':', 0) {
            None => None,
            Some(k) => {
                let a = if strip_zone {
                    before_char(rest.take(k), '%')
                } else {
                    rest.take(k)
                };
                match parse_uint(rest.skip(k + 2), u16::MAX as nat) {
                    Some(port) => Some((a, port as u16)),
                    None => None,
                }
            },
        }
    } else {
        match last_of(s, ':') {
            None => None,
            Some(k) => if k == 1 && s[0] == '*' {
                None
            } else {
                match parse_uint(s.skip(k + 1), u16::MAX as nat) {
                    Some(port) => Some((s.take(k), port as u16)),
                    None => None,
                }
            },
        }
    }
}

fn find_pair_e(s: &[char], a: char, b: char) -> (r: Option<usize>)
    ensures
        match r {
            Some(k) => find_pair(s@, a, b, 0) == Some(k as int) && k + 2 <= s@.len(),
            None => find_pair(s@, a, b, 0) is None,
        },
{
    let n = s.len();
    let mut i: usize = 0;
    while i < n && n - i >= 2
        invariant
            n == s@.len(),
            i <= n,
            find_pair(s@, a, b, 0) == find_pair(s@, a, b, i as int),
        decreases n - i,
    {
        if s[i] == a && s[i + 1] == b {
            return Some(i);
        }
        i = i + 1;
    }
    None
}

fn last_of_e(s: &[char], c: char) -> (r: Option<usize>)
    ensures
        match r {
            Some(k) => last_of(s@, c) == Some(k as int) && k < s@.len(),
            None => last_of(s@, c) is None,
        },
{
    let mut k: usize = s.len();
    assert(s@.take(k as int) =~= s@);
    while k > 0
        invariant
            k <= s@.len(),
            last_of(s@, c) == last_of(s@.take(k as int), c),
        decreases k,
    {
        let ghost pre = s@.take(k as int);
        assert(pre.last() == s@[k - 1]);
        if s[k - 1] == c {
            return Some(k - 1);
        }
        assert(pre.drop_last() =~= s@.take(k - 1));
        k = k - 1;
    }
    None
}

fn first_of_e(s: &[char], c: char) -> (r: usize)
    ensures
        r == crate::process::linux::first_of(s@, c, 0),
        r <= s@.len(),
{
    let n = s.len();
    let mut i: usize = 0;
    while i < n && s[i] != c
        invariant
            n == s@.len(),
            i <= n,
            crate::process::linux::first_of(s@, c, 0) == crate::process::linux::first_of(
                s@,
                c,
                i as int,
            ),
        decreases n - i,
    {
        i = i + 1;
    }
    i
}

/// The address text and port of an endpoint (see `endpoint_text`).
pub(crate) fn endpoint_parts(s: &[char], strip_zone: bool) -> (r: Option<(String, u16)>)
    ensures
        match r {
            Some((a, port)) => endpoint_text(s@, strip_zone) == Some((a@, port)),
            None => endpoint_text(s@, strip_zone) is None,
        },
{
    if s.len() > 0 && s[0] == '[' {
        let rest = &s[1..s.len()];
        assert(rest@ =~= s@.drop_first());
        match find_pair_e(rest, ']', ':') {
            None => None,
            Some(k) => {
                let a0 = &rest[0..k];
                assert(a0@ =~= rest@.take(k as int));
                let ps = &rest[k + 2..rest.len()];
                assert(ps@ =~= rest@.skip(k + 2));
                let a = if strip_zone {
                    let z = first_of_e(a0, '%');
                    let az = &a0[0..z];
                    assert(az@ =~= before_char(a0@, '%'));
                    az
                } else {
                    a0
                };
                match parse_uint_exec(ps, 65535) {
                    Some(port) => Some((chars_to_string(a), port as u16)),
                    None => None,
                }
            },
        }
    } else {
        match last_of_e(s, ':') {
            None => None,
            Some(k) => {
                if k == 1 && s[0] == '*' {
                    None
                } else {
                    let a = &s[0..k];
                    assert(a@ =~= s@.take(k as int));
                    let ps = &s[k + 1..s.len()];
                    assert(ps@ =~= s@.skip(k + 1));
                    match parse_uint_exec(ps, 65535) {
                        Some(port) => Some((chars_to_string(a), port as u16)),
                        None => None,
                    }
                }
            },
        }
    }
}

/// Splits an `lsof` endpoint, `ADDR:PORT` or `[ADDR]:PORT`, into its
/// address text and port; none for a wildcard address `*`, a missing `:`
/// or a port that is not a decimal `u16`.
pub fn parse_endpoint(s: &str) -> (r: Option<(String, u16)>)
    ensures
        match r {
            Some((a, port)) => endpoint_text(s@, false) == Some((a@, port)),
            None => endpoint_text(s@, false) is None,
        },
{
    let cs = string_chars(s);
    endpoint_parts(cs.as_slice(), false)
}

/// One socket of `lsof` output: its protocol number, local address text and
/// port, and the process holding it.
#[derive(Debug, Clone, PartialEq, Eq)]
pub struct LsofSocket {
    pub protocol: u8,
    pub addr: String,
    pub port: u16,
    pub pid: u32,
    pub command: String,
}

/// A socket as plain values: protocol, address text, port, pid, command.
pub type LsofSocketV = (u8, Seq<char>, u16, u32, Seq<char>);

pub open spec fn lsof_sockets_view(v: Seq<LsofSocket>) -> Seq<LsofSocketV> {
    v.map_values(|x: LsofSocket| (x.protocol, x.addr@, x.port, x.pid, x.command@))
}

/// What the reader carries from line to line: the current pid, command and
/// protocol.
pub type LsofState = (u32, Seq<char>, Option<u8>);

/// The protocol number of a `P` field: 6 for `TCP`, 17 for `UDP`.
pub open spec fn lsof_protocol(rest: Seq<char>) -> Option<u8> {
    if rest == seq!['T', 'C', 'P'] {
        Some(6u8)
    } else if rest == seq!['U', 'D', 'P'] {
        Some(17u8)
    } else {
        None
    }
}

/// The local side of an `n` field: the text before its first `->`.
pub open spec fn local_side(rest: Seq<char>) -> Seq<char> {
    match find_pair(rest, '-', '>', 0) {
        Some(k) => rest.take(k),
        None => rest,
    }
}

/// One line of `lsof -F pcPn`: its first character tags the field, the rest
/// is the value. `p` starts a process (an unparsable pid reads as 0) and
/// clears the command and protocol; `c` sets the command; `f` starts a file
/// and clears the protocol; `P` sets the protocol; `n` names a socket, which
/// is recorded when the protocol is known and its local endpoint splits.
pub open spec fn lsof_line(st: LsofState, l: Seq<char>) -> (LsofState, Option<LsofSocketV>) {
    let (pid, cmd, proto) = st;
    if l.len() == 0 {
        (st, None)
    } else {
        let rest = l.drop_first();
        if l[0] == 'p' {
            let p = match parse_uint(rest, u32::MAX as nat) {
                Some(v) => v as u32,
                None => 0u32,
            };
            ((p, Seq::empty(), None), None)
        } else if l[0] == 'c' {
            ((pid, rest, proto), None)
        } else if l[0] == 'f' {
            ((pid, cmd, None), None)
        } else if l[0] == 'P' {
            ((pid, cmd, lsof_protocol(rest)), None)
        } else if l[0] == 'n' {
            match proto {
                None => (st, None),
                Some(pr) => match endpoint_text(local_side(rest), false) {
                    Some((a, port)) => (st, Some((pr, a, port, pid, cmd))),
                    None => (st, None),
                },
            }
        } else {
            (st, None)
        }
    }
}

/// The sockets named by the lines of `t` from `p` on (`str::lines`), read
/// from state `st`.
pub open spec fn lsof_from(t: Seq<char>, p: int, st: LsofState) -> Seq<LsofSocketV>
    decreases t.len() - p,
{
    if p < 0 || p >= t.len() {
        Seq::empty()
    } else {
        let e = match find_nl(t, p) {
            Some(e) => e,
            None => t.len() as int,
        };
        let raw = t.subrange(p, e);
        let line = if find_nl(t, p) is Some && raw.len() > 0 && raw.last() == '\r' {
            raw.drop_last()
        } else {
            raw
        };
        let (st2, found) = lsof_line(st, line);
        let here = match found {
            Some(x) => seq![x],
            None => Seq::empty(),
        };
        proof {
            lemma_find_nl(t, p);
        }
        match find_nl(t, p) {
            Some(e2) => here + lsof_from(t, e2 + 1, st2),
            None => here,
        }
    }
}

/// Each line of `t` is empty or starts with an ASCII character (a field tag).
pub open spec fn tags_ascii(t: Seq<char>) -> bool {
    forall|i: int| 0 <= i < t.len() && (i == 0 || t[i - 1] == '\n') ==> #[trigger] t[i] < '\u{80}'
}

fn lsof_line_e(pid: u32, cmd: String, proto: Option<u8>, l: &[char]) -> (r: (
    u32,
    String,
    Option<u8>,
    Option<LsofSocket>,
))
    ensures
        lsof_line((pid, cmd@, proto), l@) == ((r.0, r.1@, r.2), match r.3 {
            Some(x) => Some((x.protocol, x.addr@, x.port, x.pid, x.command@)),
            None => None,
        }),
{
    if l.len() == 0 {
        return (pid, cmd, proto, None);
    }
    let rest = &l[1..l.len()];
    assert(rest@ =~= l@.drop_first());
    let tag = l[0];
    if tag == 'p' {
        let p = match parse_uint_exec(rest, 4294967295) {
            Some(v) => v as u32,
            None => 0u32,
        };
        (p, String::new(), None, None)
    } else if tag == 'c' {
        (pid, chars_to_string(rest), proto, None)
    } else if tag == 'f' {
        (pid, cmd, None, None)
    } else if tag == 'P' {
        let pr = if rest.len() == 3 && rest[0] == 'T' && rest[1] == 'C' && rest[2] == 'P' {
            assert(rest@ =~= seq!['T', 'C', 'P']);
            Some(6u8)
        } else if rest.len() == 3 && rest[0] == 'U' && rest[1] == 'D' && rest[2] == 'P' {
            assert(rest@ =~= seq!['U', 'D', 'P']);
            Some(17u8)
        } else {
            assert(rest@ == seq!['T', 'C', 'P'] ==> rest@.len() == 3 && rest@[0] == 'T'
                && rest@[1] == 'C' && rest@[2] == 'P');
            assert(rest@ == seq!['U', 'D', 'P'] ==> rest@.len() == 3 && rest@[0] == 'U'
                && rest@[1] == 'D' && rest@[2] == 'P');
            None
        };
        (pid, cmd, pr, None)
    } else if tag == 'n' {
        match proto {
            None => (pid, cmd, proto, None),
            Some(pr) => {
                let local = match find_pair_e(rest, '-', '>') {
                    Some(k) => {
                        let lk = &rest[0..k];
                        assert(lk@ =~= rest@.take(k as int));
                        lk
                    },
                    None => rest,
                };
                match endpoint_parts(local, false) {
                    Some((a, port)) => {
                        let c = cmd.clone();
                        (pid, cmd, proto, Some(LsofSocket { protocol: pr, addr: a, port, pid, command: c }))
                    },
                    None => (pid, cmd, proto, None),
                }
            },
        }
    } else {
        (pid, cmd, proto, None)
    }
}

/// Reads `lsof -i -n -P +c 0 -FpcPn` output: each TCP or UDP socket whose
/// local endpoint splits, with the process it belongs to, in order (a later
/// record for the same endpoint supersedes an earlier one).
pub fn parse_lsof(text: &str) -> (v: Vec<LsofSocket>)
    requires
        tags_ascii(text@),
    ensures
        lsof_sockets_view(v@) == lsof_from(text@, 0, (0u32, Seq::empty(), None)),
{
    let tv = string_chars(text);
    let t: &[char] = tv.as_slice();
    let n = t.len();
    let mut out: Vec<LsofSocket> = Vec::new();
    let mut p: usize = 0;
    let mut pid: u32 = 0;
    let mut cmd = String::new();
    let mut proto: Option<u8> = None;
    let ghost target = lsof_from(t@, 0, (0u32, Seq::empty(), None));
    assert(lsof_sockets_view(out@) + target =~= target);
    while p < n
        invariant_except_break
            n == t@.len(),
            p <= n,
            target == lsof_sockets_view(out@) + lsof_from(t@, p as int, (pid, cmd@, proto)),
        ensures
            target == lsof_sockets_view(out@),
        decreases n - p,
    {
        let mut e: usize = p;
        while e < n && t[e] != '\n'
            invariant
                n == t@.len(),
                p <= e <= n,
                find_nl(t@, p as int) == find_nl(t@, e as int),
            decreases n - e,
        {
            e = e + 1;
        }
        let raw = &t[p..e];
        assert(raw@ =~= t@.subrange(p as int, e as int));
        let line = if e < n && raw.len() > 0 && raw[raw.len() - 1] == '\r' {
            let l = &raw[0..raw.len() - 1];
            assert(l@ =~= raw@.drop_last());
            l
        } else {
            raw
        };
        let ghost before = lsof_sockets_view(out@);
        let ghost st = (pid, cmd@, proto);
        let (pid2, cmd2, proto2, found) = lsof_line_e(pid, cmd, proto, line);
        pid = pid2;
        cmd = cmd2;
        proto = proto2;
        let ghost here = match lsof_line(st, line@).1 {
            Some(x) => seq![x],
            None => Seq::<LsofSocketV>::empty(),
        };
        match found {
            Some(x) => {
                out.push(x);
            },
            None => {},
        }
        proof {
            lemma_find_nl(t@, p as int);
            assert(lsof_sockets_view(out@) =~= before + here);
            if e == n {
                assert(lsof_from(t@, p as int, st) == here);
                assert(before + here + Seq::<LsofSocketV>::empty() =~= before + here);
            } else {
                assert(lsof_from(t@, p as int, st) == here + lsof_from(t@, e + 1, (pid, cmd@, proto)));
                assert(before + (here + lsof_from(t@, e + 1, (pid, cmd@, proto))) =~= (before
                    + here) + lsof_from(t@, e + 1, (pid, cmd@, proto)));
            }
        }
        if e == n {
            break ;
        }
        p = e + 1;
    }
    proof {
        if p >= n {
            assert(lsof_sockets_view(out@) + Seq::<LsofSocketV>::empty() =~= lsof_sockets_view(out@));
        }
    }
    out
}

} // verus!
