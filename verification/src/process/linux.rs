//! Linux attribution helpers: reading the `/proc/net/{tcp,udp}[6]` socket
//! tables (local `address:port` in hex, socket inode in the tenth column).
use vstd::prelude::*;
use crate::decode::http::{is_ws, is_ws_exec, parse_uint, parse_uint_exec};
use crate::identity::{find_nl, lemma_find_nl};
use crate::net::{IpAddr, Ipv4Addr, Ipv6Addr};
use crate::text::string_chars;

verus! {

/// Value of a hexadecimal digit (`0-9`, `a-f`, `A-F`), or -1.
pub open spec fn hex_digit_value(c: char) -> int {
    if '0' <= c && c <= '9' {
        c as int - 48
    } else if 'a' <= c && c <= 'f' {
        c as int - 87
    } else if 'A' <= c && c <= 'F' {
        c as int - 55
    } else {
        -1
    }
}

pub open spec fn all_hex(s: Seq<char>) -> bool {
    forall|i: int| 0 <= i < s.len() ==> hex_digit_value(#[trigger] s[i]) >= 0
}

pub open spec fn hex_value(s: Seq<char>) -> nat
    decreases s.len(),
{
    if s.len() == 0 {
        0
    } else {
        hex_value(s.drop_last()) * 16 + hex_digit_value(s.last()) as nat
    }
}

/// `from_str_radix(s, 16)` of an unsigned integer no larger than `max`: an
/// optional `+`, then at least one hexadecimal digit.
pub open spec fn parse_hex(s: Seq<char>, max: nat) -> Option<nat> {
    let d = if s.len() > 0 && s[0] == '+' {
        s.drop_first()
    } else {
        s
    };
    if d.len() > 0 && all_hex(d) && hex_value(d) <= max {
        Some(hex_value(d))
    } else {
        None
    }
}

/// The bytes of a 32-bit word, least significant first: the order in which
/// the kernel's words hold an address on a little-endian host.
pub open spec fn word_le(n: nat) -> Seq<u8> {
    seq![(n % 256) as u8, ((n / 256) % 256) as u8, ((n / 65536) % 256) as u8, ((n / 16777216) % 256) as u8]
}

/// How many times `c` occurs in `s`.
pub open spec fn count_char(s: Seq<char>, c: char) -> nat
    decreases s.len(),
{
    if s.len() == 0 {
        0
    } else {
        count_char(s.drop_last(), c) + if s.last() == c {
            1nat
        } else {
            0nat
        }
    }
}

/// The first position of `c` in `s` (its length when absent).
pub open spec fn first_of(s: Seq<char>, c: char, i: int) -> int
    decreases s.len() - i,
{
    if i < 0 || i >= s.len() || s[i] == c {
        i
    } else {
        first_of(s, c, i + 1)
    }
}

/// One 32-hex-digit IPv6 address: four words, each parsed on its own.
pub open spec fn v6_words(a: Seq<char>) -> Option<Seq<u8>> {
    match (
        parse_hex(a.subrange(0, 8), u32::MAX as nat),
        parse_hex(a.subrange(8, 16), u32::MAX as nat),
        parse_hex(a.subrange(16, 24), u32::MAX as nat),
        parse_hex(a.subrange(24, 32), u32::MAX as nat),
    ) {
        (Some(w0), Some(w1), Some(w2), Some(w3)) => Some(
            word_le(w0) + word_le(w1) + word_le(w2) + word_le(w3),
        ),
        _ => None,
    }
}

/// A `/proc/net` endpoint `ADDR:PORT` (both in hex): the address bytes (4
/// for an 8-digit address, 16 for a 32-digit one) and the port; none unless
/// there is exactly one `:` and both parts parse.
pub open spec fn addr_port(s: Seq<char>) -> Option<(Seq<u8>, u16)> {
    if count_char(s, ':') != 1 {
        None
    } else {
        let c = first_of(s, ':', 0);
        let a = s.take(c);
        match parse_hex(s.skip(c + 1), u16::MAX as nat) {
            None => None,
            Some(port) => if a.len() == 8 {
                match parse_hex(a, u32::MAX as nat) {
                    Some(n) => Some((word_le(n), port as u16)),
                    None => None,
                }
            } else if a.len() == 32 {
                match v6_words(a) {
                    Some(b) => Some((b, port as u16)),
                    None => None,
                }
            } else {
                None
            },
        }
    }
}

/// The bytes of an address.
pub open spec fn ip_octets(ip: IpAddr) -> Seq<u8> {
    match ip {
        IpAddr::V4(a) => a.0@,
        IpAddr::V6(a) => a.0@,
    }
}

/// End of the run of non-white-space characters starting at `p`.
pub open spec fn word_end(l: Seq<char>, p: int) -> int
    decreases l.len() - p,
{
    if p < 0 || p >= l.len() || is_ws(l[p]) {
        p
    } else {
        word_end(l, p + 1)
    }
}

pub proof fn lemma_word_end(l: Seq<char>, p: int)
    requires
        0 <= p <= l.len(),
    ensures
        p <= word_end(l, p) <= l.len(),
        p < l.len() && !is_ws(l[p]) ==> p < word_end(l, p),
    decreases l.len() - p,
{
    if p < l.len() && !is_ws(l[p]) {
        lemma_word_end(l, p + 1);
    }
}

/// The white-space separated fields of `l` from `p` on, as
/// `str::split_whitespace` gives them.
pub open spec fn fields_from(l: Seq<char>, p: int) -> Seq<Seq<char>>
    decreases l.len() - p,
{
    if p < 0 || p >= l.len() {
        Seq::empty()
    } else if is_ws(l[p]) {
        fields_from(l, p + 1)
    } else {
        let e = word_end(l, p);
        proof {
            lemma_word_end(l, p);
        }
        seq![l.subrange(p, e)] + fields_from(l, e)
    }
}

/// One socket-table entry: the local address bytes, the local port and the
/// socket inode.
pub type ProcNetEntryV = (Seq<u8>, u16, u64);

/// One table line: its second field as the local endpoint and its tenth as
/// the inode; none for a line of fewer than ten fields, an endpoint or
/// inode that does not parse, or inode 0.
pub open spec fn proc_net_line(l: Seq<char>) -> Option<ProcNetEntryV> {
    let f = fields_from(l, 0);
    if f.len() < 10 {
        None
    } else {
        match (addr_port(f[1]), parse_uint(f[9], u64::MAX as nat)) {
            (Some((a, port)), Some(inode)) => if inode != 0 {
                Some((a, port, inode as u64))
            } else {
                None
            },
            _ => None,
        }
    }
}

/// The entries of the lines of `t` from `p` on (`str::lines`), the first
/// line skipped where `skip` holds.
pub open spec fn proc_net_from(t: Seq<char>, p: int, skip: bool) -> Seq<ProcNetEntryV>
    decreases t.len() - p,
{
    if p < 0 || p >= t.len() {
        Seq::empty()
    } else {
        let e = match find_nl(t, p) {
            Some(e) => e,
            None => t.len() as int,
        };
        let raw = t.subrange(p, e);
        let line = if find_nl(t, p) is Some && raw.len() > 0 && raw.last() == '\r' {
            raw.drop_last()
        } else {
            raw
        };
        let here = if skip {
            Seq::empty()
        } else {
            match proc_net_line(line) {
                Some(x) => seq![x],
                None => Seq::empty(),
            }
        };
        proof {
            lemma_find_nl(t, p);
        }
        match find_nl(t, p) {
            Some(e2) => here + proc_net_from(t, e2 + 1, false),
            None => here,
        }
    }
}

/// The view of parsed entries.
pub open spec fn entries_view(v: Seq<(IpAddr, u16, u64)>) -> Seq<ProcNetEntryV> {
    v.map_values(|x: (IpAddr, u16, u64)| (ip_octets(x.0), x.1, x.2))
}

proof fn lemma_hex_mono(d: Seq<char>, i: int)
    requires
        0 <= i <= d.len(),
        all_hex(d),
    ensures
        hex_value(d.take(i)) <= hex_value(d),
    decreases d.len(),
{
    if i < d.len() {
        let t = d.drop_last();
        assert(all_hex(t)) by {
            assert forall|k: int| 0 <= k < t.len() implies hex_digit_value(#[trigger] t[k]) >= 0 by {
                assert(t[k] == d[k]);
            }
        }
        lemma_hex_mono(t, i);
        assert(t.take(i) =~= d.take(i));
    } else {
        assert(d.take(i) =~= d);
    }
}

fn hex_digit_exec(c: char) -> (r: Option<u64>)
    ensures
        match r {
            Some(v) => v < 16 && v == hex_digit_value(c),
            None => hex_digit_value(c) < 0,
        },
{
    let v = c as u32;
    if '0' <= c && c <= '9' {
        Some((v - 48) as u64)
    } else if 'a' <= c && c <= 'f' {
        Some((v - 87) as u64)
    } else if 'A' <= c && c <= 'F' {
        Some((v - 55) as u64)
    } else {
        None
    }
}

/// `from_str_radix(_, 16)` of an unsigned integer no larger than `max`.
pub fn parse_hex_exec(s: &[char], max: u64) -> (r: Option<u64>)
    requires
        max >= 15,
    ensures
        match r {
            Some(v) => parse_hex(s@, max as nat) == Some(v as nat),
            None => parse_hex(s@, max as nat) is None,
        },
{
    let start: usize = if s.len() > 0 && s[0] == '+' {
        1
    } else {
        0
    };
    let ghost d = if s@.len() > 0 && s@[0] == '+' {
        s@.drop_first()
    } else {
        s@
    };
    assert(d =~= s@.skip(start as int));
    if start == s.len() {
        return None;
    }
    let mut i: usize = start;
    while i < s.len()
        invariant
            start <= i <= s@.len(),
            d =~= s@.skip(start as int),
            d == (if s@.len() > 0 && s@[0] == '+' {
                s@.drop_first()
            } else {
                s@
            }),
            forall|k: int| start <= k < i ==> hex_digit_value(#[trigger] s@[k]) >= 0,
        decreases s@.len() - i,
    {
        if hex_digit_exec(s[i]).is_none() {
            assert(d[i - start] == s@[i as int]);
            assert(hex_digit_value(d[i - start]) < 0);
            return None;
        }
        i = i + 1;
    }
    assert(all_hex(d)) by {
        assert forall|k: int| 0 <= k < d.len() implies hex_digit_value(#[trigger] d[k]) >= 0 by {
            assert(d[k] == s@[k + start]);
        }
    }
    let mut v: u64 = 0;
    let mut j: usize = start;
    while j < s.len()
        invariant
            start <= j <= s@.len(),
            d =~= s@.skip(start as int),
            d == (if s@.len() > 0 && s@[0] == '+' {
                s@.drop_first()
            } else {
                s@
            }),
            all_hex(d),
            max >= 15,
            v as nat == hex_value(d.take(j - start)),
            v <= max,
        decreases s@.len() - j,
    {
        assert(s@[j as int] == d[j - start]);
        assert(hex_digit_value(d[j - start]) >= 0);
        let dg = match hex_digit_exec(s[j]) {
            Some(x) => x,
            None => {
                return None;
            },
        };
        assert(d.take(j + 1 - start).drop_last() =~= d.take(j - start));
        if v > (max - dg) / 16 {
            assert(v * 16 + dg > max) by (nonlinear_arith)
                requires
                    v > (max - dg) / 16,
                    dg < 16,
                    max >= 15,
            ;
            proof {
                lemma_hex_mono(d, j + 1 - start);
            }
            return None;
        }
        assert(v * 16 + dg <= max) by (nonlinear_arith)
            requires
                v <= (max - dg) / 16,
                dg < 16,
                max >= 15,
        ;
        v = v * 16 + dg;
        j = j + 1;
    }
    assert(d.take(j - start) =~= d);
    Some(v)
}

fn word_le_exec(n: u64) -> (r: [u8; 4])
    ensures
        r@ == word_le(n as nat),
{
    let r = [(n % 256) as u8, ((n / 256) % 256) as u8, ((n / 65536) % 256) as u8, ((n / 16777216)
        % 256) as u8];
    assert(r@ =~= word_le(n as nat));
    r
}

/// A `/proc/net` endpoint `ADDR:PORT`, address and port in hex; the address
/// is read as little-endian 32-bit words.
pub fn parse_addr_port(s: &str) -> (r: Option<(IpAddr, u16)>)
    ensures
        match r {
            Some((ip, port)) => addr_port(s@) == Some((ip_octets(ip), port)),
            None => addr_port(s@) is None,
        },
{
    let cv = string_chars(s);
    let c: &[char] = cv.as_slice();
    let n = c.len();
    let mut colons: usize = 0;
    let mut first: usize = n;
    let mut i: usize = 0;
    while i < n
        invariant
            n == c@.len(),
            i <= n,
            colons == count_char(c@.take(i as int), ':'),
            colons <= i,
            colons == 0 ==> first == n,
            colons == 0 ==> first_of(c@, ':', 0) == first_of(c@, ':', i as int),
            colons > 0 ==> first < i && first == first_of(c@, ':', 0),
        decreases n - i,
    {
        assert(c@.take(i + 1).drop_last() =~= c@.take(i as int));
        if c[i] == ':' {
            if colons == 0 {
                first = i;
            }
            colons = colons + 1;
        }
        i = i + 1;
    }
    assert(c@.take(n as int) =~= c@);
    if colons != 1 {
        return None;
    }
    proof {
        if first_of(c@, ':', 0) != first as int {
            assert(false);
        }
    }
    let a = &c[0..first];
    let p = &c[first + 1..n];
    assert(a@ =~= c@.take(first as int));
    assert(p@ =~= c@.skip(first + 1));
    let port = match parse_hex_exec(p, 65535) {
        Some(v) => v,
        None => return None,
    };
    if a.len() == 8 {
        match parse_hex_exec(a, 4294967295) {
            Some(w) => {
                let b = word_le_exec(w);
                let ip = IpAddr::V4(Ipv4Addr(b));
                Some((ip, port as u16))
            },
            None => None,
        }
    } else if a.len() == 32 {
        let c0 = &a[0..8];
        let c1 = &a[8..16];
        let c2 = &a[16..24];
        let c3 = &a[24..32];
        assert(c0@ =~= a@.subrange(0, 8));
        assert(c1@ =~= a@.subrange(8, 16));
        assert(c2@ =~= a@.subrange(16, 24));
        assert(c3@ =~= a@.subrange(24, 32));
        let w0 = parse_hex_exec(c0, 4294967295);
        let w1 = parse_hex_exec(c1, 4294967295);
        let w2 = parse_hex_exec(c2, 4294967295);
        let w3 = parse_hex_exec(c3, 4294967295);
        let (w0, w1, w2, w3) = match (w0, w1, w2, w3) {
            (Some(w0), Some(w1), Some(w2), Some(w3)) => (w0, w1, w2, w3),
            _ => return None,
        };
        let b0 = word_le_exec(w0);
        let b1 = word_le_exec(w1);
        let b2 = word_le_exec(w2);
        let b3 = word_le_exec(w3);
        let bytes: [u8; 16] = [
            b0[0],
            b0[1],
            b0[2],
            b0[3],
            b1[0],
            b1[1],
            b1[2],
            b1[3],
            b2[0],
            b2[1],
            b2[2],
            b2[3],
            b3[0],
            b3[1],
            b3[2],
            b3[3],
        ];
        assert(bytes@ =~= b0@ + b1@ + b2@ + b3@);
        let ip = IpAddr::V6(Ipv6Addr(bytes));
        Some((ip, port as u16))
    } else {
        None
    }
}

/// Each pair of `v` bounds the field of `fs` at the same index in `l`.
pub open spec fn bounds_of(l: Seq<char>, v: Seq<(usize, usize)>, fs: Seq<Seq<char>>) -> bool {
    &&& v.len() == fs.len()
    &&& forall|i: int| 0 <= i < v.len() ==> #[trigger] v[i].0 <= v[i].1 && v[i].1 <= l.len()
    &&& forall|i: int|
        0 <= i < v.len() ==> l.subrange(v[i].0 as int, v[i].1 as int) == #[trigger] fs[i]
}

proof fn lemma_bounds_push(l: Seq<char>, v: Seq<(usize, usize)>, fs: Seq<Seq<char>>, a: usize, b: usize)
    requires
        bounds_of(l, v, fs),
        a <= b <= l.len(),
    ensures
        bounds_of(l, v.push((a, b)), fs.push(l.subrange(a as int, b as int))),
{
    let v2 = v.push((a, b));
    let f2 = fs.push(l.subrange(a as int, b as int));
    assert forall|i: int| 0 <= i < v2.len() implies #[trigger] v2[i].0 <= v2[i].1 && v2[i].1
        <= l.len() by {
        if i < v.len() {
            assert(v2[i] == v[i]);
        }
    }
    assert forall|i: int| 0 <= i < v2.len() implies l.subrange(v2[i].0 as int, v2[i].1 as int)
        == #[trigger] f2[i] by {
        if i < v.len() {
            assert(v2[i] == v[i]);
            assert(f2[i] == fs[i]);
        }
    }
}

/// Bounds of the white-space separated fields of `l`.
pub(crate) fn field_bounds(l: &[char]) -> (v: Vec<(usize, usize)>)
    ensures
        bounds_of(l@, v@, fields_from(l@, 0)),
{
    let n = l.len();
    let mut v: Vec<(usize, usize)> = Vec::new();
    let mut p: usize = 0;
    let ghost done: Seq<Seq<char>> = Seq::empty();
    while p < n
        invariant
            n == l@.len(),
            p <= n,
            fields_from(l@, 0) == done + fields_from(l@, p as int),
            bounds_of(l@, v@, done),
        decreases n - p,
    {
        if is_ws_exec(l[p]) {
            p = p + 1;
        } else {
            let mut e: usize = p;
            while e < n && !is_ws_exec(l[e])
                invariant
                    n == l@.len(),
                    p <= e <= n,
                    p < n,
                    !is_ws(l@[p as int]),
                    word_end(l@, p as int) == word_end(l@, e as int),
                    fields_from(l@, 0) == done + fields_from(l@, p as int),
                    bounds_of(l@, v@, done),
                decreases n - e,
            {
                e = e + 1;
            }
            let ghost old_v = v@;
            v.push((p, e));
            proof {
                lemma_word_end(l@, p as int);
                let f = l@.subrange(p as int, e as int);
                assert(fields_from(l@, p as int) == seq![f] + fields_from(l@, e as int));
                lemma_bounds_push(l@, old_v, done, p, e);
                done = done.push(f);
                assert(fields_from(l@, 0) =~= done + fields_from(l@, e as int));
            }
            p = e;
        }
    }
    assert(fields_from(l@, p as int) =~= Seq::<Seq<char>>::empty());
    assert(done =~= fields_from(l@, 0));
    v
}

fn proc_net_line_exec(l: &[char]) -> (r: Option<(IpAddr, u16, u64)>)
    ensures
        match r {
            Some(x) => proc_net_line(l@) == Some((ip_octets(x.0), x.1, x.2)),
            None => proc_net_line(l@) is None,
        },
{
    let f = field_bounds(l);
    let ghost fs = fields_from(l@, 0);
    if f.len() < 10 {
        return None;
    }
    assert(fs[1] == l@.subrange(f@[1].0 as int, f@[1].1 as int));
    assert(fs[9] == l@.subrange(f@[9].0 as int, f@[9].1 as int));
    let (a1, b1) = f[1];
    let (a9, b9) = f[9];
    let ep = &l[a1..b1];
    let ino = &l[a9..b9];
    assert(ep@ =~= l@.subrange(a1 as int, b1 as int));
    assert(ino@ =~= l@.subrange(a9 as int, b9 as int));
    let ep_s = crate::text::chars_to_string(ep);
    let parsed = parse_addr_port(ep_s.as_str());
    let inode = parse_uint_exec(ino, 18446744073709551615);
    match (parsed, inode) {
        (Some((ip, port)), Some(i)) => {
            if i != 0 {
                Some((ip, port, i))
            } else {
                None
            }
        },
        _ => None,
    }
}

/// Reads a `/proc/net/{tcp,udp}[6]` table: after the header line, each line
/// with a parsable local endpoint and a non-zero inode gives an entry, in
/// order (a later entry for the same endpoint supersedes an earlier one).
pub fn parse_proc_net(contents: &str) -> (v: Vec<(IpAddr, u16, u64)>)
    ensures
        entries_view(v@) == proc_net_from(contents@, 0, true),
{
    let tv = string_chars(contents);
    let t: &[char] = tv.as_slice();
    let n = t.len();
    let mut out: Vec<(IpAddr, u16, u64)> = Vec::new();
    let mut p: usize = 0;
    let mut skip = true;
    let ghost target = proc_net_from(t@, 0, true);
    while p < n
        invariant_except_break
            n == t@.len(),
            p <= n,
            target == entries_view(out@) + proc_net_from(t@, p as int, skip),
        ensures
            target == entries_view(out@),
        decreases n - p,
    {
        let mut e: usize = p;
        while e < n && t[e] != '\n'
            invariant
                n == t@.len(),
                p <= e <= n,
                find_nl(t@, p as int) == find_nl(t@, e as int),
            decreases n - e,
        {
            e = e + 1;
        }
        let raw = &t[p..e];
        assert(raw@ =~= t@.subrange(p as int, e as int));
        let line = if e < n && raw.len() > 0 && raw[raw.len() - 1] == '\r' {
            let l = &raw[0..raw.len() - 1];
            assert(l@ =~= raw@.drop_last());
            l
        } else {
            raw
        };
        let ghost before = entries_view(out@);
        if !skip {
            match proc_net_line_exec(line) {
                Some(x) => {
                    out.push(x);
                    assert(entries_view(out@) =~= before.push((ip_octets(x.0), x.1, x.2)));
                },
                None => {},
            }
        }
        proof {
            lemma_find_nl(t@, p as int);
            let here = if skip {
                Seq::<ProcNetEntryV>::empty()
            } else {
                match proc_net_line(line@) {
                    Some(x) => seq![x],
                    None => Seq::empty(),
                }
            };
            assert(entries_view(out@) =~= before + here);
            if e == n {
                assert(proc_net_from(t@, p as int, skip) == here);
                assert(before + here + Seq::<ProcNetEntryV>::empty() =~= before + here);
            } else {
                assert(proc_net_from(t@, p as int, skip) == here + proc_net_from(t@, e + 1, false));
                assert(before + (here + proc_net_from(t@, e + 1, false)) =~= (before + here)
                    + proc_net_from(t@, e + 1, false));
            }
        }
        if e == n {
            break ;
        }
        p = e + 1;
        skip = false;
    }
    proof {
        if p >= n {
            assert(entries_view(out@) + Seq::<ProcNetEntryV>::empty() =~= entries_view(out@));
        }
    }
    out
}

} // verus!
