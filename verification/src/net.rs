//! Link- and network-layer addresses: MAC, IPv4, IPv6, their textual forms and
//! their total order (IPv4 before IPv6, then by address bytes).
use vstd::prelude::*;
use vstd::string::*;
use crate::text::{dec, digit, hex, hex2, push_char, push_dec, push_hex, push_hex2};

verus! {

/// A 48-bit Ethernet hardware address.
#[derive(Clone, Copy, Debug, PartialEq, Eq, Hash)]
pub struct MacAddr(pub [u8; 6]);

/// An IPv4 address, stored as its four octets in network order.
#[derive(Clone, Copy, Debug, PartialEq, Eq, Hash)]
pub struct Ipv4Addr(pub [u8; 4]);

/// An IPv6 address, stored as its sixteen octets in network order.
#[derive(Clone, Copy, Debug, PartialEq, Eq, Hash)]
pub struct Ipv6Addr(pub [u8; 16]);

/// Either kind of IP address.
#[derive(Clone, Copy, Debug, PartialEq, Eq, Hash)]
pub enum IpAddr {
    V4(Ipv4Addr),
    V6(Ipv6Addr),
}

/// Big-endian value of a byte sequence.
pub open spec fn be_value(b: Seq<u8>) -> nat
    decreases b.len(),
{
    if b.len() == 0 {
        0
    } else {
        be_value(b.drop_last()) * 256 + (b.last() as nat)
    }
}

/// `a:b:c:d:e:f` with two lower-case hex digits per byte.
pub open spec fn mac_text(b: Seq<u8>) -> Seq<char> {
    hex2(b[0]) + seq![':'] + hex2(b[1]) + seq![':'] + hex2(b[2]) + seq![':'] + hex2(b[3])
        + seq![':'] + hex2(b[4]) + seq![':'] + hex2(b[5])
}

/// Dotted-decimal form `a.b.c.d`.
pub open spec fn ipv4_text(b: Seq<u8>) -> Seq<char> {
    dec(b[0] as nat) + seq!['.'] + dec(b[1] as nat) + seq!['.'] + dec(b[2] as nat) + seq!['.']
        + dec(b[3] as nat)
}

/// The eight 16-bit segments of an IPv6 address.
pub open spec fn segments(b: Seq<u8>) -> Seq<u16> {
    Seq::new(8, |i: int| (b[2 * i] * 256 + b[2 * i + 1]) as u16)
}

/// Segments `s[i..]` rendered as `x:y:z` (lower-case hex, no padding).
pub open spec fn join_hex(s: Seq<u16>) -> Seq<char>
    decreases s.len(),
{
    if s.len() == 0 {
        seq![]
    } else if s.len() == 1 {
        hex(s[0] as nat)
    } else {
        join_hex(s.drop_last()) + seq![':'] + hex(s.last() as nat)
    }
}

/// Scan state of the search for the first longest run of zero segments:
/// returns `(start, len)` of the best run among `s[..]` given the run that is
/// open at index `i` (`cur_start`, `cur_len`) and the best so far.
pub open spec fn zero_run_from(
    s: Seq<u16>,
    i: int,
    cur_start: int,
    cur_len: int,
    best_start: int,
    best_len: int,
) -> (int, int)
    decreases s.len() - i,
{
    if i >= s.len() {
        (best_start, best_len)
    } else if s[i] == 0 {
        let cs = if cur_len == 0 {
            i
        } else {
            cur_start
        };
        let cl = cur_len + 1;
        if cl > best_len {
            zero_run_from(s, i + 1, cs, cl, cs, cl)
        } else {
            zero_run_from(s, i + 1, cs, cl, best_start, best_len)
        }
    } else {
        zero_run_from(s, i + 1, 0, 0, best_start, best_len)
    }
}

/// The first longest run of zero segments, as `(start, len)`.
pub open spec fn zero_run(s: Seq<u16>) -> (int, int) {
    zero_run_from(s, 0, 0, 0, 0, 0)
}

/// An IPv4-mapped address `::ffff:a.b.c.d`.
pub open spec fn is_v4_mapped(b: Seq<u8>) -> bool {
    let s = segments(b);
    s[0] == 0 && s[1] == 0 && s[2] == 0 && s[3] == 0 && s[4] == 0 && s[5] == 0xffff
}

/// Textual IPv6 form: the IPv4-mapped form, or the segments with the first
/// longest run of at least two zero segments shortened to `::`.
pub open spec fn ipv6_text(b: Seq<u8>) -> Seq<char> {
    if is_v4_mapped(b) {
        seq![':', ':', 'f', 'f', 'f', 'f', ':'] + ipv4_text(b.subrange(12, 16))
    } else {
        let s = segments(b);
        let (start, len) = zero_run(s);
        if len > 1 {
            join_hex(s.subrange(0, start)) + seq![':', ':'] + join_hex(
                s.subrange(start + len, 8),
            )
        } else {
            join_hex(s)
        }
    }
}

pub open spec fn ip_text(ip: IpAddr) -> Seq<char> {
    match ip {
        IpAddr::V4(a) => ipv4_text(a.0@),
        IpAddr::V6(a) => ipv6_text(a.0@),
    }
}

/// The position of an address in the total order: family first, then value.
pub open spec fn ip_rank(ip: IpAddr) -> (int, int) {
    match ip {
        IpAddr::V4(a) => (0, be_value(a.0@) as int),
        IpAddr::V6(a) => (1, be_value(a.0@) as int),
    }
}

/// `(a, pa) <= (b, pb)` in the lexicographic order of (address, port).
pub open spec fn endpoint_le(a: IpAddr, pa: u16, b: IpAddr, pb: u16) -> bool {
    let (fa, va) = ip_rank(a);
    let (fb, vb) = ip_rank(b);
    fa < fb || (fa == fb && (va < vb || (va == vb && pa <= pb)))
}

pub proof fn lemma_be_value_bound(b: Seq<u8>)
    ensures
        be_value(b) < pow256(b.len()),
    decreases b.len(),
{
    if b.len() > 0 {
        lemma_be_value_bound(b.drop_last());
    }
}

pub open spec fn pow256(n: nat) -> nat
    decreases n,
{
    if n == 0 {
        1
    } else {
        256 * pow256((n - 1) as nat)
    }
}

/// Compares two byte sequences of the same length by big-endian value.
fn order_be(a: &[u8], b: &[u8]) -> (r: i8)
    requires
        a@.len() == b@.len(),
    ensures
        r < 0 <==> be_value(a@) < be_value(b@),
        r == 0 <==> be_value(a@) == be_value(b@),
        r > 0 <==> be_value(a@) > be_value(b@),
{
    let mut i: usize = 0;
    while i < a.len()
        invariant
            i <= a@.len() == b@.len(),
            a@.take(i as int) == b@.take(i as int),
        decreases a.len() - i,
    {
        if a[i] != b[i] {
            proof {
                lemma_be_prefix_decides(a@, b@, i as int);
            }
            if a[i] < b[i] {
                return -1;
            } else {
                return 1;
            }
        }
        i = i + 1;
        assert(a@.take(i as int) =~= a@.take(i - 1).push(a@[i - 1]));
        assert(b@.take(i as int) =~= b@.take(i - 1).push(b@[i - 1]));
    }
    assert(a@.take(i as int) =~= a@);
    assert(b@.take(i as int) =~= b@);
    0
}

pub proof fn lemma_be_append(a: Seq<u8>, b: Seq<u8>)
    ensures
        be_value(a + b) == be_value(a) * pow256(b.len()) + be_value(b),
    decreases b.len(),
{
    if b.len() == 0 {
        assert(a + b =~= a);
        assert(pow256(0) == 1);
        assert(be_value(a) * 1 == be_value(a));
    } else {
        lemma_be_append(a, b.drop_last());
        assert((a + b).drop_last() =~= a + b.drop_last());
        let x = be_value(a);
        let p = pow256((b.len() - 1) as nat);
        let y = be_value(b.drop_last());
        assert((a + b).last() == b.last());
        assert(be_value(a + b) == be_value(a + b.drop_last()) * 256 + (b.last() as nat));
        assert(pow256(b.len()) == 256 * p);
        assert(be_value(b) == y * 256 + (b.last() as nat));
        assert((x * p + y) * 256 + (b.last() as nat) == x * (256 * p) + (y * 256 + (
        b.last() as nat))) by (nonlinear_arith);
        assert(be_value(a + b) == x * (256 * p) + be_value(b));
    }
}

proof fn lemma_be_prefix_decides(a: Seq<u8>, b: Seq<u8>, i: int)
    requires
        a.len() == b.len(),
        0 <= i < a.len(),
        a.take(i) == b.take(i),
        a[i] != b[i],
    ensures
        a[i] < b[i] ==> be_value(a) < be_value(b),
        a[i] > b[i] ==> be_value(a) > be_value(b),
{
    let n = (a.len() - i - 1) as nat;
    let ta = a.subrange(i + 1, a.len() as int);
    let tb = b.subrange(i + 1, b.len() as int);
    let pa = a.take(i + 1);
    let pb = b.take(i + 1);
    assert(a =~= pa + ta);
    assert(b =~= pb + tb);
    lemma_be_append(pa, ta);
    lemma_be_append(pb, tb);
    lemma_be_value_bound(ta);
    lemma_be_value_bound(tb);
    assert(pa.drop_last() =~= a.take(i));
    assert(pb.drop_last() =~= b.take(i));
    assert(be_value(pa) == be_value(a.take(i)) * 256 + a[i]);
    assert(be_value(pb) == be_value(a.take(i)) * 256 + b[i]);
    let p = pow256(n);
    let x = be_value(a.take(i));
    if a[i] < b[i] {
        assert(be_value(a) < be_value(b)) by (nonlinear_arith)
            requires
                be_value(a) == (x * 256 + a[i]) * p + be_value(ta),
                be_value(b) == (x * 256 + b[i]) * p + be_value(tb),
                a[i] + 1 <= b[i],
                be_value(ta) < p,
                p > 0,
        ;
    } else {
        assert(be_value(a) > be_value(b)) by (nonlinear_arith)
            requires
                be_value(a) == (x * 256 + a[i]) * p + be_value(ta),
                be_value(b) == (x * 256 + b[i]) * p + be_value(tb),
                b[i] + 1 <= a[i],
                be_value(tb) < p,
                p > 0,
        ;
    }
}

impl MacAddr {
    /// Colon-separated lower-case hex form.
    pub fn to_text(&self) -> (s: String)
        ensures
            s@ == mac_text(self.0@),
    {
        let mut s = String::new();
        let b = self.0;
        push_hex2(&mut s, b[0]);
        push_char(&mut s, ':');
        push_hex2(&mut s, b[1]);
        push_char(&mut s, ':');
        push_hex2(&mut s, b[2]);
        push_char(&mut s, ':');
        push_hex2(&mut s, b[3]);
        push_char(&mut s, ':');
        push_hex2(&mut s, b[4]);
        push_char(&mut s, ':');
        push_hex2(&mut s, b[5]);
        assert(s@ =~= mac_text(self.0@));
        s
    }
}

impl Ipv4Addr {
    pub fn new(a: u8, b: u8, c: u8, d: u8) -> (r: Ipv4Addr)
        ensures
            r.0@ == seq![a, b, c, d],
    {
        let r = Ipv4Addr([a, b, c, d]);
        assert(r.0@ =~= seq![a, b, c, d]);
        r
    }

    pub fn octets(&self) -> (r: [u8; 4])
        ensures
            r == self.0,
    {
        self.0
    }

    /// Dotted-decimal text.
    pub fn to_text(&self) -> (s: String)
        ensures
            s@ == ipv4_text(self.0@),
    {
        let mut s = String::new();
        push_ipv4(&mut s, &self.0);
        s
    }
}

/// Appends the dotted-decimal text of four octets.
pub fn push_ipv4(s: &mut String, b: &[u8; 4])
    ensures
        final(s)@ == old(s)@ + ipv4_text(b@),
{
    push_dec(s, b[0] as u64);
    push_char(s, '.');
    push_dec(s, b[1] as u64);
    push_char(s, '.');
    push_dec(s, b[2] as u64);
    push_char(s, '.');
    push_dec(s, b[3] as u64);
    assert(final(s)@ =~= old(s)@ + ipv4_text(b@));
}

/// Appends `join_hex(seg[from..to])`.
fn push_join_hex(s: &mut String, seg: &[u16; 8], from: usize, to: usize)
    requires
        from <= to <= 8,
    ensures
        final(s)@ == old(s)@ + join_hex(seg@.subrange(from as int, to as int)),
{
    let mut i = from;
    while i < to
        invariant
            from <= i <= to <= 8,
            seg@.len() == 8,
            s@ == old(s)@ + join_hex(seg@.subrange(from as int, i as int)),
        decreases to - i,
    {
        let ghost before = s@;
        if i > from {
            push_char(s, ':');
        }
        push_hex(s, seg[i] as u64);
        i = i + 1;
        let ghost sub = seg@.subrange(from as int, i as int);
        assert(sub.drop_last() =~= seg@.subrange(from as int, i - 1));
        if i - 1 > from {
            assert(s@ =~= old(s)@ + join_hex(sub));
        } else {
            assert(sub.len() == 1);
            assert(s@ =~= old(s)@ + join_hex(sub));
        }
    }
}

impl Ipv6Addr {
    /// The address whose segments are `s` (each segment big-endian).
    pub fn from_segments(s: [u16; 8]) -> (r: Ipv6Addr)
        ensures
            segments(r.0@) == s@,
    {
        let mut o = [0u8; 16];
        let mut i: usize = 0;
        while i < 8
            invariant
                i <= 8,
                o@.len() == 16,
                s@.len() == 8,
                forall|j: int| 0 <= j < i ==> (#[trigger] o@[2 * j]) * 256 + o@[2 * j + 1] == s@[j],
            decreases 8 - i,
        {
            let v = s[i];
            o[2 * i] = (v / 256) as u8;
            o[2 * i + 1] = (v % 256) as u8;
            i = i + 1;
        }
        let r = Ipv6Addr(o);
        assert(segments(r.0@) =~= s@);
        r
    }

    pub fn octets(&self) -> (r: [u8; 16])
        ensures
            r == self.0,
    {
        self.0
    }

    /// The eight segments.
    pub fn segments(&self) -> (r: [u16; 8])
        ensures
            r@ == segments(self.0@),
    {
        let mut out = [0u16; 8];
        let mut i: usize = 0;
        while i < 8
            invariant
                i <= 8,
                out@.len() == 8,
                self.0@.len() == 16,
                forall|j: int| 0 <= j < i ==> #[trigger] out@[j] == segments(self.0@)[j],
            decreases 8 - i,
        {
            let hi = self.0[2 * i] as u16;
            let lo = self.0[2 * i + 1] as u16;
            out[i] = hi * 256 + lo;
            i = i + 1;
        }
        assert(out@ =~= segments(self.0@));
        out
    }

    /// Textual form (RFC 5952 style, as the standard library prints it).
    pub fn to_text(&self) -> (s: String)
        ensures
            s@ == ipv6_text(self.0@),
    {
        let mut s = String::new();
        push_ipv6(&mut s, self);
        s
    }
}

/// Computes `zero_run` by the same left-to-right scan.
fn find_zero_run(seg: &[u16; 8]) -> (r: (usize, usize))
    ensures
        r.0 as int == zero_run(seg@).0,
        r.1 as int == zero_run(seg@).1,
        r.0 + r.1 <= 8,
{
    let mut cur_start: usize = 0;
    let mut cur_len: usize = 0;
    let mut best_start: usize = 0;
    let mut best_len: usize = 0;
    let mut i: usize = 0;
    while i < 8
        invariant
            i <= 8,
            seg@.len() == 8,
            cur_start + cur_len == i || cur_len == 0,
            best_start + best_len <= i,
            zero_run_from(seg@, i as int, cur_start as int, cur_len as int, best_start as int, best_len as int)
                == zero_run(seg@),
        decreases 8 - i,
    {
        if seg[i] == 0 {
            if cur_len == 0 {
                cur_start = i;
            }
            cur_len = cur_len + 1;
            if cur_len > best_len {
                best_start = cur_start;
                best_len = cur_len;
            }
        } else {
            cur_start = 0;
            cur_len = 0;
        }
        i = i + 1;
    }
    (best_start, best_len)
}

/// Appends the textual IPv6 form.
pub fn push_ipv6(s: &mut String, a: &Ipv6Addr)
    ensures
        final(s)@ == old(s)@ + ipv6_text(a.0@),
{
    let seg = a.segments();
    if seg[0] == 0 && seg[1] == 0 && seg[2] == 0 && seg[3] == 0 && seg[4] == 0 && seg[5] == 0xffff {
        push_char(s, ':');
        push_char(s, ':');
        push_char(s, 'f');
        push_char(s, 'f');
        push_char(s, 'f');
        push_char(s, 'f');
        push_char(s, ':');
        let o = a.0;
        let v4: [u8; 4] = [o[12], o[13], o[14], o[15]];
        assert(v4@ =~= a.0@.subrange(12, 16));
        push_ipv4(s, &v4);
        assert(final(s)@ =~= old(s)@ + ipv6_text(a.0@));
    } else {
        let (start, len) = find_zero_run(&seg);
        if len > 1 {
            push_join_hex(s, &seg, 0, start);
            push_char(s, ':');
            push_char(s, ':');
            push_join_hex(s, &seg, start + len, 8);
            assert(final(s)@ =~= old(s)@ + ipv6_text(a.0@));
        } else {
            push_join_hex(s, &seg, 0, 8);
            assert(seg@.subrange(0, 8) =~= seg@);
            assert(final(s)@ =~= old(s)@ + ipv6_text(a.0@));
        }
    }
}

impl IpAddr {
    /// Textual form of either family.
    pub fn to_text(&self) -> (s: String)
        ensures
            s@ == ip_text(*self),
    {
        match self {
            IpAddr::V4(a) => a.to_text(),
            IpAddr::V6(a) => a.to_text(),
        }
    }
}

/// Compares two addresses in the total order of `ip_rank`:
/// negative, zero or positive.
pub fn compare_ip(a: &IpAddr, b: &IpAddr) -> (r: i8)
    ensures
        r < 0 <==> (ip_rank(*a).0 < ip_rank(*b).0 || (ip_rank(*a).0 == ip_rank(*b).0
            && ip_rank(*a).1 < ip_rank(*b).1)),
        r == 0 <==> ip_rank(*a) == ip_rank(*b),
{
    match (a, b) {
        (IpAddr::V4(x), IpAddr::V4(y)) => order_be(&x.0, &y.0),
        (IpAddr::V6(x), IpAddr::V6(y)) => order_be(&x.0, &y.0),
        (IpAddr::V4(_), IpAddr::V6(_)) => -1,
        (IpAddr::V6(_), IpAddr::V4(_)) => 1,
    }
}

/// `(a, pa) <= (b, pb)` by address, then port.
pub fn endpoint_le_exec(a: &IpAddr, pa: u16, b: &IpAddr, pb: u16) -> (r: bool)
    ensures
        r == endpoint_le(*a, pa, *b, pb),
{
    let c = compare_ip(a, b);
    if c < 0 {
        true
    } else if c > 0 {
        false
    } else {
        pa <= pb
    }
}

pub proof fn lemma_rank_injective(a: IpAddr, b: IpAddr)
    requires
        ip_rank(a) == ip_rank(b),
    ensures
        a == b,
{
    match (a, b) {
        (IpAddr::V4(x), IpAddr::V4(y)) => {
            lemma_be_injective(x.0@, y.0@);
            assert(x.0 =~= y.0);
        },
        (IpAddr::V6(x), IpAddr::V6(y)) => {
            lemma_be_injective(x.0@, y.0@);
            assert(x.0 =~= y.0);
        },
        _ => {},
    }
}

pub proof fn lemma_be_injective(a: Seq<u8>, b: Seq<u8>)
    requires
        a.len() == b.len(),
        be_value(a) == be_value(b),
    ensures
        a == b,
    decreases a.len(),
{
    if a.len() == 0 {
        assert(a =~= b);
    } else {
        let x = be_value(a.drop_last());
        let y = be_value(b.drop_last());
        let la = a.last() as int;
        let lb = b.last() as int;
        assert(la == lb && x == y) by (nonlinear_arith)
            requires
                x * 256 + la == y * 256 + lb,
                0 <= la < 256,
                0 <= lb < 256,
                x >= 0,
                y >= 0,
        ;
        lemma_be_injective(a.drop_last(), b.drop_last());
        assert(a =~= a.drop_last().push(a.last()));
        assert(b =~= b.drop_last().push(b.last()));
    }
}

} // verus!
