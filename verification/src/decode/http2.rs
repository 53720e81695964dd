//! HTTP/2 cleartext ("h2c") frames and HPACK header decompression.
//!
//! Only prior-knowledge h2c is visible to a passive observer. Huffman-coded
//! HPACK strings are not expanded: they appear as a placeholder that gives
//! their length. Indexed fields and plain literals decode fully.
use vstd::prelude::*;
use vstd::arithmetic::power2::{lemma2_to64, lemma_pow2_adds, lemma_pow2_strictly_increases, lemma_pow2_unfold, pow2};
use vstd::utf8::encode_utf8;
use std::collections::VecDeque;
use crate::text::{dec, push_char, push_dec, spec_utf8_lossy, utf8_lossy};
use super::http::pairs_view;
use super::{be24, read_be24, Http2Frame, Http2FrameInfo};

verus! {

broadcast use vstd::string::group_string_axioms;

// ---------------------------------------------------------------------------
// HPACK primitives (RFC 7541, section 5)
// ---------------------------------------------------------------------------

/// Continuation bytes of an HPACK integer, from `pos`: seven bits each, least
/// significant group first, at most five of them.
pub open spec fn int_tail(buf: Seq<u8>, pos: int, value: nat, shift: nat) -> Option<(nat, int)>
    decreases 28 - shift,
{
    if pos < 0 || pos >= buf.len() {
        None
    } else {
        let b = buf[pos];
        let v = value + ((b % 128) as nat) * pow2(shift);
        if b < 128 {
            Some((v, pos + 1))
        } else if shift + 7 > 28 {
            None
        } else {
            int_tail(buf, pos + 1, v, shift + 7)
        }
    }
}

/// An HPACK integer with an N-bit prefix at `pos`: its value and the position
/// just after it.
pub open spec fn spec_decode_int(buf: Seq<u8>, pos: int, prefix: nat) -> Option<(nat, int)> {
    if pos < 0 || pos >= buf.len() {
        None
    } else {
        let v = (buf[pos] as nat) % pow2(prefix);
        if v + 1 < pow2(prefix) {
            Some((v, pos + 1))
        } else {
            int_tail(buf, pos + 1, v, 0)
        }
    }
}

/// [`spec_decode_int`] where the value fits a `usize`.
pub open spec fn dint(buf: Seq<u8>, pos: int, prefix: nat) -> Option<(usize, int)> {
    match spec_decode_int(buf, pos, prefix) {
        Some((v, p)) => if v <= usize::MAX {
            Some((v as usize, p))
        } else {
            None
        },
        None => None,
    }
}

pub proof fn lemma_int_tail(buf: Seq<u8>, pos: int, value: nat, shift: nat)
    ensures
        int_tail(buf, pos, value, shift) matches Some((v, p)) ==> pos < p <= buf.len(),
    decreases 28 - shift,
{
    if 0 <= pos < buf.len() && buf[pos] >= 128 && shift + 7 <= 28 {
        lemma_int_tail(buf, pos + 1, value + ((buf[pos] % 128) as nat) * pow2(shift), shift + 7);
    }
}

pub proof fn lemma_dint(buf: Seq<u8>, pos: int, prefix: nat)
    ensures
        dint(buf, pos, prefix) matches Some((v, p)) ==> pos < p <= buf.len(),
{
    if 0 <= pos < buf.len() {
        lemma_int_tail(buf, pos + 1, (buf[pos] as nat) % pow2(prefix), 0);
    }
}

/// Decodes an HPACK integer with a `prefix`-bit prefix starting at `pos`;
/// gives the value and the position after it.
pub fn decode_int(buf: &[u8], pos: usize, prefix: u32) -> (r: Option<(usize, usize)>)
    requires
        prefix < 32,
    ensures
        match r {
            Some((v, p)) => dint(buf@, pos as int, prefix as nat) == Some((v, p as int)),
            None => dint(buf@, pos as int, prefix as nat) is None,
        },
{
    let n = buf.len();
    if pos >= n {
        return None;
    }
    let mut m: u64 = 1;
    let mut k: u32 = 0;
    proof {
        lemma2_to64();
    }
    while k < prefix
        invariant
            k <= prefix < 32,
            m == pow2(k as nat),
            pow2(31) == 0x8000_0000,
        decreases prefix - k,
    {
        proof {
            lemma_pow2_strictly_increases(k as nat, 31);
            lemma_pow2_unfold((k + 1) as nat);
        }
        m = m * 2;
        k = k + 1;
    }
    proof {
        if prefix < 31 {
            lemma_pow2_strictly_increases(prefix as nat, 31);
        }
    }
    let first: u64 = (buf[pos] as u64) % m;
    let mut p: usize = pos + 1;
    if first + 1 < m {
        return Some((first as usize, p));
    }
    let mut value: u64 = first;
    let mut shift: u64 = 0;
    let mut mult: u64 = 1;
    let ghost target = int_tail(buf@, p as int, value as nat, 0);
    loop
        invariant
            n == buf@.len(),
            p <= n,
            shift <= 28,
            shift % 7 == 0,
            mult == pow2(shift as nat),
            mult <= 0x1000_0000,
            value < 0x8000_0000 + mult,
            pow2(7) == 128,
            target == int_tail(buf@, p as int, value as nat, shift as nat),
            spec_decode_int(buf@, pos as int, prefix as nat) == target,
        decreases n - p,
    {
        if p >= n {
            return None;
        }
        let b = buf[p];
        p = p + 1;
        assert(((b % 128) as u64) * mult <= 127 * mult) by (nonlinear_arith)
            requires
                b % 128 < 128,
        ;
        value = value + ((b % 128) as u64) * mult;
        if b < 128 {
            if value > usize::MAX as u64 {
                return None;
            }
            return Some((value as usize, p));
        }
        if shift + 7 > 28 {
            return None;
        }
        proof {
            lemma_pow2_adds(shift as nat, 7);
        }
        assert(shift <= 21);
        assert(mult <= 0x20_0000) by {
            if shift < 21 {
                lemma_pow2_strictly_increases(shift as nat, 21);
            }
            lemma2_to64();
        }
        shift = shift + 7;
        mult = mult * 128;
    }
}

/// The placeholder shown for a Huffman-coded string of `n` bytes.
pub open spec fn huffman_text(n: nat) -> Seq<char> {
    seq!['<', 'h', 'u', 'f', 'f', 'm', 'a', 'n', ':'] + dec(n) + seq!['b', '>']
}

/// An HPACK string literal at `pos`: its text and the position after it.
/// Plain strings are decoded as UTF-8 with replacement of invalid sequences.
pub open spec fn spec_decode_str(buf: Seq<u8>, pos: int) -> Option<(Seq<char>, int)> {
    if pos < 0 || pos >= buf.len() {
        None
    } else {
        match dint(buf, pos, 7) {
            None => None,
            Some((len, p)) => if p + len > buf.len() {
                None
            } else {
                let s = if buf[pos] >= 128 {
                    huffman_text(len as nat)
                } else {
                    spec_utf8_lossy(buf.subrange(p, p + len))
                };
                Some((s, p + len))
            },
        }
    }
}

pub proof fn lemma_decode_str(buf: Seq<u8>, pos: int)
    ensures
        spec_decode_str(buf, pos) matches Some((s, p)) ==> pos < p <= buf.len(),
{
    lemma_dint(buf, pos, 7);
}

/// Decodes an HPACK string literal at `pos`.
pub fn decode_str(buf: &[u8], pos: usize) -> (r: Option<(String, usize)>)
    ensures
        match r {
            Some((s, p)) => spec_decode_str(buf@, pos as int) == Some((s@, p as int)),
            None => spec_decode_str(buf@, pos as int) is None,
        },
{
    let n = buf.len();
    if pos >= n {
        return None;
    }
    let huffman = buf[pos] >= 128;
    let (len, p) = match decode_int(buf, pos, 7) {
        Some(x) => x,
        None => return None,
    };
    proof {
        lemma_dint(buf@, pos as int, 7);
    }
    if len > n - p {
        return None;
    }
    let s = if huffman {
        let mut s = String::new();
        push_char(&mut s, '<');
        push_char(&mut s, 'h');
        push_char(&mut s, 'u');
        push_char(&mut s, 'f');
        push_char(&mut s, 'f');
        push_char(&mut s, 'm');
        push_char(&mut s, 'a');
        push_char(&mut s, 'n');
        push_char(&mut s, ':');
        push_dec(&mut s, len as u64);
        push_char(&mut s, 'b');
        push_char(&mut s, '>');
        assert(s@ =~= huffman_text(len as nat));
        s
    } else {
        let bytes = &buf[p..p + len];
        assert(bytes@ =~= buf@.subrange(p as int, p + len));
        utf8_lossy(bytes)
    };
    Some((s, p + len))
}

// ---------------------------------------------------------------------------
// The static table (RFC 7541, appendix A)
// ---------------------------------------------------------------------------

/// Entry `i` (1-based) of the HPACK static table.
pub open spec fn static_entry(i: usize) -> (Seq<char>, Seq<char>) {
    match i {
        1 => (":authority"@, ""@),
        2 => (":method"@, "GET"@),
        3 => (":method"@, "POST"@),
        4 => (":path"@, "/"@),
        5 => (":path"@, "/index.html"@),
        6 => (":scheme"@, "http"@),
        7 => (":scheme"@, "https"@),
        8 => (":status"@, "200"@),
        9 => (":status"@, "204"@),
        10 => (":status"@, "206"@),
        11 => (":status"@, "304"@),
        12 => (":status"@, "400"@),
        13 => (":status"@, "404"@),
        14 => (":status"@, "500"@),
        15 => ("accept-charset"@, ""@),
        16 => ("accept-encoding"@, "gzip, deflate"@),
        17 => ("accept-language"@, ""@),
        18 => ("accept-ranges"@, ""@),
        19 => ("accept"@, ""@),
        20 => ("access-control-allow-origin"@, ""@),
        21 => ("age"@, ""@),
        22 => ("allow"@, ""@),
        23 => ("authorization"@, ""@),
        24 => ("cache-control"@, ""@),
        25 => ("content-disposition"@, ""@),
        26 => ("content-encoding"@, ""@),
        27 => ("content-language"@, ""@),
        28 => ("content-length"@, ""@),
        29 => ("content-location"@, ""@),
        30 => ("content-range"@, ""@),
        31 => ("content-type"@, ""@),
        32 => ("cookie"@, ""@),
        33 => ("date"@, ""@),
        34 => ("etag"@, ""@),
        35 => ("expect"@, ""@),
        36 => ("expires"@, ""@),
        37 => ("from"@, ""@),
        38 => ("host"@, ""@),
        39 => ("if-match"@, ""@),
        40 => ("if-modified-since"@, ""@),
        41 => ("if-none-match"@, ""@),
        42 => ("if-range"@, ""@),
        43 => ("if-unmodified-since"@, ""@),
        44 => ("last-modified"@, ""@),
        45 => ("link"@, ""@),
        46 => ("location"@, ""@),
        47 => ("max-forwards"@, ""@),
        48 => ("proxy-authenticate"@, ""@),
        49 => ("proxy-authorization"@, ""@),
        50 => ("range"@, ""@),
        51 => ("referer"@, ""@),
        52 => ("refresh"@, ""@),
        53 => ("retry-after"@, ""@),
        54 => ("server"@, ""@),
        55 => ("set-cookie"@, ""@),
        56 => ("strict-transport-security"@, ""@),
        57 => ("transfer-encoding"@, ""@),
        58 => ("user-agent"@, ""@),
        59 => ("vary"@, ""@),
        60 => ("via"@, ""@),
        _ => ("www-authenticate"@, ""@),
    }
}

fn static_strs(i: usize) -> (r: (&'static str, &'static str))
    requires
        1 <= i <= 61,
    ensures
        (r.0@, r.1@) == static_entry(i),
{
    match i {
        1 => (":authority", ""),
        2 => (":method", "GET"),
        3 => (":method", "POST"),
        4 => (":path", "/"),
        5 => (":path", "/index.html"),
        6 => (":scheme", "http"),
        7 => (":scheme", "https"),
        8 => (":status", "200"),
        9 => (":status", "204"),
        10 => (":status", "206"),
        11 => (":status", "304"),
        12 => (":status", "400"),
        13 => (":status", "404"),
        14 => (":status", "500"),
        15 => ("accept-charset", ""),
        16 => ("accept-encoding", "gzip, deflate"),
        17 => ("accept-language", ""),
        18 => ("accept-ranges", ""),
        19 => ("accept", ""),
        20 => ("access-control-allow-origin", ""),
        21 => ("age", ""),
        22 => ("allow", ""),
        23 => ("authorization", ""),
        24 => ("cache-control", ""),
        25 => ("content-disposition", ""),
        26 => ("content-encoding", ""),
        27 => ("content-language", ""),
        28 => ("content-length", ""),
        29 => ("content-location", ""),
        30 => ("content-range", ""),
        31 => ("content-type", ""),
        32 => ("cookie", ""),
        33 => ("date", ""),
        34 => ("etag", ""),
        35 => ("expect", ""),
        36 => ("expires", ""),
        37 => ("from", ""),
        38 => ("host", ""),
        39 => ("if-match", ""),
        40 => ("if-modified-since", ""),
        41 => ("if-none-match", ""),
        42 => ("if-range", ""),
        43 => ("if-unmodified-since", ""),
        44 => ("last-modified", ""),
        45 => ("link", ""),
        46 => ("location", ""),
        47 => ("max-forwards", ""),
        48 => ("proxy-authenticate", ""),
        49 => ("proxy-authorization", ""),
        50 => ("range", ""),
        51 => ("referer", ""),
        52 => ("refresh", ""),
        53 => ("retry-after", ""),
        54 => ("server", ""),
        55 => ("set-cookie", ""),
        56 => ("strict-transport-security", ""),
        57 => ("transfer-encoding", ""),
        58 => ("user-agent", ""),
        59 => ("vary", ""),
        60 => ("via", ""),
        _ => ("www-authenticate", ""),
    }
}


// ---------------------------------------------------------------------------
// The HPACK decoder and its dynamic table
// ---------------------------------------------------------------------------

/// Minimal HPACK decoder (RFC 7541): static table, dynamic table, integer and
/// string literals.
pub struct Hpack {
    dynamic: VecDeque<(String, String)>,
    max_size: usize,
    size: u128,
}

/// Model of an [`Hpack`]: the dynamic table, newest entry first, its size
/// limit and its current size.
pub struct HpackV {
    pub dynamic: Seq<(Seq<char>, Seq<char>)>,
    pub max_size: nat,
    pub size: nat,
}

/// Length in bytes of the UTF-8 form of `s`, as `str::len` reports it.
pub open spec fn blen(s: Seq<char>) -> nat {
    (encode_utf8(s).len() as usize) as nat
}

/// Size of a table entry: name and value lengths in bytes, plus 32.
pub open spec fn entry_size(e: (Seq<char>, Seq<char>)) -> nat {
    blen(e.0) + blen(e.1) + 32
}

pub open spec fn sum_sizes(d: Seq<(Seq<char>, Seq<char>)>) -> nat
    decreases d.len(),
{
    if d.len() == 0 {
        0
    } else {
        sum_sizes(d.drop_last()) + entry_size(d.last())
    }
}

/// The table's size is the sum of its entries' sizes, within the limit.
pub open spec fn hpack_wf(h: HpackV) -> bool {
    h.size == sum_sizes(h.dynamic) && h.size <= h.max_size
}

pub open spec fn new_hpack_v() -> HpackV {
    HpackV { dynamic: Seq::empty(), max_size: 4096, size: 0 }
}

/// Drops the oldest entries while the table is over its limit.
pub open spec fn evict_spec(h: HpackV) -> HpackV
    decreases h.dynamic.len(),
{
    if h.size > h.max_size && h.dynamic.len() > 0 {
        evict_spec(
            HpackV {
                dynamic: h.dynamic.drop_last(),
                size: (h.size - entry_size(h.dynamic.last())) as nat,
                ..h
            },
        )
    } else {
        h
    }
}

/// Adds an entry at the front of the dynamic table, then evicts.
pub open spec fn insert_spec(h: HpackV, name: Seq<char>, value: Seq<char>) -> HpackV {
    evict_spec(
        HpackV {
            dynamic: seq![(name, value)] + h.dynamic,
            size: h.size + entry_size((name, value)),
            ..h
        },
    )
}

/// The header at a table index: 1 to 61 in the static table, then the
/// dynamic table from its newest entry.
pub open spec fn indexed_spec(h: HpackV, idx: usize) -> Option<(Seq<char>, Seq<char>)> {
    if idx == 0 {
        None
    } else if idx <= 61 {
        Some(static_entry(idx))
    } else if idx - 62 < h.dynamic.len() {
        Some(h.dynamic[idx - 62])
    } else {
        None
    }
}

/// A literal header field whose name index has an N-bit prefix: name, value
/// and the position after them.
pub open spec fn literal_spec(h: HpackV, block: Seq<u8>, pos: int, prefix: nat) -> Option<
    (Seq<char>, Seq<char>, int),
> {
    match dint(block, pos, prefix) {
        None => None,
        Some((idx, p)) => {
            let name: Option<(Seq<char>, int)> = if idx == 0 {
                spec_decode_str(block, p)
            } else {
                match indexed_spec(h, idx) {
                    Some(e) => Some((e.0, p)),
                    None => None,
                }
            };
            match name {
                None => None,
                Some((n, p2)) => match spec_decode_str(block, p2) {
                    None => None,
                    Some((v, np)) => Some((n, v, np)),
                },
            }
        },
    }
}

pub proof fn lemma_literal(h: HpackV, block: Seq<u8>, pos: int, prefix: nat)
    ensures
        literal_spec(h, block, pos, prefix) matches Some((n, v, np)) ==> pos < np <= block.len(),
{
    lemma_dint(block, pos, prefix);
    if let Some((idx, p)) = dint(block, pos, prefix) {
        lemma_decode_str(block, p);
        if let Some((n, p2)) = spec_decode_str(block, p) {
            lemma_decode_str(block, p2);
        }
        lemma_decode_str(block, p);
    }
}

/// Decoding of a header block from position `i`: the decoder state after it
/// and the headers found, appended to `acc`. A malformed field ends the block.
pub open spec fn decode_from(
    h: HpackV,
    block: Seq<u8>,
    i: int,
    acc: Seq<(Seq<char>, Seq<char>)>,
) -> (HpackV, Seq<(Seq<char>, Seq<char>)>)
    decreases block.len() - i,
{
    if i < 0 || i >= block.len() {
        (h, acc)
    } else {
        let b = block[i];
        proof {
            lemma_dint(block, i, 7);
            lemma_dint(block, i, 5);
            lemma_literal(h, block, i, 6);
            lemma_literal(h, block, i, 4);
        }
        if b >= 128 {
            match dint(block, i, 7) {
                None => (h, acc),
                Some((idx, ni)) => if idx == 0 {
                    (h, acc)
                } else {
                    let acc2 = match indexed_spec(h, idx) {
                        Some(e) => acc.push(e),
                        None => acc,
                    };
                    decode_from(h, block, ni, acc2)
                },
            }
        } else if b >= 64 {
            match literal_spec(h, block, i, 6) {
                None => (h, acc),
                Some((n, v, ni)) => decode_from(insert_spec(h, n, v), block, ni, acc.push((n, v))),
            }
        } else if b >= 32 {
            match dint(block, i, 5) {
                None => (h, acc),
                Some((sz, ni)) => decode_from(
                    evict_spec(HpackV { max_size: sz as nat, ..h }),
                    block,
                    ni,
                    acc,
                ),
            }
        } else {
            match literal_spec(h, block, i, 4) {
                None => (h, acc),
                Some((n, v, ni)) => decode_from(h, block, ni, acc.push((n, v))),
            }
        }
    }
}

proof fn lemma_sum_prepend(e: (Seq<char>, Seq<char>), d: Seq<(Seq<char>, Seq<char>)>)
    ensures
        sum_sizes(seq![e] + d) == entry_size(e) + sum_sizes(d),
    decreases d.len(),
{
    if d.len() > 0 {
        lemma_sum_prepend(e, d.drop_last());
        assert((seq![e] + d).drop_last() =~= seq![e] + d.drop_last());
        assert((seq![e] + d).last() == d.last());
    } else {
        assert((seq![e] + d).drop_last() =~= Seq::<(Seq<char>, Seq<char>)>::empty());
        assert((seq![e] + d).last() == e);
        assert(sum_sizes(Seq::<(Seq<char>, Seq<char>)>::empty()) == 0);
    }
}

impl View for Hpack {
    type V = HpackV;

    closed spec fn view(&self) -> HpackV {
        HpackV {
            dynamic: pairs_view(self.dynamic@),
            max_size: self.max_size as nat,
            size: self.size as nat,
        }
    }
}

fn str_bytes_len(s: &String) -> (r: u128)
    ensures
        r == blen(s@),
{
    s.as_str().len() as u128
}

impl Hpack {
    /// An empty decoder whose dynamic table may hold 4096 bytes.
    pub fn new() -> (r: Hpack)
        ensures
            r@ == new_hpack_v(),
    {
        let r = Hpack { dynamic: VecDeque::new(), max_size: 4096, size: 0 };
        assert(r@.dynamic =~= Seq::<(Seq<char>, Seq<char>)>::empty());
        r
    }

    fn evict(&mut self)
        requires
            old(self)@.size == sum_sizes(old(self)@.dynamic),
        ensures
            final(self)@ == evict_spec(old(self)@),
            hpack_wf(final(self)@),
    {
        let ghost target = evict_spec(self@);
        while self.size > self.max_size as u128
            invariant_except_break
                self@.size == sum_sizes(self@.dynamic),
                target == evict_spec(self@),
            ensures
                target == self@,
                hpack_wf(self@),
            decreases self@.dynamic.len(),
        {
            let ghost before = self@;
            match self.dynamic.pop_back() {
                Some(e) => {
                    assert(pairs_view(self.dynamic@) =~= before.dynamic.drop_last());
                    let sz = str_bytes_len(&e.0) + str_bytes_len(&e.1) + 32;
                    self.size = self.size - sz;
                },
                None => {
                    assert(before.dynamic.len() == 0);
                    break ;
                },
            }
        }
    }

    fn insert(&mut self, name: String, value: String)
        requires
            hpack_wf(old(self)@),
        ensures
            final(self)@ == insert_spec(old(self)@, name@, value@),
            hpack_wf(final(self)@),
    {
        let ghost before = self@;
        let sz = str_bytes_len(&name) + str_bytes_len(&value) + 32;
        self.size = self.size + sz;
        let ghost e = (name@, value@);
        self.dynamic.push_front((name, value));
        proof {
            lemma_sum_prepend(e, before.dynamic);
        }
        assert(pairs_view(self.dynamic@) =~= seq![e] + before.dynamic);
        self.evict();
    }

    /// The header at table index `idx`.
    pub fn indexed(&self, idx: usize) -> (r: Option<(String, String)>)
        ensures
            match r {
                Some(e) => indexed_spec(self@, idx) == Some((e.0@, e.1@)),
                None => indexed_spec(self@, idx) is None,
            },
    {
        if idx == 0 {
            return None;
        }
        if idx <= 61 {
            let (n, v) = static_strs(idx);
            return Some((n.to_string(), v.to_string()));
        }
        let k = idx - 62;
        if k < self.dynamic.len() {
            let e = &self.dynamic[k];
            Some((e.0.clone(), e.1.clone()))
        } else {
            None
        }
    }

    fn literal(&self, block: &[u8], pos: usize, prefix: u32) -> (r: Option<(String, String, usize)>)
        requires
            prefix < 32,
        ensures
            match r {
                Some((n, v, np)) => literal_spec(self@, block@, pos as int, prefix as nat) == Some(
                    (n@, v@, np as int),
                ),
                None => literal_spec(self@, block@, pos as int, prefix as nat) is None,
            },
    {
        let (idx, p) = match decode_int(block, pos, prefix) {
            Some(x) => x,
            None => return None,
        };
        let (name, p2) = if idx == 0 {
            match decode_str(block, p) {
                Some(x) => x,
                None => return None,
            }
        } else {
            match self.indexed(idx) {
                Some(e) => (e.0, p),
                None => return None,
            }
        };
        match decode_str(block, p2) {
            Some((value, np)) => Some((name, value, np)),
            None => None,
        }
    }

    /// Decodes one header block, updating the dynamic table. A malformed or
    /// truncated field ends the block; the headers before it are kept.
    pub fn decode(&mut self, block: &[u8]) -> (r: Vec<(String, String)>)
        requires
            hpack_wf(old(self)@),
        ensures
            hpack_wf(final(self)@),
            (final(self)@, pairs_view(r@)) == decode_from(old(self)@, block@, 0, Seq::empty()),
    {
        let mut headers: Vec<(String, String)> = Vec::new();
        let mut i: usize = 0;
        let n = block.len();
        assert(pairs_view(headers@) =~= Seq::<(Seq<char>, Seq<char>)>::empty());
        let ghost target = decode_from(self@, block@, 0, Seq::empty());
        while i < n
            invariant_except_break
                n == block@.len(),
                i <= n,
                hpack_wf(self@),
                target == decode_from(self@, block@, i as int, pairs_view(headers@)),
            ensures
                hpack_wf(self@),
                target == (self@, pairs_view(headers@)),
            decreases n - i,
        {
            let b = block[i];
            proof {
                lemma_dint(block@, i as int, 7);
                lemma_dint(block@, i as int, 5);
                lemma_literal(self@, block@, i as int, 6);
                lemma_literal(self@, block@, i as int, 4);
            }
            if b >= 128 {
                let (idx, ni) = match decode_int(block, i, 7) {
                    Some(x) => x,
                    None => break ,
                };
                i = ni;
                if idx == 0 {
                    break ;
                }
                match self.indexed(idx) {
                    Some(e) => {
                        let ghost ev = (e.0@, e.1@);
                        let ghost hb = headers@;
                        headers.push(e);
                        assert(pairs_view(headers@) =~= pairs_view(hb).push(ev));
                    },
                    None => {},
                }
            } else if b >= 64 {
                let (name, value, ni) = match self.literal(block, i, 6) {
                    Some(x) => x,
                    None => break ,
                };
                i = ni;
                self.insert(name.clone(), value.clone());
                let ghost hb = headers@;
                let ghost ev = (name@, value@);
                headers.push((name, value));
                assert(pairs_view(headers@) =~= pairs_view(hb).push(ev));
            } else if b >= 32 {
                let (sz, ni) = match decode_int(block, i, 5) {
                    Some(x) => x,
                    None => break ,
                };
                i = ni;
                self.max_size = sz;
                self.evict();
            } else {
                let (name, value, ni) = match self.literal(block, i, 4) {
                    Some(x) => x,
                    None => break ,
                };
                i = ni;
                let ghost hb = headers@;
                let ghost ev = (name@, value@);
                headers.push((name, value));
                assert(pairs_view(headers@) =~= pairs_view(hb).push(ev));
            }
        }
        headers
    }
}


impl Default for Hpack {
    fn default() -> (r: Hpack)
        ensures
            r@ == new_hpack_v(),
    {
        Hpack::new()
    }
}

// ---------------------------------------------------------------------------
// Frames
// ---------------------------------------------------------------------------

/// Model of an [`Http2Frame`].
pub struct Http2FrameV {
    pub stream_id: u32,
    pub frame_type: u8,
    pub flags: u8,
    pub length: u32,
    pub headers: Seq<(Seq<char>, Seq<char>)>,
}

impl View for Http2Frame {
    type V = Http2FrameV;

    open spec fn view(&self) -> Http2FrameV {
        Http2FrameV {
            stream_id: self.stream_id,
            frame_type: self.frame_type,
            flags: self.flags,
            length: self.length,
            headers: pairs_view(self.headers@),
        }
    }
}

pub open spec fn frames_view(v: Seq<Http2Frame>) -> Seq<Http2FrameV> {
    v.map_values(|f: Http2Frame| f@)
}

/// The client connection preface `PRI * HTTP/2.0\r\n\r\nSM\r\n\r\n`.
pub open spec fn preface() -> Seq<u8> {
    seq![
        0x50u8, 0x52, 0x49, 0x20, 0x2a, 0x20, 0x48, 0x54, 0x54, 0x50, 0x2f, 0x32, 0x2e, 0x30,
        0x0d, 0x0a, 0x0d, 0x0a, 0x53, 0x4d, 0x0d, 0x0a, 0x0d, 0x0a,
    ]
}

/// The client connection preface, as bytes.
pub fn preface_bytes() -> (r: [u8; 24])
    ensures
        r@ == preface(),
{
    let r = [
        0x50u8, 0x52, 0x49, 0x20, 0x2a, 0x20, 0x48, 0x54, 0x54, 0x50, 0x2f, 0x32, 0x2e, 0x30,
        0x0d, 0x0a, 0x0d, 0x0a, 0x53, 0x4d, 0x0d, 0x0a, 0x0d, 0x0a,
    ];
    assert(r@ =~= preface());
    r
}

/// Whether a frame's payload is a bare header block: a HEADERS frame (type 1)
/// with neither PADDED (0x08) nor PRIORITY (0x20) set.
pub open spec fn bare_headers(frame_type: u8, flags: u8) -> bool {
    frame_type == 1 && (flags / 8) % 2 == 0 && (flags / 32) % 2 == 0
}

/// The frames of a stream from `pos`, at most 128 in all, appended to `acc`;
/// the HPACK state runs through the header blocks in order. A frame header or
/// payload cut short ends the list.
pub open spec fn frames_from(stream: Seq<u8>, pos: int, h: HpackV, acc: Seq<Http2FrameV>) -> Seq<
    Http2FrameV,
>
    decreases stream.len() - pos,
{
    if pos < 0 || pos + 9 > stream.len() || acc.len() >= 128 {
        acc
    } else {
        let length = be24(stream, pos);
        let ft = stream[pos + 3];
        let fl = stream[pos + 4];
        let sid = ((stream[pos + 5] % 128) * 16777216 + stream[pos + 6] * 65536 + stream[pos + 7]
            * 256 + stream[pos + 8]) as u32;
        let p = pos + 9;
        if p + length > stream.len() {
            acc
        } else {
            let payload = stream.subrange(p, p + length);
            let (h2, hs) = if bare_headers(ft, fl) {
                decode_from(h, payload, 0, Seq::empty())
            } else {
                (h, Seq::empty())
            };
            let f = Http2FrameV {
                stream_id: sid,
                frame_type: ft,
                flags: fl,
                length: length as u32,
                headers: hs,
            };
            frames_from(stream, p + length, h2, acc.push(f))
        }
    }
}

pub open spec fn spec_try_decode_http2(stream: Seq<u8>) -> Option<Seq<Http2FrameV>> {
    if stream.len() >= 24 && stream.take(24) == preface() {
        Some(frames_from(stream, 24, new_hpack_v(), Seq::empty()))
    } else {
        None
    }
}

/// Parses an h2c stream that begins with the connection preface.
pub fn try_decode_http2(stream: &[u8]) -> (r: Option<Http2FrameInfo>)
    ensures
        match r {
            Some(x) => spec_try_decode_http2(stream@) == Some(frames_view(x.frames@)),
            None => spec_try_decode_http2(stream@) is None,
        },
{
    let n = stream.len();
    let pre = preface_bytes();
    if n < 24 {
        return None;
    }
    let mut k: usize = 0;
    while k < 24
        invariant
            n == stream@.len() >= 24,
            pre@ == preface(),
            k <= 24,
            stream@.take(k as int) =~= preface().take(k as int),
        decreases 24 - k,
    {
        if stream[k] != pre[k] {
            assert(stream@.take(24)[k as int] != preface()[k as int]);
            return None;
        }
        assert(stream@.take(k + 1) =~= stream@.take(k as int).push(stream@[k as int]));
        assert(preface().take(k + 1) =~= preface().take(k as int).push(preface()[k as int]));
        k = k + 1;
    }
    assert(preface().take(24) =~= preface());
    let mut pos: usize = 24;
    let mut hpack = Hpack::new();
    let mut frames: Vec<Http2Frame> = Vec::new();
    assert(frames_view(frames@) =~= Seq::<Http2FrameV>::empty());
    let ghost target = frames_from(stream@, 24, hpack@, Seq::empty());
    while n >= 9 && pos <= n - 9 && frames.len() < 128
        invariant_except_break
            n == stream@.len(),
            pos <= n,
            hpack_wf(hpack@),
            target == frames_from(stream@, pos as int, hpack@, frames_view(frames@)),
        ensures
            target == frames_view(frames@),
        decreases n - pos,
    {
        let length = read_be24(stream, pos);
        let frame_type = stream[pos + 3];
        let flags = stream[pos + 4];
        let stream_id: u32 = ((stream[pos + 5] % 128) as u32) * 16777216 + (stream[pos + 6] as u32)
            * 65536 + (stream[pos + 7] as u32) * 256 + (stream[pos + 8] as u32);
        pos = pos + 9;
        if length > n - pos {
            break ;
        }
        let payload = &stream[pos..pos + length];
        let ghost pl = stream@.subrange(pos as int, pos + length);
        assert(payload@ =~= pl);
        let headers = if frame_type == 1 && (flags / 8) % 2 == 0 && (flags / 32) % 2 == 0 {
            hpack.decode(payload)
        } else {
            let v: Vec<(String, String)> = Vec::new();
            assert(pairs_view(v@) =~= Seq::<(Seq<char>, Seq<char>)>::empty());
            v
        };
        let f = Http2Frame { stream_id, frame_type, flags, length: length as u32, headers };
        let ghost fb = frames@;
        frames.push(f);
        assert(frames_view(frames@) =~= frames_view(fb).push(f@));
        pos = pos + length;
    }
    Some(Http2FrameInfo { frames })
}

/// A header added with incremental indexing is found again at index 62, the
/// first dynamic index, whenever its entry fits within the table's limit.
pub proof fn law_inserted_header_is_first_dynamic(h: HpackV, name: Seq<char>, value: Seq<char>)
    requires
        hpack_wf(h),
        entry_size((name, value)) <= h.max_size,
    ensures
        indexed_spec(insert_spec(h, name, value), 62) == Some((name, value)),
{
    let h1 = HpackV {
        dynamic: seq![(name, value)] + h.dynamic,
        size: h.size + entry_size((name, value)),
        ..h
    };
    lemma_sum_prepend((name, value), h.dynamic);
    lemma_evict_keeps_front(h1);
}

/// Eviction keeps a prefix of the table; while the newest entry alone fits,
/// it stays.
proof fn lemma_evict_keeps_front(h: HpackV)
    requires
        h.size == sum_sizes(h.dynamic),
        h.dynamic.len() > 0,
        entry_size(h.dynamic[0]) <= h.max_size,
    ensures
        evict_spec(h).dynamic.len() > 0,
        evict_spec(h).dynamic[0] == h.dynamic[0],
    decreases h.dynamic.len(),
{
    if h.size > h.max_size && h.dynamic.len() > 0 {
        let h2 = HpackV {
            dynamic: h.dynamic.drop_last(),
            size: (h.size - entry_size(h.dynamic.last())) as nat,
            ..h
        };
        if h.dynamic.len() == 1 {
            assert(h.dynamic.drop_last() =~= Seq::<(Seq<char>, Seq<char>)>::empty());
            assert(h.dynamic.last() == h.dynamic[0]);
            assert(sum_sizes(h.dynamic.drop_last()) == 0);
            assert(h.size == entry_size(h.dynamic[0]));
            assert(false);
        }
        lemma_evict_keeps_front(h2);
    }
}

} // verus!
