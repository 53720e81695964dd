//! TLS handshake decoding: ClientHello (SNI, ALPN, cipher suites,
//! extensions, JA3/JA4), ServerHello, Certificate and other handshake types.
use vstd::prelude::*;
use vstd::string::*;
use vstd::utf8::{decode_utf8, encode_utf8, valid_utf8};
use crate::text::{hex_bytes, spec_utf8_lossy, utf8_decode, utf8_lossy};
use super::dns::strings_view;
use super::ja::{
    ja3_hash, ja3_string, ja3_text, ja4, ja4_text, is_grease, non_grease, spec_is_grease, spec_md5,
};
use super::{
    TlsClientHelloInfo, TlsHandshakeInfo, TlsHandshakeMessage, be16, be24, read_be16, read_be24,
};

verus! {

// ---------------------------------------------------------------------------
// Models
// ---------------------------------------------------------------------------

pub struct ClientHelloV {
    pub sni: Option<Seq<char>>,
    pub alpn: Seq<Seq<char>>,
    pub cipher_suites: Seq<u16>,
    pub extensions: Seq<u16>,
    pub supported_groups: Seq<u16>,
    pub ec_point_formats: Seq<u8>,
    pub signature_algorithms: Seq<u16>,
    pub supported_versions: Seq<u16>,
    pub legacy_version: u16,
    pub ja3: Option<Seq<char>>,
    pub ja4: Option<Seq<char>>,
    pub header_range: (usize, usize),
}

pub open spec fn opt_view(o: Option<String>) -> Option<Seq<char>> {
    match o {
        Some(s) => Some(s@),
        None => None,
    }
}

impl View for TlsClientHelloInfo {
    type V = ClientHelloV;

    open spec fn view(&self) -> ClientHelloV {
        ClientHelloV {
            sni: opt_view(self.sni),
            alpn: strings_view(self.alpn@),
            cipher_suites: self.cipher_suites@,
            extensions: self.extensions@,
            supported_groups: self.supported_groups@,
            ec_point_formats: self.ec_point_formats@,
            signature_algorithms: self.signature_algorithms@,
            supported_versions: self.supported_versions@,
            legacy_version: self.legacy_version,
            ja3: opt_view(self.ja3),
            ja4: opt_view(self.ja4),
            header_range: self.header_range,
        }
    }
}

pub enum HandshakeMessageV {
    ServerHello { version: u16, cipher_suite: u16, alpn: Seq<Seq<char>> },
    Certificate { cert_count: usize },
    Other { msg_type: u8 },
}

impl View for TlsHandshakeMessage {
    type V = HandshakeMessageV;

    open spec fn view(&self) -> HandshakeMessageV {
        match self {
            TlsHandshakeMessage::ServerHello { version, cipher_suite, alpn } => HandshakeMessageV::ServerHello {
                version: *version,
                cipher_suite: *cipher_suite,
                alpn: strings_view(alpn@),
            },
            TlsHandshakeMessage::Certificate { cert_count } => HandshakeMessageV::Certificate {
                cert_count: *cert_count,
            },
            TlsHandshakeMessage::Other { msg_type } => HandshakeMessageV::Other { msg_type: *msg_type },
        }
    }
}

pub struct HandshakeV {
    pub messages: Seq<HandshakeMessageV>,
    pub header_range: (usize, usize),
}

impl View for TlsHandshakeInfo {
    type V = HandshakeV;

    open spec fn view(&self) -> HandshakeV {
        HandshakeV {
            messages: self.messages@.map_values(|m: TlsHandshakeMessage| m@),
            header_range: self.header_range,
        }
    }
}

// ---------------------------------------------------------------------------
// Record layer
// ---------------------------------------------------------------------------

/// A handshake record at `o`: content type 0x16, a record length of at
/// least 4 that fits, and a handshake message whose 24-bit length fits in
/// the buffer. Gives the handshake type and the message body range.
pub open spec fn spec_record(s: Seq<u8>, o: int) -> Option<(u8, int, int)> {
    if o > s.len() || s.len() - o < 6 || s[o] != 0x16 {
        None
    } else {
        let record_len = be16(s, o + 3) as int;
        if s.len() - o < 5 + record_len || record_len < 4 {
            None
        } else {
            let body_start = o + 9;
            let body_end = body_start + be24(s, o + 6);
            if body_end > s.len() {
                None
            } else {
                Some((s[o + 5], body_start, body_end))
            }
        }
    }
}

struct TlsRecord {
    handshake_type: u8,
    body_start: usize,
    end: usize,
}

fn parse_tls_record(data: &[u8], offset: usize) -> (r: Option<TlsRecord>)
    ensures
        match r {
            None => spec_record(data@, offset as int) is None,
            Some(t) => spec_record(data@, offset as int) == Some(
                (t.handshake_type, t.body_start as int, t.end as int),
            ),
        },
{
    if offset > data.len() || data.len() - offset < 6 || data[offset] != 0x16 {
        return None;
    }
    let record_len = read_be16(data, offset + 3) as usize;
    if data.len() - offset - 5 < record_len || record_len < 4 {
        return None;
    }
    let hs = offset + 5;
    let handshake_type = data[hs];
    let hs_len = read_be24(data, hs + 1);
    let body_start = hs + 4;
    if hs_len > data.len() - body_start {
        return None;
    }
    Some(TlsRecord { handshake_type, body_start, end: body_start + hs_len })
}

// ---------------------------------------------------------------------------
// Extensions
// ---------------------------------------------------------------------------

/// Big-endian 16-bit values at `0, 2, 4, ...` of `d`, as many as fit in
/// `end` bytes.
pub open spec fn u16_pairs(d: Seq<u8>, start: int, end: int) -> Seq<u16> {
    Seq::new((if end > 0 { end / 2 } else { 0 }) as nat, |k: int| be16(d, start + 2 * k))
}

fn read_u16_pairs(d: &[u8], start: usize, end: usize) -> (r: Vec<u16>)
    requires
        start + end <= d@.len(),
    ensures
        r@ == u16_pairs(d@, start as int, end as int),
{
    let mut r: Vec<u16> = Vec::new();
    let mut i: usize = 0;
    assert(d@.len() == d.len());
    while i + 1 < end
        invariant
            start + end <= d@.len(),
            d@.len() <= usize::MAX,
            i % 2 == 0,
            i <= end,
            r@ == Seq::new((i / 2) as nat, |k: int| be16(d@, start + 2 * k)),
        decreases end - i,
    {
        r.push(read_be16(d, start + i));
        assert(r@ =~= Seq::new(((i + 2) / 2) as nat, |k: int| be16(d@, start + 2 * k)));
        i = i + 2;
    }
    assert(r@ =~= u16_pairs(d@, start as int, end as int));
    r
}

/// `min(byte_len, d.len())` bytes of `d` as big-endian 16-bit values.
pub open spec fn spec_u16s(d: Seq<u8>, byte_len: int) -> Seq<u16> {
    u16_pairs(d, 0, if byte_len < d.len() { byte_len } else { d.len() as int })
}

/// A list with a two-byte length prefix (in bytes) of 16-bit values.
pub open spec fn spec_u16_list_2(e: Seq<u8>) -> Seq<u16> {
    if e.len() < 2 {
        seq![]
    } else {
        spec_u16s(e.skip(2), be16(e, 0) as int)
    }
}

/// A list with a one-byte length prefix (in bytes) of 16-bit values.
pub open spec fn spec_u16_list_1(e: Seq<u8>) -> Seq<u16> {
    if e.len() == 0 {
        seq![]
    } else {
        spec_u16s(e.skip(1), e[0] as int)
    }
}

/// A list with a one-byte length prefix of bytes, cut at the data's end.
pub open spec fn spec_u8_list_1(e: Seq<u8>) -> Seq<u8> {
    if e.len() == 0 {
        seq![]
    } else {
        let n = if e[0] < e.len() - 1 { e[0] as int } else { e.len() - 1 };
        e.subrange(1, 1 + n)
    }
}

fn parse_u16s(d: &[u8], byte_len: usize) -> (r: Vec<u16>)
    ensures
        r@ == spec_u16s(d@, byte_len as int),
{
    let end = if byte_len < d.len() { byte_len } else { d.len() };
    read_u16_pairs(d, 0, end)
}

fn parse_u16_list_2(e: &[u8]) -> (r: Vec<u16>)
    ensures
        r@ == spec_u16_list_2(e@),
{
    if e.len() < 2 {
        return Vec::new();
    }
    let len = read_be16(e, 0) as usize;
    let rest = &e[2..e.len()];
    assert(rest@ =~= e@.skip(2));
    parse_u16s(rest, len)
}

fn parse_u16_list_1(e: &[u8]) -> (r: Vec<u16>)
    ensures
        r@ == spec_u16_list_1(e@),
{
    if e.len() == 0 {
        return Vec::new();
    }
    let len = e[0] as usize;
    let rest = &e[1..e.len()];
    assert(rest@ =~= e@.skip(1));
    parse_u16s(rest, len)
}

fn parse_u8_list_1(e: &[u8]) -> (r: Vec<u8>)
    ensures
        r@ == spec_u8_list_1(e@),
{
    if e.len() == 0 {
        return Vec::new();
    }
    let n = if (e[0] as usize) < e.len() - 1 { e[0] as usize } else { e.len() - 1 };
    super::copy_range(e, 1, 1 + n)
}

/// The host name of the first entry of type 0 in a server_name list (after
/// its two-byte length), when it is valid UTF-8; `None` when an entry runs
/// past the data or no such entry exists.
pub open spec fn spec_sni_from(e: Seq<u8>, p: int) -> Option<Seq<char>>
    decreases e.len() - p,
{
    if p < 0 || p + 3 > e.len() {
        None
    } else {
        let name_len = be16(e, p + 1) as int;
        let q = p + 3;
        if q + name_len > e.len() {
            None
        } else if e[p] == 0 {
            let raw = e.subrange(q, q + name_len);
            if valid_utf8(raw) {
                Some(decode_utf8(raw))
            } else {
                None
            }
        } else {
            spec_sni_from(e, q + name_len)
        }
    }
}

pub open spec fn spec_sni(e: Seq<u8>) -> Option<Seq<char>> {
    if e.len() < 5 {
        None
    } else {
        spec_sni_from(e, 2)
    }
}

fn parse_sni(e: &[u8]) -> (r: Option<String>)
    ensures
        opt_view(r) == spec_sni(e@),
{
    if e.len() < 5 {
        return None;
    }
    let mut p: usize = 2;
    while p <= e.len() && e.len() - p >= 3
        invariant
            2 <= p,
            spec_sni_from(e@, p as int) == spec_sni(e@),
        decreases e.len() - p,
    {
        let name_type = e[p];
        let name_len = read_be16(e, p + 1) as usize;
        let q = p + 3;
        if name_len > e.len() - q {
            return None;
        }
        if name_type == 0 {
            return utf8_decode(&e[q..q + name_len]);
        }
        p = q + name_len;
    }
    None
}

/// ALPN protocol names (after the two-byte list length), each a length byte
/// and that many bytes; a name that runs past the data stops the list.
pub open spec fn spec_alpn_from(e: Seq<u8>, p: int) -> Seq<Seq<char>>
    decreases e.len() - p,
{
    if p < 0 || p >= e.len() {
        seq![]
    } else {
        let l = e[p] as int;
        if p + 1 + l > e.len() {
            seq![]
        } else {
            seq![spec_utf8_lossy(e.subrange(p + 1, p + 1 + l))] + spec_alpn_from(e, p + 1 + l)
        }
    }
}

pub open spec fn spec_alpn(e: Seq<u8>) -> Seq<Seq<char>> {
    if e.len() < 2 {
        seq![]
    } else {
        spec_alpn_from(e, 2)
    }
}

fn parse_alpn(e: &[u8]) -> (r: Vec<String>)
    ensures
        strings_view(r@) == spec_alpn(e@),
{
    let mut out: Vec<String> = Vec::new();
    assert(strings_view(out@) =~= Seq::<Seq<char>>::empty());
    if e.len() < 2 {
        return out;
    }
    let mut p: usize = 2;
    while p < e.len()
        invariant
            2 <= p <= e@.len(),
            strings_view(out@) + spec_alpn_from(e@, p as int) == spec_alpn(e@),
        decreases e.len() - p,
    {
        let l = e[p] as usize;
        let q = p + 1;
        if l > e.len() - q {
            assert(strings_view(out@) + spec_alpn_from(e@, p as int) =~= strings_view(out@));
            return out;
        }
        let name = utf8_lossy(&e[q..q + l]);
        let ghost before = strings_view(out@);
        out.push(name);
        assert(strings_view(out@) =~= before.push(name@));
        assert(before + spec_alpn_from(e@, p as int) =~= strings_view(out@) + spec_alpn_from(
            e@,
            (q + l) as int,
        ));
        p = q + l;
    }
    assert(strings_view(out@) + spec_alpn_from(e@, p as int) =~= strings_view(out@));
    out
}

/// What the extensions block yields.
pub struct ExtV {
    pub types: Seq<u16>,
    pub sni: Option<Seq<char>>,
    pub alpn: Seq<Seq<char>>,
    pub groups: Seq<u16>,
    pub formats: Seq<u8>,
    pub sig_algs: Seq<u16>,
    pub versions: Seq<u16>,
}

pub open spec fn empty_ext() -> ExtV {
    ExtV {
        types: seq![],
        sni: None,
        alpn: seq![],
        groups: seq![],
        formats: seq![],
        sig_algs: seq![],
        versions: seq![],
    }
}

/// One extension of type `t` with data `d`: its type is recorded, and the
/// field it carries (if any) is replaced by its content.
pub open spec fn ext_step(st: ExtV, t: u16, d: Seq<u8>) -> ExtV {
    let st = ExtV { types: st.types.push(t), ..st };
    if t == 0x0000 {
        ExtV { sni: spec_sni(d), ..st }
    } else if t == 0x000a {
        ExtV { groups: spec_u16_list_2(d), ..st }
    } else if t == 0x000b {
        ExtV { formats: spec_u8_list_1(d), ..st }
    } else if t == 0x000d {
        ExtV { sig_algs: spec_u16_list_2(d), ..st }
    } else if t == 0x0010 {
        ExtV { alpn: spec_alpn(d), ..st }
    } else if t == 0x002b {
        ExtV { versions: spec_u16_list_1(d), ..st }
    } else {
        st
    }
}

/// The extensions from `p` on: type (2), length (2), data; an extension
/// whose data runs past the block stops the walk.
pub open spec fn spec_exts(e: Seq<u8>, p: int, st: ExtV) -> ExtV
    decreases e.len() - p,
{
    if p < 0 || p + 4 > e.len() {
        st
    } else {
        let t = be16(e, p);
        let l = be16(e, p + 2) as int;
        let q = p + 4;
        if q + l > e.len() {
            st
        } else {
            spec_exts(e, q + l, ext_step(st, t, e.subrange(q, q + l)))
        }
    }
}

struct ExtData {
    types: Vec<u16>,
    sni: Option<String>,
    alpn: Vec<String>,
    groups: Vec<u16>,
    formats: Vec<u8>,
    sig_algs: Vec<u16>,
    versions: Vec<u16>,
}

impl View for ExtData {
    type V = ExtV;

    closed spec fn view(&self) -> ExtV {
        ExtV {
            types: self.types@,
            sni: opt_view(self.sni),
            alpn: strings_view(self.alpn@),
            groups: self.groups@,
            formats: self.formats@,
            sig_algs: self.sig_algs@,
            versions: self.versions@,
        }
    }
}

fn new_ext_data() -> (r: ExtData)
    ensures
        r@ == empty_ext(),
{
    let r = ExtData {
        types: Vec::new(),
        sni: None,
        alpn: Vec::new(),
        groups: Vec::new(),
        formats: Vec::new(),
        sig_algs: Vec::new(),
        versions: Vec::new(),
    };
    assert(strings_view(r.alpn@) =~= Seq::<Seq<char>>::empty());
    assert(r@ =~= empty_ext());
    r
}

fn parse_extensions(ext: &[u8], out: &mut ExtData)
    ensures
        final(out)@ == spec_exts(ext@, 0, old(out)@),
{
    let mut p: usize = 0;
    while p <= ext.len() && ext.len() - p >= 4
        invariant
            spec_exts(ext@, p as int, out@) == spec_exts(ext@, 0, old(out)@),
        decreases ext.len() - p,
    {
        let etype = read_be16(ext, p);
        let elen = read_be16(ext, p + 2) as usize;
        let q = p + 4;
        if elen > ext.len() - q {
            return;
        }
        let edata = &ext[q..q + elen];
        let ghost st = out@;
        out.types.push(etype);
        if etype == 0x0000 {
            out.sni = parse_sni(edata);
        } else if etype == 0x000a {
            out.groups = parse_u16_list_2(edata);
        } else if etype == 0x000b {
            out.formats = parse_u8_list_1(edata);
        } else if etype == 0x000d {
            out.sig_algs = parse_u16_list_2(edata);
        } else if etype == 0x0010 {
            out.alpn = parse_alpn(edata);
        } else if etype == 0x002b {
            out.versions = parse_u16_list_1(edata);
        }
        assert(out@ == ext_step(st, etype, edata@));
        p = q + elen;
    }
}

// ---------------------------------------------------------------------------
// ClientHello
// ---------------------------------------------------------------------------

/// The largest value of a non-empty sequence.
pub open spec fn seq_max(xs: Seq<u16>) -> u16
    decreases xs.len(),
{
    if xs.len() <= 1 {
        xs[0]
    } else {
        let m = seq_max(xs.drop_last());
        if m >= xs.last() {
            m
        } else {
            xs.last()
        }
    }
}

/// The highest non-GREASE supported version, else the legacy version.
pub open spec fn best_version(versions: Seq<u16>, legacy: u16) -> u16 {
    let ng = non_grease(versions);
    if ng.len() == 0 {
        legacy
    } else {
        seq_max(ng)
    }
}

fn best_version_exec(versions: &Vec<u16>, legacy: u16) -> (r: u16)
    ensures
        r == best_version(versions@, legacy),
{
    let ng = super::ja::filter_non_grease(versions.as_slice());
    if ng.len() == 0 {
        return legacy;
    }
    let mut m = ng[0];
    let mut i: usize = 1;
    assert(ng@.take(1).len() == 1);
    while i < ng.len()
        invariant
            1 <= i <= ng@.len(),
            m == seq_max(ng@.take(i as int)),
        decreases ng.len() - i,
    {
        assert(ng@.take(i + 1).drop_last() =~= ng@.take(i as int));
        if ng[i] > m {
            m = ng[i];
        }
        i = i + 1;
    }
    assert(ng@.take(i as int) =~= ng@);
    m
}

/// The ClientHello body `b`: legacy version, random (32), session id,
/// cipher suites, compression methods, then optional extensions. Gives the
/// legacy version and, unless the body ends before the compression methods,
/// the cipher suites and the extension fields.
pub open spec fn spec_ch_body(b: Seq<u8>) -> (u16, Option<(Seq<u16>, ExtV)>) {
    if b.len() < 34 {
        (0, None)
    } else {
        let legacy = be16(b, 0);
        if 34 >= b.len() {
            (legacy, None)
        } else {
            let p1 = 35 + b[34];
            if p1 + 2 > b.len() {
                (legacy, None)
            } else {
                let cs_len = be16(b, p1) as int;
                let p2 = p1 + 2;
                if p2 + cs_len > b.len() {
                    (legacy, None)
                } else {
                    let ciphers = u16_pairs(b, p2, cs_len);
                    let p3 = p2 + cs_len;
                    if p3 >= b.len() {
                        (legacy, None)
                    } else {
                        let p4 = p3 + 1 + b[p3];
                        let ext = if p4 + 2 <= b.len() {
                            let ext_len = be16(b, p4) as int;
                            let p5 = p4 + 2;
                            let ext_end = if p5 + ext_len < b.len() {
                                p5 + ext_len
                            } else {
                                b.len() as int
                            };
                            spec_exts(b.subrange(p5, ext_end), 0, empty_ext())
                        } else {
                            empty_ext()
                        };
                        (legacy, Some((ciphers, ext)))
                    }
                }
            }
        }
    }
}

pub open spec fn minimal_ch(legacy: u16, range: (usize, usize)) -> ClientHelloV {
    ClientHelloV {
        sni: None,
        alpn: seq![],
        cipher_suites: seq![],
        extensions: seq![],
        supported_groups: seq![],
        ec_point_formats: seq![],
        signature_algorithms: seq![],
        supported_versions: seq![],
        legacy_version: legacy,
        ja3: None,
        ja4: None,
        header_range: range,
    }
}

pub open spec fn first_alpn(a: Seq<Seq<char>>) -> Option<Seq<char>> {
    if a.len() > 0 {
        Some(a[0])
    } else {
        None
    }
}

/// The ClientHello at `o`: a handshake record of type 1. A body too short
/// for the cipher suites gives a ClientHello with only the legacy version;
/// otherwise all fields, plus the JA3 hash and the JA4 fingerprint.
pub open spec fn spec_client_hello(s: Seq<u8>, o: int) -> Option<ClientHelloV> {
    match spec_record(s, o) {
        None => None,
        Some((t, bs, be)) => if t != 0x01 {
            None
        } else {
            let range = (o as usize, be as usize);
            let (legacy, rest) = spec_ch_body(s.subrange(bs, be));
            match rest {
                None => Some(minimal_ch(legacy, range)),
                Some((ciphers, ext)) => Some(
                    ClientHelloV {
                        sni: ext.sni,
                        alpn: ext.alpn,
                        cipher_suites: ciphers,
                        extensions: ext.types,
                        supported_groups: ext.groups,
                        ec_point_formats: ext.formats,
                        signature_algorithms: ext.sig_algs,
                        supported_versions: ext.versions,
                        legacy_version: legacy,
                        ja3: Some(
                            hex_bytes(
                                spec_md5(
                                    encode_utf8(
                                        ja3_text(legacy, ciphers, ext.types, ext.groups, ext.formats),
                                    ),
                                ),
                            ),
                        ),
                        ja4: Some(
                            ja4_text(
                                best_version(ext.versions, legacy),
                                false,
                                ext.sni is Some,
                                ciphers,
                                ext.types,
                                ext.sig_algs,
                                first_alpn(ext.alpn),
                            ),
                        ),
                        header_range: range,
                    },
                ),
            }
        },
    }
}

fn minimal(legacy: u16, offset: usize, end: usize) -> (r: TlsClientHelloInfo)
    ensures
        r@ == minimal_ch(legacy, (offset, end)),
{
    let r = TlsClientHelloInfo {
        sni: None,
        alpn: Vec::new(),
        cipher_suites: Vec::new(),
        extensions: Vec::new(),
        supported_groups: Vec::new(),
        ec_point_formats: Vec::new(),
        signature_algorithms: Vec::new(),
        supported_versions: Vec::new(),
        legacy_version: legacy,
        ja3: None,
        ja4: None,
        header_range: (offset, end),
    };
    assert(strings_view(r.alpn@) =~= Seq::<Seq<char>>::empty());
    assert(r@ =~= minimal_ch(legacy, (offset, end)));
    r
}

#[verifier::rlimit(40)]
/// Decodes a TLS ClientHello, extracting SNI, ALPN, cipher suites,
/// extensions, curves, signature algorithms, and computing JA3/JA4.
pub fn try_decode_tls_client_hello(data: &[u8], offset: usize) -> (r: Option<TlsClientHelloInfo>)
    ensures
        match r {
            None => spec_client_hello(data@, offset as int) is None,
            Some(info) => spec_client_hello(data@, offset as int) == Some(info@),
        },
{
    let rec = match parse_tls_record(data, offset) {
        Some(r) => r,
        None => {
            return None;
        },
    };
    if rec.handshake_type != 0x01 {
        return None;
    }
    let end = rec.end;
    let body = &data[rec.body_start..rec.end];
    let ghost b = body@;
    assert(b == data@.subrange(rec.body_start as int, rec.end as int));
    let n = body.len();
    if n < 34 {
        return Some(minimal(0, offset, end));
    }
    let legacy_version = read_be16(body, 0);
    if 34 >= n {
        return Some(minimal(legacy_version, offset, end));
    }
    let sid_len = body[34] as usize;
    if n - 35 < sid_len || n - 35 - sid_len < 2 {
        return Some(minimal(legacy_version, offset, end));
    }
    let p1 = 35 + sid_len;
    let cs_len = read_be16(body, p1) as usize;
    let p2 = p1 + 2;
    if cs_len > n - p2 {
        return Some(minimal(legacy_version, offset, end));
    }
    let cipher_suites = read_u16_pairs(body, p2, cs_len);
    let p3 = p2 + cs_len;
    if p3 >= n {
        return Some(minimal(legacy_version, offset, end));
    }
    let cm_len = body[p3] as usize;
    let mut exts = new_ext_data();
    if cm_len + 1 <= n - p3 && n - p3 - 1 - cm_len >= 2 {
        let p4 = p3 + 1 + cm_len;
        let ext_len = read_be16(body, p4) as usize;
        let p5 = p4 + 2;
        let ext_end = if ext_len < n - p5 { p5 + ext_len } else { n };
        let block = &body[p5..ext_end];
        parse_extensions(block, &mut exts);
    }
    let best = best_version_exec(&exts.versions, legacy_version);
    let ja3s = ja3_string(
        legacy_version,
        cipher_suites.as_slice(),
        exts.types.as_slice(),
        exts.groups.as_slice(),
        exts.formats.as_slice(),
    );
    let ja3 = Some(ja3_hash(ja3s.as_str()));
    let alpn_first: Option<&str> = if exts.alpn.len() > 0 {
        Some(exts.alpn[0].as_str())
    } else {
        None
    };
    let ja4s = Some(
        ja4(
            best,
            false,
            exts.sni.is_some(),
            cipher_suites.as_slice(),
            exts.types.as_slice(),
            exts.sig_algs.as_slice(),
            alpn_first,
        ),
    );
    let ExtData { types, sni, alpn, groups, formats, sig_algs, versions } = exts;
    let info = TlsClientHelloInfo {
        sni,
        alpn,
        cipher_suites,
        extensions: types,
        supported_groups: groups,
        ec_point_formats: formats,
        signature_algorithms: sig_algs,
        supported_versions: versions,
        legacy_version,
        ja3,
        ja4: ja4s,
        header_range: (offset, end),
    };
    Some(info)
}

// ---------------------------------------------------------------------------
// Other handshake messages
// ---------------------------------------------------------------------------

/// The first non-GREASE value, if any.
pub open spec fn first_non_grease(xs: Seq<u16>) -> Option<u16> {
    let ng = non_grease(xs);
    if ng.len() > 0 {
        Some(ng[0])
    } else {
        None
    }
}

/// A ServerHello body: version, random (32), session id, cipher suite,
/// compression method, optional extensions (ALPN; supported_versions
/// overrides the version with its first non-GREASE entry).
pub open spec fn spec_server_hello(b: Seq<u8>) -> HandshakeMessageV {
    if b.len() < 34 || 34 >= b.len() {
        HandshakeMessageV::ServerHello {
            version: if b.len() >= 34 { be16(b, 0) } else { 0 },
            cipher_suite: 0,
            alpn: seq![],
        }
    } else {
        let version = be16(b, 0);
        let p = 35 + b[34];
        if p + 2 > b.len() {
            HandshakeMessageV::ServerHello { version, cipher_suite: 0, alpn: seq![] }
        } else {
            let cipher = be16(b, p);
            let q = p + 3;
            if q + 2 > b.len() {
                HandshakeMessageV::ServerHello { version, cipher_suite: cipher, alpn: seq![] }
            } else {
                let ext_len = be16(b, q) as int;
                let r = q + 2;
                let ext_end = if r + ext_len < b.len() {
                    r + ext_len
                } else {
                    b.len() as int
                };
                let ext = spec_exts(b.subrange(r, ext_end), 0, empty_ext());
                HandshakeMessageV::ServerHello {
                    version: match first_non_grease(ext.versions) {
                        Some(v) => v,
                        None => version,
                    },
                    cipher_suite: cipher,
                    alpn: ext.alpn,
                }
            }
        }
    }
}

fn parse_server_hello(body: &[u8]) -> (r: TlsHandshakeMessage)
    ensures
        r@ == spec_server_hello(body@),
{
    let mut alpn: Vec<String> = Vec::new();
    let mut version: u16 = 0;
    let mut cipher_suite: u16 = 0;
    let n = body.len();
    assert(strings_view(alpn@) =~= Seq::<Seq<char>>::empty());
    if n >= 34 {
        version = read_be16(body, 0);
        if 34 < n {
            let sid_len = body[34] as usize;
            if sid_len <= n - 35 && n - 35 - sid_len >= 2 {
                let p = 35 + sid_len;
                cipher_suite = read_be16(body, p);
                if n - p >= 3 && n - p - 3 >= 2 {
                    let q = p + 3;
                    let ext_len = read_be16(body, q) as usize;
                    let r = q + 2;
                    let ext_end = if ext_len < n - r { r + ext_len } else { n };
                    let mut exts = new_ext_data();
                    parse_extensions(&body[r..ext_end], &mut exts);
                    let ng = super::ja::filter_non_grease(exts.versions.as_slice());
                    if ng.len() > 0 {
                        version = ng[0];
                    }
                    alpn = exts.alpn;
                }
            }
        }
    }
    TlsHandshakeMessage::ServerHello { version, cipher_suite, alpn }
}

/// Entries of a TLS 1.2 Certificate body from `p` up to `end`: each a
/// three-byte length and that many bytes; one that runs past `end` is not
/// counted and stops the count.
pub open spec fn spec_cert_count_from(b: Seq<u8>, p: int, end: int) -> nat
    decreases end - p,
{
    if p < 0 || p + 3 > end || end > b.len() {
        0
    } else {
        let q = p + 3 + be24(b, p);
        if q > end {
            0
        } else {
            1 + spec_cert_count_from(b, q, end)
        }
    }
}

/// The number of certificates in a Certificate message body.
pub open spec fn spec_count_certs(b: Seq<u8>) -> nat {
    if b.len() < 3 {
        0
    } else {
        let total = be24(b, 0);
        let end = if 3 + total < b.len() { 3 + total } else { b.len() as int };
        spec_cert_count_from(b, 3, end)
    }
}

fn count_certs(body: &[u8]) -> (r: usize)
    ensures
        r == spec_count_certs(body@),
{
    if body.len() < 3 {
        return 0;
    }
    let total = read_be24(body, 0);
    let end = if total < body.len() - 3 { 3 + total } else { body.len() };
    let mut p: usize = 3;
    let mut count: usize = 0;
    while p <= end && end - p >= 3
        invariant
            3 <= p,
            end <= body@.len(),
            count <= p,
            count + spec_cert_count_from(body@, p as int, end as int) == spec_count_certs(body@),
        decreases end - p,
    {
        let len = read_be24(body, p);
        if len > end - p - 3 {
            return count;
        }
        p = p + 3 + len;
        count = count + 1;
    }
    count
}

/// A handshake record at `o` that is not a ClientHello: ServerHello (2),
/// Certificate (11) or any other type, as a one-message list.
pub open spec fn spec_handshake(s: Seq<u8>, o: int) -> Option<HandshakeV> {
    match spec_record(s, o) {
        None => None,
        Some((t, bs, be)) => if t == 0x01 {
            None
        } else {
            let b = s.subrange(bs, be);
            let m = if t == 0x02 {
                spec_server_hello(b)
            } else if t == 0x0b {
                HandshakeMessageV::Certificate { cert_count: spec_count_certs(b) as usize }
            } else {
                HandshakeMessageV::Other { msg_type: t }
            };
            Some(HandshakeV { messages: seq![m], header_range: (o as usize, be as usize) })
        },
    }
}

/// Decode a non-ClientHello TLS handshake record (ServerHello, Certificate, …).
pub fn try_decode_tls_handshake(data: &[u8], offset: usize) -> (r: Option<TlsHandshakeInfo>)
    ensures
        match r {
            None => spec_handshake(data@, offset as int) is None,
            Some(info) => spec_handshake(data@, offset as int) == Some(info@),
        },
{
    let rec = match parse_tls_record(data, offset) {
        Some(r) => r,
        None => {
            return None;
        },
    };
    let body = &data[rec.body_start..rec.end];
    let message = if rec.handshake_type == 0x01 {
        return None;
    } else if rec.handshake_type == 0x02 {
        parse_server_hello(body)
    } else if rec.handshake_type == 0x0b {
        TlsHandshakeMessage::Certificate { cert_count: count_certs(body) }
    } else {
        TlsHandshakeMessage::Other { msg_type: rec.handshake_type }
    };
    let ghost mv = message@;
    let mut messages: Vec<TlsHandshakeMessage> = Vec::new();
    messages.push(message);
    let info = TlsHandshakeInfo { messages, header_range: (offset, rec.end) };
    assert(info@.messages =~= seq![mv]);
    Some(info)
}

} // verus!
