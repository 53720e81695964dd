//! Packet decoding: the layer types, the per-protocol decoders, the decoder
//! chain and the one-line packet summary.
use vstd::prelude::*;
use vstd::string::*;
use crate::net::{Ipv4Addr, Ipv6Addr, MacAddr};
use crate::text::{join_sep, push_sep_item};

pub mod arp;
pub mod chain;
pub mod dns;
pub mod ethernet;
pub mod http;
pub mod http2;
pub mod icmp;
pub mod icmpv6;
pub mod ipv4;
pub mod ipv6;
pub mod ja;
pub mod quic;
pub mod tcp;
pub mod tls;
pub mod udp;

verus! {

// ---------------------------------------------------------------------------
// Core types
// ---------------------------------------------------------------------------

#[derive(Debug, Clone)]
pub struct ProcessInfo {
    pub pid: u32,
    pub name: String,
}

#[derive(Debug, Clone, Copy, PartialEq, Eq)]
pub enum ColorHint {
    Tcp,
    Udp,
    Arp,
    Icmp,
    Dns,
    Tls,
    Retransmission,
    Other,
}

#[derive(Debug, Clone)]
pub struct PacketSummary {
    pub source: String,
    pub destination: String,
    pub protocol: String,
    pub length: u32,
    pub info: String,
    pub color_hint: ColorHint,
}

/// A decoded packet. `timestamp_us` is the capture time in microseconds
/// since the Unix epoch.
#[derive(Debug)]
pub struct DecodedPacket {
    pub number: u64,
    pub timestamp_us: i64,
    pub wire_len: u32,
    pub data: Vec<u8>,
    pub layers: Vec<Layer>,
    pub summary: PacketSummary,
    pub process: Option<ProcessInfo>,
    pub retransmission: bool,
}

// ---------------------------------------------------------------------------
// Layer types
// ---------------------------------------------------------------------------

#[derive(Debug)]
pub enum Layer {
    Ethernet(EthernetHeader),
    Arp(ArpHeader),
    Ipv4(Ipv4Header),
    Ipv6(Ipv6Header),
    Tcp(TcpHeader),
    Udp(UdpHeader),
    Icmp(IcmpHeader),
    Icmpv6(Icmpv6Header),
    Dns(DnsInfo),
    TlsClientHello(TlsClientHelloInfo),
    TlsHandshake(TlsHandshakeInfo),
    Http(HttpInfo),
    Http2(Http2FrameInfo),
    Quic(QuicInfo),
    Payload { offset: usize, len: usize },
}

#[derive(Debug, Clone, Copy)]
pub struct EthernetHeader {
    pub src_mac: MacAddr,
    pub dst_mac: MacAddr,
    pub ethertype: u16,
    pub header_range: (usize, usize),
}

#[derive(Debug, Clone, Copy)]
pub struct ArpHeader {
    pub hw_type: u16,
    pub proto_type: u16,
    pub operation: u16,
    pub sender_mac: MacAddr,
    pub sender_ip: Ipv4Addr,
    pub target_mac: MacAddr,
    pub target_ip: Ipv4Addr,
    pub header_range: (usize, usize),
}

#[derive(Debug, Clone, Copy)]
pub struct Ipv4Header {
    pub version: u8,
    pub ihl: u8,
    pub dscp: u8,
    pub ecn: u8,
    pub total_length: u16,
    pub identification: u16,
    pub flags: u8,
    pub fragment_offset: u16,
    pub ttl: u8,
    pub protocol: u8,
    pub checksum: u16,
    pub src_ip: Ipv4Addr,
    pub dst_ip: Ipv4Addr,
    pub header_range: (usize, usize),
}

#[derive(Debug, Clone, Copy)]
pub struct Ipv6Header {
    pub version: u8,
    pub traffic_class: u8,
    pub flow_label: u32,
    pub payload_length: u16,
    pub next_header: u8,
    pub hop_limit: u8,
    pub src_ip: Ipv6Addr,
    pub dst_ip: Ipv6Addr,
    pub header_range: (usize, usize),
}

#[derive(Debug, Clone, Copy, PartialEq, Eq)]
pub struct TcpFlags {
    pub fin: bool,
    pub syn: bool,
    pub rst: bool,
    pub psh: bool,
    pub ack: bool,
    pub urg: bool,
    pub ece: bool,
    pub cwr: bool,
}

/// Bit `k` of `bits` is set.
pub open spec fn bit(bits: u8, k: nat) -> bool
    decreases k,
{
    if k == 0 {
        bits % 2 == 1
    } else {
        bit(bits / 2, (k - 1) as nat)
    }
}

pub open spec fn spec_flags(bits: u8) -> TcpFlags {
    TcpFlags {
        fin: bit(bits, 0),
        syn: bit(bits, 1),
        rst: bit(bits, 2),
        psh: bit(bits, 3),
        ack: bit(bits, 4),
        urg: bit(bits, 5),
        ece: bit(bits, 6),
        cwr: bit(bits, 7),
    }
}

/// The set flags, named in the order SYN, ACK, FIN, RST, PSH, URG, ECE, CWR.
pub open spec fn flag_names(f: TcpFlags) -> Seq<Seq<char>> {
    let s1 = if f.syn { seq!["SYN"@] } else { seq![] };
    let s2 = if f.ack { s1.push("ACK"@) } else { s1 };
    let s3 = if f.fin { s2.push("FIN"@) } else { s2 };
    let s4 = if f.rst { s3.push("RST"@) } else { s3 };
    let s5 = if f.psh { s4.push("PSH"@) } else { s4 };
    let s6 = if f.urg { s5.push("URG"@) } else { s5 };
    let s7 = if f.ece { s6.push("ECE"@) } else { s6 };
    if f.cwr { s7.push("CWR"@) } else { s7 }
}

/// `[A, B, ...]` listing the set flags.
pub open spec fn flags_text(f: TcpFlags) -> Seq<char> {
    "["@ + join_sep(flag_names(f), ", "@) + "]"@
}

impl TcpFlags {
    /// The eight flag bits of the TCP header byte, bit 0 (FIN) to bit 7 (CWR).
    pub fn from_bits(bits: u8) -> (f: TcpFlags)
        ensures
            f == spec_flags(bits),
    {
        let b1 = bits / 2;
        let b2 = b1 / 2;
        let b3 = b2 / 2;
        let b4 = b3 / 2;
        let b5 = b4 / 2;
        let b6 = b5 / 2;
        let b7 = b6 / 2;
        proof {
            reveal_with_fuel(bit, 8);
            assert(bit(bits, 1) == (b1 % 2 == 1));
            assert(bit(bits, 2) == (b2 % 2 == 1));
            assert(bit(bits, 3) == (b3 % 2 == 1));
            assert(bit(bits, 4) == (b4 % 2 == 1));
            assert(bit(bits, 5) == (b5 % 2 == 1));
            assert(bit(bits, 6) == (b6 % 2 == 1));
            assert(bit(bits, 7) == (b7 % 2 == 1));
        }
        TcpFlags {
            fin: bits % 2 == 1,
            syn: b1 % 2 == 1,
            rst: b2 % 2 == 1,
            psh: b3 % 2 == 1,
            ack: b4 % 2 == 1,
            urg: b5 % 2 == 1,
            ece: b6 % 2 == 1,
            cwr: b7 % 2 == 1,
        }
    }

    /// The set flags as `[SYN, ACK]`.
    pub fn display(&self) -> (s: String)
        ensures
            s@ == flags_text(*self),
    {
        let mut s = String::new();
        s.append("[");
        let ghost mut names: Seq<Seq<char>> = seq![];
        let mut n: usize = 0;
        if self.syn {
            push_sep_item(&mut s, n, ", ", "SYN", Ghost("["@), Ghost(names));
            proof { names = names.push("SYN"@); }
            n = n + 1;
        }
        if self.ack {
            push_sep_item(&mut s, n, ", ", "ACK", Ghost("["@), Ghost(names));
            proof { names = names.push("ACK"@); }
            n = n + 1;
        }
        if self.fin {
            push_sep_item(&mut s, n, ", ", "FIN", Ghost("["@), Ghost(names));
            proof { names = names.push("FIN"@); }
            n = n + 1;
        }
        if self.rst {
            push_sep_item(&mut s, n, ", ", "RST", Ghost("["@), Ghost(names));
            proof { names = names.push("RST"@); }
            n = n + 1;
        }
        if self.psh {
            push_sep_item(&mut s, n, ", ", "PSH", Ghost("["@), Ghost(names));
            proof { names = names.push("PSH"@); }
            n = n + 1;
        }
        if self.urg {
            push_sep_item(&mut s, n, ", ", "URG", Ghost("["@), Ghost(names));
            proof { names = names.push("URG"@); }
            n = n + 1;
        }
        if self.ece {
            push_sep_item(&mut s, n, ", ", "ECE", Ghost("["@), Ghost(names));
            proof { names = names.push("ECE"@); }
            n = n + 1;
        }
        if self.cwr {
            push_sep_item(&mut s, n, ", ", "CWR", Ghost("["@), Ghost(names));
            proof { names = names.push("CWR"@); }
        }
        assert(names == flag_names(*self));
        s.append("]");
        s
    }
}

#[derive(Debug, Clone, Copy)]
pub struct TcpHeader {
    pub src_port: u16,
    pub dst_port: u16,
    pub seq_num: u32,
    pub ack_num: u32,
    pub data_offset: u8,
    pub flags: TcpFlags,
    pub window_size: u16,
    pub checksum: u16,
    pub urgent_pointer: u16,
    pub payload_len: usize,
    pub header_range: (usize, usize),
}

#[derive(Debug, Clone, Copy)]
pub struct UdpHeader {
    pub src_port: u16,
    pub dst_port: u16,
    pub length: u16,
    pub checksum: u16,
    pub header_range: (usize, usize),
}

#[derive(Debug, Clone, Copy)]
pub struct IcmpHeader {
    pub icmp_type: u8,
    pub code: u8,
    pub checksum: u16,
    pub rest: u32,
    pub header_range: (usize, usize),
}

#[derive(Debug, Clone, Copy)]
pub struct Icmpv6Header {
    pub icmp_type: u8,
    pub code: u8,
    pub checksum: u16,
    pub rest: u32,
    pub header_range: (usize, usize),
}

#[derive(Debug)]
pub struct DnsInfo {
    pub transaction_id: u16,
    pub is_response: bool,
    pub rcode: u8,
    pub questions: Vec<DnsQuestion>,
    pub answers: Vec<DnsRecord>,
    pub authorities: Vec<DnsRecord>,
    pub additionals: Vec<DnsRecord>,
    pub header_range: (usize, usize),
}

#[derive(Debug, Clone)]
pub struct DnsQuestion {
    pub qname: String,
    pub qtype: u16,
    pub qclass: u16,
}

#[derive(Debug, Clone)]
pub struct DnsRecord {
    pub name: String,
    pub rtype: u16,
    pub rclass: u16,
    pub ttl: u32,
    pub rdata: DnsRdata,
}

#[derive(Debug, Clone)]
pub enum DnsRdata {
    A(Ipv4Addr),
    Aaaa(Ipv6Addr),
    Cname(String),
    Ns(String),
    Ptr(String),
    Mx { preference: u16, exchange: String },
    Txt(Vec<String>),
    Srv { priority: u16, weight: u16, port: u16, target: String },
    Soa {
        mname: String,
        rname: String,
        serial: u32,
        refresh: u32,
        retry: u32,
        expire: u32,
        minimum: u32,
    },
    Unknown { rtype: u16, data: Vec<u8> },
}

#[derive(Debug)]
pub struct TlsClientHelloInfo {
    pub sni: Option<String>,
    pub alpn: Vec<String>,
    pub cipher_suites: Vec<u16>,
    pub extensions: Vec<u16>,
    pub supported_groups: Vec<u16>,
    pub ec_point_formats: Vec<u8>,
    pub signature_algorithms: Vec<u16>,
    pub supported_versions: Vec<u16>,
    pub legacy_version: u16,
    /// JA3 fingerprint (MD5 hex of the canonical JA3 string).
    pub ja3: Option<String>,
    /// JA4 fingerprint.
    pub ja4: Option<String>,
    pub header_range: (usize, usize),
}

#[derive(Debug)]
pub struct TlsHandshakeInfo {
    pub messages: Vec<TlsHandshakeMessage>,
    pub header_range: (usize, usize),
}

#[derive(Debug)]
pub enum TlsHandshakeMessage {
    ServerHello { version: u16, cipher_suite: u16, alpn: Vec<String> },
    Certificate { cert_count: usize },
    Other { msg_type: u8 },
}

/// An HTTP/1.x request or response head.
#[derive(Debug)]
pub struct HttpInfo {
    pub is_request: bool,
    pub method: Option<String>,
    pub uri: Option<String>,
    pub version: Option<String>,
    pub status_code: Option<u16>,
    pub headers: Vec<(String, String)>,
    pub host: Option<String>,
    pub content_length: Option<u64>,
    pub chunked: bool,
    pub header_range: (usize, usize),
}

/// One HTTP/2 frame and, for a HEADERS frame, its decoded header list.
#[derive(Debug)]
pub struct Http2Frame {
    pub stream_id: u32,
    pub frame_type: u8,
    pub flags: u8,
    pub length: u32,
    pub headers: Vec<(String, String)>,
}

#[derive(Debug)]
pub struct Http2FrameInfo {
    pub frames: Vec<Http2Frame>,
}

#[derive(Debug, Clone, Copy, PartialEq, Eq)]
pub enum QuicPacketType {
    Initial,
    ZeroRtt,
    Handshake,
    Retry,
    VersionNegotiation,
}

/// A QUIC long-header packet.
#[derive(Debug)]
pub struct QuicInfo {
    pub long_header: bool,
    pub version: Option<u32>,
    pub packet_type: QuicPacketType,
    pub dcid: Vec<u8>,
    pub scid: Vec<u8>,
    pub sni: Option<String>,
    pub header_range: (usize, usize),
}

// ---------------------------------------------------------------------------
// Decoder chain types
// ---------------------------------------------------------------------------

#[derive(Debug)]
pub struct DecodeResult {
    pub layer: Layer,
    pub next: Option<NextDecode>,
    pub next_offset: usize,
}

#[derive(Debug, Clone, Copy, PartialEq, Eq)]
pub enum NextDecode {
    Ethernet,
    Ipv4,
    Ipv6,
    Arp,
    Tcp,
    Udp,
    Icmp,
    Icmpv6,
    ApplicationPayload { transport: TransportHint },
}

#[derive(Debug, Clone, Copy, PartialEq, Eq)]
pub struct TransportHint {
    pub src_port: u16,
    pub dst_port: u16,
    pub is_tcp: bool,
}

// ---------------------------------------------------------------------------
// Big-endian field access
// ---------------------------------------------------------------------------

/// `(o, o + n)` as a byte range.
pub open spec fn span(o: int, n: int) -> (usize, usize) {
    (o as usize, (o + n) as usize)
}

/// A `usize` offset as an integer.
pub open spec fn int_of(x: usize) -> int {
    x as int
}

/// An offset as `usize`.
pub open spec fn usz(x: int) -> usize {
    x as usize
}

pub open spec fn be16(s: Seq<u8>, i: int) -> u16 {
    (s[i] * 256 + s[i + 1]) as u16
}

pub open spec fn be24(s: Seq<u8>, i: int) -> int {
    s[i] * 65536 + s[i + 1] * 256 + s[i + 2]
}

pub open spec fn be32(s: Seq<u8>, i: int) -> u32 {
    (s[i] * 16777216 + s[i + 1] * 65536 + s[i + 2] * 256 + s[i + 3]) as u32
}

pub fn read_be16(d: &[u8], i: usize) -> (r: u16)
    requires
        i + 1 < d@.len(),
    ensures
        r == be16(d@, i as int),
{
    (d[i] as u16) * 256 + (d[i + 1] as u16)
}

pub fn read_be24(d: &[u8], i: usize) -> (r: usize)
    requires
        i + 2 < d@.len(),
    ensures
        r == be24(d@, i as int),
{
    (d[i] as usize) * 65536 + (d[i + 1] as usize) * 256 + (d[i + 2] as usize)
}

pub fn read_be32(d: &[u8], i: usize) -> (r: u32)
    requires
        i + 3 < d@.len(),
    ensures
        r == be32(d@, i as int),
{
    (d[i] as u32) * 16777216 + (d[i + 1] as u32) * 65536 + (d[i + 2] as u32) * 256 + (d[i
        + 3] as u32)
}

pub fn read_mac(d: &[u8], i: usize) -> (m: MacAddr)
    requires
        i + 6 <= d@.len(),
    ensures
        m == MacAddr([d@[i as int], d@[i + 1], d@[i + 2], d@[i + 3], d@[i + 4], d@[i + 5]]),
{
    MacAddr([d[i], d[i + 1], d[i + 2], d[i + 3], d[i + 4], d[i + 5]])
}

pub fn read_ipv4(d: &[u8], i: usize) -> (a: Ipv4Addr)
    requires
        i + 4 <= d@.len(),
    ensures
        a == Ipv4Addr([d@[i as int], d@[i + 1], d@[i + 2], d@[i + 3]]),
{
    Ipv4Addr([d[i], d[i + 1], d[i + 2], d[i + 3]])
}

/// Sixteen bytes from `s[i..]`, as an array.
pub open spec fn spec_ipv6_at(s: Seq<u8>, i: int) -> Ipv6Addr {
    Ipv6Addr(
        [
            s[i],
            s[i + 1],
            s[i + 2],
            s[i + 3],
            s[i + 4],
            s[i + 5],
            s[i + 6],
            s[i + 7],
            s[i + 8],
            s[i + 9],
            s[i + 10],
            s[i + 11],
            s[i + 12],
            s[i + 13],
            s[i + 14],
            s[i + 15],
        ],
    )
}

pub fn read_ipv6(d: &[u8], i: usize) -> (a: Ipv6Addr)
    requires
        i + 16 <= d@.len(),
    ensures
        a == spec_ipv6_at(d@, i as int),
{
    Ipv6Addr(
        [
            d[i],
            d[i + 1],
            d[i + 2],
            d[i + 3],
            d[i + 4],
            d[i + 5],
            d[i + 6],
            d[i + 7],
            d[i + 8],
            d[i + 9],
            d[i + 10],
            d[i + 11],
            d[i + 12],
            d[i + 13],
            d[i + 14],
            d[i + 15],
        ],
    )
}

/// Copy of `d[from..to]`.
pub fn copy_range(d: &[u8], from: usize, to: usize) -> (v: Vec<u8>)
    requires
        from <= to <= d@.len(),
    ensures
        v@ == d@.subrange(from as int, to as int),
{
    let mut v: Vec<u8> = Vec::new();
    let mut i = from;
    while i < to
        invariant
            from <= i <= to <= d@.len(),
            v@ == d@.subrange(from as int, i as int),
        decreases to - i,
    {
        v.push(d[i]);
        i = i + 1;
        assert(v@ =~= d@.subrange(from as int, i as int));
    }
    v
}

} // verus!
