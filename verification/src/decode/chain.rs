//! The decoder chain (which decoder runs on which bytes) and the one-line
//! summary of a decoded packet.
use vstd::prelude::*;
use vstd::string::*;
use crate::capture::{Linktype, RawPacket};
use crate::net::{ipv4_text, ipv6_text, mac_text, push_ipv4, push_ipv6};
use crate::text::{dec, join_sep, lemma_encode_utf8_empty_iff, push_dec, push_sep_item, push_sep_string};
use super::arp::{decode_arp, spec_decode_arp};
use super::dns::{strings_view, try_decode_dns, spec_try_decode_dns, DnsInfoV, RdataV, RecordV};
use super::ethernet::{decode_ethernet, spec_decode_ethernet};
use super::http::HttpInfoV;
use super::http2::Http2FrameV;
use super::icmp::{decode_icmp, spec_decode_icmp};
use super::icmpv6::{decode_icmpv6, spec_decode_icmpv6};
use super::ipv4::{decode_ipv4, spec_decode_ipv4};
use super::ipv6::{decode_ipv6, spec_decode_ipv6};
use super::quic::QuicV;
use super::tcp::{decode_tcp, spec_decode_tcp};
use super::tls::{
    spec_client_hello, spec_handshake, try_decode_tls_client_hello, try_decode_tls_handshake,
    ClientHelloV, HandshakeMessageV, HandshakeV,
};
use super::udp::{decode_udp, spec_decode_udp};
use super::{
    copy_range, flags_text, int_of, usz, ArpHeader, ColorHint, DecodeResult, DecodedPacket,
    DnsInfo, DnsRdata, TlsClientHelloInfo, TlsHandshakeInfo, EthernetHeader, IcmpHeader, Icmpv6Header, Ipv4Header, Ipv6Header, Layer, NextDecode,
    PacketSummary, TcpHeader, TlsHandshakeMessage, TransportHint, UdpHeader,
};

verus! {

broadcast use vstd::string::group_string_axioms;

// ---------------------------------------------------------------------------
// Layers as values
// ---------------------------------------------------------------------------

/// Model of a [`Layer`]: headers as they are, the richer layers by their views.
pub enum LayerV {
    Ethernet(EthernetHeader),
    Arp(ArpHeader),
    Ipv4(Ipv4Header),
    Ipv6(Ipv6Header),
    Tcp(TcpHeader),
    Udp(UdpHeader),
    Icmp(IcmpHeader),
    Icmpv6(Icmpv6Header),
    Dns(DnsInfoV),
    TlsClientHello(ClientHelloV),
    TlsHandshake(HandshakeV),
    Http(HttpInfoV),
    Http2(Seq<Http2FrameV>),
    Quic(QuicV),
    Payload { offset: usize, len: usize },
}

impl View for Layer {
    type V = LayerV;

    open spec fn view(&self) -> LayerV {
        match self {
            Layer::Ethernet(h) => LayerV::Ethernet(*h),
            Layer::Arp(h) => LayerV::Arp(*h),
            Layer::Ipv4(h) => LayerV::Ipv4(*h),
            Layer::Ipv6(h) => LayerV::Ipv6(*h),
            Layer::Tcp(h) => LayerV::Tcp(*h),
            Layer::Udp(h) => LayerV::Udp(*h),
            Layer::Icmp(h) => LayerV::Icmp(*h),
            Layer::Icmpv6(h) => LayerV::Icmpv6(*h),
            Layer::Dns(d) => LayerV::Dns(d@),
            Layer::TlsClientHello(c) => LayerV::TlsClientHello(c@),
            Layer::TlsHandshake(h) => LayerV::TlsHandshake(h@),
            Layer::Http(h) => LayerV::Http(h@),
            Layer::Http2(f) => LayerV::Http2(super::http2::frames_view(f.frames@)),
            Layer::Quic(q) => LayerV::Quic(q@),
            Layer::Payload { offset, len } => LayerV::Payload { offset: *offset, len: *len },
        }
    }
}

pub open spec fn layers_view(v: Seq<Layer>) -> Seq<LayerV> {
    v.map_values(|l: Layer| l@)
}

// ---------------------------------------------------------------------------
// The chain
// ---------------------------------------------------------------------------

/// Depth of a decoder in the chain: link, network, transport, application.
pub open spec fn rank(n: Option<NextDecode>) -> nat {
    match n {
        None => 0,
        Some(NextDecode::Ethernet) => 4,
        Some(NextDecode::Ipv4) => 3,
        Some(NextDecode::Ipv6) => 3,
        Some(NextDecode::Arp) => 3,
        Some(NextDecode::ApplicationPayload { .. }) => 1,
        Some(_) => 2,
    }
}

/// The header decoder for one step of the chain.
pub open spec fn step_spec(data: Seq<u8>, what: NextDecode, off: usize) -> Option<DecodeResult> {
    match what {
        NextDecode::Ethernet => spec_decode_ethernet(data, int_of(off)),
        NextDecode::Ipv4 => spec_decode_ipv4(data, int_of(off)),
        NextDecode::Ipv6 => spec_decode_ipv6(data, int_of(off)),
        NextDecode::Arp => spec_decode_arp(data, int_of(off)),
        NextDecode::Tcp => spec_decode_tcp(data, int_of(off)),
        NextDecode::Udp => spec_decode_udp(data, int_of(off)),
        NextDecode::Icmp => spec_decode_icmp(data, off),
        NextDecode::Icmpv6 => spec_decode_icmpv6(data, off),
        NextDecode::ApplicationPayload { .. } => None,
    }
}

pub proof fn lemma_step_rank(data: Seq<u8>, what: NextDecode, off: usize)
    ensures
        step_spec(data, what, off) matches Some(dr) ==> rank(dr.next) < rank(Some(what)),
{
}

/// The application layers at `off`: DNS on port 53, else a TLS ClientHello,
/// else another TLS handshake record; then the payload itself.
pub open spec fn app_layers(data: Seq<u8>, off: usize, t: TransportHint) -> Seq<LayerV> {
    if int_of(off) < data.len() {
        let first: Seq<LayerV> = if t.src_port == 53 || t.dst_port == 53 {
            match spec_try_decode_dns(data, int_of(off)) {
                Some(d) => seq![LayerV::Dns(d)],
                None => seq![],
            }
        } else {
            match spec_client_hello(data, int_of(off)) {
                Some(c) => seq![LayerV::TlsClientHello(c)],
                None => match spec_handshake(data, int_of(off)) {
                    Some(h) => seq![LayerV::TlsHandshake(h)],
                    None => seq![],
                },
            }
        };
        first.push(LayerV::Payload { offset: off, len: usz(data.len() - int_of(off)) })
    } else {
        seq![]
    }
}

/// The layers decoded from `off` on, starting with the decoder `next`. The
/// chain stops at the first decoder that fails.
pub open spec fn layers_from(data: Seq<u8>, next: Option<NextDecode>, off: usize) -> Seq<LayerV>
    decreases rank(next),
{
    match next {
        None => seq![],
        Some(NextDecode::ApplicationPayload { transport }) => app_layers(data, off, transport),
        Some(w) => {
            proof {
                lemma_step_rank(data, w, off);
            }
            match step_spec(data, w, off) {
                None => seq![],
                Some(dr) => seq![dr.layer@] + layers_from(data, dr.next, dr.next_offset),
            }
        },
    }
}

/// The first decoder for a framing: Ethernet, or for raw IP the version
/// nibble of the first byte (4 or 6).
pub open spec fn initial_decode(data: Seq<u8>, lt: Linktype) -> Option<NextDecode> {
    match lt {
        Linktype::Ethernet => Some(NextDecode::Ethernet),
        Linktype::RawIp => if data.len() > 0 && data[0] / 16 == 4 {
            Some(NextDecode::Ipv4)
        } else if data.len() > 0 && data[0] / 16 == 6 {
            Some(NextDecode::Ipv6)
        } else {
            None
        },
        Linktype::Other(_) => None,
    }
}

pub open spec fn spec_decode_layers(data: Seq<u8>, lt: Linktype) -> Seq<LayerV> {
    layers_from(data, initial_decode(data, lt), 0)
}

fn run_decoder(data: &[u8], what: NextDecode, off: usize) -> (r: Option<DecodeResult>)
    ensures
        r == step_spec(data@, what, off),
{
    match what {
        NextDecode::Ethernet => decode_ethernet(data, off),
        NextDecode::Ipv4 => decode_ipv4(data, off),
        NextDecode::Ipv6 => decode_ipv6(data, off),
        NextDecode::Arp => decode_arp(data, off),
        NextDecode::Tcp => decode_tcp(data, off),
        NextDecode::Udp => decode_udp(data, off),
        NextDecode::Icmp => decode_icmp(data, off),
        NextDecode::Icmpv6 => decode_icmpv6(data, off),
        NextDecode::ApplicationPayload { .. } => None,
    }
}

fn app_layers_exec(data: &[u8], off: usize, t: TransportHint, layers: &mut Vec<Layer>)
    ensures
        layers_view(final(layers)@) == layers_view(old(layers)@) + app_layers(data@, off, t),
{
    let ghost start = layers@;
    if off < data.len() {
        let ghost mut added: Seq<LayerV> = seq![];
        if t.src_port == 53 || t.dst_port == 53 {
            match try_decode_dns(data, off) {
                Some(d) => {
                    proof {
                        added = seq![LayerV::Dns(d@)];
                    }
                    layers.push(Layer::Dns(d));
                },
                None => {},
            }
        } else {
            match try_decode_tls_client_hello(data, off) {
                Some(c) => {
                    proof {
                        added = seq![LayerV::TlsClientHello(c@)];
                    }
                    layers.push(Layer::TlsClientHello(c));
                },
                None => match try_decode_tls_handshake(data, off) {
                    Some(h) => {
                        proof {
                            added = seq![LayerV::TlsHandshake(h@)];
                        }
                        layers.push(Layer::TlsHandshake(h));
                    },
                    None => {},
                },
            }
        }
        assert(layers_view(layers@) =~= layers_view(start) + added);
        let ghost mid = layers@;
        layers.push(Layer::Payload { offset: off, len: data.len() - off });
        assert(layers_view(layers@) =~= layers_view(mid).push(
            LayerV::Payload { offset: off, len: usz(data@.len() - int_of(off)) },
        ));
    } else {
        assert(layers_view(layers@) =~= layers_view(start) + seq![]);
    }
}

/// Runs the decoder chain over a frame.
pub fn decode_layers(data: &[u8], linktype: Linktype) -> (r: Vec<Layer>)
    ensures
        layers_view(r@) == spec_decode_layers(data@, linktype),
{
    let mut layers: Vec<Layer> = Vec::new();
    let initial = match linktype {
        Linktype::Ethernet => Some(NextDecode::Ethernet),
        Linktype::RawIp => if data.len() > 0 && data[0] / 16 == 4 {
            Some(NextDecode::Ipv4)
        } else if data.len() > 0 && data[0] / 16 == 6 {
            Some(NextDecode::Ipv6)
        } else {
            None
        },
        Linktype::Other(_) => None,
    };
    let mut next_decode = initial;
    let mut offset: usize = 0;
    let ghost target = spec_decode_layers(data@, linktype);
    assert(layers_view(layers@) =~= Seq::<LayerV>::empty());
    loop
        invariant_except_break
            target == layers_view(layers@) + layers_from(data@, next_decode, offset),
        ensures
            target == layers_view(layers@),
        decreases rank(next_decode),
    {
        match next_decode {
            None => {
                assert(layers_view(layers@) + seq![] =~= layers_view(layers@));
                break ;
            },
            Some(NextDecode::ApplicationPayload { transport }) => {
                app_layers_exec(data, offset, transport, &mut layers);
                break ;
            },
            Some(what) => {
                proof {
                    lemma_step_rank(data@, what, offset);
                }
                match run_decoder(data, what, offset) {
                    Some(dr) => {
                        let ghost before = layers@;
                        let ghost lv = dr.layer@;
                        layers.push(dr.layer);
                        assert(layers_view(layers@) =~= layers_view(before).push(lv));
                        assert(layers_view(before) + (seq![lv] + layers_from(
                            data@,
                            dr.next,
                            dr.next_offset,
                        )) =~= layers_view(layers@) + layers_from(data@, dr.next, dr.next_offset));
                        offset = dr.next_offset;
                        next_decode = dr.next;
                    },
                    None => {
                        assert(layers_view(layers@) + seq![] =~= layers_view(layers@));
                        break ;
                    },
                }
            },
        }
    }
    layers
}


// ---------------------------------------------------------------------------
// The one-line summary
// ---------------------------------------------------------------------------

/// Model of a [`PacketSummary`].
pub struct SummaryV {
    pub source: Seq<char>,
    pub destination: Seq<char>,
    pub protocol: Seq<char>,
    pub length: u32,
    pub info: Seq<char>,
    pub color_hint: ColorHint,
}

impl View for PacketSummary {
    type V = SummaryV;

    open spec fn view(&self) -> SummaryV {
        SummaryV {
            source: self.source@,
            destination: self.destination@,
            protocol: self.protocol@,
            length: self.length,
            info: self.info@,
            color_hint: self.color_hint,
        }
    }
}

pub open spec fn dec8(v: u8) -> Seq<char> {
    dec(v as nat)
}

pub open spec fn dec16(v: u16) -> Seq<char> {
    dec(v as nat)
}

pub open spec fn dec32(v: u32) -> Seq<char> {
    dec(v as nat)
}

pub open spec fn decu(v: usize) -> Seq<char> {
    dec(v as nat)
}

fn push_u8(s: &mut String, v: u8)
    ensures
        final(s)@ == old(s)@ + dec8(v),
{
    push_dec(s, v as u64);
}

fn push_u16(s: &mut String, v: u16)
    ensures
        final(s)@ == old(s)@ + dec16(v),
{
    push_dec(s, v as u64);
}

fn push_u32(s: &mut String, v: u32)
    ensures
        final(s)@ == old(s)@ + dec32(v),
{
    push_dec(s, v as u64);
}

fn push_usize(s: &mut String, v: usize)
    ensures
        final(s)@ == old(s)@ + decu(v),
{
    push_dec(s, v as u64);
}

/// ARP: `Who has T? Tell S`, `S is at MAC`, or `op=N`.
pub open spec fn arp_info(a: ArpHeader) -> Seq<char> {
    if a.operation == 1 {
        "Who has "@ + ipv4_text(a.target_ip.0@) + "? Tell "@ + ipv4_text(a.sender_ip.0@)
    } else if a.operation == 2 {
        ipv4_text(a.sender_ip.0@) + " is at "@ + mac_text(a.sender_mac.0@)
    } else {
        "op="@ + dec16(a.operation)
    }
}

/// TCP: `SRC → DST [FLAGS] Seq=N Ack=N Len=N`.
pub open spec fn tcp_info(t: TcpHeader) -> Seq<char> {
    dec16(t.src_port) + " → "@ + dec16(t.dst_port) + " "@ + flags_text(t.flags) + " Seq="@ + dec32(
        t.seq_num,
    ) + " Ack="@ + dec32(t.ack_num) + " Len="@ + decu(t.payload_len)
}

/// UDP: `SRC → DST Len=N`.
pub open spec fn udp_info(u: UdpHeader) -> Seq<char> {
    dec16(u.src_port) + " → "@ + dec16(u.dst_port) + " Len="@ + dec16(u.length)
}

/// ICMP: the well-known type names, else `Type=T Code=C`.
pub open spec fn icmp_info(t: u8, c: u8) -> Seq<char> {
    if t == 0 {
        "Echo Reply"@
    } else if t == 3 && c == 0 {
        "Destination Net Unreachable"@
    } else if t == 3 && c == 1 {
        "Destination Host Unreachable"@
    } else if t == 3 && c == 3 {
        "Destination Port Unreachable"@
    } else if t == 3 {
        "Destination Unreachable (code="@ + dec8(c) + ")"@
    } else if t == 8 {
        "Echo Request"@
    } else if t == 11 {
        "Time Exceeded"@
    } else {
        type_code_text(t, c)
    }
}

pub open spec fn type_code_text(t: u8, c: u8) -> Seq<char> {
    "Type="@ + dec8(t) + " Code="@ + dec8(c)
}

/// The answers shown for a DNS response: addresses and CNAME targets.
pub open spec fn answer_texts(rs: Seq<RecordV>) -> Seq<Seq<char>>
    decreases rs.len(),
{
    if rs.len() == 0 {
        seq![]
    } else {
        let prev = answer_texts(rs.drop_last());
        match rs.last().rdata {
            RdataV::A(ip) => prev.push(ipv4_text(ip.0@)),
            RdataV::Aaaa(ip) => prev.push(ipv6_text(ip.0@)),
            RdataV::Cname(c) => prev.push("CNAME "@ + c),
            _ => prev,
        }
    }
}

pub open spec fn qnames(d: DnsInfoV) -> Seq<Seq<char>> {
    d.questions.map_values(|q: super::dns::QuestionV| q.qname)
}

/// DNS: `DNS Q names` for a query; `DNS A names` for a response, followed by
/// `→ answers` when there are any.
pub open spec fn dns_info(d: DnsInfoV) -> Seq<char> {
    let names = join_sep(qnames(d), ", "@);
    if d.is_response {
        let ans = answer_texts(d.answers);
        if ans.len() == 0 {
            "DNS A "@ + names
        } else {
            "DNS A "@ + names + " → "@ + join_sep(ans, ", "@)
        }
    } else {
        "DNS Q "@ + names
    }
}

pub open spec fn client_hello_info(c: ClientHelloV) -> Seq<char> {
    match c.sni {
        Some(sni) => "TLS → "@ + sni,
        None => "TLS Client Hello"@,
    }
}

/// TLS handshake records are described by their first message.
pub open spec fn handshake_info(h: HandshakeV) -> Seq<char> {
    if h.messages.len() == 0 {
        "TLS Handshake"@
    } else {
        match h.messages[0] {
            HandshakeMessageV::ServerHello { alpn, .. } => if alpn.len() > 0 {
                "TLS Server Hello (alpn: "@ + join_sep(alpn, ","@) + ")"@
            } else {
                "TLS Server Hello"@
            },
            HandshakeMessageV::Certificate { cert_count } => "TLS Certificate ("@ + decu(cert_count)
                + ")"@,
            HandshakeMessageV::Other { msg_type } => "TLS Handshake (type "@ + dec8(msg_type) + ")"@,
        }
    }
}

/// The summary before any layer: protocol `???`, kind Other.
pub open spec fn summary_init(wire_len: u32) -> SummaryV {
    SummaryV {
        source: seq![],
        destination: seq![],
        protocol: "???"@,
        length: wire_len,
        info: seq![],
        color_hint: ColorHint::Other,
    }
}

/// What one layer does to the summary. Each layer overwrites what it knows:
/// the innermost addresses and protocol win. Ethernet addresses are used
/// only while no source is known.
pub open spec fn summary_step(st: SummaryV, l: LayerV) -> SummaryV {
    match l {
        LayerV::Ethernet(e) => if st.source.len() == 0 {
            SummaryV {
                source: mac_text(e.src_mac.0@),
                destination: mac_text(e.dst_mac.0@),
                ..st
            }
        } else {
            st
        },
        LayerV::Arp(a) => SummaryV {
            source: ipv4_text(a.sender_ip.0@),
            destination: ipv4_text(a.target_ip.0@),
            protocol: "ARP"@,
            color_hint: ColorHint::Arp,
            info: arp_info(a),
            ..st
        },
        LayerV::Ipv4(ip) => SummaryV {
            source: ipv4_text(ip.src_ip.0@),
            destination: ipv4_text(ip.dst_ip.0@),
            protocol: "IPv4"@,
            ..st
        },
        LayerV::Ipv6(ip) => SummaryV {
            source: ipv6_text(ip.src_ip.0@),
            destination: ipv6_text(ip.dst_ip.0@),
            protocol: "IPv6"@,
            ..st
        },
        LayerV::Tcp(t) => SummaryV {
            protocol: "TCP"@,
            color_hint: ColorHint::Tcp,
            info: tcp_info(t),
            ..st
        },
        LayerV::Udp(u) => SummaryV {
            protocol: "UDP"@,
            color_hint: ColorHint::Udp,
            info: udp_info(u),
            ..st
        },
        LayerV::Icmp(h) => SummaryV {
            protocol: "ICMP"@,
            color_hint: ColorHint::Icmp,
            info: icmp_info(h.icmp_type, h.code),
            ..st
        },
        LayerV::Icmpv6(h) => SummaryV {
            protocol: "ICMPv6"@,
            color_hint: ColorHint::Icmp,
            info: type_code_text(h.icmp_type, h.code),
            ..st
        },
        LayerV::Dns(d) => SummaryV {
            protocol: "DNS"@,
            color_hint: ColorHint::Dns,
            info: dns_info(d),
            ..st
        },
        LayerV::TlsClientHello(c) => SummaryV {
            protocol: "TLS"@,
            color_hint: ColorHint::Tls,
            info: client_hello_info(c),
            ..st
        },
        LayerV::TlsHandshake(h) => SummaryV {
            protocol: "TLS"@,
            color_hint: ColorHint::Tls,
            info: handshake_info(h),
            ..st
        },
        _ => st,
    }
}

/// The summary of a layer list, folded from the outermost layer in.
pub open spec fn summary_of(ls: Seq<LayerV>, wire_len: u32) -> SummaryV
    decreases ls.len(),
{
    if ls.len() == 0 {
        summary_init(wire_len)
    } else {
        summary_step(summary_of(ls.drop_last(), wire_len), ls.last())
    }
}


/// Appends `parts` joined with `sep`.
fn push_joined(s: &mut String, parts: &Vec<String>, sep: &str)
    ensures
        final(s)@ == old(s)@ + join_sep(strings_view(parts@), sep@),
{
    let ghost prefix = s@;
    let mut i: usize = 0;
    assert(strings_view(parts@).take(0) =~= Seq::<Seq<char>>::empty());
    while i < parts.len()
        invariant
            i <= parts@.len(),
            s@ == prefix + join_sep(strings_view(parts@).take(i as int), sep@),
        decreases parts@.len() - i,
    {
        push_sep_string(s, i, sep, &parts[i], Ghost(prefix), Ghost(strings_view(parts@).take(i as int)));
        assert(strings_view(parts@).take(i as int).push(parts@[i as int]@) =~= strings_view(
            parts@,
        ).take(i + 1));
        i = i + 1;
    }
    assert(strings_view(parts@).take(i as int) =~= strings_view(parts@));
}

fn arp_text(a: &ArpHeader) -> (s: String)
    ensures
        s@ == arp_info(*a),
{
    let mut s = String::new();
    if a.operation == 1 {
        s.append("Who has ");
        push_ipv4(&mut s, &a.target_ip.0);
        s.append("? Tell ");
        push_ipv4(&mut s, &a.sender_ip.0);
    } else if a.operation == 2 {
        push_ipv4(&mut s, &a.sender_ip.0);
        s.append(" is at ");
        let m = a.sender_mac.to_text();
        s.append(m.as_str());
    } else {
        s.append("op=");
        push_u16(&mut s, a.operation);
    }
    s
}

fn tcp_text(t: &TcpHeader) -> (s: String)
    ensures
        s@ == tcp_info(*t),
{
    let mut s = String::new();
    push_u16(&mut s, t.src_port);
    s.append(" → ");
    push_u16(&mut s, t.dst_port);
    s.append(" ");
    let f = t.flags.display();
    s.append(f.as_str());
    s.append(" Seq=");
    push_u32(&mut s, t.seq_num);
    s.append(" Ack=");
    push_u32(&mut s, t.ack_num);
    s.append(" Len=");
    push_usize(&mut s, t.payload_len);
    s
}

fn udp_text(u: &UdpHeader) -> (s: String)
    ensures
        s@ == udp_info(*u),
{
    let mut s = String::new();
    push_u16(&mut s, u.src_port);
    s.append(" → ");
    push_u16(&mut s, u.dst_port);
    s.append(" Len=");
    push_u16(&mut s, u.length);
    s
}

fn type_code_string(t: u8, c: u8) -> (s: String)
    ensures
        s@ == type_code_text(t, c),
{
    let mut s = String::new();
    s.append("Type=");
    push_u8(&mut s, t);
    s.append(" Code=");
    push_u8(&mut s, c);
    s
}

fn icmp_text(t: u8, c: u8) -> (s: String)
    ensures
        s@ == icmp_info(t, c),
{
    if t == 0 {
        "Echo Reply".to_string()
    } else if t == 3 && c == 0 {
        "Destination Net Unreachable".to_string()
    } else if t == 3 && c == 1 {
        "Destination Host Unreachable".to_string()
    } else if t == 3 && c == 3 {
        "Destination Port Unreachable".to_string()
    } else if t == 3 {
        let mut s = String::new();
        s.append("Destination Unreachable (code=");
        push_u8(&mut s, c);
        s.append(")");
        s
    } else if t == 8 {
        "Echo Request".to_string()
    } else if t == 11 {
        "Time Exceeded".to_string()
    } else {
        type_code_string(t, c)
    }
}

/// The answers shown for a DNS response, as strings.
pub fn answer_strings(d: &DnsInfo) -> (r: Vec<String>)
    ensures
        strings_view(r@) == answer_texts(d@.answers),
{
    let mut ans: Vec<String> = Vec::new();
    let mut j: usize = 0;
    let ghost rs = d@.answers;
    assert(rs.take(0) =~= Seq::<RecordV>::empty());
    assert(strings_view(ans@) =~= Seq::<Seq<char>>::empty());
    while j < d.answers.len()
        invariant
            j <= d.answers@.len(),
            rs == d@.answers,
            rs.len() == d.answers@.len(),
            strings_view(ans@) == answer_texts(rs.take(j as int)),
        decreases d.answers@.len() - j,
    {
        let ghost before = ans@;
        assert(rs.take(j + 1).drop_last() =~= rs.take(j as int));
        assert(rs.take(j + 1).last() == d.answers@[j as int]@);
        match &d.answers[j].rdata {
            DnsRdata::A(ip) => {
                ans.push(ip.to_text());
                assert(strings_view(ans@) =~= strings_view(before).push(ipv4_text(ip.0@)));
            },
            DnsRdata::Aaaa(ip) => {
                ans.push(ip.to_text());
                assert(strings_view(ans@) =~= strings_view(before).push(ipv6_text(ip.0@)));
            },
            DnsRdata::Cname(c) => {
                let mut t = String::new();
                t.append("CNAME ");
                t.append(c.as_str());
                let ghost tv = t@;
                ans.push(t);
                assert(strings_view(ans@) =~= strings_view(before).push(tv));
            },
            _ => {},
        }
        j = j + 1;
    }
    assert(rs.take(j as int) =~= rs);
    ans
}

/// Appends `parts` joined with `sep` (see [`push_joined`]).
pub fn joined(parts: &Vec<String>, sep: &str) -> (r: String)
    ensures
        r@ == join_sep(strings_view(parts@), sep@),
{
    let mut s = String::new();
    push_joined(&mut s, parts, sep);
    s
}

fn dns_text(d: &DnsInfo) -> (s: String)
    ensures
        s@ == dns_info(d@),
{
    let mut names = String::new();
    let mut i: usize = 0;
    let ghost qn = qnames(d@);
    assert(qn.take(0) =~= Seq::<Seq<char>>::empty());
    assert(names@ =~= Seq::<char>::empty() + join_sep(qn.take(0), ", "@));
    while i < d.questions.len()
        invariant
            i <= d.questions@.len(),
            qn == qnames(d@),
            qn.len() == d.questions@.len(),
            names@ == Seq::<char>::empty() + join_sep(qn.take(i as int), ", "@),
        decreases d.questions@.len() - i,
    {
        push_sep_string(
            &mut names,
            i,
            ", ",
            &d.questions[i].qname,
            Ghost(Seq::<char>::empty()),
            Ghost(qn.take(i as int)),
        );
        assert(qn.take(i as int).push(d.questions@[i as int].qname@) =~= qn.take(i + 1));
        i = i + 1;
    }
    assert(qn.take(i as int) =~= qn);
    assert(names@ =~= join_sep(qn, ", "@));
    let mut s = String::new();
    if d.is_response {
        let ans = answer_strings(d);
        s.append("DNS A ");
        s.append(names.as_str());
        if ans.len() > 0 {
            s.append(" → ");
            push_joined(&mut s, &ans, ", ");
        }
    } else {
        s.append("DNS Q ");
        s.append(names.as_str());
    }
    s
}

fn client_hello_text(c: &TlsClientHelloInfo) -> (s: String)
    ensures
        s@ == client_hello_info(c@),
{
    match &c.sni {
        Some(sni) => {
            let mut s = String::new();
            s.append("TLS → ");
            s.append(sni.as_str());
            s
        },
        None => "TLS Client Hello".to_string(),
    }
}

fn handshake_text(h: &TlsHandshakeInfo) -> (s: String)
    ensures
        s@ == handshake_info(h@),
{
    if h.messages.len() == 0 {
        return "TLS Handshake".to_string();
    }
    match &h.messages[0] {
        TlsHandshakeMessage::ServerHello { alpn, .. } => {
            if alpn.len() > 0 {
                let mut s = String::new();
                s.append("TLS Server Hello (alpn: ");
                push_joined(&mut s, alpn, ",");
                s.append(")");
                s
            } else {
                "TLS Server Hello".to_string()
            }
        },
        TlsHandshakeMessage::Certificate { cert_count } => {
            let mut s = String::new();
            s.append("TLS Certificate (");
            push_usize(&mut s, *cert_count);
            s.append(")");
            s
        },
        TlsHandshakeMessage::Other { msg_type } => {
            let mut s = String::new();
            s.append("TLS Handshake (type ");
            push_u8(&mut s, *msg_type);
            s.append(")");
            s
        },
    }
}

/// Applies one layer to a summary under construction.
#[verifier::rlimit(60)]
fn summary_apply(p: &mut PacketSummary, l: &Layer)
    ensures
        final(p)@ == summary_step(old(p)@, l@),
{
    match l {
        Layer::Ethernet(e) => {
            proof {
                lemma_encode_utf8_empty_iff(p.source@);
            }
            if p.source.as_str().is_empty() {
                p.source = e.src_mac.to_text();
                p.destination = e.dst_mac.to_text();
            }
        },
        Layer::Arp(a) => {
            p.source = a.sender_ip.to_text();
            p.destination = a.target_ip.to_text();
            p.protocol = "ARP".to_string();
            p.color_hint = ColorHint::Arp;
            p.info = arp_text(a);
        },
        Layer::Ipv4(ip) => {
            p.source = ip.src_ip.to_text();
            p.destination = ip.dst_ip.to_text();
            p.protocol = "IPv4".to_string();
        },
        Layer::Ipv6(ip) => {
            p.source = ip.src_ip.to_text();
            p.destination = ip.dst_ip.to_text();
            p.protocol = "IPv6".to_string();
        },
        Layer::Tcp(t) => {
            p.protocol = "TCP".to_string();
            p.color_hint = ColorHint::Tcp;
            p.info = tcp_text(t);
        },
        Layer::Udp(u) => {
            p.protocol = "UDP".to_string();
            p.color_hint = ColorHint::Udp;
            p.info = udp_text(u);
        },
        Layer::Icmp(h) => {
            p.protocol = "ICMP".to_string();
            p.color_hint = ColorHint::Icmp;
            p.info = icmp_text(h.icmp_type, h.code);
        },
        Layer::Icmpv6(h) => {
            p.protocol = "ICMPv6".to_string();
            p.color_hint = ColorHint::Icmp;
            p.info = type_code_string(h.icmp_type, h.code);
        },
        Layer::Dns(d) => {
            p.protocol = "DNS".to_string();
            p.color_hint = ColorHint::Dns;
            p.info = dns_text(d);
        },
        Layer::TlsClientHello(c) => {
            p.protocol = "TLS".to_string();
            p.color_hint = ColorHint::Tls;
            p.info = client_hello_text(c);
        },
        Layer::TlsHandshake(h) => {
            p.protocol = "TLS".to_string();
            p.color_hint = ColorHint::Tls;
            p.info = handshake_text(h);
        },
        _ => {},
    }
}

/// The one-line summary of a decoded layer list.
pub fn compute_summary(layers: &[Layer], wire_len: u32) -> (r: PacketSummary)
    ensures
        r@ == summary_of(layers_view(layers@), wire_len),
{
    let mut p = PacketSummary {
        source: String::new(),
        destination: String::new(),
        protocol: "???".to_string(),
        length: wire_len,
        info: String::new(),
        color_hint: ColorHint::Other,
    };
    let ghost lv = layers_view(layers@);
    let mut i: usize = 0;
    assert(lv.take(0) =~= Seq::<LayerV>::empty());
    assert(p@ == summary_init(wire_len));
    while i < layers.len()
        invariant
            i <= layers@.len(),
            lv == layers_view(layers@),
            lv.len() == layers@.len(),
            summary_of(lv.take(i as int), wire_len) == p@,
        decreases layers@.len() - i,
    {
        assert(lv.take(i + 1).drop_last() =~= lv.take(i as int));
        assert(lv.take(i + 1).last() == layers@[i as int]@);
        summary_apply(&mut p, &layers[i]);
        i = i + 1;
    }
    assert(lv.take(i as int) =~= lv);
    p
}

/// Decodes a captured frame: its layers, from the link layer in, and the
/// summary line computed from them. No process is attached yet, and the
/// packet is not marked as a retransmission.
pub fn decode_packet(raw: &RawPacket) -> (r: DecodedPacket)
    ensures
        layers_view(r.layers@) == spec_decode_layers(raw.data@, raw.linktype),
        r.summary@ == summary_of(layers_view(r.layers@), raw.wire_len),
        r.number == raw.number,
        r.timestamp_us == raw.timestamp_us,
        r.wire_len == raw.wire_len,
        r.data@ == raw.data@,
        r.process is None,
        !r.retransmission,
{
    let layers = decode_layers(raw.data.as_slice(), raw.linktype);
    let summary = compute_summary(layers.as_slice(), raw.wire_len);
    DecodedPacket {
        number: raw.number,
        timestamp_us: raw.timestamp_us,
        wire_len: raw.wire_len,
        data: copy_range(raw.data.as_slice(), 0, raw.data.len()),
        layers,
        summary,
        process: None,
        retransmission: false,
    }
}

} // verus!
