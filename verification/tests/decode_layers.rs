use pktscope_core::capture::{Linktype, RawPacket};
use pktscope_core::decode::arp::decode_arp;
use pktscope_core::decode::chain::{compute_summary, decode_packet};
use pktscope_core::decode::dns::try_decode_dns;
use pktscope_core::decode::icmp::decode_icmp;
use pktscope_core::decode::icmpv6::decode_icmpv6;
use pktscope_core::decode::ipv4::decode_ipv4;
use pktscope_core::decode::ipv6::decode_ipv6;
use pktscope_core::decode::tcp::decode_tcp;
use pktscope_core::decode::udp::decode_udp;
use pktscope_core::decode::{ColorHint, DnsRdata, Layer, NextDecode, TcpFlags};
use pktscope_core::net::{Ipv4Addr, Ipv6Addr, MacAddr};

fn make_tcp_header(src: u16, dst: u16, flags: u8) -> Vec<u8> {
    let mut h = vec![0u8; 20];
    h[0..2].copy_from_slice(&src.to_be_bytes());
    h[2..4].copy_from_slice(&dst.to_be_bytes());
    h[4..8].copy_from_slice(&1000u32.to_be_bytes());
    h[8..12].copy_from_slice(&500u32.to_be_bytes());
    h[12] = 0x50;
    h[13] = flags;
    h[14..16].copy_from_slice(&65535u16.to_be_bytes());
    h
}

#[test]
fn test_decode_tcp_syn() {
    let data = make_tcp_header(80, 12345, 0x02);
    let result = decode_tcp(&data, 0).unwrap();
    if let Layer::Tcp(tcp) = &result.layer {
        assert_eq!(tcp.src_port, 80);
        assert_eq!(tcp.dst_port, 12345);
        assert_eq!(tcp.seq_num, 1000);
        assert_eq!(tcp.ack_num, 500);
        assert!(tcp.flags.syn);
        assert!(!tcp.flags.ack);
        assert_eq!(tcp.payload_len, 0);
    } else {
        panic!("Expected TCP layer");
    }
    assert!(result.next.is_none());
}

#[test]
fn test_decode_tcp_with_payload() {
    let mut data = make_tcp_header(443, 50000, 0x18);
    data.extend_from_slice(&[0xDE, 0xAD, 0xBE, 0xEF]);
    let result = decode_tcp(&data, 0).unwrap();
    if let Layer::Tcp(tcp) = &result.layer {
        assert!(tcp.flags.psh);
        assert!(tcp.flags.ack);
        assert_eq!(tcp.payload_len, 4);
    } else {
        panic!("Expected TCP layer");
    }
    assert!(matches!(result.next, Some(NextDecode::ApplicationPayload { .. })));
}

#[test]
fn test_decode_tcp_flags() {
    let f = TcpFlags::from_bits(0x12);
    assert!(f.syn);
    assert!(f.ack);
    assert!(!f.fin);
    assert_eq!(f.display(), "[SYN, ACK]");
}

#[test]
fn test_decode_tcp_too_short() {
    assert!(decode_tcp(&[0u8; 19], 0).is_none());
}

#[test]
fn test_decode_arp_request() {
    let mut pkt = vec![0u8; 28];
    pkt[0] = 0x00;
    pkt[1] = 0x01;
    pkt[2] = 0x08;
    pkt[3] = 0x00;
    pkt[4] = 6;
    pkt[5] = 4;
    pkt[6] = 0x00;
    pkt[7] = 0x01;
    pkt[8..14].copy_from_slice(&[0x00, 0x11, 0x22, 0x33, 0x44, 0x55]);
    pkt[14..18].copy_from_slice(&[192, 168, 1, 1]);
    pkt[24..28].copy_from_slice(&[192, 168, 1, 2]);
    let result = decode_arp(&pkt, 0).unwrap();
    if let Layer::Arp(arp) = &result.layer {
        assert_eq!(arp.operation, 1);
        assert_eq!(arp.sender_ip, Ipv4Addr::new(192, 168, 1, 1));
        assert_eq!(arp.target_ip, Ipv4Addr::new(192, 168, 1, 2));
        assert_eq!(arp.sender_mac, MacAddr([0x00, 0x11, 0x22, 0x33, 0x44, 0x55]));
    } else {
        panic!("Expected ARP layer");
    }
    assert!(result.next.is_none());
}

#[test]
fn test_decode_arp_too_short() {
    assert!(decode_arp(&[0u8; 27], 0).is_none());
}

#[test]
fn test_decode_icmp_echo_request() {
    let mut data = vec![0u8; 8];
    data[0] = 8;
    data[1] = 0;
    let result = decode_icmp(&data, 0).unwrap();
    if let Layer::Icmp(icmp) = &result.layer {
        assert_eq!(icmp.icmp_type, 8);
        assert_eq!(icmp.code, 0);
    } else {
        panic!("Expected ICMP layer");
    }
    assert!(result.next.is_none());
}

#[test]
fn test_decode_icmp_echo_reply() {
    let mut data = vec![0u8; 8];
    data[0] = 0;
    let result = decode_icmp(&data, 0).unwrap();
    if let Layer::Icmp(icmp) = &result.layer {
        assert_eq!(icmp.icmp_type, 0);
    } else {
        panic!("Expected ICMP layer");
    }
}

#[test]
fn test_decode_icmp_too_short() {
    assert!(decode_icmp(&[0u8; 7], 0).is_none());
}

#[test]
fn test_decode_icmpv6_echo_request() {
    let mut data = vec![0u8; 8];
    data[0] = 128;
    data[1] = 0;
    let result = decode_icmpv6(&data, 0).unwrap();
    if let Layer::Icmpv6(icmp) = &result.layer {
        assert_eq!(icmp.icmp_type, 128);
        assert_eq!(icmp.code, 0);
    } else {
        panic!("Expected ICMPv6 layer");
    }
    assert!(result.next.is_none());
}

#[test]
fn test_decode_icmpv6_too_short() {
    assert!(decode_icmpv6(&[0u8; 7], 0).is_none());
}

fn make_ipv4_header() -> Vec<u8> {
    vec![
        0x45, 0x00, 0x00, 0x3c, 0xab, 0xcd, 0x40, 0x00, 0x40, 0x06, 0x00, 0x00, 0x0a, 0x00, 0x00,
        0x01, 0xc0, 0xa8, 0x01, 0x01,
    ]
}

#[test]
fn test_decode_ipv4_tcp() {
    let data = make_ipv4_header();
    let result = decode_ipv4(&data, 0).unwrap();
    if let Layer::Ipv4(ip) = &result.layer {
        assert_eq!(ip.version, 4);
        assert_eq!(ip.ihl, 5);
        assert_eq!(ip.ttl, 64);
        assert_eq!(ip.protocol, 6);
        assert_eq!(ip.src_ip, Ipv4Addr::new(10, 0, 0, 1));
        assert_eq!(ip.dst_ip, Ipv4Addr::new(192, 168, 1, 1));
        assert_eq!(ip.total_length, 60);
        assert_eq!(ip.header_range, (0, 20));
    } else {
        panic!("Expected IPv4 layer");
    }
    assert!(matches!(result.next, Some(NextDecode::Tcp)));
    assert_eq!(result.next_offset, 20);
}

#[test]
fn test_decode_ipv4_udp() {
    let mut data = make_ipv4_header();
    data[9] = 17;
    let result = decode_ipv4(&data, 0).unwrap();
    assert!(matches!(result.next, Some(NextDecode::Udp)));
}

#[test]
fn test_decode_ipv4_icmp() {
    let mut data = make_ipv4_header();
    data[9] = 1;
    let result = decode_ipv4(&data, 0).unwrap();
    assert!(matches!(result.next, Some(NextDecode::Icmp)));
}

#[test]
fn test_decode_ipv4_too_short() {
    assert!(decode_ipv4(&[0x45; 19], 0).is_none());
}

#[test]
fn test_decode_ipv4_bad_version() {
    let mut data = make_ipv4_header();
    data[0] = 0x65;
    assert!(decode_ipv4(&data, 0).is_none());
}

fn make_ipv6_header(next_header: u8) -> Vec<u8> {
    let mut h = vec![0u8; 40];
    h[0] = 0x60;
    h[4] = 0x00;
    h[5] = 0x14;
    h[6] = next_header;
    h[7] = 64;
    h[23] = 1;
    h[39] = 2;
    h
}

fn v6_tail(last: u8) -> Ipv6Addr {
    let mut b = [0u8; 16];
    b[15] = last;
    Ipv6Addr(b)
}

#[test]
fn test_decode_ipv6_tcp() {
    let data = make_ipv6_header(6);
    let result = decode_ipv6(&data, 0).unwrap();
    if let Layer::Ipv6(ip) = &result.layer {
        assert_eq!(ip.version, 6);
        assert_eq!(ip.next_header, 6);
        assert_eq!(ip.hop_limit, 64);
        assert_eq!(ip.src_ip, v6_tail(1));
        assert_eq!(ip.dst_ip, v6_tail(2));
    } else {
        panic!("Expected IPv6 layer");
    }
    assert!(matches!(result.next, Some(NextDecode::Tcp)));
}

#[test]
fn test_decode_ipv6_udp() {
    let data = make_ipv6_header(17);
    let result = decode_ipv6(&data, 0).unwrap();
    assert!(matches!(result.next, Some(NextDecode::Udp)));
}

#[test]
fn test_decode_ipv6_icmpv6() {
    let data = make_ipv6_header(58);
    let result = decode_ipv6(&data, 0).unwrap();
    assert!(matches!(result.next, Some(NextDecode::Icmpv6)));
}

#[test]
fn test_decode_ipv6_too_short() {
    assert!(decode_ipv6(&[0x60; 39], 0).is_none());
}

#[test]
fn test_decode_udp() {
    let mut data = vec![0u8; 12];
    data[0..2].copy_from_slice(&53u16.to_be_bytes());
    data[2..4].copy_from_slice(&12345u16.to_be_bytes());
    data[4..6].copy_from_slice(&12u16.to_be_bytes());
    let result = decode_udp(&data, 0).unwrap();
    if let Layer::Udp(udp) = &result.layer {
        assert_eq!(udp.src_port, 53);
        assert_eq!(udp.dst_port, 12345);
        assert_eq!(udp.length, 12);
    } else {
        panic!("Expected UDP layer");
    }
    assert!(matches!(result.next, Some(NextDecode::ApplicationPayload { .. })));
}

#[test]
fn test_decode_udp_too_short() {
    assert!(decode_udp(&[0u8; 7], 0).is_none());
}

#[test]
fn test_decode_udp_no_payload() {
    let mut data = vec![0u8; 8];
    data[0..2].copy_from_slice(&1234u16.to_be_bytes());
    data[2..4].copy_from_slice(&5678u16.to_be_bytes());
    data[4..6].copy_from_slice(&8u16.to_be_bytes());
    let result = decode_udp(&data, 0).unwrap();
    assert!(result.next.is_none());
}

fn build_dns_query(qname: &str) -> Vec<u8> {
    let mut pkt = Vec::new();
    pkt.extend_from_slice(&[0xAB, 0xCD]);
    pkt.extend_from_slice(&[0x01, 0x00]);
    pkt.extend_from_slice(&[0x00, 0x01]);
    pkt.extend_from_slice(&[0x00, 0x00]);
    pkt.extend_from_slice(&[0x00, 0x00]);
    pkt.extend_from_slice(&[0x00, 0x00]);
    for label in qname.split('.') {
        pkt.push(label.len() as u8);
        pkt.extend_from_slice(label.as_bytes());
    }
    pkt.push(0);
    pkt.extend_from_slice(&[0x00, 0x01]);
    pkt.extend_from_slice(&[0x00, 0x01]);
    pkt
}

fn build_dns_response_a(qname: &str, ip: Ipv4Addr) -> Vec<u8> {
    let mut pkt = build_dns_query(qname);
    pkt[2] = 0x81;
    pkt[3] = 0x80;
    pkt[7] = 0x01;
    pkt.extend_from_slice(&[0xC0, 0x0C]);
    pkt.extend_from_slice(&[0x00, 0x01]);
    pkt.extend_from_slice(&[0x00, 0x01]);
    pkt.extend_from_slice(&[0x00, 0x00, 0x01, 0x2C]);
    pkt.extend_from_slice(&[0x00, 0x04]);
    pkt.extend_from_slice(&ip.octets());
    pkt
}

#[test]
fn test_parse_dns_query() {
    let data = build_dns_query("example.com");
    let result = try_decode_dns(&data, 0).unwrap();
    assert_eq!(result.transaction_id, 0xABCD);
    assert!(!result.is_response);
    assert_eq!(result.questions.len(), 1);
    assert_eq!(result.questions[0].qname, "example.com");
    assert_eq!(result.questions[0].qtype, 1);
    assert!(result.answers.is_empty());
}

#[test]
fn test_parse_dns_response_a_record() {
    let ip = Ipv4Addr::new(93, 184, 216, 34);
    let data = build_dns_response_a("example.com", ip);
    let result = try_decode_dns(&data, 0).unwrap();
    assert!(result.is_response);
    assert_eq!(result.answers.len(), 1);
    assert_eq!(result.answers[0].name, "example.com");
    match &result.answers[0].rdata {
        DnsRdata::A(a) => assert_eq!(*a, ip),
        other => panic!("expected A, got {other:?}"),
    }
}

#[test]
fn test_parse_dns_answer_with_offset() {
    let ip = Ipv4Addr::new(1, 2, 3, 4);
    let inner = build_dns_response_a("test.local", ip);
    let mut data = vec![0xEE; 42];
    data.extend_from_slice(&inner);
    let result = try_decode_dns(&data, 42).unwrap();
    assert_eq!(result.answers.len(), 1);
    assert_eq!(result.answers[0].name, "test.local");
    match &result.answers[0].rdata {
        DnsRdata::A(a) => assert_eq!(*a, ip),
        other => panic!("expected A, got {other:?}"),
    }
}

#[test]
fn test_parse_dns_subdomain() {
    let data = build_dns_query("www.example.co.uk");
    let result = try_decode_dns(&data, 0).unwrap();
    assert_eq!(result.questions[0].qname, "www.example.co.uk");
}

#[test]
fn test_parse_dns_too_short() {
    assert!(try_decode_dns(&[0u8; 11], 0).is_none());
}

fn make_raw(data: Vec<u8>, linktype: Linktype) -> RawPacket {
    RawPacket { number: 0, timestamp_us: 0, wire_len: data.len() as u32, data, linktype }
}

fn ethernet_ipv4_tcp_syn() -> Vec<u8> {
    let mut pkt = Vec::new();
    pkt.extend_from_slice(&[0xff; 6]);
    pkt.extend_from_slice(&[0x00, 0x11, 0x22, 0x33, 0x44, 0x55]);
    pkt.extend_from_slice(&[0x08, 0x00]);
    pkt.extend_from_slice(&[
        0x45, 0x00, 0x00, 0x28, 0x00, 0x01, 0x00, 0x00, 0x40, 0x06, 0x00, 0x00, 10, 0, 0, 1, 10,
        0, 0, 2,
    ]);
    pkt.extend_from_slice(&[
        0x00, 0x50, 0x30, 0x39, 0x00, 0x00, 0x03, 0xe8, 0x00, 0x00, 0x00, 0x00, 0x50, 0x02, 0xff,
        0xff, 0x00, 0x00, 0x00, 0x00,
    ]);
    pkt
}

#[test]
fn test_decode_ethernet_ipv4_tcp() {
    let decoded = decode_packet(&make_raw(ethernet_ipv4_tcp_syn(), Linktype::Ethernet));
    assert!(decoded.layers.len() >= 3);
    assert!(matches!(decoded.layers[0], Layer::Ethernet(_)));
    assert!(matches!(decoded.layers[1], Layer::Ipv4(_)));
    assert!(matches!(decoded.layers[2], Layer::Tcp(_)));
    assert_eq!(decoded.summary.protocol, "TCP");
    assert_eq!(decoded.summary.source, "10.0.0.1");
    assert_eq!(decoded.summary.destination, "10.0.0.2");
}

#[test]
fn test_summary_tcp_info_line() {
    let decoded = decode_packet(&make_raw(ethernet_ipv4_tcp_syn(), Linktype::Ethernet));
    assert_eq!(decoded.summary.info, "80 → 12345 [SYN] Seq=1000 Ack=0 Len=0");
    assert_eq!(decoded.summary.color_hint, ColorHint::Tcp);
    assert_eq!(decoded.summary.length, 54);
}

#[test]
fn test_raw_ip_framing_starts_at_ip() {
    let data = ethernet_ipv4_tcp_syn()[14..].to_vec();
    let decoded = decode_packet(&make_raw(data, Linktype::RawIp));
    assert!(matches!(decoded.layers[0], Layer::Ipv4(_)));
    assert!(matches!(decoded.layers[1], Layer::Tcp(_)));
}

#[test]
fn test_unknown_framing_has_no_layers() {
    let decoded = decode_packet(&make_raw(vec![1, 2, 3], Linktype::Other(147)));
    assert!(decoded.layers.is_empty());
    assert_eq!(decoded.summary.protocol, "???");
    assert_eq!(decoded.summary.color_hint, ColorHint::Other);
}

#[test]
fn test_summary_dns_response_line() {
    let ip = Ipv4Addr::new(93, 184, 216, 34);
    let dns = try_decode_dns(&build_dns_response_a("example.com", ip), 0).unwrap();
    let s = compute_summary(&[Layer::Dns(dns)], 0);
    assert_eq!(s.protocol, "DNS");
    assert_eq!(s.info, "DNS A example.com → 93.184.216.34");
}

#[test]
fn test_summary_icmp_names() {
    let mut data = vec![0u8; 8];
    data[0] = 3;
    data[1] = 3;
    let r = decode_icmp(&data, 0).unwrap();
    let s = compute_summary(&[r.layer], 8);
    assert_eq!(s.info, "Destination Port Unreachable");
    assert_eq!(s.protocol, "ICMP");
}
