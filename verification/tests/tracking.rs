use pktscope_core::decode::{
    ColorHint, DecodedPacket, DnsInfo, DnsQuestion, DnsRdata, DnsRecord, Ipv4Header, Layer,
    PacketSummary, TcpFlags, TcpHeader,
};
use pktscope_core::flow::dns_tracker::DnsTracker;
use pktscope_core::flow::tracker::{FlowTracker, MAX_FLOWS};
use pktscope_core::flow::FlowKey;
use pktscope_core::net::{IpAddr, Ipv4Addr};

#[allow(clippy::too_many_arguments)]
fn make_tcp_packet(
    src_ip: Ipv4Addr,
    dst_ip: Ipv4Addr,
    src_port: u16,
    dst_port: u16,
    seq: u32,
    payload_len: usize,
    syn: bool,
    fin: bool,
    rst: bool,
) -> DecodedPacket {
    DecodedPacket {
        number: 0,
        timestamp_us: 0,
        wire_len: 100,
        data: vec![0u8; 100],
        layers: vec![
            Layer::Ipv4(Ipv4Header {
                version: 4,
                ihl: 5,
                dscp: 0,
                ecn: 0,
                total_length: 60,
                identification: 0,
                flags: 0,
                fragment_offset: 0,
                ttl: 64,
                protocol: 6,
                checksum: 0,
                src_ip,
                dst_ip,
                header_range: (14, 34),
            }),
            Layer::Tcp(TcpHeader {
                src_port,
                dst_port,
                seq_num: seq,
                ack_num: 0,
                data_offset: 5,
                flags: TcpFlags {
                    fin,
                    syn,
                    rst,
                    psh: false,
                    ack: !syn,
                    urg: false,
                    ece: false,
                    cwr: false,
                },
                window_size: 65535,
                checksum: 0,
                urgent_pointer: 0,
                payload_len,
                header_range: (34, 54),
            }),
        ],
        summary: PacketSummary {
            source: String::from("10.0.0.1"),
            destination: String::from("10.0.0.2"),
            protocol: "TCP".into(),
            length: 100,
            info: "test".into(),
            color_hint: ColorHint::Tcp,
        },
        process: None,
        retransmission: false,
    }
}

#[test]
fn test_no_retransmission() {
    let mut tracker = FlowTracker::new();
    let src = Ipv4Addr::new(10, 0, 0, 1);
    let dst = Ipv4Addr::new(10, 0, 0, 2);

    let mut p1 = make_tcp_packet(src, dst, 80, 12345, 1000, 100, false, false, false);
    let a1 = tracker.update(&mut p1);
    assert!(!a1.unwrap().is_retransmission);

    let mut p2 = make_tcp_packet(src, dst, 80, 12345, 1100, 100, false, false, false);
    let a2 = tracker.update(&mut p2);
    assert!(!a2.unwrap().is_retransmission);
}

#[test]
fn test_retransmission_detected() {
    let mut tracker = FlowTracker::new();
    let src = Ipv4Addr::new(10, 0, 0, 1);
    let dst = Ipv4Addr::new(10, 0, 0, 2);

    let mut p1 = make_tcp_packet(src, dst, 80, 12345, 1000, 100, false, false, false);
    tracker.update(&mut p1);

    let mut p2 = make_tcp_packet(src, dst, 80, 12345, 1100, 200, false, false, false);
    tracker.update(&mut p2);

    // Retransmit of first packet
    let mut p3 = make_tcp_packet(src, dst, 80, 12345, 1000, 100, false, false, false);
    let a3 = tracker.update(&mut p3);
    assert!(a3.unwrap().is_retransmission);
    assert!(p3.retransmission);
}

#[test]
fn test_flow_key_normalization() {
    let k1 = FlowKey::new(
        IpAddr::V4(Ipv4Addr::new(10, 0, 0, 1)),
        80,
        IpAddr::V4(Ipv4Addr::new(10, 0, 0, 2)),
        12345,
        6,
    );
    let k2 = FlowKey::new(
        IpAddr::V4(Ipv4Addr::new(10, 0, 0, 2)),
        12345,
        IpAddr::V4(Ipv4Addr::new(10, 0, 0, 1)),
        80,
        6,
    );
    assert_eq!(k1, k2);
}

#[test]
fn test_fin_cleanup() {
    let mut tracker = FlowTracker::new();
    let src = Ipv4Addr::new(10, 0, 0, 1);
    let dst = Ipv4Addr::new(10, 0, 0, 2);

    let mut p1 = make_tcp_packet(src, dst, 80, 12345, 1000, 100, false, false, false);
    tracker.update(&mut p1);
    assert_eq!(tracker.len(), 1);

    let mut p2 = make_tcp_packet(src, dst, 80, 12345, 1100, 0, false, true, false);
    tracker.update(&mut p2);
    // FIN from one side only
    assert_eq!(tracker.len(), 1);

    let mut p3 = make_tcp_packet(dst, src, 12345, 80, 2000, 0, false, true, false);
    tracker.update(&mut p3);
    // FIN from both sides → evicted
    assert_eq!(tracker.len(), 0);
}

#[test]
fn test_retransmission_marks_summary() {
    let mut tracker = FlowTracker::new();
    let src = Ipv4Addr::new(10, 0, 0, 1);
    let dst = Ipv4Addr::new(10, 0, 0, 2);
    let mut p1 = make_tcp_packet(src, dst, 80, 12345, 1000, 100, false, false, false);
    tracker.update(&mut p1);
    assert!(!p1.retransmission);
    assert_eq!(p1.summary.info, "test");
    let mut p2 = make_tcp_packet(src, dst, 80, 12345, 1050, 50, false, false, false);
    let a2 = tracker.update(&mut p2);
    assert!(a2.unwrap().is_retransmission);
    assert_eq!(p2.summary.info, "[Retransmission] test");
    assert!(matches!(p2.summary.color_hint, ColorHint::Retransmission));
}

#[test]
fn test_directions_tracked_apart() {
    // The same sequence range from the other side is new data there.
    let mut tracker = FlowTracker::new();
    let a = Ipv4Addr::new(10, 0, 0, 1);
    let b = Ipv4Addr::new(10, 0, 0, 2);
    let mut p1 = make_tcp_packet(a, b, 80, 12345, 1000, 100, false, false, false);
    tracker.update(&mut p1);
    let mut p2 = make_tcp_packet(b, a, 12345, 80, 1000, 100, false, false, false);
    assert!(!tracker.update(&mut p2).unwrap().is_retransmission);
    assert_eq!(tracker.len(), 1);
}

#[test]
fn test_rst_ends_flow_and_empty_ack_is_not_retransmission() {
    let mut tracker = FlowTracker::new();
    let a = Ipv4Addr::new(10, 0, 0, 1);
    let b = Ipv4Addr::new(10, 0, 0, 2);
    let mut p1 = make_tcp_packet(a, b, 80, 12345, 1000, 100, false, false, false);
    tracker.update(&mut p1);
    // A bare ACK carries no data, so it is never a retransmission.
    let mut p2 = make_tcp_packet(a, b, 80, 12345, 1000, 0, false, false, false);
    assert!(!tracker.update(&mut p2).unwrap().is_retransmission);
    assert!(!tracker.is_empty());
    let mut p3 = make_tcp_packet(b, a, 12345, 80, 5000, 0, false, false, true);
    tracker.update(&mut p3);
    assert!(tracker.is_empty());
}

#[test]
fn test_non_tcp_is_not_tracked() {
    let mut tracker = FlowTracker::new();
    let mut p = make_tcp_packet(
        Ipv4Addr::new(10, 0, 0, 1),
        Ipv4Addr::new(10, 0, 0, 2),
        80,
        12345,
        1000,
        100,
        false,
        false,
        false,
    );
    if let Layer::Ipv4(h) = &mut p.layers[0] {
        h.protocol = 17;
    }
    assert!(tracker.update(&mut p).is_none());
    assert!(tracker.is_empty());
    let mut bare = make_tcp_packet(
        Ipv4Addr::new(10, 0, 0, 1),
        Ipv4Addr::new(10, 0, 0, 2),
        80,
        12345,
        1000,
        100,
        false,
        false,
        false,
    );
    bare.layers.truncate(1);
    assert!(tracker.update(&mut bare).is_none());
}

#[test]
fn test_table_is_capped() {
    let mut tracker = FlowTracker::new();
    let dst = Ipv4Addr::new(10, 0, 0, 2);
    for i in 0..(MAX_FLOWS as u32 + 5) {
        let src = Ipv4Addr::new(172, 16, (i >> 8) as u8, (i & 0xff) as u8);
        let mut p = make_tcp_packet(src, dst, 40000 + (i % 7) as u16, 443, 1, 10, true, false, false);
        tracker.update(&mut p);
    }
    assert_eq!(tracker.len(), MAX_FLOWS);
}

fn query(txid: u16, qname: &str) -> DnsInfo {
    DnsInfo {
        transaction_id: txid,
        is_response: false,
        rcode: 0,
        questions: vec![DnsQuestion {
            qname: qname.into(),
            qtype: 1,
            qclass: 1,
        }],
        answers: vec![],
        authorities: vec![],
        additionals: vec![],
        header_range: (0, 0),
    }
}

fn response(txid: u16, qname: &str, ip: [u8; 4]) -> DnsInfo {
    let mut info = query(txid, qname);
    info.is_response = true;
    info.answers = vec![DnsRecord {
        name: qname.into(),
        rtype: 1,
        rclass: 1,
        ttl: 300,
        rdata: DnsRdata::A(Ipv4Addr(ip)),
    }];
    info
}

#[test]
fn test_pairing_rtt() {
    let mut tracker = DnsTracker::new();
    let base: i64 = 1_700_000_000_000_000;
    assert!(tracker
        .observe(&query(0x1234, "example.com"), 1, base)
        .is_none());
    let pairing = tracker
        .observe(
            &response(0x1234, "example.com", [93, 184, 216, 34]),
            2,
            base + 5_000,
        )
        .expect("pairing");
    assert_eq!(pairing.query_packet, 1);
    let rtt_ms = pairing.elapsed_us.unwrap() as f64 / 1000.0;
    assert!((rtt_ms - 5.0).abs() < 0.5);
    assert_eq!(pairing.answer_summary, "93.184.216.34");
}

#[test]
fn test_mismatched_txid() {
    let mut tracker = DnsTracker::new();
    let base: i64 = 1_700_000_000_000_000;
    tracker.observe(&query(0x1111, "a.com"), 1, base);
    assert!(tracker
        .observe(&response(0x2222, "b.com", [1, 1, 1, 1]), 2, base)
        .is_none());
}

#[test]
fn test_response_without_query() {
    let mut tracker = DnsTracker::new();
    assert!(tracker
        .observe(&response(0x9999, "x.com", [1, 1, 1, 1]), 1, 1_700_000_000_000_000)
        .is_none());
}

#[test]
fn test_pairing_is_consumed() {
    let mut tracker = DnsTracker::new();
    tracker.observe(&query(7, "a.com"), 1, 100);
    assert!(tracker.observe(&response(7, "a.com", [1, 2, 3, 4]), 2, 300).is_some());
    // A second response to the same id finds no pending query.
    assert!(tracker.observe(&response(7, "a.com", [1, 2, 3, 4]), 3, 400).is_none());
}
