use std::collections::HashMap;

use pktscope_core::alert::{Alert, AlertKind, Severity};
use pktscope_core::analysis::anomaly::{analyze, AnomalyKind};
use pktscope_core::decode::{
    ColorHint, DecodedPacket, DnsInfo, DnsQuestion, DnsRdata, DnsRecord, HttpInfo, Ipv4Header,
    Layer, PacketSummary, TcpFlags, TcpHeader, TlsClientHelloInfo,
};
use pktscope_core::diff::diff_by_content;
use pktscope_core::enrich::geoip::{is_global, GeoInfo, NullEnricher};
use pktscope_core::enrich::names::{registrable_domain_of, NameResolver};
use pktscope_core::identity::{
    codesign_identity, parse_codesign_output, sha256_hex, sha256_identity, BinaryIdentity, IdentityKind,
    IdentityStatus,
};
use pktscope_core::ipc::protocol::{DaemonStatus, Response};
use pktscope_core::monitor::paths::resolve;
use pktscope_core::monitor::{monitor_status, monitor_stop};
use pktscope_core::notify::{applescript_quote, log_line, notification_title};
use pktscope_core::output::pcapng_writer::PcapngWriter;
use pktscope_core::capture::Linktype;
use pktscope_core::net::{IpAddr, Ipv4Addr, Ipv6Addr};
use pktscope_core::process::windows::parse_tasklist;

fn summary() -> PacketSummary {
    PacketSummary {
        source: String::new(),
        destination: String::new(),
        protocol: String::new(),
        length: 0,
        info: String::new(),
        color_hint: ColorHint::Other,
    }
}

fn pkt(layers: Vec<Layer>, data: Vec<u8>) -> DecodedPacket {
    DecodedPacket {
        number: 0,
        timestamp_us: 0,
        wire_len: data.len() as u32,
        data,
        layers,
        summary: summary(),
        process: None,
        retransmission: false,
    }
}

fn ipv4_layer(src: Ipv4Addr, dst: Ipv4Addr, protocol: u8) -> Layer {
    Layer::Ipv4(Ipv4Header {
        version: 4,
        ihl: 5,
        dscp: 0,
        ecn: 0,
        total_length: 0,
        identification: 0,
        flags: 0,
        fragment_offset: 0,
        ttl: 64,
        protocol,
        checksum: 0,
        src_ip: src,
        dst_ip: dst,
        header_range: (0, 0),
    })
}

fn dns_response_packet(qname: &str, ip: Ipv4Addr) -> DecodedPacket {
    pkt(
        vec![
            ipv4_layer(Ipv4Addr::new(1, 1, 1, 1), Ipv4Addr::new(10, 0, 0, 1), 17),
            Layer::Dns(DnsInfo {
                transaction_id: 1,
                is_response: true,
                rcode: 0,
                questions: vec![DnsQuestion { qname: qname.into(), qtype: 1, qclass: 1 }],
                answers: vec![DnsRecord {
                    name: qname.into(),
                    rtype: 1,
                    rclass: 1,
                    ttl: 300,
                    rdata: DnsRdata::A(ip),
                }],
                authorities: vec![],
                additionals: vec![],
                header_range: (0, 0),
            }),
        ],
        vec![],
    )
}

fn client_hello(sni: Option<&str>) -> Layer {
    Layer::TlsClientHello(TlsClientHelloInfo {
        sni: sni.map(|s| s.to_string()),
        alpn: vec![],
        cipher_suites: vec![],
        extensions: vec![],
        supported_groups: vec![],
        ec_point_formats: vec![],
        signature_algorithms: vec![],
        supported_versions: vec![],
        legacy_version: 0x0303,
        ja3: None,
        ja4: None,
        header_range: (0, 0),
    })
}

#[test]
fn test_dns_answer_maps_ip_to_name() {
    let mut r = NameResolver::new();
    let ip = Ipv4Addr::new(93, 184, 216, 34);
    assert!(r.observe_packet(&dns_response_packet("example.com", ip)));
    assert_eq!(r.name_for(IpAddr::V4(ip)), Some("example.com"));
}

#[test]
fn test_sni_maps_dst_ip_to_name() {
    let mut r = NameResolver::new();
    let dst = Ipv4Addr::new(140, 82, 121, 4);
    let mut p = dns_response_packet("placeholder", Ipv4Addr::new(9, 9, 9, 9));
    p.layers = vec![
        ipv4_layer(Ipv4Addr::new(10, 0, 0, 1), dst, 6),
        client_hello(Some("github.com")),
    ];
    r.observe_packet(&p);
    assert_eq!(r.name_for(IpAddr::V4(dst)), Some("github.com"));
}

#[test]
fn test_same_name_again_is_no_change() {
    let mut r = NameResolver::new();
    let ip = Ipv4Addr::new(1, 2, 3, 4);
    assert!(r.observe_packet(&dns_response_packet("example.com", ip)));
    assert!(!r.observe_packet(&dns_response_packet("example.com", ip)));
    assert_eq!(r.len(), 1);
    assert_eq!(r.registrable_domain(IpAddr::V4(ip)), Some("example.com".to_string()));
}

#[test]
fn test_registrable_domain() {
    assert_eq!(registrable_domain_of("api.github.com"), "github.com");
    assert_eq!(registrable_domain_of("github.com"), "github.com");
    assert_eq!(registrable_domain_of("a.b.co.uk"), "b.co.uk");
    assert_eq!(registrable_domain_of("localhost"), "localhost");
}

#[test]
fn test_registrable_domain_trailing_dots() {
    assert_eq!(registrable_domain_of("www.example.com.."), "example.com");
    assert_eq!(registrable_domain_of("co.uk"), "co.uk");
}

#[test]
fn test_private_ip_skipped() {
    assert!(!is_global(IpAddr::V4(Ipv4Addr::new(10, 0, 0, 1))));
    assert!(!is_global(IpAddr::V4(Ipv4Addr::new(192, 168, 1, 1))));
    assert!(!is_global(IpAddr::V4(Ipv4Addr::new(127, 0, 0, 1))));
    assert!(is_global(IpAddr::V4(Ipv4Addr::new(93, 184, 216, 34))));
}

#[test]
fn test_v6_scopes() {
    let mut lo = [0u8; 16];
    lo[15] = 1;
    assert!(!is_global(IpAddr::V6(Ipv6Addr(lo))));
    let mut ll = [0u8; 16];
    ll[0] = 0xfe;
    ll[1] = 0x80;
    assert!(!is_global(IpAddr::V6(Ipv6Addr(ll))));
    let mut g = [0u8; 16];
    g[0] = 0x20;
    g[1] = 0x01;
    g[15] = 1;
    assert!(is_global(IpAddr::V6(Ipv6Addr(g))));
}

#[test]
fn test_null_enricher_knows_nothing() {
    let e = NullEnricher;
    assert_eq!(e.lookup(IpAddr::V4(Ipv4Addr::new(8, 8, 8, 8))), GeoInfo::default());
}

fn id(kind: IdentityKind, value: &str, signing: Option<&str>, team: Option<&str>, status: IdentityStatus) -> BinaryIdentity {
    BinaryIdentity {
        path: "/x".to_string(),
        kind,
        value: value.to_string(),
        signing_id: signing.map(|s| s.to_string()),
        team_id: team.map(|s| s.to_string()),
        authority: None,
        status,
    }
}

#[test]
fn test_changed_since_truth_table() {
    let base = id(IdentityKind::MacCodesign, "h1", Some("com.x"), Some("TEAM"), IdentityStatus::Valid);
    assert!(!base.changed_since(&base, false));
    let team = id(IdentityKind::MacCodesign, "h1", Some("com.x"), Some("OTHER"), IdentityStatus::Valid);
    assert!(base.changed_since(&team, false));
    let sign = id(IdentityKind::MacCodesign, "h1", Some("com.y"), Some("TEAM"), IdentityStatus::Valid);
    assert!(base.changed_since(&sign, false));
    let upd = id(IdentityKind::MacCodesign, "h2", Some("com.x"), Some("TEAM"), IdentityStatus::Valid);
    assert!(!base.changed_since(&upd, false));
    assert!(base.changed_since(&upd, true));
    let unsig = id(IdentityKind::MacCodesign, "h1", Some("com.x"), Some("TEAM"), IdentityStatus::Unsigned);
    assert!(base.changed_since(&unsig, false));
    let unread = id(IdentityKind::MacCodesign, "", None, None, IdentityStatus::Unreadable);
    assert!(!base.changed_since(&unread, true));
}

#[test]
fn test_sha256_identity_compares_by_value() {
    assert_eq!(sha256_hex(b""), "e3b0c44298fc1c149afbf4c8996fb92427ae41e4649b934ca495991b7852b855");
    let a = id(IdentityKind::Sha256, &sha256_hex(b"hello"), None, None, IdentityStatus::Valid);
    let b = id(IdentityKind::Sha256, &sha256_hex(b"hello world"), None, None, IdentityStatus::Valid);
    assert!(a.changed_since(&b, false));
    assert!(!a.changed_since(&a, false));
}

#[test]
fn test_codesign_output_parsed() {
    let out = b"Executable=/Applications/X.app\r\nIdentifier=com.x.app\nTeamIdentifier=ABCDE12345\nCDHash= 0123abcd \nAuthority=Developer ID Application: X\nAuthority=Developer ID CA\n";
    let info = parse_codesign_output(b"", out, true);
    assert_eq!(info.signing_id.as_deref(), Some("com.x.app"));
    assert_eq!(info.team_id.as_deref(), Some("ABCDE12345"));
    assert_eq!(info.cdhash.as_deref(), Some("0123abcd"));
    assert_eq!(info.authority.as_deref(), Some("Developer ID Application: X"));
    assert_eq!(info.status, IdentityStatus::Valid);
    let ident = codesign_identity("/Applications/X.app".to_string(), info, None);
    assert_eq!(ident.value, "0123abcd");
    assert_eq!(ident.kind, IdentityKind::MacCodesign);
}

#[test]
fn test_codesign_adhoc_and_unset_team() {
    let info = parse_codesign_output(b"Signature=adhoc\nTeamIdentifier=not set\n", b"", false);
    assert_eq!(info.status, IdentityStatus::AdHoc);
    assert!(info.team_id.is_none());
    let ident = codesign_identity("/bin/x".to_string(), info, Some("ff".to_string()));
    assert_eq!(ident.value, "ff");
}

fn http_layer(headers: Vec<(&str, &str)>) -> Layer {
    Layer::Http(HttpInfo {
        is_request: true,
        method: Some("GET".into()),
        uri: Some("/".into()),
        version: Some("HTTP/1.1".into()),
        status_code: None,
        headers: headers.into_iter().map(|(k, v)| (k.to_string(), v.to_string())).collect(),
        host: None,
        content_length: None,
        chunked: false,
        header_range: (0, 0),
    })
}

fn tcp_layer(sp: u16, dp: u16) -> Layer {
    Layer::Tcp(TcpHeader {
        src_port: sp,
        dst_port: dp,
        seq_num: 0,
        ack_num: 0,
        data_offset: 5,
        flags: TcpFlags::from_bits(0),
        window_size: 0,
        checksum: 0,
        urgent_pointer: 0,
        payload_len: 0,
        header_range: (0, 0),
    })
}

#[test]
fn test_http_basic_creds() {
    let p = pkt(vec![tcp_layer(40000, 80), http_layer(vec![("Authorization", "Basic dXNlcjpwYXNz")])], vec![]);
    let a = analyze(&p).unwrap();
    assert_eq!(a.kind, AnomalyKind::PlaintextCredential);
}

#[test]
fn test_encrypted_not_flagged() {
    let p = pkt(vec![tcp_layer(40000, 443), client_hello(Some("x.com"))], vec![]);
    assert!(analyze(&p).is_none());
}

#[test]
fn test_unusual_http_port() {
    let p = pkt(vec![tcp_layer(40000, 1337), http_layer(vec![])], vec![]);
    let a = analyze(&p).unwrap();
    assert_eq!(a.kind, AnomalyKind::UnusualPort);
    assert_eq!(a.detail, "cleartext HTTP on unusual port 1337");
}

#[test]
fn test_clean_packet() {
    let p = pkt(vec![tcp_layer(40000, 80), http_layer(vec![("Host", "x.com")])], vec![]);
    assert!(analyze(&p).is_none());
}

#[test]
fn test_ftp_password_flagged() {
    let data = b"USER a\r\npass secret\r\n".to_vec();
    let n = data.len();
    let p = pkt(vec![tcp_layer(40000, 21), Layer::Payload { offset: 0, len: n }], data);
    let a = analyze(&p).unwrap();
    assert_eq!(a.detail, "FTP password sent in cleartext");
}

fn raw(data: Vec<u8>) -> DecodedPacket {
    pkt(vec![], data)
}

#[test]
fn test_diff() {
    let a = vec![raw(vec![1]), raw(vec![2]), raw(vec![3])];
    let b = vec![raw(vec![2]), raw(vec![3]), raw(vec![4])];
    let d = diff_by_content(&a, &b);
    assert_eq!(d.common, 2);
    assert_eq!(d.only_a.len(), 1);
    assert_eq!(d.only_b.len(), 1);
}

#[test]
fn test_diff_counts_duplicates() {
    let a = vec![raw(vec![7]), raw(vec![7]), raw(vec![7])];
    let b = vec![raw(vec![7])];
    let d = diff_by_content(&a, &b);
    assert_eq!(d.common, 1);
    assert_eq!(d.only_a, vec![1, 2]);
    assert!(d.only_b.is_empty());
}

#[test]
fn test_diff_common_counts_both_sides() {
    let a = vec![raw(vec![1]), raw(vec![1]), raw(vec![2]), raw(vec![9])];
    let b = vec![raw(vec![2]), raw(vec![1]), raw(vec![3]), raw(vec![2])];
    let d = diff_by_content(&a, &b);
    assert_eq!(d.common, 2);
    assert_eq!(d.only_a, vec![1, 3]);
    assert_eq!(d.only_b, vec![2, 3]);
    assert_eq!(d.common + d.only_b.len(), b.len());
}

#[test]
fn test_alert_kind_db_names_round_trip() {
    for k in [
        AlertKind::NewProcessDest,
        AlertKind::NewProcessEgress,
        AlertKind::NewGeo,
        AlertKind::VolumeSpike,
        AlertKind::IdentityChange,
    ] {
        assert_eq!(AlertKind::from_db(k.as_db()), Some(k));
    }
    assert_eq!(AlertKind::from_db("nope"), None);
    for s in [Severity::Info, Severity::Notice, Severity::Warning, Severity::Critical] {
        assert_eq!(Severity::from_db(s.as_db()), Some(s));
    }
    assert_eq!(AlertKind::NewGeo.label(), "New country / ASN");
}

fn alert() -> Alert {
    Alert {
        id: Some(1),
        kind: AlertKind::VolumeSpike,
        severity: Severity::Warning,
        ts: 0,
        process_id: None,
        dest_id: None,
        dedup_key: "x".into(),
        title: "test alert".into(),
        detail: "{}".into(),
    }
}

#[test]
fn test_log_notifier_does_not_panic() {
    let a = alert();
    assert_eq!(log_line(&a), "[ALERT][warning] Volume / exfil spike — test alert");
    assert_eq!(notification_title(&a), "pktscope: Volume / exfil spike");
}

#[test]
fn test_applescript_quote_escapes() {
    assert_eq!(applescript_quote("a\"b\\c"), "\"a\\\"b\\\\c\"");
}

#[test]
fn test_parse_tasklist() {
    let sample = "\"firefox.exe\",\"1234\",\"Console\",\"1\",\"100,000 K\"\n";
    let mut map = HashMap::new();
    parse_tasklist(sample, &mut map);
    assert_eq!(map.get(&1234), Some(&"firefox.exe".to_string()));
}

#[test]
fn test_parse_tasklist_skips_bad_lines() {
    let sample = "no columns here\r\n\"a.exe\",\"x\"\r\n\"b.exe\",\"7\"\r\n";
    let mut map = HashMap::new();
    parse_tasklist(sample, &mut map);
    assert_eq!(map.len(), 1);
    assert_eq!(map.get(&7), Some(&"b.exe".to_string()));
}

#[test]
fn test_paths_resolve() {
    let p = resolve(None, Some("/home/u/.local/share".to_string()));
    assert_eq!(p.state_dir, "/home/u/.local/share/pktscope");
    assert_eq!(p.socket, "/home/u/.local/share/pktscope/pktscope.sock");
    let q = resolve(Some("/var/x/".to_string()), None);
    assert_eq!(q.db, "/var/x/pktscope.db");
    let r = resolve(None, None);
    assert_eq!(r.log, "/tmp/pktscope/monitor.log");
}

#[test]
fn test_monitor_replies() {
    let st = DaemonStatus {
        pid: 1,
        uptime_secs: 2,
        interface: "en0".into(),
        baseline: "active".into(),
        learning_ends_ms: None,
        processes: 0,
        destinations: 0,
        alerts: 0,
        schema_version: 1,
        version: "0".into(),
    };
    assert_eq!(monitor_status(Response::Status(st.clone())).unwrap(), st);
    assert_eq!(
        monitor_status(Response::Error { message: "boom".into() }).unwrap_err(),
        "daemon error: boom"
    );
    assert_eq!(monitor_stop(Response::Subscribed).unwrap_err(), "unexpected response");
    assert!(monitor_stop(Response::Stopping).is_ok());
}

#[test]
fn test_pcapng_blocks() {
    let mut w = PcapngWriter::new(Linktype::Ethernet, 65535);
    let head = w.flush();
    assert_eq!(head.len(), 48);
    assert_eq!(&head[0..4], &[0x0a, 0x0d, 0x0d, 0x0a]);
    assert_eq!(&head[28..32], &[1, 0, 0, 0]);
    assert_eq!(&head[36..38], &[1, 0]);
    w.write_packet(0x1_0000_0002, &[0xde, 0xad, 0xbe, 0xef, 0x01], 5);
    let epb = w.flush();
    assert_eq!(epb.len(), 40);
    assert_eq!(&epb[4..8], &[40, 0, 0, 0]);
    assert_eq!(&epb[12..16], &[1, 0, 0, 0]);
    assert_eq!(&epb[16..20], &[2, 0, 0, 0]);
    assert_eq!(&epb[33..36], &[0, 0, 0]);
    assert_eq!(&epb[36..40], &[40, 0, 0, 0]);
}

fn le32(b: &[u8]) -> u32 {
    u32::from_le_bytes([b[0], b[1], b[2], b[3]])
}

#[test]
fn test_pcapng_roundtrip() {
    let mut w = PcapngWriter::new(Linktype::Ethernet, 65535);
    let mut file = w.flush();
    w.write_packet(1_700_000_000_000_000, &[0xde, 0xad, 0xbe, 0xef, 0x01], 5);
    w.write_packet(1_700_000_000_000_001, &[1, 2, 3, 4], 4);
    file.extend_from_slice(&w.flush());
    // Walk the blocks as a reader would: each block's length is repeated at
    // its end, and the enhanced packet blocks carry the captured bytes.
    let mut pos = 0;
    let mut types = Vec::new();
    let mut payloads = Vec::new();
    while pos < file.len() {
        let ty = le32(&file[pos..]);
        let len = le32(&file[pos + 4..]) as usize;
        assert_eq!(len % 4, 0);
        assert_eq!(le32(&file[pos + len - 4..]) as usize, len);
        if ty == 6 {
            let cap = le32(&file[pos + 20..]) as usize;
            payloads.push(file[pos + 28..pos + 28 + cap].to_vec());
        }
        types.push(ty);
        pos += len;
    }
    assert_eq!(pos, file.len());
    assert_eq!(types, vec![0x0a0d0d0a, 1, 6, 6]);
    assert_eq!(payloads, vec![vec![0xde, 0xad, 0xbe, 0xef, 0x01], vec![1, 2, 3, 4]]);
}

#[test]
fn test_sha256_changes_on_modify() {
    let i1 = sha256_identity(String::from("bin"), Some(b"hello".as_slice()));
    assert!(!i1.value.is_empty());
    // The same file after " world" was appended.
    let i2 = sha256_identity(String::from("bin"), Some(b"hello world".as_slice()));
    assert_ne!(i1.value, i2.value);
    // Sha256 identities compare by value.
    if i1.kind == IdentityKind::Sha256 {
        assert!(i1.changed_since(&i2, false));
    }
}
