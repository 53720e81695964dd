use pktscope_core::net::{IpAddr, Ipv4Addr, Ipv6Addr};
use pktscope_core::process::linux::{parse_addr_port, parse_proc_net};

#[test]
fn test_parse_addr_port_v4() {
    // 127.0.0.1:8080 as the kernel writes it on a little-endian host.
    let r = parse_addr_port("0100007F:1F90");
    assert_eq!(r, Some((IpAddr::V4(Ipv4Addr([127, 0, 0, 1])), 8080)));
}

#[test]
fn test_parse_addr_port_v6() {
    // ::1 port 443.
    let r = parse_addr_port("00000000000000000000000001000000:01BB");
    let mut b = [0u8; 16];
    b[15] = 1;
    assert_eq!(r, Some((IpAddr::V6(Ipv6Addr(b)), 443)));
    assert_eq!(Ipv6Addr::from_segments([0, 0, 0, 0, 0, 0, 0, 1]), Ipv6Addr(b));
}

#[test]
fn test_parse_addr_port_rejects() {
    assert_eq!(parse_addr_port("0100007F"), None);
    assert_eq!(parse_addr_port("0100007F:1F90:1"), None);
    assert_eq!(parse_addr_port("0100007G:1F90"), None);
    assert_eq!(parse_addr_port("0100007F:10000"), None);
    assert_eq!(parse_addr_port("100007F:0050"), None);
    assert_eq!(parse_addr_port("0100007F:"), None);
    // `from_str_radix` takes a leading `+`.
    assert_eq!(parse_addr_port("0100007F:+50"), Some((IpAddr::V4(Ipv4Addr([127, 0, 0, 1])), 80)));
}

#[test]
fn test_parse_proc_net_table() {
    let table = "  sl  local_address rem_address   st tx_queue rx_queue tr tm->when retrnsmt   uid  timeout inode\n   0: 0100007F:0277 00000000:0000 0A 00000000:00000000 00:00000000 00000000     0        0 12345 1 0000000000000000 100 0 0 10 0\n   1: 0F02000A:C350 22D8B85D:01BB 01 00000000:00000000 00:00000000 00000000  1000        0 0 1\n   2: 0F02000A:C351 22D8B85D:01BB 01 00000000:00000000 00:00000000 00000000  1000        0 777 1\nshort line\n";
    let entries = parse_proc_net(table);
    assert_eq!(
        entries,
        vec![
            (IpAddr::V4(Ipv4Addr([127, 0, 0, 1])), 631, 12345),
            (IpAddr::V4(Ipv4Addr([10, 0, 2, 15])), 50001, 777),
        ]
    );
}

#[test]
fn test_parse_proc_net_header_only_and_empty() {
    assert!(parse_proc_net("").is_empty());
    assert!(parse_proc_net("  sl  local_address rem_address   st tx_queue rx_queue tr tm->when retrnsmt   uid  timeout inode").is_empty());
    // The first line is a header even when it looks like an entry.
    let one = "   0: 0100007F:0277 00000000:0000 0A 00000000:00000000 00:00000000 00000000     0        0 12345 1\r\n";
    assert!(parse_proc_net(one).is_empty());
}
