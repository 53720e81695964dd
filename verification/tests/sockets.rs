use std::collections::HashMap;

use pktscope_core::process::{macos, windows};

/// The socket table as the attribution cache holds it, keyed here by the
/// address text.
fn lsof_table(text: &str) -> HashMap<(u8, String, u16), (u32, String)> {
    let mut map = HashMap::new();
    for s in macos::parse_lsof(text) {
        map.insert((s.protocol, s.addr, s.port), (s.pid, s.command));
    }
    map
}

fn netstat_table(text: &str) -> HashMap<(u8, String, u16), u32> {
    let mut map = HashMap::new();
    for (proto, addr, port, pid) in windows::parse_netstat(text) {
        map.insert((proto, addr, port), pid);
    }
    map
}

#[test]
fn test_parse_lsof_connected() {
    let sample = "\
p501
cfirefox
f12
PTCP
n192.168.1.5:50000->93.184.216.34:443
f13
PUDP
n10.0.0.2:53battle
";
    // (the malformed UDP line should be ignored)
    let map = lsof_table(sample);
    let key = (6u8, "192.168.1.5".to_string(), 50000u16);
    assert_eq!(map.get(&key), Some(&(501u32, "firefox".to_string())));
}

#[test]
fn test_parse_endpoint() {
    assert_eq!(macos::parse_endpoint("1.2.3.4:443"), Some(("1.2.3.4".to_string(), 443)));
    assert_eq!(macos::parse_endpoint("*:8080"), None);
    assert!(macos::parse_endpoint("[2001:db8::1]:443").is_some());
}

#[test]
fn test_parse_netstat() {
    let sample = "\
Active Connections

  Proto  Local Address          Foreign Address        State           PID
  TCP    192.168.1.5:50000      93.184.216.34:443      ESTABLISHED     1234
  UDP    0.0.0.0:53             *:*                                    4567
";
    let map = netstat_table(sample);
    assert_eq!(map.get(&(6, "192.168.1.5".to_string(), 50000)), Some(&1234));
    assert_eq!(map.get(&(17, "0.0.0.0".to_string(), 53)), Some(&4567));
}

#[test]
fn test_lsof_records_in_order() {
    let sample = "p7\r\ncsshd\r\nf3\r\nPTCP\r\nn[::1]:22\r\nf4\r\nn10.0.0.1:22\r\np8\r\nPUDP\r\nn*:5353\r\nn10.0.0.9:5353";
    let v = macos::parse_lsof(sample);
    assert_eq!(v.len(), 2);
    assert_eq!(
        (v[0].protocol, v[0].addr.as_str(), v[0].port, v[0].pid, v[0].command.as_str()),
        (6, "::1", 22, 7, "sshd")
    );
    // `p` clears the command; the wildcard endpoint is skipped.
    assert_eq!(
        (v[1].protocol, v[1].addr.as_str(), v[1].port, v[1].pid, v[1].command.as_str()),
        (17, "10.0.0.9", 5353, 8, "")
    );
    // A bad pid reads as 0; a socket before any protocol is not recorded.
    let v = macos::parse_lsof("pabc\ncx\nn10.0.0.1:1\nPTCP\nn10.0.0.1:1\n\n");
    assert_eq!(v.len(), 1);
    assert_eq!((v[0].pid, v[0].command.as_str()), (0, "x"));
}

#[test]
fn test_endpoint_forms() {
    assert_eq!(macos::parse_endpoint("[fe80::1%en0]:80"), Some(("fe80::1%en0".to_string(), 80)));
    assert_eq!(windows::parse_endpoint("[fe80::1%12]:80"), Some(("fe80::1".to_string(), 80)));
    assert_eq!(windows::parse_endpoint("[::]:135"), Some(("::".to_string(), 135)));
    assert_eq!(macos::parse_endpoint("[::1:80"), None);
    assert_eq!(macos::parse_endpoint("10.0.0.1"), None);
    assert_eq!(macos::parse_endpoint("10.0.0.1:70000"), None);
    assert_eq!(macos::parse_endpoint("10.0.0.1:+80"), Some(("10.0.0.1".to_string(), 80)));
    assert_eq!(windows::parse_endpoint("*:*"), None);
}

#[test]
fn test_netstat_skips_short_and_unknown_lines() {
    let v = windows::parse_netstat("TCP 1.2.3.4:5 x\nICMP 1.2.3.4:5 x 9\nTCP\t[::1]:445\tx\tLISTENING\t4\r\n");
    assert_eq!(v, vec![(6, "::1".to_string(), 445, 4)]);
}
