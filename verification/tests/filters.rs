use pktscope_core::filter::ast::{CompareOp, FilterExpr, FilterValue, ProtocolAtom};
use pktscope_core::filter::parser::parse_filter;
use pktscope_core::net::{IpAddr, Ipv4Addr};

#[test]
fn test_parse_protocol_atom() {
    assert!(matches!(parse_filter("tcp").unwrap(), FilterExpr::ProtocolPresent(ProtocolAtom::Tcp)));
    assert!(matches!(parse_filter("dns").unwrap(), FilterExpr::ProtocolPresent(ProtocolAtom::Dns)));
}

#[test]
fn test_parse_comparison() {
    let expr = parse_filter("tcp.port == 80").unwrap();
    match expr {
        FilterExpr::Comparison { field, op, value } => {
            assert_eq!(field.as_str(), "tcp.port");
            assert_eq!(op, CompareOp::Eq);
            assert_eq!(value, FilterValue::Integer(80));
        }
        _ => panic!("Expected comparison"),
    }
}

#[test]
fn test_parse_ip_comparison() {
    let expr = parse_filter("ip.src == 10.0.0.1").unwrap();
    match expr {
        FilterExpr::Comparison { field, op, value } => {
            assert_eq!(field.as_str(), "ip.src");
            assert_eq!(op, CompareOp::Eq);
            assert_eq!(value, FilterValue::IpAddr(IpAddr::V4(Ipv4Addr::new(10, 0, 0, 1))));
        }
        _ => panic!("Expected comparison"),
    }
}

#[test]
fn test_parse_contains() {
    let expr = parse_filter("tls.sni contains example.com").unwrap();
    match expr {
        FilterExpr::Contains { field, pattern } => {
            assert_eq!(field.as_str(), "tls.sni");
            assert_eq!(pattern, "example.com");
        }
        _ => panic!("Expected contains"),
    }
}

#[test]
fn test_parse_and() {
    let expr = parse_filter("tcp and ip.src == 10.0.0.1").unwrap();
    assert!(matches!(expr, FilterExpr::And(_, _)));
}

#[test]
fn test_parse_or() {
    let expr = parse_filter("tcp || udp").unwrap();
    assert!(matches!(expr, FilterExpr::Or(_, _)));
}

#[test]
fn test_parse_not() {
    let expr = parse_filter("not tcp").unwrap();
    assert!(matches!(expr, FilterExpr::Not(_)));
    let expr2 = parse_filter("!udp").unwrap();
    assert!(matches!(expr2, FilterExpr::Not(_)));
}

#[test]
fn test_parse_parentheses() {
    let expr = parse_filter("(tcp || udp) && ip.src == 10.0.0.1").unwrap();
    assert!(matches!(expr, FilterExpr::And(_, _)));
}

#[test]
fn test_parse_precedence() {
    let expr = parse_filter("tcp || udp && arp").unwrap();
    match expr {
        FilterExpr::Or(left, right) => {
            assert!(matches!(*left, FilterExpr::ProtocolPresent(ProtocolAtom::Tcp)));
            assert!(matches!(*right, FilterExpr::And(_, _)));
        }
        _ => panic!("Expected OR at top level"),
    }
}

#[test]
fn test_parse_ne() {
    let expr = parse_filter("tcp.port != 80").unwrap();
    match expr {
        FilterExpr::Comparison { op, .. } => assert_eq!(op, CompareOp::Ne),
        _ => panic!("Expected comparison"),
    }
}

#[test]
fn test_parse_empty() {
    assert!(parse_filter("").is_err());
}

#[test]
fn test_dns_qname_contains() {
    let expr = parse_filter("dns.qname contains google").unwrap();
    match expr {
        FilterExpr::Contains { field, pattern } => {
            assert_eq!(field.as_str(), "dns.qname");
            assert_eq!(pattern, "google");
        }
        _ => panic!("Expected contains"),
    }
}

#[test]
fn test_filter_errors_name_their_cause() {
    assert_eq!(parse_filter("   ").unwrap_err(), "empty filter");
    assert_eq!(parse_filter("tcp )").unwrap_err(), "unexpected trailing input: ')'");
    assert!(parse_filter("== 3").unwrap_err().starts_with("parse error: "));
}

#[test]
fn test_filter_values_fall_back_in_order() {
    match parse_filter("ip.src == 10.0.0.256").unwrap_err().as_str() {
        "unexpected trailing input: '.0.0.256'" => {}
        other => panic!("unexpected: {other}"),
    }
    match parse_filter("http.host == example").unwrap() {
        FilterExpr::Comparison { value, .. } => assert_eq!(value, FilterValue::Str("example".to_string())),
        _ => panic!("Expected comparison"),
    }
    match parse_filter("ip.src == 01.2.3.4").unwrap_err().as_str() {
        "unexpected trailing input: '.2.3.4'" => {}
        other => panic!("unexpected: {other}"),
    }
}

#[test]
fn test_filter_left_associative_chains() {
    match parse_filter("tcp or udp or arp").unwrap() {
        FilterExpr::Or(left, right) => {
            assert!(matches!(*left, FilterExpr::Or(_, _)));
            assert!(matches!(*right, FilterExpr::ProtocolPresent(ProtocolAtom::Arp)));
        }
        _ => panic!("Expected OR"),
    }
}
