use pktscope_core::flow::reassembly::{ReassemblyBuffer, ReassemblyResult, MAX_STREAM_BUFFER};
use pktscope_core::flow::FlowKey;
use pktscope_core::net::{IpAddr, Ipv4Addr};

#[test]
fn test_in_order() {
    let mut b = ReassemblyBuffer::new();
    assert_eq!(b.insert_segment(1000, b"hello"), ReassemblyResult::Contiguous);
    assert_eq!(b.insert_segment(1005, b"world"), ReassemblyResult::Contiguous);
    assert_eq!(b.try_drain().unwrap(), b"helloworld");
    assert!(b.try_drain().is_none());
}

#[test]
fn test_out_of_order() {
    let mut b = ReassemblyBuffer::new();
    assert_eq!(b.insert_segment(1000, b"AAA"), ReassemblyResult::Contiguous);
    assert_eq!(b.insert_segment(1006, b"CCC"), ReassemblyResult::Gap);
    assert_eq!(b.try_drain().unwrap(), b"AAA");
    assert!(b.try_drain().is_none());
    assert_eq!(b.insert_segment(1003, b"BBB"), ReassemblyResult::Contiguous);
    assert_eq!(b.try_drain().unwrap(), b"BBBCCC");
}

#[test]
fn test_duplicate_and_overlap() {
    let mut b = ReassemblyBuffer::new();
    b.insert_segment(1000, b"hello");
    assert_eq!(b.try_drain().unwrap(), b"hello");
    assert_eq!(b.insert_segment(1000, b"hello"), ReassemblyResult::Duplicate);
    assert_eq!(b.insert_segment(1003, b"lop"), ReassemblyResult::Contiguous);
    assert_eq!(b.try_drain().unwrap(), b"p");
}

#[test]
fn test_seq_wrap() {
    let mut b = ReassemblyBuffer::new();
    let base = 0xFFFF_FFFEu32;
    assert_eq!(b.insert_segment(base, b"AB"), ReassemblyResult::Contiguous);
    assert_eq!(b.insert_segment(base.wrapping_add(2), b"CD"), ReassemblyResult::Contiguous);
    assert_eq!(b.try_drain().unwrap(), b"ABCD");
}

#[test]
fn test_cap() {
    let mut b = ReassemblyBuffer::new();
    b.insert_segment(0, b"x");
    b.try_drain();
    let big = vec![0u8; MAX_STREAM_BUFFER + 1];
    assert_eq!(b.insert_segment(1, &big), ReassemblyResult::Capped);
    assert!(b.capped());
}

#[test]
fn test_fin_completion() {
    let mut b = ReassemblyBuffer::new();
    b.insert_segment(1, b"hi");
    b.try_drain();
    assert!(!b.is_complete());
    b.mark_fin();
    assert!(b.is_complete());
}

#[test]
fn test_reassembly_empty_segment_and_duplicate_gap() {
    let mut b = ReassemblyBuffer::new();
    assert_eq!(b.insert_segment(5, b""), ReassemblyResult::Buffered);
    assert_eq!(b.insert_segment(10, b"ab"), ReassemblyResult::Contiguous);
    assert_eq!(b.insert_segment(20, b"zz"), ReassemblyResult::Gap);
    assert_eq!(b.insert_segment(20, b"zz"), ReassemblyResult::Duplicate);
    assert_eq!(b.buffered_len(), 4);
    b.mark_fin();
    assert!(!b.is_complete());
}

#[test]
fn test_flow_key_both_directions() {
    let a = IpAddr::V4(Ipv4Addr::new(10, 0, 0, 1));
    let b = IpAddr::V4(Ipv4Addr::new(10, 0, 0, 2));
    let k1 = FlowKey::new(a, 5000, b, 80, 6);
    let k2 = FlowKey::new(b, 80, a, 5000, 6);
    assert_eq!(k1, k2);
    assert_eq!(k1.addr_low, a);
    assert_eq!(k1.port_low, 5000);
}

#[test]
fn test_out_of_order_matches_in_order() {
    let mut x = ReassemblyBuffer::new();
    let mut y = ReassemblyBuffer::new();
    assert_eq!(x.insert_segment(500, b"head"), ReassemblyResult::Contiguous);
    assert_eq!(y.insert_segment(500, b"head"), ReassemblyResult::Contiguous);
    // Out of order in x, in order in y.
    assert_eq!(x.insert_segment(507, b"tail"), ReassemblyResult::Gap);
    assert_eq!(x.insert_segment(504, b"mid"), ReassemblyResult::Contiguous);
    assert_eq!(y.insert_segment(504, b"mid"), ReassemblyResult::Contiguous);
    assert_eq!(y.insert_segment(507, b"tail"), ReassemblyResult::Contiguous);
    assert_eq!(x.buffered_len(), y.buffered_len());
    assert_eq!(x.try_drain().unwrap(), b"headmidtail");
    assert_eq!(y.try_drain().unwrap(), b"headmidtail");
}

#[test]
fn test_consumed_data_is_duplicate() {
    let mut b = ReassemblyBuffer::new();
    b.insert_segment(10, b"abcdef");
    assert_eq!(b.insert_segment(12, b"cd"), ReassemblyResult::Duplicate);
    assert_eq!(b.buffered_len(), 6);
    assert_eq!(b.try_drain().unwrap(), b"abcdef");
}

#[test]
fn test_complete_once_fin_is_marked_and_no_gap_is_left() {
    let mut b = ReassemblyBuffer::new();
    b.insert_segment(1, b"hi");
    assert!(b.try_drain().is_some());
    assert!(!b.is_complete());
    let before = b.buffered_len();
    b.mark_fin();
    assert!(b.is_complete());
    // Marking the end changes nothing else.
    assert_eq!(b.buffered_len(), before);
    assert!(b.try_drain().is_none());
    // A segment stored ahead of a gap keeps the stream incomplete.
    let mut g = ReassemblyBuffer::new();
    g.insert_segment(1, b"a");
    g.insert_segment(5, b"b");
    g.mark_fin();
    assert!(!g.is_complete());
    g.insert_segment(2, b"xyz");
    assert!(g.is_complete());
    assert_eq!(g.try_drain().unwrap(), b"axyzb");
}
