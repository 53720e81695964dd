use pktscope_core::decode::http::try_decode_http;
use pktscope_core::decode::http2::{decode_int, preface_bytes, try_decode_http2, Hpack};
use pktscope_core::decode::ja::{is_grease, ja3_hash, ja3_string, ja4};
use pktscope_core::decode::quic::try_decode_quic;
use pktscope_core::decode::tls::try_decode_tls_client_hello;
use pktscope_core::decode::QuicPacketType;

#[test]
fn test_is_grease() {
    assert!(is_grease(0x0a0a));
    assert!(is_grease(0x1a1a));
    assert!(is_grease(0xfafa));
    assert!(!is_grease(0x1301));
    assert!(!is_grease(0x002f));
}

#[test]
fn test_ja3_string() {
    let s = ja3_string(771, &[47, 53], &[0, 11], &[23], &[0]);
    assert_eq!(s, "771,47-53,0-11,23,0");
}

#[test]
fn test_ja3_string_excludes_grease() {
    let s = ja3_string(771, &[0x0a0a, 47], &[0x1a1a, 0], &[23], &[0]);
    assert_eq!(s, "771,47,0,23,0");
}

#[test]
fn test_ja3_hash_known_vector() {
    assert_eq!(ja3_hash(""), "d41d8cd98f00b204e9800998ecf8427e");
    assert_eq!(ja3_hash("771,47-53,0,23,0"), ja3_hash("771,47-53,0,23,0"));
}

#[test]
fn test_ja4_structure() {
    let f = ja4(0x0304, false, true, &[0x1301, 0x1302], &[0, 43, 16], &[0x0403], Some("h2"));
    assert!(f.starts_with("t13d0203h2_"), "ja4 = {f}");
    let parts: Vec<&str> = f.split('_').collect();
    assert_eq!(parts.len(), 3);
    assert_eq!(parts[1].len(), 12);
    assert_eq!(parts[2].len(), 12);
}

#[test]
fn test_ja4_no_alpn_no_sni() {
    let f = ja4(0x0303, false, false, &[0x002f], &[0], &[], None);
    assert!(f.starts_with("t12i0101"), "ja4 = {f}");
}

#[test]
fn test_initial_packet() {
    let mut pkt = vec![0xC0, 0x00, 0x00, 0x00, 0x01, 0x04, 1, 2, 3, 4, 0x00];
    pkt.extend_from_slice(&[0xAA; 8]);
    let q = try_decode_quic(&pkt, 0).unwrap();
    assert!(q.long_header);
    assert_eq!(q.version, Some(1));
    assert_eq!(q.packet_type, QuicPacketType::Initial);
    assert_eq!(q.dcid, vec![1, 2, 3, 4]);
    assert!(q.scid.is_empty());
    assert!(q.sni.is_none());
}

#[test]
fn test_version_negotiation() {
    let pkt = vec![0x80, 0x00, 0x00, 0x00, 0x00, 0x00, 0x00];
    let q = try_decode_quic(&pkt, 0).unwrap();
    assert_eq!(q.packet_type, QuicPacketType::VersionNegotiation);
    assert_eq!(q.version, Some(0));
}

#[test]
fn test_short_header_ignored() {
    let pkt = vec![0x40, 1, 2, 3, 4, 5];
    assert!(try_decode_quic(&pkt, 0).is_none());
}

fn build_client_hello(sni: &str, with_alpn: bool) -> Vec<u8> {
    let sni_bytes = sni.as_bytes();
    let sni_ext_data_len = 2 + 1 + 2 + sni_bytes.len();
    let sni_ext_len = 4 + sni_ext_data_len;
    let alpn_proto = b"h2";
    let alpn_ext_data_len = 2 + 1 + alpn_proto.len();
    let alpn_ext_len = 4 + alpn_ext_data_len;
    let extensions_len = sni_ext_len + if with_alpn { alpn_ext_len } else { 0 };
    let cipher_suites_len: usize = 2;
    let compression_len: usize = 1;
    let ch_body_len = 2 + 32 + 1 + 2 + cipher_suites_len + 1 + compression_len + 2 + extensions_len;
    let mut pkt = Vec::new();
    pkt.push(0x16);
    pkt.extend_from_slice(&[0x03, 0x01]);
    let record_len = (4 + ch_body_len) as u16;
    pkt.extend_from_slice(&record_len.to_be_bytes());
    pkt.push(0x01);
    let hs_len = ch_body_len as u32;
    pkt.push((hs_len >> 16) as u8);
    pkt.push((hs_len >> 8) as u8);
    pkt.push(hs_len as u8);
    pkt.extend_from_slice(&[0x03, 0x03]);
    pkt.extend_from_slice(&[0u8; 32]);
    pkt.push(0);
    pkt.extend_from_slice(&(cipher_suites_len as u16).to_be_bytes());
    pkt.extend_from_slice(&[0x00, 0x2F]);
    pkt.push(compression_len as u8);
    pkt.push(0x00);
    pkt.extend_from_slice(&(extensions_len as u16).to_be_bytes());
    pkt.extend_from_slice(&[0x00, 0x00]);
    pkt.extend_from_slice(&(sni_ext_data_len as u16).to_be_bytes());
    let sni_list_len = (1 + 2 + sni_bytes.len()) as u16;
    pkt.extend_from_slice(&sni_list_len.to_be_bytes());
    pkt.push(0x00);
    pkt.extend_from_slice(&(sni_bytes.len() as u16).to_be_bytes());
    pkt.extend_from_slice(sni_bytes);
    if with_alpn {
        pkt.extend_from_slice(&[0x00, 0x10]);
        pkt.extend_from_slice(&(alpn_ext_data_len as u16).to_be_bytes());
        pkt.extend_from_slice(&((1 + alpn_proto.len()) as u16).to_be_bytes());
        pkt.push(alpn_proto.len() as u8);
        pkt.extend_from_slice(alpn_proto);
    }
    pkt
}

#[test]
fn test_extract_sni() {
    let data = build_client_hello("example.com", false);
    let result = try_decode_tls_client_hello(&data, 0).unwrap();
    assert_eq!(result.sni.as_deref(), Some("example.com"));
}

#[test]
fn test_extract_sni_github() {
    let data = build_client_hello("github.com", false);
    let result = try_decode_tls_client_hello(&data, 0).unwrap();
    assert_eq!(result.sni.as_deref(), Some("github.com"));
}

#[test]
fn test_ja3_present_and_stable() {
    let data = build_client_hello("example.com", false);
    let r1 = try_decode_tls_client_hello(&data, 0).unwrap();
    let r2 = try_decode_tls_client_hello(&data, 0).unwrap();
    let ja3 = r1.ja3.unwrap();
    assert_eq!(ja3.len(), 32);
    assert_eq!(ja3, r2.ja3.unwrap());
    assert_eq!(r1.cipher_suites, vec![0x002f]);
}

#[test]
fn test_alpn_extracted_and_ja4() {
    let data = build_client_hello("example.com", true);
    let r = try_decode_tls_client_hello(&data, 0).unwrap();
    assert_eq!(r.alpn, vec!["h2".to_string()]);
    let ja4 = r.ja4.unwrap();
    assert!(ja4.starts_with('t'), "ja4 = {ja4}");
    assert_eq!(ja4.split('_').count(), 3);
}

#[test]
fn test_not_handshake() {
    let data = [0x17, 0x03, 0x03, 0x00, 0x05, 0x01, 0x02, 0x03, 0x04, 0x05];
    assert!(try_decode_tls_client_hello(&data, 0).is_none());
}

#[test]
fn test_too_short() {
    assert!(try_decode_tls_client_hello(&[0x16, 0x03], 0).is_none());
}

#[test]
fn test_request() {
    let info =
        try_decode_http(b"GET /index.html HTTP/1.1\r\nHost: example.com\r\nAccept: */*\r\n\r\n").unwrap();
    assert!(info.is_request);
    assert_eq!(info.method.as_deref(), Some("GET"));
    assert_eq!(info.uri.as_deref(), Some("/index.html"));
    assert_eq!(info.host.as_deref(), Some("example.com"));
}

#[test]
fn test_response_chunked() {
    let info = try_decode_http(
        b"HTTP/1.1 200 OK\r\nContent-Type: text/html\r\nTransfer-Encoding: chunked\r\n\r\n",
    )
    .unwrap();
    assert!(!info.is_request);
    assert_eq!(info.status_code, Some(200));
    assert!(info.chunked);
}

#[test]
fn test_not_http() {
    assert!(try_decode_http(b"\x16\x03\x01\x00\x05hello").is_none());
    assert!(try_decode_http(b"random text\r\n\r\n").is_none());
}

#[test]
fn test_http_headers_and_length() {
    let info = try_decode_http(
        b"POST /up HTTP/1.0\r\nhost:  a.example \r\nContent-Length: 42\r\nX: y\r\n\r\nbody",
    )
    .unwrap();
    assert_eq!(info.host.as_deref(), Some("a.example"));
    assert_eq!(info.content_length, Some(42));
    assert_eq!(info.headers.len(), 3);
    assert_eq!(info.headers[2], ("X".to_string(), "y".to_string()));
    assert_eq!(info.header_range, (0, 64));
    assert_eq!(info.version.as_deref(), Some("HTTP/1.0"));
}

#[test]
fn test_http_unknown_method_refused() {
    assert!(try_decode_http(b"FETCH / HTTP/1.1\r\n\r\n").is_none());
    assert!(try_decode_http(b"GET /\r\n\r\n").is_none());
    assert!(try_decode_http(b"HTTP/1.1 abc\r\n\r\n").is_none());
}

#[test]
fn test_decode_int() {
    assert_eq!(decode_int(&[0x0a], 0, 5), Some((10, 1)));
    assert_eq!(decode_int(&[0x1f, 0x9a, 0x0a], 0, 5), Some((1337, 3)));
}

#[test]
fn test_decode_int_truncated_and_too_long() {
    assert_eq!(decode_int(&[0x1f, 0x9a], 0, 5), None);
    assert_eq!(decode_int(&[0x1f, 0xff, 0xff, 0xff, 0xff, 0xff, 0x01], 0, 5), None);
    assert_eq!(decode_int(&[], 0, 5), None);
}

#[test]
fn test_hpack_indexed_and_literal() {
    let mut h = Hpack::new();
    let block = [0x82, 0x40, 0x01, b'x', 0x01, b'y'];
    let headers = h.decode(&block);
    assert_eq!(headers[0], (":method".to_string(), "GET".to_string()));
    assert_eq!(headers[1], ("x".to_string(), "y".to_string()));
    assert_eq!(h.indexed(62), Some(("x".to_string(), "y".to_string())));
}

#[test]
fn test_hpack_huffman_placeholder() {
    let mut h = Hpack::new();
    let block = [0x00, 0x01, b'a', 0x83, 1, 2, 3];
    let headers = h.decode(&block);
    assert_eq!(headers, vec![("a".to_string(), "<huffman:3b>".to_string())]);
    assert_eq!(h.indexed(62), None);
}

#[test]
fn test_preface_and_headers_frame() {
    let mut stream = preface_bytes().to_vec();
    stream.extend_from_slice(&[0x00, 0x00, 0x01, 0x01, 0x04, 0x00, 0x00, 0x00, 0x01, 0x82]);
    let info = try_decode_http2(&stream).unwrap();
    assert_eq!(info.frames.len(), 1);
    assert_eq!(info.frames[0].frame_type, 1);
    assert_eq!(info.frames[0].headers[0], (":method".to_string(), "GET".to_string()));
}

#[test]
fn test_not_h2() {
    assert!(try_decode_http2(b"GET / HTTP/1.1\r\n").is_none());
}

#[test]
fn test_ja4_ignores_grease_everywhere() {
    let plain = ja4(0x0304, false, true, &[0x1301, 0x1302], &[0, 43, 16], &[0x0403, 0x0804], Some("h2"));
    let greased = ja4(
        0x0304,
        false,
        true,
        &[0x0a0a, 0x1301, 0x1302],
        &[0x1a1a, 0, 43, 16],
        &[0x2a2a, 0x0403, 0x0804, 0xfafa],
        Some("h2"),
    );
    assert_eq!(plain, greased);
    // Only GREASE signature algorithms: the same as none at all.
    assert_eq!(
        ja4(0x0303, false, false, &[0x002f], &[0], &[0x0a0a], None),
        ja4(0x0303, false, false, &[0x002f], &[0], &[], None)
    );
}
