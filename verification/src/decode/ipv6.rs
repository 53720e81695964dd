//! IPv6 fixed header decoding.
use vstd::prelude::*;
use super::{DecodeResult, Ipv6Header, Layer, NextDecode, be16, be32, read_be16, read_be32, read_ipv6, spec_ipv6_at};

verus! {

/// The layer that follows an IPv6 header with `next_header`.
pub open spec fn ipv6_next(next_header: u8) -> Option<NextDecode> {
    if next_header == 6 {
        Some(NextDecode::Tcp)
    } else if next_header == 17 {
        Some(NextDecode::Udp)
    } else if next_header == 58 {
        Some(NextDecode::Icmpv6)
    } else {
        None
    }
}

fn ipv6_next_exec(next_header: u8) -> (r: Option<NextDecode>)
    ensures
        r == ipv6_next(next_header),
{
    if next_header == 6 {
        Some(NextDecode::Tcp)
    } else if next_header == 17 {
        Some(NextDecode::Udp)
    } else if next_header == 58 {
        Some(NextDecode::Icmpv6)
    } else {
        None
    }
}

/// The 40-byte IPv6 header at `o`, version 6.
pub open spec fn spec_decode_ipv6(s: Seq<u8>, o: int) -> Option<DecodeResult> {
    if o > s.len() || s.len() - o < 40 {
        None
    } else {
        let w = be32(s, o);
        if w / 0x1000_0000 != 6 {
            None
        } else {
            Some(
                DecodeResult {
                    layer: Layer::Ipv6(
                        Ipv6Header {
                            version: 6,
                            traffic_class: ((w / 0x10_0000) % 256) as u8,
                            flow_label: (w % 0x10_0000) as u32,
                            payload_length: be16(s, o + 4),
                            next_header: s[o + 6],
                            hop_limit: s[o + 7],
                            src_ip: spec_ipv6_at(s, o + 8),
                            dst_ip: spec_ipv6_at(s, o + 24),
                            header_range: (o as usize, (o + 40) as usize),
                        },
                    ),
                    next: ipv6_next(s[o + 6]),
                    next_offset: (o + 40) as usize,
                },
            )
        }
    }
}

/// Decodes the IPv6 fixed header at `offset`.
pub fn decode_ipv6(data: &[u8], offset: usize) -> (r: Option<DecodeResult>)
    ensures
        r == spec_decode_ipv6(data@, offset as int),
{
    if offset > data.len() || data.len() - offset < 40 {
        return None;
    }
    let o = offset;
    let w = read_be32(data, o);
    if w / 0x1000_0000 != 6 {
        return None;
    }
    let next_header = data[o + 6];
    let next = ipv6_next_exec(next_header);
    Some(
        DecodeResult {
            layer: Layer::Ipv6(
                Ipv6Header {
                    version: 6,
                    traffic_class: ((w / 0x10_0000) % 256) as u8,
                    flow_label: w % 0x10_0000,
                    payload_length: read_be16(data, o + 4),
                    next_header,
                    hop_limit: data[o + 7],
                    src_ip: read_ipv6(data, o + 8),
                    dst_ip: read_ipv6(data, o + 24),
                    header_range: (offset, offset + 40),
                },
            ),
            next,
            next_offset: offset + 40,
        },
    )
}

} // verus!
