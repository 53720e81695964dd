//! IPv4 header decoding.
use vstd::prelude::*;
use crate::net::Ipv4Addr;
use super::{DecodeResult, Ipv4Header, Layer, NextDecode, be16, read_be16, read_ipv4};

verus! {

/// The layer that follows an IPv4 header carrying `protocol`.
pub open spec fn ipv4_next(protocol: u8) -> Option<NextDecode> {
    if protocol == 1 {
        Some(NextDecode::Icmp)
    } else if protocol == 6 {
        Some(NextDecode::Tcp)
    } else if protocol == 17 {
        Some(NextDecode::Udp)
    } else {
        None
    }
}

fn ipv4_next_exec(protocol: u8) -> (r: Option<NextDecode>)
    ensures
        r == ipv4_next(protocol),
{
    if protocol == 1 {
        Some(NextDecode::Icmp)
    } else if protocol == 6 {
        Some(NextDecode::Tcp)
    } else if protocol == 17 {
        Some(NextDecode::Udp)
    } else {
        None
    }
}

/// The IPv4 header at `o`: at least 20 bytes, version 4, IHL at least 5 and
/// the whole IHL-sized header present.
pub open spec fn spec_decode_ipv4(s: Seq<u8>, o: int) -> Option<DecodeResult> {
    if o > s.len() || s.len() - o < 20 {
        None
    } else {
        let version = s[o] / 16;
        let ihl = s[o] % 16;
        let header_len = ihl * 4;
        if version != 4 || ihl < 5 || s.len() - o < header_len {
            None
        } else {
            let flags_frag = be16(s, o + 6);
            Some(
                DecodeResult {
                    layer: Layer::Ipv4(
                        Ipv4Header {
                            version: version as u8,
                            ihl: ihl as u8,
                            dscp: (s[o + 1] / 4) as u8,
                            ecn: (s[o + 1] % 4) as u8,
                            total_length: be16(s, o + 2),
                            identification: be16(s, o + 4),
                            flags: (flags_frag / 8192) as u8,
                            fragment_offset: (flags_frag % 8192) as u16,
                            ttl: s[o + 8],
                            protocol: s[o + 9],
                            checksum: be16(s, o + 10),
                            src_ip: Ipv4Addr([s[o + 12], s[o + 13], s[o + 14], s[o + 15]]),
                            dst_ip: Ipv4Addr([s[o + 16], s[o + 17], s[o + 18], s[o + 19]]),
                            header_range: (o as usize, (o + header_len) as usize),
                        },
                    ),
                    next: ipv4_next(s[o + 9]),
                    next_offset: (o + header_len) as usize,
                },
            )
        }
    }
}

/// Decodes an IPv4 header at `offset`.
pub fn decode_ipv4(data: &[u8], offset: usize) -> (r: Option<DecodeResult>)
    ensures
        r == spec_decode_ipv4(data@, offset as int),
{
    if offset > data.len() || data.len() - offset < 20 {
        return None;
    }
    let o = offset;
    let ver_ihl = data[o];
    let version = ver_ihl / 16;
    let ihl = ver_ihl % 16;
    if version != 4 || ihl < 5 {
        return None;
    }
    let header_len = (ihl as usize) * 4;
    if data.len() - offset < header_len {
        return None;
    }
    let dscp_ecn = data[o + 1];
    let total_length = read_be16(data, o + 2);
    let identification = read_be16(data, o + 4);
    let flags_frag = read_be16(data, o + 6);
    let protocol = data[o + 9];
    let next = ipv4_next_exec(protocol);
    Some(
        DecodeResult {
            layer: Layer::Ipv4(
                Ipv4Header {
                    version,
                    ihl,
                    dscp: dscp_ecn / 4,
                    ecn: dscp_ecn % 4,
                    total_length,
                    identification,
                    flags: (flags_frag / 8192) as u8,
                    fragment_offset: flags_frag % 8192,
                    ttl: data[o + 8],
                    protocol,
                    checksum: read_be16(data, o + 10),
                    src_ip: read_ipv4(data, o + 12),
                    dst_ip: read_ipv4(data, o + 16),
                    header_range: (offset, offset + header_len),
                },
            ),
            next,
            next_offset: offset + header_len,
        },
    )
}

} // verus!
