//! ARP (Ethernet/IPv4) message decoding.
use vstd::prelude::*;
use crate::net::{Ipv4Addr, MacAddr};
use super::{ArpHeader, DecodeResult, Layer, be16, read_be16, read_ipv4, read_mac};

verus! {

/// The ARP message at `o`: 28 bytes, no further layer.
pub open spec fn spec_decode_arp(s: Seq<u8>, o: int) -> Option<DecodeResult> {
    if o > s.len() || s.len() - o < 28 {
        None
    } else {
        Some(
            DecodeResult {
                layer: Layer::Arp(
                    ArpHeader {
                        hw_type: be16(s, o),
                        proto_type: be16(s, o + 2),
                        operation: be16(s, o + 6),
                        sender_mac: MacAddr(
                            [s[o + 8], s[o + 9], s[o + 10], s[o + 11], s[o + 12], s[o + 13]],
                        ),
                        sender_ip: Ipv4Addr([s[o + 14], s[o + 15], s[o + 16], s[o + 17]]),
                        target_mac: MacAddr(
                            [s[o + 18], s[o + 19], s[o + 20], s[o + 21], s[o + 22], s[o + 23]],
                        ),
                        target_ip: Ipv4Addr([s[o + 24], s[o + 25], s[o + 26], s[o + 27]]),
                        header_range: (o as usize, (o + 28) as usize),
                    },
                ),
                next: None,
                next_offset: (o + 28) as usize,
            },
        )
    }
}

/// Decodes an ARP message at `offset`; `None` when fewer than 28 bytes remain.
pub fn decode_arp(data: &[u8], offset: usize) -> (r: Option<DecodeResult>)
    ensures
        r == spec_decode_arp(data@, offset as int),
{
    if offset > data.len() || data.len() - offset < 28 {
        return None;
    }
    let o = offset;
    let hw_type = read_be16(data, o);
    let proto_type = read_be16(data, o + 2);
    let operation = read_be16(data, o + 6);
    let sender_mac = read_mac(data, o + 8);
    let sender_ip = read_ipv4(data, o + 14);
    let target_mac = read_mac(data, o + 18);
    let target_ip = read_ipv4(data, o + 24);
    Some(
        DecodeResult {
            layer: Layer::Arp(
                ArpHeader {
                    hw_type,
                    proto_type,
                    operation,
                    sender_mac,
                    sender_ip,
                    target_mac,
                    target_ip,
                    header_range: (offset, offset + 28),
                },
            ),
            next: None,
            next_offset: offset + 28,
        },
    )
}

} // verus!
