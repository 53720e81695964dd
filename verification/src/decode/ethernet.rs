//! Ethernet II frame header decoding.
use vstd::prelude::*;
use crate::net::MacAddr;
use super::{DecodeResult, EthernetHeader, Layer, NextDecode, be16, read_be16, read_mac};

verus! {

/// The layer that follows an Ethernet header with `ethertype`.
pub open spec fn ethernet_next(ethertype: u16) -> Option<NextDecode> {
    if ethertype == 0x0800 {
        Some(NextDecode::Ipv4)
    } else if ethertype == 0x86DD {
        Some(NextDecode::Ipv6)
    } else if ethertype == 0x0806 {
        Some(NextDecode::Arp)
    } else {
        None
    }
}

/// The 14-byte Ethernet header at `o`: destination, source, EtherType.
pub open spec fn spec_decode_ethernet(s: Seq<u8>, o: int) -> Option<DecodeResult> {
    if o > s.len() || s.len() - o < 14 {
        None
    } else {
        let ethertype = be16(s, o + 12);
        Some(
            DecodeResult {
                layer: Layer::Ethernet(
                    EthernetHeader {
                        src_mac: MacAddr([s[o + 6], s[o + 7], s[o + 8], s[o + 9], s[o + 10], s[o + 11]]),
                        dst_mac: MacAddr([s[o], s[o + 1], s[o + 2], s[o + 3], s[o + 4], s[o + 5]]),
                        ethertype,
                        header_range: (o as usize, (o + 14) as usize),
                    },
                ),
                next: ethernet_next(ethertype),
                next_offset: (o + 14) as usize,
            },
        )
    }
}

/// Decodes an Ethernet II header at `offset`.
pub fn decode_ethernet(data: &[u8], offset: usize) -> (r: Option<DecodeResult>)
    ensures
        r == spec_decode_ethernet(data@, offset as int),
{
    if offset > data.len() || data.len() - offset < 14 {
        return None;
    }
    let o = offset;
    let ethertype = read_be16(data, o + 12);
    let next = if ethertype == 0x0800 {
        Some(NextDecode::Ipv4)
    } else if ethertype == 0x86DD {
        Some(NextDecode::Ipv6)
    } else if ethertype == 0x0806 {
        Some(NextDecode::Arp)
    } else {
        None
    };
    Some(
        DecodeResult {
            layer: Layer::Ethernet(
                EthernetHeader {
                    src_mac: read_mac(data, o + 6),
                    dst_mac: read_mac(data, o),
                    ethertype,
                    header_range: (offset, offset + 14),
                },
            ),
            next,
            next_offset: offset + 14,
        },
    )
}

} // verus!
