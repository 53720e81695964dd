//! ICMP header decoding.
use vstd::prelude::*;
use super::{DecodeResult, IcmpHeader, Layer, be16, be32, read_be16, read_be32, span, usz, int_of};

verus! {

/// The 8-byte ICMP header at `o`; nothing is decoded after it.
pub open spec fn spec_decode_icmp(s: Seq<u8>, off: usize) -> Option<DecodeResult> {
    let o = int_of(off);
    if o > s.len() || s.len() - o < 8 {
        None
    } else {
        Some(
            DecodeResult {
                layer: Layer::Icmp(
                    IcmpHeader {
                        icmp_type: s[o],
                        code: s[o + 1],
                        checksum: be16(s, o + 2),
                        rest: be32(s, o + 4),
                        header_range: span(o, 8),
                    },
                ),
                next: None,
                next_offset: usz(o + 8),
            },
        )
    }
}

/// Decodes an ICMP header at `offset`.
pub fn decode_icmp(data: &[u8], offset: usize) -> (r: Option<DecodeResult>)
    ensures
        r == spec_decode_icmp(data@, offset),
{
    if offset > data.len() || data.len() - offset < 8 {
        return None;
    }
    let o = offset;
    Some(
        DecodeResult {
            layer: Layer::Icmp(
                IcmpHeader {
                    icmp_type: data[o],
                    code: data[o + 1],
                    checksum: read_be16(data, o + 2),
                    rest: read_be32(data, o + 4),
                    header_range: (offset, offset + 8),
                },
            ),
            next: None,
            next_offset: offset + 8,
        },
    )
}

} // verus!
