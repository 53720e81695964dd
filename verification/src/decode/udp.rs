//! UDP header decoding.
use vstd::prelude::*;
use super::{DecodeResult, Layer, NextDecode, TransportHint, UdpHeader, be16, read_be16};

verus! {

/// The 8-byte UDP header at `o`; the payload is what follows.
pub open spec fn spec_decode_udp(s: Seq<u8>, o: int) -> Option<DecodeResult> {
    if o > s.len() || s.len() - o < 8 {
        None
    } else {
        let src_port = be16(s, o);
        let dst_port = be16(s, o + 2);
        Some(
            DecodeResult {
                layer: Layer::Udp(
                    UdpHeader {
                        src_port,
                        dst_port,
                        length: be16(s, o + 4),
                        checksum: be16(s, o + 6),
                        header_range: (o as usize, (o + 8) as usize),
                    },
                ),
                next: if s.len() - o > 8 {
                    Some(
                        NextDecode::ApplicationPayload {
                            transport: TransportHint { src_port, dst_port, is_tcp: false },
                        },
                    )
                } else {
                    None
                },
                next_offset: (o + 8) as usize,
            },
        )
    }
}

/// Decodes a UDP header at `offset`.
pub fn decode_udp(data: &[u8], offset: usize) -> (r: Option<DecodeResult>)
    ensures
        r == spec_decode_udp(data@, offset as int),
{
    if offset > data.len() || data.len() - offset < 8 {
        return None;
    }
    let o = offset;
    let src_port = read_be16(data, o);
    let dst_port = read_be16(data, o + 2);
    let payload_len = data.len() - offset - 8;
    Some(
        DecodeResult {
            layer: Layer::Udp(
                UdpHeader {
                    src_port,
                    dst_port,
                    length: read_be16(data, o + 4),
                    checksum: read_be16(data, o + 6),
                    header_range: (offset, offset + 8),
                },
            ),
            next: if payload_len > 0 {
                Some(
                    NextDecode::ApplicationPayload {
                        transport: TransportHint { src_port, dst_port, is_tcp: false },
                    },
                )
            } else {
                None
            },
            next_offset: offset + 8,
        },
    )
}

} // verus!
