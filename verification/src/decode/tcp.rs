//! TCP header decoding.
use vstd::prelude::*;
use super::{DecodeResult, Layer, NextDecode, TcpFlags, TcpHeader, TransportHint, be16, be32, read_be16, read_be32, spec_flags};

verus! {

/// The TCP header at `o`: at least 20 bytes, a data offset of at least 5
/// words, all of it present. The payload is what follows the header.
pub open spec fn spec_decode_tcp(s: Seq<u8>, o: int) -> Option<DecodeResult> {
    if o > s.len() || s.len() - o < 20 {
        None
    } else {
        let data_offset = s[o + 12] / 16;
        let header_len = data_offset * 4;
        let remaining = s.len() - o;
        if data_offset < 5 || remaining < header_len {
            None
        } else {
            let payload_len = remaining - header_len;
            let src_port = be16(s, o);
            let dst_port = be16(s, o + 2);
            Some(
                DecodeResult {
                    layer: Layer::Tcp(
                        TcpHeader {
                            src_port,
                            dst_port,
                            seq_num: be32(s, o + 4),
                            ack_num: be32(s, o + 8),
                            data_offset: data_offset as u8,
                            flags: spec_flags(s[o + 13]),
                            window_size: be16(s, o + 14),
                            checksum: be16(s, o + 16),
                            urgent_pointer: be16(s, o + 18),
                            payload_len: payload_len as usize,
                            header_range: (o as usize, (o + header_len) as usize),
                        },
                    ),
                    next: if payload_len > 0 {
                        Some(
                            NextDecode::ApplicationPayload {
                                transport: TransportHint { src_port, dst_port, is_tcp: true },
                            },
                        )
                    } else {
                        None
                    },
                    next_offset: (o + header_len) as usize,
                },
            )
        }
    }
}

/// Decodes a TCP header at `offset`.
pub fn decode_tcp(data: &[u8], offset: usize) -> (r: Option<DecodeResult>)
    ensures
        r == spec_decode_tcp(data@, offset as int),
{
    if offset > data.len() || data.len() - offset < 20 {
        return None;
    }
    let remaining = data.len() - offset;
    let o = offset;
    let src_port = read_be16(data, o);
    let dst_port = read_be16(data, o + 2);
    let seq_num = read_be32(data, o + 4);
    let ack_num = read_be32(data, o + 8);
    let data_offset = data[o + 12] / 16;
    if data_offset < 5 {
        return None;
    }
    let header_len = (data_offset as usize) * 4;
    if remaining < header_len {
        return None;
    }
    let flags = TcpFlags::from_bits(data[o + 13]);
    let payload_len = remaining - header_len;
    Some(
        DecodeResult {
            layer: Layer::Tcp(
                TcpHeader {
                    src_port,
                    dst_port,
                    seq_num,
                    ack_num,
                    data_offset,
                    flags,
                    window_size: read_be16(data, o + 14),
                    checksum: read_be16(data, o + 16),
                    urgent_pointer: read_be16(data, o + 18),
                    payload_len,
                    header_range: (offset, offset + header_len),
                },
            ),
            next: if payload_len > 0 {
                Some(
                    NextDecode::ApplicationPayload {
                        transport: TransportHint { src_port, dst_port, is_tcp: true },
                    },
                )
            } else {
                None
            },
            next_offset: offset + header_len,
        },
    )
}

} // verus!
