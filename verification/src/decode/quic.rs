//! QUIC long-header packet recognition.
use vstd::prelude::*;
use super::{QuicInfo, QuicPacketType, be32, copy_range, read_be32};
use super::tls::opt_view;

verus! {

pub struct QuicV {
    pub long_header: bool,
    pub version: Option<u32>,
    pub packet_type: QuicPacketType,
    pub dcid: Seq<u8>,
    pub scid: Seq<u8>,
    pub sni: Option<Seq<char>>,
    pub header_range: (usize, usize),
}

impl View for QuicInfo {
    type V = QuicV;

    open spec fn view(&self) -> QuicV {
        QuicV {
            long_header: self.long_header,
            version: self.version,
            packet_type: self.packet_type,
            dcid: self.dcid@,
            scid: self.scid@,
            sni: opt_view(self.sni),
            header_range: self.header_range,
        }
    }
}

/// The packet type of a long header: version 0 is Version Negotiation,
/// otherwise bits 4-5 of the first byte.
pub open spec fn spec_packet_type(b0: u8, version: u32) -> QuicPacketType {
    if version == 0 {
        QuicPacketType::VersionNegotiation
    } else {
        let t = (b0 / 16) % 4;
        if t == 0 {
            QuicPacketType::Initial
        } else if t == 1 {
            QuicPacketType::ZeroRtt
        } else if t == 2 {
            QuicPacketType::Handshake
        } else {
            QuicPacketType::Retry
        }
    }
}

/// A connection id at `pos` of `d`: a length byte (at most 20) and that many
/// bytes. Gives the id and the position after it.
pub open spec fn spec_cid(d: Seq<u8>, pos: int) -> Option<(Seq<u8>, int)> {
    if pos < 0 || pos >= d.len() {
        None
    } else {
        let len = d[pos] as int;
        let p = pos + 1;
        if len > 20 || p + len > d.len() {
            None
        } else {
            Some((d.subrange(p, p + len), p + len))
        }
    }
}

/// A QUIC long-header packet at `o`: at least six bytes, top bit of the
/// first byte set, version, then destination and source connection ids.
pub open spec fn spec_quic(s: Seq<u8>, o: int) -> Option<QuicV> {
    if o > s.len() {
        None
    } else {
        let d = s.skip(o);
        if d.len() < 6 || d[0] < 0x80 {
            None
        } else {
            let version = be32(d, 1);
            match spec_cid(d, 5) {
                None => None,
                Some((dcid, p1)) => match spec_cid(d, p1) {
                    None => None,
                    Some((scid, p2)) => Some(
                        QuicV {
                            long_header: true,
                            version: Some(version),
                            packet_type: spec_packet_type(d[0], version),
                            dcid,
                            scid,
                            sni: None,
                            header_range: (o as usize, (o + p2) as usize),
                        },
                    ),
                },
            }
        }
    }
}

/// Read an 8-bit-length-prefixed connection id.
fn read_cid(d: &[u8], pos: &mut usize) -> (r: Option<Vec<u8>>)
    ensures
        match r {
            None => spec_cid(d@, *old(pos) as int) is None,
            Some(c) => spec_cid(d@, *old(pos) as int) == Some((c@, *final(pos) as int)),
        },
{
    if *pos >= d.len() {
        return None;
    }
    let len = d[*pos] as usize;
    let p = *pos + 1;
    if len > 20 || len > d.len() - p {
        return None;
    }
    let cid = copy_range(d, p, p + len);
    *pos = p + len;
    Some(cid)
}

/// Detect and parse a QUIC long-header packet (Initial / 0-RTT / Handshake /
/// Retry / Version Negotiation). Short-header packets are not identified
/// (ambiguous without connection state); `sni` is always `None` (it would
/// need the Initial keys to decrypt the CRYPTO frame).
pub fn try_decode_quic(data: &[u8], offset: usize) -> (r: Option<QuicInfo>)
    ensures
        match r {
            None => spec_quic(data@, offset as int) is None,
            Some(q) => spec_quic(data@, offset as int) == Some(q@),
        },
{
    if offset > data.len() {
        return None;
    }
    let d = &data[offset..data.len()];
    assert(d@ =~= data@.skip(offset as int));
    if d.len() < 6 {
        return None;
    }
    let b0 = d[0];
    if b0 < 0x80 {
        return None;
    }
    let version = read_be32(d, 1);
    let packet_type = if version == 0 {
        QuicPacketType::VersionNegotiation
    } else {
        let t = (b0 / 16) % 4;
        if t == 0 {
            QuicPacketType::Initial
        } else if t == 1 {
            QuicPacketType::ZeroRtt
        } else if t == 2 {
            QuicPacketType::Handshake
        } else {
            QuicPacketType::Retry
        }
    };
    let mut pos: usize = 5;
    let dcid = match read_cid(d, &mut pos) {
        Some(c) => c,
        None => {
            return None;
        },
    };
    let scid = match read_cid(d, &mut pos) {
        Some(c) => c,
        None => {
            return None;
        },
    };
    Some(
        QuicInfo {
            long_header: true,
            version: Some(version),
            packet_type,
            dcid,
            scid,
            sni: None,
            header_range: (offset, offset + pos),
        },
    )
}

} // verus!
