//! PCAPNG encoding: a Section Header Block and one Interface Description Block,
//! then an Enhanced Packet Block per packet. Little-endian, microsecond
//! timestamps (the PCAPNG default). The writer builds the bytes; whoever owns
//! the file writes out what [`PcapngWriter::flush`] hands back.
use vstd::prelude::*;
use crate::capture::{spec_pcap_linktype, Linktype};

verus! {

pub open spec fn le16(x: u16) -> Seq<u8> {
    seq![(x % 256) as u8, (x / 256) as u8]
}

pub open spec fn le32(x: u32) -> Seq<u8> {
    seq![
        (x % 256) as u8,
        ((x / 256) % 256) as u8,
        ((x / 65536) % 256) as u8,
        (x / 16777216) as u8,
    ]
}

/// Section Header Block: type, length 28, byte-order magic, version 1.0,
/// unknown section length (all ones), length again.
pub open spec fn shb() -> Seq<u8> {
    le32(0x0A0D_0D0A) + le32(28) + le32(0x1A2B_3C4D) + le16(1) + le16(0) + seq![
        0xffu8,
        0xff,
        0xff,
        0xff,
        0xff,
        0xff,
        0xff,
        0xff,
    ] + le32(28)
}

/// Interface Description Block: type 1, length 20, link type (the pcap
/// number, truncated to 16 bits), reserved, snap length, length again.
pub open spec fn idb(linktype: u16, snaplen: u32) -> Seq<u8> {
    le32(1) + le32(20) + le16(linktype) + le16(0) + le32(snaplen) + le32(20)
}

/// Padding that brings `n` bytes to a multiple of four.
pub open spec fn pad_len(n: nat) -> nat {
    ((4 - (n % 4) as int) % 4) as nat
}

/// Enhanced Packet Block of one packet: type 6, total length, interface 0,
/// timestamp high and low words (microseconds, negative times as 0), captured
/// length, original length, data, zero padding, total length again.
pub open spec fn epb(ts_us: i64, data: Seq<u8>, wire_len: u32) -> Seq<u8> {
    let micros: nat = if ts_us < 0 {
        0
    } else {
        ts_us as nat
    };
    let total = (32 + data.len() + pad_len(data.len())) as u32;
    le32(6) + le32(total) + le32(0) + le32((micros / 0x1_0000_0000) as u32) + le32(
        (micros % 0x1_0000_0000) as u32,
    ) + le32(data.len() as u32) + le32(wire_len) + data + Seq::new(
        pad_len(data.len()),
        |i: int| 0u8,
    ) + le32(total)
}

fn push_le16(v: &mut Vec<u8>, x: u16)
    ensures
        final(v)@ == old(v)@ + le16(x),
{
    v.push((x % 256) as u8);
    v.push((x / 256) as u8);
    assert(final(v)@ =~= old(v)@ + le16(x));
}

fn push_le32(v: &mut Vec<u8>, x: u32)
    ensures
        final(v)@ == old(v)@ + le32(x),
{
    v.push((x % 256) as u8);
    v.push(((x / 256) % 256) as u8);
    v.push(((x / 65536) % 256) as u8);
    v.push((x / 16777216) as u8);
    assert(final(v)@ =~= old(v)@ + le32(x));
}

/// Accumulates the bytes of a PCAPNG file.
pub struct PcapngWriter {
    buf: Vec<u8>,
}

impl View for PcapngWriter {
    type V = Seq<u8>;

    closed spec fn view(&self) -> Seq<u8> {
        self.buf@
    }
}

impl PcapngWriter {
    /// A file for one interface of the given framing and snap length: its
    /// section and interface headers are ready to be written.
    pub fn new(linktype: Linktype, snaplen: u32) -> (r: PcapngWriter)
        ensures
            r@ == shb() + idb(spec_pcap_linktype(linktype) as u16, snaplen),
    {
        let mut buf: Vec<u8> = Vec::new();
        push_le32(&mut buf, 0x0A0D_0D0A);
        push_le32(&mut buf, 28);
        push_le32(&mut buf, 0x1A2B_3C4D);
        push_le16(&mut buf, 1);
        push_le16(&mut buf, 0);
        let mut k: usize = 0;
        let ghost before = buf@;
        while k < 8
            invariant
                k <= 8,
                buf@ == before + Seq::new(k as nat, |i: int| 0xffu8),
            decreases 8 - k,
        {
            buf.push(0xff);
            k = k + 1;
            assert(buf@ =~= before + Seq::new(k as nat, |i: int| 0xffu8));
        }
        push_le32(&mut buf, 28);
        assert(buf@ =~= shb());
        let lt = linktype.to_pcap_linktype() as u16;
        push_le32(&mut buf, 1);
        push_le32(&mut buf, 20);
        push_le16(&mut buf, lt);
        push_le16(&mut buf, 0);
        push_le32(&mut buf, snaplen);
        push_le32(&mut buf, 20);
        assert(buf@ =~= shb() + idb(lt, snaplen));
        PcapngWriter { buf }
    }

    /// Appends one packet captured at `ts_us` (microseconds since the Unix
    /// epoch) whose original length was `wire_len`.
    #[verifier::rlimit(50)]
    pub fn write_packet(&mut self, ts_us: i64, data: &[u8], wire_len: u32)
        requires
            data@.len() + 35 <= usize::MAX,
        ensures
            final(self)@ == old(self)@ + epb(ts_us, data@, wire_len),
    {
        let micros: u64 = if ts_us < 0 {
            0
        } else {
            ts_us as u64
        };
        let ts_high = (micros / 0x1_0000_0000) as u32;
        let ts_low = (micros % 0x1_0000_0000) as u32;
        let n = data.len();
        let caplen = n as u32;
        let pad = (4 - (n % 4)) % 4;
        let total = (32 + n + pad) as u32;
        let ghost before = self.buf@;
        let ghost sm: nat = if ts_us < 0 { 0 } else { ts_us as nat };
        assert(micros == sm);
        assert(pad == pad_len(n as nat));
        assert(total == (32 + data@.len() + pad_len(data@.len())) as u32);
        let ghost head = le32(6) + le32(total) + le32(0) + le32(ts_high) + le32(ts_low) + le32(
            caplen,
        ) + le32(wire_len);
        push_le32(&mut self.buf, 6);
        push_le32(&mut self.buf, total);
        push_le32(&mut self.buf, 0);
        push_le32(&mut self.buf, ts_high);
        push_le32(&mut self.buf, ts_low);
        push_le32(&mut self.buf, caplen);
        push_le32(&mut self.buf, wire_len);
        let ghost mid = self.buf@;
        assert(mid =~= before + head);
        let mut i: usize = 0;
        while i < n
            invariant
                i <= n == data@.len(),
                self.buf@ == mid + data@.take(i as int),
            decreases n - i,
        {
            self.buf.push(data[i]);
            i = i + 1;
            assert(data@.take(i as int) =~= data@.take(i - 1).push(data@[i - 1]));
        }
        assert(data@.take(n as int) =~= data@);
        let ghost mid2 = self.buf@;
        let mut k: usize = 0;
        while k < pad
            invariant
                k <= pad,
                self.buf@ == mid2 + Seq::new(k as nat, |j: int| 0u8),
            decreases pad - k,
        {
            self.buf.push(0);
            k = k + 1;
            assert(self.buf@ =~= mid2 + Seq::new(k as nat, |j: int| 0u8));
        }
        push_le32(&mut self.buf, total);
        assert(epb(ts_us, data@, wire_len) =~= head + data@ + Seq::new(pad_len(data@.len()), |j: int| 0u8) + le32(total));
        assert(self.buf@ =~= before + epb(ts_us, data@, wire_len));
    }

    /// Hands out the bytes accumulated since the last flush.
    pub fn flush(&mut self) -> (r: Vec<u8>)
        ensures
            r@ == old(self)@,
            final(self)@ == Seq::<u8>::empty(),
    {
        let mut out: Vec<u8> = Vec::new();
        std::mem::swap(&mut out, &mut self.buf);
        out
    }
}

} // verus!
