//! Captured frames as handed to the decoders.
use vstd::prelude::*;

verus! {

/// Link-layer framing of a captured packet.
#[derive(Clone, Copy, Debug, PartialEq, Eq)]
pub enum Linktype {
    Ethernet,
    RawIp,
    Other(i32),
}

/// The pcap link-type number of a framing.
pub open spec fn spec_pcap_linktype(l: Linktype) -> i32 {
    match l {
        Linktype::Ethernet => 1,
        Linktype::RawIp => 101,
        Linktype::Other(n) => n,
    }
}

impl Linktype {
    /// The pcap link-type number (`LINKTYPE_ETHERNET` = 1, `LINKTYPE_RAW` = 101).
    pub fn to_pcap_linktype(&self) -> (r: i32)
        ensures
            r == spec_pcap_linktype(*self),
    {
        match self {
            Linktype::Ethernet => 1,
            Linktype::RawIp => 101,
            Linktype::Other(n) => *n,
        }
    }
}

/// One captured frame: sequence number, capture time in microseconds since
/// the Unix epoch, original length on the wire, captured bytes and framing.
#[derive(Clone, Debug)]
pub struct RawPacket {
    pub number: u64,
    pub timestamp_us: i64,
    pub wire_len: u32,
    pub data: Vec<u8>,
    pub linktype: Linktype,
}

} // verus!
