//! Connections: direction-independent keys, per-flow state and TCP stream
//! reassembly.
use vstd::prelude::*;
use crate::net::{endpoint_le, endpoint_le_exec, ip_rank, lemma_rank_injective, IpAddr};

pub mod dns_tracker;
pub mod reassembly;
pub mod tracker;

verus! {

/// A normalized (direction-independent) connection key. The endpoint that
/// sorts lower by `(ip, port)` is stored as `*_low`, the other as `*_high`, so
/// both directions of a conversation map to the same key.
#[derive(Debug, Clone, Copy, PartialEq, Eq, Hash)]
pub struct FlowKey {
    pub addr_low: IpAddr,
    pub port_low: u16,
    pub addr_high: IpAddr,
    pub port_high: u16,
    pub protocol: u8,
}

/// The key of a packet from `(src, sp)` to `(dst, dp)`.
pub open spec fn flow_key(src: IpAddr, sp: u16, dst: IpAddr, dp: u16, protocol: u8) -> FlowKey {
    if endpoint_le(src, sp, dst, dp) {
        FlowKey { addr_low: src, port_low: sp, addr_high: dst, port_high: dp, protocol }
    } else {
        FlowKey { addr_low: dst, port_low: dp, addr_high: src, port_high: sp, protocol }
    }
}

impl FlowKey {
    pub fn new(src_ip: IpAddr, src_port: u16, dst_ip: IpAddr, dst_port: u16, protocol: u8) -> (r:
        FlowKey)
        ensures
            r == flow_key(src_ip, src_port, dst_ip, dst_port, protocol),
    {
        if endpoint_le_exec(&src_ip, src_port, &dst_ip, dst_port) {
            FlowKey {
                addr_low: src_ip,
                port_low: src_port,
                addr_high: dst_ip,
                port_high: dst_port,
                protocol,
            }
        } else {
            FlowKey {
                addr_low: dst_ip,
                port_low: dst_port,
                addr_high: src_ip,
                port_high: src_port,
                protocol,
            }
        }
    }
}

/// The endpoint order is total, and two endpoints that are each at most the
/// other are the same endpoint.
pub proof fn lemma_endpoint_order(a: IpAddr, pa: u16, b: IpAddr, pb: u16)
    ensures
        endpoint_le(a, pa, b, pb) || endpoint_le(b, pb, a, pa),
        endpoint_le(a, pa, b, pb) && endpoint_le(b, pb, a, pa) ==> a == b && pa == pb,
{
    if endpoint_le(a, pa, b, pb) && endpoint_le(b, pb, a, pa) {
        lemma_rank_injective(a, b);
    }
}

/// Both directions of a conversation have the same key.
pub proof fn law_flow_key_direction_independent(
    a: IpAddr,
    pa: u16,
    b: IpAddr,
    pb: u16,
    protocol: u8,
)
    ensures
        flow_key(a, pa, b, pb, protocol) == flow_key(b, pb, a, pa, protocol),
{
    lemma_endpoint_order(a, pa, b, pb);
}

/// The key's low endpoint is never above its high endpoint.
pub proof fn law_flow_key_ordered(a: IpAddr, pa: u16, b: IpAddr, pb: u16, protocol: u8)
    ensures
        ({
            let k = flow_key(a, pa, b, pb, protocol);
            endpoint_le(k.addr_low, k.port_low, k.addr_high, k.port_high)
        }),
{
    lemma_endpoint_order(a, pa, b, pb);
}

/// Direction of a packet relative to a flow's normalized `(low, high)` endpoints.
#[derive(Debug, Clone, Copy, PartialEq, Eq)]
pub enum Dir {
    LowToHigh,
    HighToLow,
}

#[derive(Debug, Clone)]
pub struct FlowAnnotation {
    pub is_retransmission: bool,
}

/// What the tracker reports for one packet: the packet's contribution to its
/// flow (direction and bytes), whether the flow was first seen with it, and
/// the TCP retransmission annotation where there is one.
#[derive(Debug, Clone)]
pub struct FlowUpdate {
    pub annotation: Option<FlowAnnotation>,
    pub key: FlowKey,
    pub dir: Dir,
    pub bytes: u32,
    pub first_seen: bool,
}

} // verus!
