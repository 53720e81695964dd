//! What the flow tracker decides for each TCP packet: which flow it belongs
//! to, whether it retransmits data already seen, and whether the flow is over.
use vstd::prelude::*;
use crate::decode::chain::{layers_view, LayerV};
use crate::decode::{ColorHint, DecodedPacket, Layer};
use crate::flow::{flow_key, FlowAnnotation, FlowKey};
use crate::net::{endpoint_le, endpoint_le_exec, IpAddr};
use lru::LruCache;
use std::num::NonZeroUsize;

verus! {

broadcast use vstd::string::group_string_axioms;

/// Addresses, ports, protocol, sequence number, payload length and the
/// SYN/FIN/RST/ACK flag bits of a TCP packet.
pub type FlowInfo = (IpAddr, IpAddr, u16, u16, u8, u32, usize, u8);

/// The flag byte the tracker keeps: SYN 0x02, FIN 0x01, RST 0x04, ACK 0x10.
pub open spec fn flag_byte(syn: bool, fin: bool, rst: bool, ack: bool) -> u8 {
    ((if syn { 2int } else { 0 }) + (if fin { 1int } else { 0 }) + (if rst { 4int } else { 0 }) + (
    if ack {
        16int
    } else {
        0
    })) as u8
}

/// The flow of a packet: the addresses and protocol of the last IP layer
/// before the first TCP layer, with that TCP layer's fields; none when there
/// is no TCP layer or no IP layer before it.
pub open spec fn flow_info_from(
    ls: Seq<LayerV>,
    i: int,
    ip: Option<(IpAddr, IpAddr, u8)>,
) -> Option<FlowInfo>
    decreases ls.len() - i,
{
    if i < 0 || i >= ls.len() {
        None
    } else {
        match ls[i] {
            LayerV::Ipv4(h) => flow_info_from(
                ls,
                i + 1,
                Some((IpAddr::V4(h.src_ip), IpAddr::V4(h.dst_ip), h.protocol)),
            ),
            LayerV::Ipv6(h) => flow_info_from(
                ls,
                i + 1,
                Some((IpAddr::V6(h.src_ip), IpAddr::V6(h.dst_ip), h.next_header)),
            ),
            LayerV::Tcp(t) => match ip {
                Some((s, d, p)) => Some(
                    (
                        s,
                        d,
                        t.src_port,
                        t.dst_port,
                        p,
                        t.seq_num,
                        t.payload_len,
                        flag_byte(t.flags.syn, t.flags.fin, t.flags.rst, t.flags.ack),
                    ),
                ),
                None => None,
            },
            _ => flow_info_from(ls, i + 1, ip),
        }
    }
}

/// The FIN and RST flags of the first TCP layer.
pub open spec fn tcp_flags_from(ls: Seq<LayerV>, i: int) -> Option<(bool, bool)>
    decreases ls.len() - i,
{
    if i < 0 || i >= ls.len() {
        None
    } else {
        match ls[i] {
            LayerV::Tcp(t) => Some((t.flags.fin, t.flags.rst)),
            _ => tcp_flags_from(ls, i + 1),
        }
    }
}

pub fn extract_flow_info(layers: &[Layer]) -> (r: Option<FlowInfo>)
    ensures
        r == flow_info_from(layers_view(layers@), 0, None),
{
    let ghost lv = layers_view(layers@);
    let mut ip: Option<(IpAddr, IpAddr, u8)> = None;
    let mut i: usize = 0;
    while i < layers.len()
        invariant
            i <= layers@.len(),
            lv == layers_view(layers@),
            flow_info_from(lv, 0, None) == flow_info_from(lv, i as int, ip),
        decreases layers@.len() - i,
    {
        match &layers[i] {
            Layer::Ipv4(h) => {
                ip = Some((IpAddr::V4(h.src_ip), IpAddr::V4(h.dst_ip), h.protocol));
            },
            Layer::Ipv6(h) => {
                ip = Some((IpAddr::V6(h.src_ip), IpAddr::V6(h.dst_ip), h.next_header));
            },
            Layer::Tcp(t) => {
                let f = t.flags;
                let b: u8 = (if f.syn { 2u8 } else { 0 }) + (if f.fin { 1u8 } else { 0 }) + (if f.rst {
                    4u8
                } else {
                    0
                }) + (if f.ack { 16u8 } else { 0 });
                return match ip {
                    Some((s, d, p)) => Some((s, d, t.src_port, t.dst_port, p, t.seq_num, t.payload_len, b)),
                    None => None,
                };
            },
            _ => {},
        }
        i = i + 1;
    }
    None
}

pub fn extract_tcp_flags(layers: &[Layer]) -> (r: Option<(bool, bool)>)
    ensures
        r == tcp_flags_from(layers_view(layers@), 0),
{
    let ghost lv = layers_view(layers@);
    let mut i: usize = 0;
    while i < layers.len()
        invariant
            i <= layers@.len(),
            lv == layers_view(layers@),
            tcp_flags_from(lv, 0) == tcp_flags_from(lv, i as int),
        decreases layers@.len() - i,
    {
        match &layers[i] {
            Layer::Tcp(t) => {
                return Some((t.flags.fin, t.flags.rst));
            },
            _ => {},
        }
        i = i + 1;
    }
    None
}

/// The per-flow facts the tracker keeps: the highest sequence end seen from
/// each side, which sides sent FIN, and whether RST was seen.
#[derive(Debug, Clone, Copy, PartialEq, Eq)]
pub struct TcpSeqState {
    pub max_seq_low: Option<u64>,
    pub max_seq_high: Option<u64>,
    pub fin_low: bool,
    pub fin_high: bool,
    pub rst_seen: bool,
}

pub fn new_seq_state() -> (r: TcpSeqState)
    ensures
        r == (TcpSeqState {
            max_seq_low: None,
            max_seq_high: None,
            fin_low: false,
            fin_high: false,
            rst_seen: false,
        }),
{
    TcpSeqState { max_seq_low: None, max_seq_high: None, fin_low: false, fin_high: false, rst_seen: false }
}

/// A data segment from one side is a retransmission when it ends no later
/// than the furthest end that side has sent; otherwise its end becomes the
/// new furthest end.
pub open spec fn seq_step(max: Option<u64>, seq_end: u64) -> (Option<u64>, bool) {
    match max {
        Some(prev) => if seq_end <= prev {
            (max, true)
        } else {
            (Some(seq_end), false)
        },
        None => (Some(seq_end), false),
    }
}

/// What one TCP packet does to its flow's state: sequence tracking for data
/// segments of its side, and FIN/RST bookkeeping. Gives the new state,
/// whether the packet is a retransmission, and whether the flow is over (RST
/// seen, or FIN from both sides).
pub open spec fn track_spec(
    st: TcpSeqState,
    is_low_side: bool,
    seq: u32,
    payload_len: usize,
    flags: Option<(bool, bool)>,
) -> (TcpSeqState, bool, bool) {
    let seq_end = (seq + payload_len) as u64;
    let (s1, retrans) = if payload_len > 0 {
        if is_low_side {
            let (m, r) = seq_step(st.max_seq_low, seq_end);
            (TcpSeqState { max_seq_low: m, ..st }, r)
        } else {
            let (m, r) = seq_step(st.max_seq_high, seq_end);
            (TcpSeqState { max_seq_high: m, ..st }, r)
        }
    } else {
        (st, false)
    };
    match flags {
        Some((fin, rst)) => {
            let s2 = TcpSeqState {
                rst_seen: s1.rst_seen || rst,
                fin_low: s1.fin_low || (fin && is_low_side),
                fin_high: s1.fin_high || (fin && !is_low_side),
                ..s1
            };
            (s2, retrans, s2.rst_seen || (s2.fin_low && s2.fin_high))
        },
        None => (s1, retrans, false),
    }
}

/// Applies one TCP packet to its flow's state; returns whether it is a
/// retransmission and whether the flow is over.
pub fn track_packet(
    st: &mut TcpSeqState,
    is_low_side: bool,
    seq: u32,
    payload_len: usize,
    flags: Option<(bool, bool)>,
) -> (r: (bool, bool))
    requires
        payload_len <= u64::MAX - 0xFFFF_FFFF,
    ensures
        (*final(st), r.0, r.1) == track_spec(*old(st), is_low_side, seq, payload_len, flags),
{
    let seq_end: u64 = seq as u64 + payload_len as u64;
    let mut retrans = false;
    if payload_len > 0 {
        let prev = if is_low_side {
            st.max_seq_low
        } else {
            st.max_seq_high
        };
        match prev {
            Some(p) if seq_end <= p => {
                retrans = true;
            },
            _ => {
                if is_low_side {
                    st.max_seq_low = Some(seq_end);
                } else {
                    st.max_seq_high = Some(seq_end);
                }
            },
        }
    }
    let mut close = false;
    match flags {
        Some((fin, rst)) => {
            if rst {
                st.rst_seen = true;
            }
            if fin {
                if is_low_side {
                    st.fin_low = true;
                } else {
                    st.fin_high = true;
                }
            }
            close = st.rst_seen || (st.fin_low && st.fin_high);
        },
        None => {},
    }
    (retrans, close)
}

/// Whether the packet's source is the flow's low endpoint.
pub fn is_low_side(src: &IpAddr, src_port: u16, dst: &IpAddr, dst_port: u16) -> (r: bool)
    ensures
        r == endpoint_le(*src, src_port, *dst, dst_port),
{
    endpoint_le_exec(src, src_port, dst, dst_port)
}

/// Marks a packet as a retransmission: flagged, its info line prefixed with
/// `[Retransmission] `, and coloured as such.
pub fn mark_retransmission(pkt: &mut DecodedPacket)
    ensures
        final(pkt).retransmission,
        final(pkt).summary.info@ == "[Retransmission] "@ + old(pkt).summary.info@,
        final(pkt).summary.color_hint == ColorHint::Retransmission,
        final(pkt).layers == old(pkt).layers,
        final(pkt).data == old(pkt).data,
        final(pkt).summary.source == old(pkt).summary.source,
        final(pkt).summary.destination == old(pkt).summary.destination,
        final(pkt).summary.protocol == old(pkt).summary.protocol,
{
    pkt.retransmission = true;
    let mut info = String::new();
    info.append("[Retransmission] ");
    info.append(pkt.summary.info.as_str());
    pkt.summary.info = info;
    pkt.summary.color_hint = ColorHint::Retransmission;
}

/// A segment ending no later than what its side already sent is reported
/// as a retransmission and leaves the sequence tracking unchanged.
pub proof fn law_resent_data_is_retransmission(
    st: TcpSeqState,
    is_low_side: bool,
    seq: u32,
    payload_len: usize,
    flags: Option<(bool, bool)>,
)
    requires
        payload_len > 0,
        ({
            let m = if is_low_side { st.max_seq_low } else { st.max_seq_high };
            m matches Some(prev) && seq + payload_len <= prev
        }),
    ensures
        track_spec(st, is_low_side, seq, payload_len, flags).1,
        track_spec(st, is_low_side, seq, payload_len, flags).0.max_seq_low == st.max_seq_low,
        track_spec(st, is_low_side, seq, payload_len, flags).0.max_seq_high == st.max_seq_high,
{
}

// ---------------------------------------------------------------------------
// The flow table: an LRU cache of per-flow state.
// ---------------------------------------------------------------------------

/// How many flows the tracker keeps; the least recently used one makes room.
pub const MAX_FLOWS: usize = 10_000;

#[verifier::external_type_specification]
#[verifier::external_body]
#[verifier::reject_recursive_types(K)]
#[verifier::reject_recursive_types(V)]
#[verifier::reject_recursive_types(S)]
pub struct ExLruCache<K, V, S>(LruCache<K, V, S>);

#[verifier::external_type_specification]
#[verifier::external_body]
pub struct ExLruHasher(lru::DefaultHasher);

/// The entries of an LRU flow table, by key.
pub uninterp spec fn flow_table(c: LruCache<FlowKey, TcpSeqState>) -> Map<FlowKey, TcpSeqState>;

/// The capacity an LRU flow table was made with.
pub uninterp spec fn flow_table_cap(c: LruCache<FlowKey, TcpSeqState>) -> nat;

/// A table that holds finitely many entries, no more than its capacity.
pub open spec fn table_ok(c: LruCache<FlowKey, TcpSeqState>) -> bool {
    &&& flow_table(c).dom().finite()
    &&& flow_table(c).len() <= flow_table_cap(c)
}

/// The state a new flow starts from.
pub open spec fn fresh_state() -> TcpSeqState {
    TcpSeqState {
        max_seq_low: None,
        max_seq_high: None,
        fin_low: false,
        fin_high: false,
        rst_seen: false,
    }
}

/// `LruCache::new`: an empty cache with the given capacity.
#[verifier::external_body]
fn lru_new(cap: usize) -> (c: LruCache<FlowKey, TcpSeqState>)
    requires
        cap > 0,
    ensures
        flow_table(c).dom() == Set::<FlowKey>::empty(),
        flow_table_cap(c) == cap,
{
    LruCache::new(NonZeroUsize::new(cap).unwrap())
}

/// `LruCache::get_or_insert_mut` with a fresh state as the default: the
/// entry for `k` (made most recently used); where there is none, a fresh
/// entry is put in, and on a full cache the least recently used entry
/// (some entry other than `k`; which one rests on the use order, which the
/// contents do not show) leaves first.
#[verifier::external_body]
fn lru_entry(c: &mut LruCache<FlowKey, TcpSeqState>, k: FlowKey) -> (r: TcpSeqState)
    requires
        table_ok(*old(c)),
    ensures
        table_ok(*final(c)),
        flow_table_cap(*final(c)) == flow_table_cap(*old(c)),
        flow_table(*old(c)).contains_key(k) ==> r == flow_table(*old(c))[k] && flow_table(*final(c))
            == flow_table(*old(c)),
        !flow_table(*old(c)).contains_key(k) ==> r == fresh_state(),
        !flow_table(*old(c)).contains_key(k) && flow_table(*old(c)).len() < flow_table_cap(*old(c))
            ==> flow_table(*final(c)) == flow_table(*old(c)).insert(k, r),
        !flow_table(*old(c)).contains_key(k) && flow_table(*old(c)).len() >= flow_table_cap(*old(c))
            ==> exists|v: FlowKey|
            flow_table(*old(c)).contains_key(v) && flow_table(*final(c)) == flow_table(
                *old(c),
            ).remove(v).insert(k, r),
{
    *c.get_or_insert_mut(k, new_seq_state)
}

/// `LruCache::put` of a key already in the cache: its value is replaced.
#[verifier::external_body]
fn lru_put(c: &mut LruCache<FlowKey, TcpSeqState>, k: FlowKey, v: TcpSeqState)
    requires
        table_ok(*old(c)),
        flow_table(*old(c)).contains_key(k),
    ensures
        table_ok(*final(c)),
        flow_table_cap(*final(c)) == flow_table_cap(*old(c)),
        flow_table(*final(c)) == flow_table(*old(c)).insert(k, v),
{
    c.put(k, v);
}

/// `LruCache::pop`: the entry for `k` leaves the cache.
#[verifier::external_body]
fn lru_pop(c: &mut LruCache<FlowKey, TcpSeqState>, k: &FlowKey)
    requires
        table_ok(*old(c)),
    ensures
        table_ok(*final(c)),
        flow_table_cap(*final(c)) == flow_table_cap(*old(c)),
        flow_table(*final(c)) == flow_table(*old(c)).remove(*k),
{
    c.pop(k);
}

/// `LruCache::len`: the number of entries.
#[verifier::external_body]
fn lru_len(c: &LruCache<FlowKey, TcpSeqState>) -> (n: usize)
    requires
        table_ok(*c),
    ensures
        n == flow_table(*c).len(),
{
    c.len()
}

/// What the tracker does with a packet, given its flow table: none for a
/// packet that is not TCP over IP; else the flow's key, the flow's state
/// before the packet (fresh for a flow not in the table), and the packet's
/// effect on it (`track_spec`).
pub open spec fn tcp_step(ls: Seq<LayerV>, table: Map<FlowKey, TcpSeqState>) -> Option<
    (FlowKey, TcpSeqState, (TcpSeqState, bool, bool)),
> {
    match flow_info_from(ls, 0, None) {
        Some((s, d, sp, dp, p, seq, plen, _flags)) => if p == 6 {
            let key = flow_key(s, sp, d, dp, p);
            let st0 = if table.contains_key(key) {
                table[key]
            } else {
                fresh_state()
            };
            Some((key, st0, track_spec(st0, endpoint_le(s, sp, d, dp), seq, plen, tcp_flags_from(ls, 0))))
        } else {
            None
        },
        None => None,
    }
}

/// Tracks TCP flows by their direction-independent key, flagging data that
/// was already sent and forgetting flows once they are over.
pub struct FlowTracker {
    flows: LruCache<FlowKey, TcpSeqState>,
}

impl FlowTracker {
    /// The flows being tracked.
    pub closed spec fn table(&self) -> Map<FlowKey, TcpSeqState> {
        flow_table(self.flows)
    }

    pub closed spec fn wf(&self) -> bool {
        table_ok(self.flows) && flow_table_cap(self.flows) == MAX_FLOWS
    }

    pub fn new() -> (t: Self)
        ensures
            t.wf(),
            t.table() == Map::<FlowKey, TcpSeqState>::empty(),
    {
        let flows = lru_new(MAX_FLOWS);
        assert(flow_table(flows) =~= Map::<FlowKey, TcpSeqState>::empty());
        FlowTracker { flows }
    }

    /// Tracks one packet. TCP packets get an annotation (whether they resend
    /// data), and a retransmission is marked on the packet; other packets
    /// are left alone.
    pub fn update(&mut self, pkt: &mut DecodedPacket) -> (r: Option<FlowAnnotation>)
        requires
            old(self).wf(),
            flow_info_from(layers_view(old(pkt).layers@), 0, None) matches Some(fi) ==> fi.6
                <= u64::MAX - 0xFFFF_FFFF,
        ensures
            final(self).wf(),
            ({
                let t0 = old(self).table();
                let t1 = final(self).table();
                match tcp_step(layers_view(old(pkt).layers@), t0) {
                    None => {
                        &&& r is None
                        &&& t1 == t0
                        &&& *final(pkt) == *old(pkt)
                    },
                    Some((key, st0, (st1, retrans, close))) => {
                        &&& r matches Some(a) && a.is_retransmission == retrans
                        &&& (t0.contains_key(key) || t0.len() < MAX_FLOWS) ==> t1 == (if close {
                            t0.remove(key)
                        } else {
                            t0.insert(key, st1)
                        })
                        &&& (!t0.contains_key(key) && t0.len() >= MAX_FLOWS) ==> exists|v: FlowKey|
                            t0.contains_key(v) && t1 == (if close {
                                t0.remove(v)
                            } else {
                                t0.remove(v).insert(key, st1)
                            })
                        &&& !retrans ==> *final(pkt) == *old(pkt)
                        &&& retrans ==> {
                            &&& final(pkt).retransmission
                            &&& final(pkt).summary.info@ == "[Retransmission] "@ + old(
                                pkt,
                            ).summary.info@
                            &&& final(pkt).summary.color_hint == ColorHint::Retransmission
                            &&& final(pkt).layers == old(pkt).layers
                            &&& final(pkt).data == old(pkt).data
                        }
                    },
                }
            }),
    {
        let info = extract_flow_info(pkt.layers.as_slice());
        let (src_ip, dst_ip, src_port, dst_port, protocol, seq, payload_len) = match info {
            Some((s, d, sp, dp, p, q, n, _f)) => (s, d, sp, dp, p, q, n),
            None => {
                return None;
            },
        };
        if protocol != 6 {
            return None;
        }
        let key = FlowKey::new(src_ip, src_port, dst_ip, dst_port, protocol);
        let low = is_low_side(&src_ip, src_port, &dst_ip, dst_port);
        let ghost t0 = flow_table(self.flows);
        let mut st = lru_entry(&mut self.flows, key);
        let flags = extract_tcp_flags(pkt.layers.as_slice());
        let (retrans, close) = track_packet(&mut st, low, seq, payload_len, flags);
        let ghost t_mid = flow_table(self.flows);
        if close {
            lru_pop(&mut self.flows, &key);
            proof {
                if !t0.contains_key(key) && t0.len() >= MAX_FLOWS {
                    let v = choose|v: FlowKey|
                        t0.contains_key(v) && t_mid == t0.remove(v).insert(key, fresh_state());
                    assert(t_mid.remove(key) =~= t0.remove(v));
                } else if !t0.contains_key(key) {
                    assert(t_mid.remove(key) =~= t0.remove(key));
                } else {
                    assert(t_mid.remove(key) =~= t0.remove(key));
                }
            }
        } else {
            lru_put(&mut self.flows, key, st);
            proof {
                if !t0.contains_key(key) && t0.len() >= MAX_FLOWS {
                    let v = choose|v: FlowKey|
                        t0.contains_key(v) && t_mid == t0.remove(v).insert(key, fresh_state());
                    assert(t_mid.insert(key, st) =~= t0.remove(v).insert(key, st));
                } else if !t0.contains_key(key) {
                    assert(t_mid.insert(key, st) =~= t0.insert(key, st));
                }
            }
        }
        if retrans {
            mark_retransmission(pkt);
        }
        Some(FlowAnnotation { is_retransmission: retrans })
    }

    pub fn len(&self) -> (n: usize)
        requires
            self.wf(),
        ensures
            n == self.table().len(),
    {
        lru_len(&self.flows)
    }

    pub fn is_empty(&self) -> (b: bool)
        requires
            self.wf(),
        ensures
            b == (self.table().len() == 0),
    {
        lru_len(&self.flows) == 0
    }
}

impl Default for FlowTracker {
    fn default() -> (t: Self)
        ensures
            t.wf(),
            t.table() == Map::<FlowKey, TcpSeqState>::empty(),
    {
        Self::new()
    }
}

} // verus!
