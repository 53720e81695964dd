//! The correlate stage's decisions for one flow update: which side of the
//! flow is local, which way the bytes went, and how the live-connection row
//! shown to the inspector is opened and kept current.
use vstd::prelude::*;
use crate::enrich::geoip::GeoInfo;
use crate::flow::{Dir, FlowKey};
use crate::ipc::live::same_key;
use crate::ipc::protocol::ConnectionDto;
use crate::net::{ip_text, IpAddr};
use crate::process::SocketProc;

verus! {

broadcast use vstd::string::group_string_axioms;

/// A packet's source and destination endpoints, rebuilt from its flow's
/// normalized key and its direction.
pub open spec fn endpoints_of(key: FlowKey, dir: Dir) -> (IpAddr, u16, IpAddr, u16) {
    match dir {
        Dir::LowToHigh => (key.addr_low, key.port_low, key.addr_high, key.port_high),
        Dir::HighToLow => (key.addr_high, key.port_high, key.addr_low, key.port_low),
    }
}

/// The local and remote endpoints and whether the packet went out: the
/// source is the local side unless only the destination is a local address.
pub open spec fn orientation_of(
    src: IpAddr,
    src_port: u16,
    dst: IpAddr,
    dst_port: u16,
    src_local: bool,
    dst_local: bool,
) -> (IpAddr, u16, IpAddr, u16, bool) {
    if dst_local && !src_local {
        (dst, dst_port, src, src_port, false)
    } else {
        (src, src_port, dst, dst_port, true)
    }
}

pub fn packet_endpoints(key: &FlowKey, dir: Dir) -> (r: (IpAddr, u16, IpAddr, u16))
    ensures
        r == endpoints_of(*key, dir),
{
    match dir {
        Dir::LowToHigh => (key.addr_low, key.port_low, key.addr_high, key.port_high),
        Dir::HighToLow => (key.addr_high, key.port_high, key.addr_low, key.port_low),
    }
}

/// `(local addr, local port, remote addr, remote port, outbound)` of a
/// packet, given which of its endpoints are addresses of this host.
pub fn orient(
    src: IpAddr,
    src_port: u16,
    dst: IpAddr,
    dst_port: u16,
    src_local: bool,
    dst_local: bool,
) -> (r: (IpAddr, u16, IpAddr, u16, bool))
    ensures
        r == orientation_of(src, src_port, dst, dst_port, src_local, dst_local),
{
    if dst_local && !src_local {
        (dst, dst_port, src, src_port, false)
    } else {
        (src, src_port, dst, dst_port, true)
    }
}

/// The bytes of a packet as `(up, down)`: all up when it went out, all down
/// otherwise.
pub fn byte_split(bytes: u32, outbound: bool) -> (r: (u64, u64))
    ensures
        r == (if outbound {
            (bytes as u64, 0u64)
        } else {
            (0u64, bytes as u64)
        }),
{
    if outbound {
        (bytes as u64, 0)
    } else {
        (0, bytes as u64)
    }
}

/// The text of an optional string, or `d` when absent.
pub open spec fn text_or(o: Option<String>, d: Seq<char>) -> Seq<char> {
    match o {
        Some(s) => s@,
        None => d,
    }
}

/// A new live-connection row: named after its process (`?` when
/// unattributed) and its destination's name (else its address), with no
/// bytes yet, first and last seen now.
pub fn open_connection(
    id: u64,
    proc_: &Option<SocketProc>,
    name: &Option<String>,
    remote_addr: IpAddr,
    remote_port: u16,
    local_port: u16,
    protocol: u8,
    geo: &GeoInfo,
    ts_ms: i64,
    outbound: bool,
) -> (c: ConnectionDto)
    ensures
        c.id == id,
        c.process@ == (match proc_ {
            Some(p) => p.name@,
            None => "?"@,
        }),
        c.pid == (match proc_ {
            Some(p) => Some(p.pid),
            None => None::<u32>,
        }),
        c.dest_name@ == text_or(*name, ip_text(remote_addr)),
        c.remote_ip@ == ip_text(remote_addr),
        c.remote_port == remote_port,
        c.local_port == local_port,
        c.protocol == protocol,
        c.country == geo.country,
        c.asn == geo.asn,
        c.as_org == geo.as_org,
        c.bytes_up == 0,
        c.bytes_down == 0,
        c.first_seen_ms == ts_ms,
        c.last_seen_ms == ts_ms,
        c.outbound == outbound,
{
    let process = match proc_ {
        Some(p) => p.name.clone(),
        None => "?".to_string(),
    };
    let pid = match proc_ {
        Some(p) => Some(p.pid),
        None => None,
    };
    let dest_name = match name {
        Some(n) => n.clone(),
        None => remote_addr.to_text(),
    };
    ConnectionDto {
        id,
        process,
        pid,
        dest_name,
        remote_ip: remote_addr.to_text(),
        remote_port,
        local_port,
        protocol,
        country: geo.country.clone(),
        asn: geo.asn,
        as_org: geo.as_org.clone(),
        bytes_up: 0,
        bytes_down: 0,
        first_seen_ms: ts_ms,
        last_seen_ms: ts_ms,
        outbound,
    }
}

/// Brings a live-connection row up to date with one packet: its bytes are
/// added, it was last seen now, and what is newly known replaces what was
/// there (the destination's name, its country, its network and
/// organisation, the owning process).
pub fn touch_connection(
    c: &mut ConnectionDto,
    up: u64,
    down: u64,
    ts_ms: i64,
    name: &Option<String>,
    geo: &GeoInfo,
    proc_: &Option<SocketProc>,
)
    requires
        old(c).bytes_up + up <= u64::MAX,
        old(c).bytes_down + down <= u64::MAX,
    ensures
        final(c).id == old(c).id,
        final(c).bytes_up == old(c).bytes_up + up,
        final(c).bytes_down == old(c).bytes_down + down,
        final(c).last_seen_ms == ts_ms,
        final(c).first_seen_ms == old(c).first_seen_ms,
        final(c).dest_name@ == text_or(*name, old(c).dest_name@),
        final(c).country == (if geo.country is Some {
            geo.country
        } else {
            old(c).country
        }),
        final(c).asn == (if geo.asn is Some {
            geo.asn
        } else {
            old(c).asn
        }),
        final(c).as_org == (if geo.asn is Some {
            geo.as_org
        } else {
            old(c).as_org
        }),
        final(c).process@ == (match proc_ {
            Some(p) => p.name@,
            None => old(c).process@,
        }),
        final(c).pid == (match proc_ {
            Some(p) => Some(p.pid),
            None => old(c).pid,
        }),
        final(c).remote_ip == old(c).remote_ip,
        final(c).remote_port == old(c).remote_port,
        final(c).local_port == old(c).local_port,
        final(c).protocol == old(c).protocol,
        final(c).outbound == old(c).outbound,
{
    c.bytes_up = c.bytes_up + up;
    c.bytes_down = c.bytes_down + down;
    c.last_seen_ms = ts_ms;
    if let Some(n) = name {
        c.dest_name = n.clone();
    }
    if geo.country.is_some() {
        c.country = geo.country.clone();
    }
    if geo.asn.is_some() {
        c.asn = geo.asn;
        c.as_org = geo.as_org.clone();
    }
    if let Some(p) = proc_ {
        c.process = p.name.clone();
        c.pid = Some(p.pid);
    }
}

// ---------------------------------------------------------------------------
// Per-flow bookkeeping: each flow's id and direction, fixed at its first
// packet, and the store rows it was attributed to.
// ---------------------------------------------------------------------------

/// What the worker remembers of a flow until it closes.
#[derive(Debug, Clone, Copy, PartialEq, Eq)]
pub struct FlowMeta {
    pub id: u64,
    pub outbound: bool,
    pub process_id: Option<i64>,
    pub dest_id: Option<i64>,
}

/// The first position of `key` in `s`.
pub open spec fn meta_pos(s: Seq<(FlowKey, FlowMeta)>, key: FlowKey) -> Option<int> {
    if exists|i: int| 0 <= i < s.len() && s[i].0 == key {
        Some(choose|i: int| 0 <= i < s.len() && s[i].0 == key)
    } else {
        None
    }
}

pub open spec fn metas_distinct(s: Seq<(FlowKey, FlowMeta)>) -> bool {
    forall|i: int, j: int| 0 <= i < j < s.len() ==> s[i].0 != s[j].0
}

/// Every flow holds its own id, taken from `1..next`.
pub open spec fn ids_below(s: Seq<(FlowKey, FlowMeta)>, next: u64) -> bool {
    &&& forall|i: int| 0 <= i < s.len() ==> 1 <= #[trigger] s[i].1.id < next
    &&& forall|i: int, j: int| 0 <= i < j < s.len() ==> s[i].1.id != s[j].1.id
}

proof fn lemma_meta_pos(s: Seq<(FlowKey, FlowMeta)>, key: FlowKey, i: int)
    requires
        metas_distinct(s),
        0 <= i < s.len(),
        s[i].0 == key,
    ensures
        meta_pos(s, key) == Some(i),
{
    let j = choose|j: int| 0 <= j < s.len() && s[j].0 == key;
    if j != i {
        assert(s[j].0 == key);
    }
}

/// The flows being followed, with the next id to hand out. Ids start at 1
/// and each new flow takes the next one.
pub struct FlowMetas {
    metas: Vec<(FlowKey, FlowMeta)>,
    next_id: u64,
}

impl FlowMetas {
    /// The flows, in the order they were first seen.
    pub closed spec fn entries(&self) -> Seq<(FlowKey, FlowMeta)> {
        self.metas@
    }

    pub closed spec fn next(&self) -> u64 {
        self.next_id
    }

    pub closed spec fn wf(&self) -> bool {
        &&& metas_distinct(self.metas@)
        &&& ids_below(self.metas@, self.next_id)
        &&& self.next_id >= 1
    }

    /// Each flow followed has an id of its own, below the next one.
    pub proof fn lemma_ids(&self)
        requires
            self.wf(),
        ensures
            metas_distinct(self.entries()),
            ids_below(self.entries(), self.next()),
    {
    }

    pub fn new() -> (m: Self)
        ensures
            m.wf(),
            m.entries() == Seq::<(FlowKey, FlowMeta)>::empty(),
            m.next() == 1,
    {
        FlowMetas { metas: Vec::new(), next_id: 1 }
    }

    fn position(&self, key: &FlowKey) -> (r: Option<usize>)
        requires
            self.wf(),
        ensures
            match r {
                Some(i) => i < self.metas@.len() && meta_pos(self.metas@, *key) == Some(i as int),
                None => meta_pos(self.metas@, *key) is None,
            },
    {
        let n = self.metas.len();
        let mut i: usize = 0;
        while i < n
            invariant
                n == self.metas@.len(),
                i <= n,
                metas_distinct(self.metas@),
                forall|k: int| 0 <= k < i ==> self.metas@[k].0 != *key,
            decreases n - i,
        {
            if same_key(&self.metas[i].0, key) {
                proof {
                    lemma_meta_pos(self.metas@, *key, i as int);
                }
                return Some(i);
            }
            i = i + 1;
        }
        None
    }

    /// The id and direction of a packet's flow: those fixed at the flow's
    /// first packet, or, for a new flow, the next id and this packet's
    /// direction, remembered from now on.
    pub fn meta_for(&mut self, key: FlowKey, pkt_outbound: bool) -> (r: (u64, bool))
        requires
            old(self).wf(),
            meta_pos(old(self).entries(), key) is None ==> old(self).next() < u64::MAX,
        ensures
            final(self).wf(),
            match meta_pos(old(self).entries(), key) {
                Some(i) => {
                    &&& r == (old(self).entries()[i].1.id, old(self).entries()[i].1.outbound)
                    &&& final(self).entries() == old(self).entries()
                    &&& final(self).next() == old(self).next()
                },
                None => {
                    &&& r == (old(self).next(), pkt_outbound)
                    &&& final(self).entries() == old(self).entries().push(
                        (
                            key,
                            FlowMeta {
                                id: old(self).next(),
                                outbound: pkt_outbound,
                                process_id: None,
                                dest_id: None,
                            },
                        ),
                    )
                    &&& final(self).next() == old(self).next() + 1
                },
            },
    {
        match self.position(&key) {
            Some(i) => (self.metas[i].1.id, self.metas[i].1.outbound),
            None => {
                let id = self.next_id;
                let ghost s0 = self.metas@;
                self.metas.push(
                    (key, FlowMeta { id, outbound: pkt_outbound, process_id: None, dest_id: None }),
                );
                self.next_id = self.next_id + 1;
                proof {
                    let s1 = self.metas@;
                    assert forall|a: int, b: int| 0 <= a < b < s1.len() implies s1[a].0
                        != s1[b].0 by {
                        if b < s0.len() {
                            assert(s1[a] == s0[a] && s1[b] == s0[b]);
                        } else {
                            assert(s1[a] == s0[a]);
                            if s0[a].0 == key {
                                assert(exists|i: int| 0 <= i < s0.len() && s0[i].0 == key);
                            }
                        }
                    }
                    assert forall|a: int| 0 <= a < s1.len() implies 1 <= #[trigger] s1[a].1.id
                        < self.next_id by {
                        if a < s0.len() {
                            assert(s1[a] == s0[a]);
                        }
                    }
                    assert forall|a: int, b: int| 0 <= a < b < s1.len() implies s1[a].1.id
                        != s1[b].1.id by {
                        assert(s1[a] == s0[a]);
                        if b < s0.len() {
                            assert(s1[b] == s0[b]);
                        }
                    }
                }
                (id, pkt_outbound)
            },
        }
    }

    /// Records the store rows a flow was attributed to.
    pub fn set_rows(&mut self, key: &FlowKey, process_id: Option<i64>, dest_id: i64)
        requires
            old(self).wf(),
        ensures
            final(self).wf(),
            final(self).next() == old(self).next(),
            match meta_pos(old(self).entries(), *key) {
                Some(i) => final(self).entries() == old(self).entries().update(
                    i,
                    (
                        *key,
                        FlowMeta {
                            process_id,
                            dest_id: Some(dest_id),
                            ..old(self).entries()[i].1
                        },
                    ),
                ),
                None => final(self).entries() == old(self).entries(),
            },
    {
        match self.position(key) {
            Some(i) => {
                let ghost s0 = self.metas@;
                let (k, m) = self.metas[i];
                assert(k == *key);
                self.metas.set(i, (k, FlowMeta { process_id, dest_id: Some(dest_id), ..m }));
                proof {
                    let s1 = self.metas@;
                    assert forall|a: int, b: int| 0 <= a < b < s1.len() implies s1[a].0
                        != s1[b].0 by {
                        assert(s0[a].0 == s1[a].0 && s0[b].0 == s1[b].0);
                    }
                    assert forall|a: int| 0 <= a < s1.len() implies 1 <= #[trigger] s1[a].1.id
                        < self.next_id by {
                        assert(s0[a].1.id == s1[a].1.id);
                    }
                    assert forall|a: int, b: int| 0 <= a < b < s1.len() implies s1[a].1.id
                        != s1[b].1.id by {
                        assert(s0[a].1.id == s1[a].1.id && s0[b].1.id == s1[b].1.id);
                    }
                }
            },
            None => {},
        }
    }

    /// Forgets a closed flow, giving back what was remembered of it.
    pub fn remove(&mut self, key: &FlowKey) -> (r: Option<FlowMeta>)
        requires
            old(self).wf(),
        ensures
            final(self).wf(),
            final(self).next() == old(self).next(),
            match meta_pos(old(self).entries(), *key) {
                Some(i) => {
                    &&& r == Some(old(self).entries()[i].1)
                    &&& final(self).entries() == old(self).entries().remove(i)
                },
                None => r is None && final(self).entries() == old(self).entries(),
            },
    {
        match self.position(key) {
            Some(i) => {
                let ghost s0 = self.metas@;
                let (_, m) = self.metas.remove(i);
                proof {
                    let s1 = self.metas@;
                    assert forall|a: int, b: int| 0 <= a < b < s1.len() implies s1[a].0
                        != s1[b].0 by {
                        let a0 = if a < i { a } else { a + 1 };
                        let b0 = if b < i { b } else { b + 1 };
                        assert(s1[a] == s0[a0] && s1[b] == s0[b0]);
                    }
                    assert forall|a: int| 0 <= a < s1.len() implies 1 <= #[trigger] s1[a].1.id
                        < self.next_id by {
                        let a0 = if a < i { a } else { a + 1 };
                        assert(s1[a] == s0[a0]);
                    }
                    assert forall|a: int, b: int| 0 <= a < b < s1.len() implies s1[a].1.id
                        != s1[b].1.id by {
                        let a0 = if a < i { a } else { a + 1 };
                        let b0 = if b < i { b } else { b + 1 };
                        assert(s1[a] == s0[a0] && s1[b] == s0[b0]);
                    }
                }
                Some(m)
            },
            None => None,
        }
    }
}

} // verus!
