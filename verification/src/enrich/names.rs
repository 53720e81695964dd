//! Passive IP→name resolution from observed DNS answers and TLS SNI, and the
//! registrable domain of a host name.
use vstd::prelude::*;
use crate::decode::chain::{layers_view, LayerV};
use crate::decode::dns::{DnsInfoV, RdataV};
use crate::decode::http::chars_eq;
use crate::decode::{DecodedPacket, DnsRdata, Layer};
use crate::net::{compare_ip, ip_rank, lemma_rank_injective, IpAddr};
use crate::text::{chars_to_string, string_chars};

verus! {

broadcast use vstd::string::group_string_axioms;

/// Where a name came from, used to resolve conflicts when several sources map
/// to the same IP.
#[derive(Debug, Clone, Copy, PartialEq, Eq)]
pub enum NameSource {
    Dns,
    TlsSni,
    QuicSni,
    HttpHost,
}

/// DNS and SNI names outrank names from HTTP `Host` headers.
pub open spec fn spec_priority(s: NameSource) -> u8 {
    match s {
        NameSource::HttpHost => 1,
        _ => 2,
    }
}

impl NameSource {
    pub fn priority(self) -> (r: u8)
        ensures
            r == spec_priority(self),
    {
        match self {
            NameSource::Dns | NameSource::TlsSni | NameSource::QuicSni => 2,
            NameSource::HttpHost => 1,
        }
    }
}

/// A learned name, its source, and when it was last seen (microseconds since
/// the Unix epoch).
#[derive(Debug, Clone)]
pub struct NameEntry {
    pub name: String,
    pub source: NameSource,
    pub last_seen_us: i64,
}

pub struct EntryV {
    pub name: Seq<char>,
    pub source: NameSource,
    pub last_seen_us: i64,
}

impl View for NameEntry {
    type V = EntryV;

    open spec fn view(&self) -> EntryV {
        EntryV { name: self.name@, source: self.source, last_seen_us: self.last_seen_us }
    }
}

/// Passive IP→name map learned from observed DNS answers and TLS SNI.
#[derive(Debug, Clone)]
pub struct NameResolver {
    by_ip: Vec<(IpAddr, NameEntry)>,
}

pub open spec fn entries_view(v: Seq<(IpAddr, NameEntry)>) -> Seq<(IpAddr, EntryV)> {
    v.map_values(|p: (IpAddr, NameEntry)| (p.0, p.1@))
}

impl View for NameResolver {
    type V = Seq<(IpAddr, EntryV)>;

    closed spec fn view(&self) -> Seq<(IpAddr, EntryV)> {
        entries_view(self.by_ip@)
    }
}

/// Position of the entry for `ip`.
pub open spec fn index_of(s: Seq<(IpAddr, EntryV)>, ip: IpAddr) -> Option<int> {
    if exists|k: int| 0 <= k < s.len() && s[k].0 == ip {
        Some(choose|k: int| 0 <= k < s.len() && s[k].0 == ip)
    } else {
        None
    }
}

/// The entry learned for `ip`.
pub open spec fn lookup(s: Seq<(IpAddr, EntryV)>, ip: IpAddr) -> Option<EntryV> {
    match index_of(s, ip) {
        Some(k) => Some(s[k].1),
        None => None,
    }
}

/// Each address has at most one entry.
pub open spec fn names_wf(s: Seq<(IpAddr, EntryV)>) -> bool {
    forall|i: int, j: int| 0 <= i < s.len() && 0 <= j < s.len() && s[i].0 == s[j].0 ==> i == j
}

/// Recording `name` for `ip`: refused (no change) when the existing entry has
/// a higher-priority source; otherwise the entry is replaced or added. Reports
/// whether the name differs from the one held before.
pub open spec fn insert_name(
    s: Seq<(IpAddr, EntryV)>,
    ip: IpAddr,
    name: Seq<char>,
    source: NameSource,
    ts: i64,
) -> (Seq<(IpAddr, EntryV)>, bool) {
    let e = EntryV { name, source, last_seen_us: ts };
    match index_of(s, ip) {
        Some(k) => if spec_priority(s[k].1.source) > spec_priority(source) {
            (s, false)
        } else {
            (s.update(k, (ip, e)), s[k].1.name != name)
        },
        None => (s.push((ip, e)), true),
    }
}

/// The addresses a DNS response answers, in order, paired with its first
/// question's name.
pub open spec fn dns_inserts(
    s: Seq<(IpAddr, EntryV)>,
    d: DnsInfoV,
    k: int,
    ts: i64,
    changed: bool,
) -> (Seq<(IpAddr, EntryV)>, bool)
    decreases d.answers.len() - k,
{
    if k < 0 || k >= d.answers.len() {
        (s, changed)
    } else {
        let q = d.questions[0].qname;
        match d.answers[k].rdata {
            RdataV::A(a) => {
                let (s2, c) = insert_name(s, IpAddr::V4(a), q, NameSource::Dns, ts);
                dns_inserts(s2, d, k + 1, ts, changed || c)
            },
            RdataV::Aaaa(a) => {
                let (s2, c) = insert_name(s, IpAddr::V6(a), q, NameSource::Dns, ts);
                dns_inserts(s2, d, k + 1, ts, changed || c)
            },
            _ => dns_inserts(s, d, k + 1, ts, changed),
        }
    }
}

/// State while reading a packet's layers: the destination seen so far, the
/// map, and whether anything changed.
pub open spec fn observe_step(
    st: (Option<IpAddr>, Seq<(IpAddr, EntryV)>, bool),
    l: LayerV,
    ts: i64,
) -> (Option<IpAddr>, Seq<(IpAddr, EntryV)>, bool) {
    let (dst, s, changed) = st;
    match l {
        LayerV::Ipv4(h) => (Some(IpAddr::V4(h.dst_ip)), s, changed),
        LayerV::Ipv6(h) => (Some(IpAddr::V6(h.dst_ip)), s, changed),
        LayerV::Dns(d) => if d.is_response && d.questions.len() > 0 {
            let (s2, c) = dns_inserts(s, d, 0, ts, changed);
            (dst, s2, c)
        } else {
            st
        },
        LayerV::TlsClientHello(c) => match (c.sni, dst) {
            (Some(sni), Some(ip)) => {
                let (s2, ch) = insert_name(s, ip, sni, NameSource::TlsSni, ts);
                (dst, s2, changed || ch)
            },
            _ => st,
        },
        _ => st,
    }
}

pub open spec fn observe_fold(ls: Seq<LayerV>, s: Seq<(IpAddr, EntryV)>, ts: i64) -> (
    Option<IpAddr>,
    Seq<(IpAddr, EntryV)>,
    bool,
)
    decreases ls.len(),
{
    if ls.len() == 0 {
        (None, s, false)
    } else {
        observe_step(observe_fold(ls.drop_last(), s, ts), ls.last(), ts)
    }
}

proof fn lemma_index_of(s: Seq<(IpAddr, EntryV)>, ip: IpAddr, k: int)
    requires
        names_wf(s),
        0 <= k < s.len(),
        s[k].0 == ip,
    ensures
        index_of(s, ip) == Some(k),
{
}

pub proof fn lemma_insert_wf(s: Seq<(IpAddr, EntryV)>, ip: IpAddr, name: Seq<char>, source: NameSource, ts: i64)
    requires
        names_wf(s),
    ensures
        names_wf(insert_name(s, ip, name, source, ts).0),
{
    match index_of(s, ip) {
        Some(k) => {},
        None => {
            let s2 = s.push((ip, EntryV { name, source, last_seen_us: ts }));
            assert forall|i: int, j: int|
                0 <= i < s2.len() && 0 <= j < s2.len() && s2[i].0 == s2[j].0 implies i == j by {
                if i < s.len() && j == s.len() {
                    assert(s[i].0 == ip);
                }
                if j < s.len() && i == s.len() {
                    assert(s[j].0 == ip);
                }
            }
        },
    }
}

/// After a name is recorded for an address, looking the address up gives that
/// name, unless an entry from a higher-priority source was kept.
pub proof fn law_insert_then_lookup(
    s: Seq<(IpAddr, EntryV)>,
    ip: IpAddr,
    name: Seq<char>,
    source: NameSource,
    ts: i64,
)
    requires
        names_wf(s),
    ensures
        ({
            let s2 = insert_name(s, ip, name, source, ts).0;
            match lookup(s, ip) {
                Some(old) => if spec_priority(old.source) > spec_priority(source) {
                    lookup(s2, ip) == Some(old)
                } else {
                    lookup(s2, ip) == Some(EntryV { name, source, last_seen_us: ts })
                },
                None => lookup(s2, ip) == Some(EntryV { name, source, last_seen_us: ts }),
            }
        }),
{
    lemma_insert_wf(s, ip, name, source, ts);
    let s2 = insert_name(s, ip, name, source, ts).0;
    match index_of(s, ip) {
        Some(k) => {
            if !(spec_priority(s[k].1.source) > spec_priority(source)) {
                lemma_index_of(s2, ip, k);
            }
        },
        None => {
            lemma_index_of(s2, ip, s.len() as int);
        },
    }
}

/// Recording a name never changes the entry of another address.
pub proof fn law_insert_keeps_others(
    s: Seq<(IpAddr, EntryV)>,
    ip: IpAddr,
    other: IpAddr,
    name: Seq<char>,
    source: NameSource,
    ts: i64,
)
    requires
        names_wf(s),
        other != ip,
    ensures
        lookup(insert_name(s, ip, name, source, ts).0, other) == lookup(s, other),
{
    lemma_insert_wf(s, ip, name, source, ts);
    let s2 = insert_name(s, ip, name, source, ts).0;
    match index_of(s, other) {
        Some(j) => {
            lemma_index_of(s2, other, j);
        },
        None => {
            if exists|k: int| 0 <= k < s2.len() && s2[k].0 == other {
                let k = choose|k: int| 0 <= k < s2.len() && s2[k].0 == other;
                if k < s.len() {
                    assert(s[k].0 == other);
                }
            }
        },
    }
}

/// The destination address of a network-layer header.
pub open spec fn network_destination(l: LayerV) -> Option<IpAddr> {
    match l {
        LayerV::Ipv4(h) => Some(IpAddr::V4(h.dst_ip)),
        LayerV::Ipv6(h) => Some(IpAddr::V6(h.dst_ip)),
        _ => None,
    }
}

proof fn lemma_dns_inserts_wf(s: Seq<(IpAddr, EntryV)>, d: DnsInfoV, k: int, ts: i64, changed: bool)
    requires
        names_wf(s),
    ensures
        names_wf(dns_inserts(s, d, k, ts, changed).0),
    decreases d.answers.len() - k,
{
    if 0 <= k < d.answers.len() {
        let q = d.questions[0].qname;
        match d.answers[k].rdata {
            RdataV::A(a) => {
                lemma_insert_wf(s, IpAddr::V4(a), q, NameSource::Dns, ts);
                let (s2, c) = insert_name(s, IpAddr::V4(a), q, NameSource::Dns, ts);
                lemma_dns_inserts_wf(s2, d, k + 1, ts, changed || c);
            },
            RdataV::Aaaa(a) => {
                lemma_insert_wf(s, IpAddr::V6(a), q, NameSource::Dns, ts);
                let (s2, c) = insert_name(s, IpAddr::V6(a), q, NameSource::Dns, ts);
                lemma_dns_inserts_wf(s2, d, k + 1, ts, changed || c);
            },
            _ => {
                lemma_dns_inserts_wf(s, d, k + 1, ts, changed);
            },
        }
    }
}

proof fn lemma_fold_wf(ls: Seq<LayerV>, s: Seq<(IpAddr, EntryV)>, ts: i64)
    requires
        names_wf(s),
    ensures
        names_wf(observe_fold(ls, s, ts).1),
    decreases ls.len(),
{
    if ls.len() > 0 {
        lemma_fold_wf(ls.drop_last(), s, ts);
        let (dst, s1, ch) = observe_fold(ls.drop_last(), s, ts);
        match ls.last() {
            LayerV::Dns(d) => {
                if d.is_response && d.questions.len() > 0 {
                    lemma_dns_inserts_wf(s1, d, 0, ts, ch);
                }
            },
            LayerV::TlsClientHello(c) => match (c.sni, dst) {
                (Some(sni), Some(ip)) => {
                    lemma_insert_wf(s1, ip, sni, NameSource::TlsSni, ts);
                },
                _ => {},
            },
            _ => {},
        }
    }
}

proof fn lemma_fold_destination(ls: Seq<LayerV>, s: Seq<(IpAddr, EntryV)>, ts: i64, k: int)
    requires
        0 <= k < ls.len(),
        network_destination(ls[k]) is Some,
        forall|j: int| k < j < ls.len() ==> network_destination(#[trigger] ls[j]) is None,
    ensures
        observe_fold(ls, s, ts).0 == network_destination(ls[k]),
    decreases ls.len(),
{
    if k < ls.len() - 1 {
        let p = ls.drop_last();
        assert forall|j: int| k < j < p.len() implies network_destination(#[trigger] p[j]) is None by {
            assert(p[j] == ls[j]);
        }
        assert(p[k] == ls[k]);
        lemma_fold_destination(p, s, ts, k);
        assert(network_destination(ls[ls.len() - 1]) is None);
    }
}

/// The address a DNS answer record gives, if it gives one.
pub open spec fn answered_address(r: RdataV) -> Option<IpAddr> {
    match r {
        RdataV::A(a) => Some(IpAddr::V4(a)),
        RdataV::Aaaa(a) => Some(IpAddr::V6(a)),
        _ => None,
    }
}

/// Some answer from position `k` on gives the address `x`.
pub open spec fn answered_from(d: DnsInfoV, k: int, x: IpAddr) -> bool {
    exists|j: int| k <= j < d.answers.len() && #[trigger] answered_address(d.answers[j].rdata) == Some(x)
}

proof fn lemma_dns_inserts_lookup(
    s: Seq<(IpAddr, EntryV)>,
    d: DnsInfoV,
    k: int,
    ts: i64,
    changed: bool,
    x: IpAddr,
)
    requires
        names_wf(s),
        d.questions.len() > 0,
        0 <= k,
    ensures
        lookup(dns_inserts(s, d, k, ts, changed).0, x) == if answered_from(d, k, x) {
            Some(EntryV { name: d.questions[0].qname, source: NameSource::Dns, last_seen_us: ts })
        } else {
            lookup(s, x)
        },
    decreases d.answers.len() - k,
{
    let q = d.questions[0].qname;
    if k >= d.answers.len() {
        assert(!answered_from(d, k, x));
    } else {
        let r = d.answers[k].rdata;
        assert(answered_from(d, k, x) == (answered_address(r) == Some(x) || answered_from(d, k + 1, x))) by {
            if answered_from(d, k, x) && answered_address(r) != Some(x) {
                let j = choose|j: int| k <= j < d.answers.len() && #[trigger] answered_address(d.answers[j].rdata) == Some(x);
                assert(j != k);
            }
            if answered_address(r) == Some(x) {
                assert(answered_address(d.answers[k].rdata) == Some(x));
            }
            if answered_from(d, k + 1, x) {
                let j = choose|j: int| k + 1 <= j < d.answers.len() && #[trigger] answered_address(d.answers[j].rdata) == Some(x);
                assert(k <= j);
            }
        }
        match answered_address(r) {
            Some(ip) => {
                let (s2, c) = insert_name(s, ip, q, NameSource::Dns, ts);
                lemma_insert_wf(s, ip, q, NameSource::Dns, ts);
                law_insert_then_lookup(s, ip, q, NameSource::Dns, ts);
                if x != ip {
                    law_insert_keeps_others(s, ip, x, q, NameSource::Dns, ts);
                }
                lemma_dns_inserts_lookup(s2, d, k + 1, ts, changed || c, x);
                assert(dns_inserts(s, d, k, ts, changed) == dns_inserts(s2, d, k + 1, ts, changed || c));
            },
            None => {
                lemma_dns_inserts_lookup(s, d, k + 1, ts, changed, x);
                assert(dns_inserts(s, d, k, ts, changed) == dns_inserts(s, d, k + 1, ts, changed));
            },
        }
    }
}

/// A DNS response names every address its answers give (A or AAAA records)
/// after its first question, and leaves every other address's name as it
/// was. DNS names are never refused, as no source ranks above DNS.
pub proof fn law_dns_response_names_answered_addresses(
    st: (Option<IpAddr>, Seq<(IpAddr, EntryV)>, bool),
    d: DnsInfoV,
    ts: i64,
    x: IpAddr,
)
    requires
        names_wf(st.1),
        d.is_response,
        d.questions.len() > 0,
    ensures
        lookup(observe_step(st, LayerV::Dns(d), ts).1, x) == if exists|j: int|
            0 <= j < d.answers.len() && #[trigger] answered_address(d.answers[j].rdata) == Some(x) {
            Some(EntryV { name: d.questions[0].qname, source: NameSource::Dns, last_seen_us: ts })
        } else {
            lookup(st.1, x)
        },
        observe_step(st, LayerV::Dns(d), ts).0 == st.0,
{
    lemma_dns_inserts_lookup(st.1, d, 0, ts, st.2, x);
}

/// A TLS ClientHello names the destination of the network header before it:
/// once a packet's last layer is a ClientHello with SNI `n`, and the latest
/// IPv4 or IPv6 header before it sends to `d`, the address `d` is known as `n`
/// (unless a name from a higher-priority source is kept), and no other
/// address's name changes. In particular the sender's address is not named
/// after the server it contacts.
pub proof fn law_client_hello_names_destination(
    ls: Seq<LayerV>,
    s: Seq<(IpAddr, EntryV)>,
    ts: i64,
    k: int,
    n: Seq<char>,
    other: IpAddr,
)
    requires
        names_wf(s),
        0 <= k < ls.len() - 1,
        network_destination(ls[k]) is Some,
        forall|j: int| k < j < ls.len() - 1 ==> network_destination(#[trigger] ls[j]) is None,
        ls.last() matches LayerV::TlsClientHello(c) && c.sni == Some(n),
        Some(other) != network_destination(ls[k]),
    ensures
        ({
            let before = observe_fold(ls.drop_last(), s, ts).1;
            let after = observe_fold(ls, s, ts).1;
            let d = network_destination(ls[k])->0;
            &&& lookup(after, d) == if lookup(before, d) matches Some(o) && spec_priority(o.source)
                > spec_priority(NameSource::TlsSni) {
                lookup(before, d)
            } else {
                Some(EntryV { name: n, source: NameSource::TlsSni, last_seen_us: ts })
            }
            &&& lookup(after, other) == lookup(before, other)
        }),
{
    let p = ls.drop_last();
    assert forall|j: int| k < j < p.len() implies network_destination(#[trigger] p[j]) is None by {
        assert(p[j] == ls[j]);
    }
    assert(p[k] == ls[k]);
    lemma_fold_destination(p, s, ts, k);
    lemma_fold_wf(p, s, ts);
    let before = observe_fold(p, s, ts).1;
    let d = network_destination(ls[k])->0;
    law_insert_then_lookup(before, d, n, NameSource::TlsSni, ts);
    law_insert_keeps_others(before, d, other, n, NameSource::TlsSni, ts);
}

fn ip_eq(a: &IpAddr, b: &IpAddr) -> (r: bool)
    ensures
        r == (*a == *b),
{
    let c = compare_ip(a, b);
    proof {
        if c == 0 {
            lemma_rank_injective(*a, *b);
        }
    }
    c == 0
}

impl NameResolver {
    pub fn new() -> (r: NameResolver)
        ensures
            r@ == Seq::<(IpAddr, EntryV)>::empty(),
    {
        let r = NameResolver { by_ip: Vec::new() };
        assert(r@ =~= Seq::<(IpAddr, EntryV)>::empty());
        r
    }

    fn find(&self, ip: &IpAddr) -> (r: Option<usize>)
        requires
            names_wf(self@),
        ensures
            match r {
                Some(k) => index_of(self@, *ip) == Some(k as int) && k < self@.len(),
                None => index_of(self@, *ip) is None,
            },
    {
        let mut i: usize = 0;
        while i < self.by_ip.len()
            invariant
                i <= self.by_ip@.len(),
                self@ == entries_view(self.by_ip@),
                names_wf(self@),
                forall|k: int| 0 <= k < i ==> self@[k].0 != *ip,
            decreases self.by_ip@.len() - i,
        {
            if ip_eq(&self.by_ip[i].0, ip) {
                proof {
                    lemma_index_of(self@, *ip, i as int);
                }
                return Some(i);
            }
            i = i + 1;
        }
        None
    }

    fn insert(&mut self, ip: IpAddr, name: String, source: NameSource, ts: i64) -> (r: bool)
        requires
            names_wf(old(self)@),
        ensures
            names_wf(final(self)@),
            (final(self)@, r) == insert_name(old(self)@, ip, name@, source, ts),
    {
        proof {
            lemma_insert_wf(self@, ip, name@, source, ts);
        }
        let ghost before = self.by_ip@;
        match self.find(&ip) {
            Some(k) => {
                if self.by_ip[k].1.source.priority() > source.priority() {
                    return false;
                }
                let changed = self.by_ip[k].1.name != name;
                let ghost nv = name@;
                self.by_ip.set(k, (ip, NameEntry { name, source, last_seen_us: ts }));
                assert(self@ =~= entries_view(before).update(
                    k as int,
                    (ip, EntryV { name: nv, source, last_seen_us: ts }),
                ));
                changed
            },
            None => {
                let ghost nv = name@;
                self.by_ip.push((ip, NameEntry { name, source, last_seen_us: ts }));
                assert(self@ =~= entries_view(before).push(
                    (ip, EntryV { name: nv, source, last_seen_us: ts }),
                ));
                true
            },
        }
    }

    fn observe_dns(&mut self, d: &crate::decode::DnsInfo, ts: i64, changed: bool) -> (r: bool)
        requires
            names_wf(old(self)@),
            d@.questions.len() > 0,
        ensures
            names_wf(final(self)@),
            (final(self)@, r) == dns_inserts(old(self)@, d@, 0, ts, changed),
    {
        let ghost target = dns_inserts(self@, d@, 0, ts, changed);
        let mut ch = changed;
        let mut k: usize = 0;
        while k < d.answers.len()
            invariant
                k <= d.answers@.len(),
                d@.questions.len() > 0,
                names_wf(self@),
                target == dns_inserts(self@, d@, k as int, ts, ch),
            decreases d.answers@.len() - k,
        {
            let q = d.questions[0].qname.clone();
            match &d.answers[k].rdata {
                DnsRdata::A(a) => {
                    let c = self.insert(IpAddr::V4(*a), q, NameSource::Dns, ts);
                    ch = ch || c;
                },
                DnsRdata::Aaaa(a) => {
                    let c = self.insert(IpAddr::V6(*a), q, NameSource::Dns, ts);
                    ch = ch || c;
                },
                _ => {},
            }
            k = k + 1;
        }
        ch
    }

    /// Learns everything available from one packet's layers: DNS answers map
    /// each answered address to the first question's name; a TLS ClientHello
    /// maps the destination address seen before it to its SNI. Returns whether
    /// any mapping was added or changed.
    pub fn observe_layers(&mut self, layers: &[Layer], ts: i64) -> (r: bool)
        requires
            names_wf(old(self)@),
        ensures
            names_wf(final(self)@),
            ({
                let (_, s2, ch) = observe_fold(layers_view(layers@), old(self)@, ts);
                final(self)@ == s2 && r == ch
            }),
    {
        let ghost lv = layers_view(layers@);
        let ghost start = self@;
        let mut dst: Option<IpAddr> = None;
        let mut changed = false;
        let mut i: usize = 0;
        assert(lv.take(0) =~= Seq::<LayerV>::empty());
        while i < layers.len()
            invariant
                i <= layers@.len(),
                lv == layers_view(layers@),
                names_wf(self@),
                observe_fold(lv.take(i as int), start, ts) == (dst, self@, changed),
            decreases layers@.len() - i,
        {
            assert(lv.take(i + 1).drop_last() =~= lv.take(i as int));
            assert(lv.take(i + 1).last() == layers@[i as int]@);
            match &layers[i] {
                Layer::Ipv4(h) => {
                    dst = Some(IpAddr::V4(h.dst_ip));
                },
                Layer::Ipv6(h) => {
                    dst = Some(IpAddr::V6(h.dst_ip));
                },
                Layer::Dns(d) => {
                    if d.is_response && d.questions.len() > 0 {
                        changed = self.observe_dns(d, ts, changed);
                    }
                },
                Layer::TlsClientHello(c) => {
                    match (&c.sni, dst) {
                        (Some(sni), Some(ip)) => {
                            let ch = self.insert(ip, sni.clone(), NameSource::TlsSni, ts);
                            changed = changed || ch;
                        },
                        _ => {},
                    }
                },
                _ => {},
            }
            i = i + 1;
        }
        assert(lv.take(i as int) =~= lv);
        changed
    }

    /// Learns everything available from one decoded packet, stamped with its
    /// capture time.
    pub fn observe_packet(&mut self, pkt: &DecodedPacket) -> (r: bool)
        requires
            names_wf(old(self)@),
        ensures
            names_wf(final(self)@),
            ({
                let (_, s2, ch) = observe_fold(layers_view(pkt.layers@), old(self)@, pkt.timestamp_us);
                final(self)@ == s2 && r == ch
            }),
    {
        self.observe_layers(pkt.layers.as_slice(), pkt.timestamp_us)
    }

    /// The name learned for `ip`.
    pub fn name_for(&self, ip: IpAddr) -> (r: Option<&str>)
        requires
            names_wf(self@),
        ensures
            match lookup(self@, ip) {
                Some(e) => r matches Some(n) && n@ == e.name,
                None => r is None,
            },
    {
        match self.find(&ip) {
            Some(k) => Some(self.by_ip[k].1.name.as_str()),
            None => None,
        }
    }

    /// The entry learned for `ip`.
    pub fn entry(&self, ip: IpAddr) -> (r: Option<&NameEntry>)
        requires
            names_wf(self@),
        ensures
            match lookup(self@, ip) {
                Some(e) => r matches Some(x) && x@ == e,
                None => r is None,
            },
    {
        match self.find(&ip) {
            Some(k) => Some(&self.by_ip[k].1),
            None => None,
        }
    }

    /// The registrable domain of the name learned for `ip`.
    pub fn registrable_domain(&self, ip: IpAddr) -> (r: Option<String>)
        requires
            names_wf(self@),
        ensures
            match lookup(self@, ip) {
                Some(e) => r matches Some(d) && d@ == spec_registrable_domain(e.name),
                None => r is None,
            },
    {
        match self.name_for(ip) {
            Some(n) => Some(registrable_domain_of(n)),
            None => None,
        }
    }

    /// Number of addresses with a name.
    pub fn len(&self) -> (r: usize)
        ensures
            r == self@.len(),
    {
        self.by_ip.len()
    }

    pub fn is_empty(&self) -> (r: bool)
        ensures
            r == (self@.len() == 0),
    {
        self.by_ip.len() == 0
    }
}

// ---------------------------------------------------------------------------
// Registrable domains
// ---------------------------------------------------------------------------

/// The suffixes treated as one public suffix made of two labels.
pub open spec fn is_multi_part_tld(s: Seq<char>) -> bool {
    ||| s == "co.uk"@
    ||| s == "org.uk"@
    ||| s == "gov.uk"@
    ||| s == "ac.uk"@
    ||| s == "com.au"@
    ||| s == "net.au"@
    ||| s == "org.au"@
    ||| s == "co.jp"@
    ||| s == "co.nz"@
    ||| s == "com.br"@
    ||| s == "co.in"@
    ||| s == "com.cn"@
}

/// `s` without its trailing dots.
pub open spec fn strip_dots(s: Seq<char>) -> Seq<char>
    decreases s.len(),
{
    if s.len() > 0 && s.last() == '.' {
        strip_dots(s.drop_last())
    } else {
        s
    }
}

/// Last index below `end` holding a dot.
pub open spec fn last_dot(s: Seq<char>, end: int) -> Option<int>
    decreases end,
{
    if end <= 0 {
        None
    } else if s[end - 1] == '.' {
        Some(end - 1)
    } else {
        last_dot(s, end - 1)
    }
}

/// Best-effort registrable domain (`api.github.com` → `github.com`): after
/// dropping trailing dots, the last two dot-separated labels, or the last
/// three when the last two form one of the listed multi-part suffixes. Names
/// of one or two labels are kept whole.
pub open spec fn spec_registrable_domain(name: Seq<char>) -> Seq<char> {
    let t = strip_dots(name);
    match last_dot(t, t.len() as int) {
        None => t,
        Some(d1) => match last_dot(t, d1) {
            None => t,
            Some(d2) => {
                let last_two = t.skip(d2 + 1);
                if is_multi_part_tld(last_two) {
                    match last_dot(t, d2) {
                        None => t,
                        Some(d3) => t.skip(d3 + 1),
                    }
                } else {
                    last_two
                }
            },
        },
    }
}

proof fn lemma_last_dot(s: Seq<char>, end: int)
    ensures
        last_dot(s, end) matches Some(d) ==> 0 <= d < end && s[d] == '.',
    decreases end,
{
    if end > 0 && s[end - 1] != '.' {
        lemma_last_dot(s, end - 1);
    }
}

fn last_dot_e(s: &[char], end: usize) -> (r: Option<usize>)
    requires
        end <= s@.len(),
    ensures
        match r {
            Some(d) => last_dot(s@, end as int) == Some(d as int) && d < end,
            None => last_dot(s@, end as int) is None,
        },
{
    let mut e = end;
    while e > 0 && s[e - 1] != '.'
        invariant
            e <= end <= s@.len(),
            last_dot(s@, end as int) == last_dot(s@, e as int),
        decreases e,
    {
        e = e - 1;
    }
    if e == 0 {
        None
    } else {
        Some(e - 1)
    }
}

fn is_multi_part_tld_e(s: &[char]) -> (r: bool)
    ensures
        r == is_multi_part_tld(s@),
{
    let list = [
        "co.uk", "org.uk", "gov.uk", "ac.uk", "com.au", "net.au", "org.au", "co.jp", "co.nz",
        "com.br", "co.in", "com.cn",
    ];
    let mut i: usize = 0;
    while i < 12
        invariant
            i <= 12,
            list@ == seq![
                "co.uk", "org.uk", "gov.uk", "ac.uk", "com.au", "net.au", "org.au", "co.jp", "co.nz",
                "com.br", "co.in", "com.cn",
            ],
            forall|k: int| 0 <= k < i ==> s@ != (#[trigger] list@[k])@,
        decreases 12 - i,
    {
        let c = string_chars(list[i]);
        if chars_eq(s, c.as_slice()) {
            return true;
        }
        i = i + 1;
    }
    assert(forall|k: int| 0 <= k < 12 ==> s@ != (#[trigger] list@[k])@);
    assert(list@[0]@ == "co.uk"@);
    false
}

/// Best-effort registrable domain of a host name (see
/// [`spec_registrable_domain`]); not a full public-suffix list.
pub fn registrable_domain_of(name: &str) -> (r: String)
    ensures
        r@ == spec_registrable_domain(name@),
{
    let v = string_chars(name);
    let mut n = v.len();
    assert(v@.take(n as int) =~= v@);
    while n > 0 && v[n - 1] == '.'
        invariant
            n <= v@.len(),
            strip_dots(name@) == strip_dots(v@.take(n as int)),
            v@ == name@,
        decreases n,
    {
        assert(v@.take(n - 1) =~= v@.take(n as int).drop_last());
        n = n - 1;
    }
    let t = &v.as_slice()[0..n];
    assert(t@ =~= strip_dots(name@)) by {
        assert(v@.take(n as int) =~= t@);
    }
    let d1 = match last_dot_e(t, n) {
        None => return chars_to_string(t),
        Some(d) => d,
    };
    let d2 = match last_dot_e(t, d1) {
        None => return chars_to_string(t),
        Some(d) => d,
    };
    let last_two = &t[d2 + 1..n];
    assert(last_two@ =~= t@.skip(d2 + 1));
    if is_multi_part_tld_e(last_two) {
        match last_dot_e(t, d2) {
            None => chars_to_string(t),
            Some(d3) => {
                let r = &t[d3 + 1..n];
                assert(r@ =~= t@.skip(d3 + 1));
                chars_to_string(r)
            },
        }
    } else {
        chars_to_string(last_two)
    }
}

} // verus!
