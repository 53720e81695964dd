//! Pairing of DNS queries with their responses by transaction id, using
//! capture timestamps (not wall-clock) so it also works for offline replay.
use vstd::prelude::*;
use std::collections::HashMap;
use crate::decode::chain::{answer_strings, answer_texts, joined};
use crate::decode::dns::{strings_view, DnsInfoV};
use crate::decode::DnsInfo;
use crate::text::join_sep;

verus! {

broadcast use {vstd::string::group_string_axioms, vstd::std_specs::hash::group_hash_axioms};

/// How many queries may wait for an answer at once.
pub const PENDING_CAP: usize = 4096;

/// A query waiting for its response: its packet number, capture time
/// (microseconds since the Unix epoch) and first question's name.
#[derive(Debug, Clone)]
pub struct PendingQuery {
    pub packet_number: u64,
    pub timestamp_us: i64,
    pub qname: String,
}

/// A correlated query/response pair: the query's packet number, the time
/// between them in microseconds (`None` if it does not fit an `i64`), and a
/// short summary of the answers (for example `93.184.216.34`).
#[derive(Debug, Clone)]
pub struct DnsMatch {
    pub query_packet: u64,
    pub elapsed_us: Option<i64>,
    pub answer_summary: String,
}

pub type PendingV = Map<u16, (u64, i64, Seq<char>)>;

pub open spec fn pending_view(m: Map<u16, PendingQuery>) -> PendingV {
    m.map_values(|q: PendingQuery| (q.packet_number, q.timestamp_us, q.qname@))
}

pub struct DnsTracker {
    pending: HashMap<u16, PendingQuery>,
}

impl View for DnsTracker {
    type V = PendingV;

    closed spec fn view(&self) -> PendingV {
        pending_view(self.pending@)
    }
}

/// The answers of a response in one line, comma separated.
pub open spec fn answer_summary(d: DnsInfoV) -> Seq<char> {
    join_sep(answer_texts(d.answers), ", "@)
}

/// The first question's name, or nothing.
pub open spec fn first_qname(d: DnsInfoV) -> Seq<char> {
    if d.questions.len() > 0 {
        d.questions[0].qname
    } else {
        seq![]
    }
}

/// One of the map's keys, whichever `HashMap::keys` yields first. The order
/// depends on the map's randomly seeded hasher, so only membership is stated.
#[verifier::external_body]
fn some_key(m: &HashMap<u16, PendingQuery>) -> (r: Option<u16>)
    ensures
        r is Some <==> m@.dom().len() > 0,
        r matches Some(k) ==> m@.dom().contains(k),
{
    m.keys().next().copied()
}

/// The answers of a response in one line.
pub fn summarize_answers(dns: &DnsInfo) -> (r: String)
    ensures
        r@ == answer_summary(dns@),
{
    let parts = answer_strings(dns);
    joined(&parts, ", ")
}

impl DnsTracker {
    pub fn new() -> (r: DnsTracker)
        ensures
            r@ == Map::<u16, (u64, i64, Seq<char>)>::empty(),
    {
        let r = DnsTracker { pending: HashMap::new() };
        assert(r@ =~= Map::<u16, (u64, i64, Seq<char>)>::empty());
        r
    }

    /// Observes a decoded DNS message. A query is recorded under its
    /// transaction id (first dropping some pending query when the cap is
    /// reached); a response whose id is pending is paired with that query,
    /// which stops pending.
    pub fn observe(&mut self, dns: &DnsInfo, packet_number: u64, timestamp_us: i64) -> (r: Option<DnsMatch>)
        requires
            old(self)@.dom().len() <= PENDING_CAP,
        ensures
            final(self)@.dom().len() <= PENDING_CAP,
            !dns.is_response ==> {
                let e = (packet_number, timestamp_us, first_qname(dns@));
                &&& r is None
                &&& old(self)@.dom().len() < PENDING_CAP ==> final(self)@ == old(self)@.insert(dns.transaction_id, e)
                &&& old(self)@.dom().len() >= PENDING_CAP ==> exists|k: u16|
                    old(self)@.dom().contains(k) && final(self)@ == old(self)@.remove(k).insert(dns.transaction_id, e)
            },
            dns.is_response ==> {
                &&& final(self)@ == old(self)@.remove(dns.transaction_id)
                &&& match old(self)@.get(dns.transaction_id) {
                    Some(q) => r matches Some(m) && m.query_packet == q.0 && m.answer_summary@
                        == answer_summary(dns@) && m.elapsed_us == (if i64::MIN <= timestamp_us
                        - q.1 <= i64::MAX {
                        Some((timestamp_us - q.1) as i64)
                    } else {
                        None
                    }),
                    None => r is None,
                }
            },
    {
        let ghost before = self@;
        assert(self@.dom() =~= self.pending@.dom());
        if !dns.is_response {
            if self.pending.len() >= PENDING_CAP {
                match some_key(&self.pending) {
                    Some(k) => {
                        self.pending.remove(&k);
                        assert(self@ =~= before.remove(k));
                    },
                    None => {},
                }
            }
            let qname = if dns.questions.len() > 0 {
                dns.questions[0].qname.clone()
            } else {
                String::new()
            };
            let ghost mid = self@;
            let ghost e = (packet_number, timestamp_us, qname@);
            self.pending.insert(dns.transaction_id, PendingQuery { packet_number, timestamp_us, qname });
            assert(self@ =~= mid.insert(dns.transaction_id, e));
            assert(self@.dom() =~= mid.dom().insert(dns.transaction_id));
            None
        } else {
            let got = self.pending.remove(&dns.transaction_id);
            assert(self@ =~= before.remove(dns.transaction_id));
            match got {
                None => None,
                Some(q) => {
                    let elapsed_us = timestamp_us.checked_sub(q.timestamp_us);
                    Some(DnsMatch { query_packet: q.packet_number, elapsed_us, answer_summary: summarize_answers(dns) })
                },
            }
        }
    }
}

} // verus!
