//! DNS message decoding: header, questions and resource records, with name
//! compression resolved relative to the start of the message.
use vstd::prelude::*;
use vstd::string::*;
use crate::net::{Ipv4Addr, Ipv6Addr};
use crate::text::{join_sep, push_sep_string, spec_utf8_lossy, utf8_lossy};
use super::{
    DnsInfo, DnsQuestion, DnsRdata, DnsRecord, be16, be32, copy_range, read_be16, read_be32,
    read_ipv4, read_ipv6, spec_ipv6_at,
};

verus! {

// ---------------------------------------------------------------------------
// Models
// ---------------------------------------------------------------------------

/// The content of a DNS question, with the name as characters.
pub struct QuestionV {
    pub qname: Seq<char>,
    pub qtype: u16,
    pub qclass: u16,
}

pub enum RdataV {
    A(Ipv4Addr),
    Aaaa(Ipv6Addr),
    Cname(Seq<char>),
    Ns(Seq<char>),
    Ptr(Seq<char>),
    Mx { preference: u16, exchange: Seq<char> },
    Txt(Seq<Seq<char>>),
    Srv { priority: u16, weight: u16, port: u16, target: Seq<char> },
    Soa {
        mname: Seq<char>,
        rname: Seq<char>,
        serial: u32,
        refresh: u32,
        retry: u32,
        expire: u32,
        minimum: u32,
    },
    Unknown { rtype: u16, data: Seq<u8> },
}

pub struct RecordV {
    pub name: Seq<char>,
    pub rtype: u16,
    pub rclass: u16,
    pub ttl: u32,
    pub rdata: RdataV,
}

pub struct DnsInfoV {
    pub transaction_id: u16,
    pub is_response: bool,
    pub rcode: u8,
    pub questions: Seq<QuestionV>,
    pub answers: Seq<RecordV>,
    pub authorities: Seq<RecordV>,
    pub additionals: Seq<RecordV>,
    pub header_range: (usize, usize),
}

impl View for DnsQuestion {
    type V = QuestionV;

    open spec fn view(&self) -> QuestionV {
        QuestionV { qname: self.qname@, qtype: self.qtype, qclass: self.qclass }
    }
}

pub open spec fn strings_view(v: Seq<String>) -> Seq<Seq<char>> {
    v.map_values(|x: String| x@)
}

impl View for DnsRdata {
    type V = RdataV;

    open spec fn view(&self) -> RdataV {
        match self {
            DnsRdata::A(a) => RdataV::A(*a),
            DnsRdata::Aaaa(a) => RdataV::Aaaa(*a),
            DnsRdata::Cname(n) => RdataV::Cname(n@),
            DnsRdata::Ns(n) => RdataV::Ns(n@),
            DnsRdata::Ptr(n) => RdataV::Ptr(n@),
            DnsRdata::Mx { preference, exchange } => RdataV::Mx {
                preference: *preference,
                exchange: exchange@,
            },
            DnsRdata::Txt(v) => RdataV::Txt(strings_view(v@)),
            DnsRdata::Srv { priority, weight, port, target } => RdataV::Srv {
                priority: *priority,
                weight: *weight,
                port: *port,
                target: target@,
            },
            DnsRdata::Soa { mname, rname, serial, refresh, retry, expire, minimum } => RdataV::Soa {
                mname: mname@,
                rname: rname@,
                serial: *serial,
                refresh: *refresh,
                retry: *retry,
                expire: *expire,
                minimum: *minimum,
            },
            DnsRdata::Unknown { rtype, data } => RdataV::Unknown { rtype: *rtype, data: data@ },
        }
    }
}

impl View for DnsRecord {
    type V = RecordV;

    open spec fn view(&self) -> RecordV {
        RecordV {
            name: self.name@,
            rtype: self.rtype,
            rclass: self.rclass,
            ttl: self.ttl,
            rdata: self.rdata@,
        }
    }
}

pub open spec fn records_view(v: Seq<DnsRecord>) -> Seq<RecordV> {
    v.map_values(|r: DnsRecord| r@)
}

pub open spec fn questions_view(v: Seq<DnsQuestion>) -> Seq<QuestionV> {
    v.map_values(|q: DnsQuestion| q@)
}

impl View for DnsInfo {
    type V = DnsInfoV;

    open spec fn view(&self) -> DnsInfoV {
        DnsInfoV {
            transaction_id: self.transaction_id,
            is_response: self.is_response,
            rcode: self.rcode,
            questions: questions_view(self.questions@),
            answers: records_view(self.answers@),
            authorities: records_view(self.authorities@),
            additionals: records_view(self.additionals@),
            header_range: self.header_range,
        }
    }
}

// ---------------------------------------------------------------------------
// Names
// ---------------------------------------------------------------------------

/// Reads the labels of a name from `pos` on, after the labels `acc` already
/// read. A zero byte ends the name; a byte with both top bits set is a
/// compression pointer (14-bit offset from `base`) whose target name ends
/// it; any other byte is the length of a label that follows. Gives the
/// dot-joined name and the position just after it in the linear stream.
pub open spec fn spec_labels(s: Seq<u8>, pos: int, base: int, depth: int, acc: Seq<Seq<char>>) -> Option<(Seq<char>, int)>
    decreases (if depth <= 128 { 129 - depth } else { 0 }), s.len() - pos,
{
    if depth > 128 || pos < 0 || pos >= s.len() {
        None
    } else {
        let b = s[pos];
        if b == 0 {
            Some((join_sep(acc, "."@), pos + 1))
        } else if b >= 0xC0 {
            if pos + 1 >= s.len() {
                None
            } else {
                let ptr = (b % 64) * 256 + s[pos + 1];
                match spec_dns_name(s, base + ptr, base, depth + 1) {
                    None => None,
                    Some((part, _)) => Some((join_sep(acc.push(part), "."@), pos + 2)),
                }
            }
        } else if pos + 1 + b > s.len() {
            None
        } else {
            spec_labels(
                s,
                pos + 1 + b,
                base,
                depth,
                acc.push(spec_utf8_lossy(s.subrange(pos + 1, pos + 1 + b))),
            )
        }
    }
}

/// The (possibly compressed) name at `pos`, read at recursion depth `depth`
/// (names nested deeper than 128 pointers are refused).
pub open spec fn spec_dns_name(s: Seq<u8>, pos: int, base: int, depth: int) -> Option<(Seq<char>, int)>
    decreases (if depth <= 128 { 129 - depth } else { 0 }), s.len() - pos + 1,
{
    if depth > 128 || pos < 0 || pos >= s.len() {
        None
    } else {
        spec_labels(s, pos, base, depth, seq![])
    }
}

proof fn lemma_labels_end(s: Seq<u8>, pos: int, base: int, depth: int, acc: Seq<Seq<char>>)
    ensures
        spec_labels(s, pos, base, depth, acc) matches Some((_, e)) ==> pos < e <= s.len(),
    decreases s.len() - pos,
{
    if !(depth > 128 || pos < 0 || pos >= s.len()) {
        let b = s[pos];
        if b != 0 && b < 0xC0 && pos + 1 + b <= s.len() {
            lemma_labels_end(
                s,
                pos + 1 + b,
                base,
                depth,
                acc.push(spec_utf8_lossy(s.subrange(pos + 1, pos + 1 + b))),
            );
        }
    }
}

proof fn lemma_name_end(s: Seq<u8>, pos: int, base: int, depth: int)
    ensures
        spec_dns_name(s, pos, base, depth) matches Some((_, e)) ==> pos < e <= s.len(),
{
    lemma_labels_end(s, pos, base, depth, seq![]);
}

/// Joins strings with `.` between them.
fn join_dots(labels: &Vec<String>) -> (r: String)
    ensures
        r@ == join_sep(strings_view(labels@), "."@),
{
    let mut r = String::new();
    let mut i: usize = 0;
    while i < labels.len()
        invariant
            i <= labels@.len(),
            r@ == join_sep(strings_view(labels@.take(i as int)), "."@),
        decreases labels.len() - i,
    {
        assert(r@ == Seq::<char>::empty() + join_sep(strings_view(labels@.take(i as int)), "."@));
        push_sep_string(&mut r, i, ".", &labels[i], Ghost(Seq::empty()), Ghost(strings_view(labels@.take(i as int))));
        i = i + 1;
        assert(strings_view(labels@.take(i as int)) =~= strings_view(labels@.take(i - 1)).push(labels@[i - 1]@));
        assert(r@ =~= join_sep(strings_view(labels@.take(i as int)), "."@));
    }
    assert(labels@.take(i as int) =~= labels@);
    r
}

/// Parses a (possibly compressed) DNS name at `pos`; `base` is the offset of
/// the DNS message within `data`, to which compression pointers are relative.
/// Returns the name and the position just after it in the linear stream.
fn parse_dns_name(data: &[u8], pos: usize, base: usize, depth: usize) -> (r: Option<(String, usize)>)
    requires
        depth <= 129,
    ensures
        match r {
            None => spec_dns_name(data@, pos as int, base as int, depth as int) is None,
            Some((n, e)) => spec_dns_name(data@, pos as int, base as int, depth as int) == Some((n@, e as int)),
        },
    decreases 129 - depth,
{
    if depth > 128 {
        return None;
    }
    if pos >= data.len() {
        return None;
    }
    let mut labels: Vec<String> = Vec::new();
    let mut p = pos;
    assert(strings_view(labels@) =~= Seq::<Seq<char>>::empty());
    loop
        invariant
            depth <= 128,
            p <= data@.len(),
            spec_labels(data@, p as int, base as int, depth as int, strings_view(labels@))
                == spec_dns_name(data@, pos as int, base as int, depth as int),
        decreases data@.len() - p,
    {
        if p >= data.len() {
            return None;
        }
        let b = data[p];
        if b == 0 {
            let name = join_dots(&labels);
            return Some((name, p + 1));
        }
        if b >= 0xC0 {
            if p + 1 >= data.len() {
                return None;
            }
            let ptr = ((b % 64) as usize) * 256 + (data[p + 1] as usize);
            let target = match base.checked_add(ptr) {
                Some(t) => t,
                None => {
                    assert(spec_dns_name(data@, base + ptr, base as int, depth + 1) is None);
                    return None;
                },
            };
            match parse_dns_name(data, target, base, depth + 1) {
                None => {
                    return None;
                },
                Some((part, _)) => {
                    let ghost before = strings_view(labels@);
                    labels.push(part);
                    assert(strings_view(labels@) =~= before.push(part@));
                    let name = join_dots(&labels);
                    return Some((name, p + 2));
                },
            }
        }
        let len = b as usize;
        if len > data.len() - p - 1 {
            return None;
        }
        let start = p + 1;
        let label = utf8_lossy(&data[start..start + len]);
        let ghost before = strings_view(labels@);
        labels.push(label);
        assert(strings_view(labels@) =~= before.push(label@));
        p = start + len;
    }
}

// ---------------------------------------------------------------------------
// Resource records
// ---------------------------------------------------------------------------

/// The character-strings of a TXT record between `p` and `end`: each is a
/// length byte and that many bytes; a string that would run past `end`
/// stops the list.
pub open spec fn spec_txt(s: Seq<u8>, p: int, end: int) -> Seq<Seq<char>>
    decreases end - p,
{
    if p >= end || p < 0 || p >= s.len() {
        seq![]
    } else {
        let l = s[p] as int;
        if p + 1 + l > end {
            seq![]
        } else {
            seq![spec_utf8_lossy(s.subrange(p + 1, p + 1 + l))] + spec_txt(s, p + 1 + l, end)
        }
    }
}

/// The record data of type `rtype`, `rdlen` bytes at `pos` (names inside it
/// may point anywhere in the message). Data that does not parse as its
/// type is kept raw as `Unknown`.
pub open spec fn spec_rdata(s: Seq<u8>, pos: int, rdlen: int, base: int, rtype: u16) -> RdataV {
    let unknown = RdataV::Unknown { rtype, data: s.subrange(pos, pos + rdlen) };
    if rtype == 1 && rdlen == 4 {
        RdataV::A(Ipv4Addr([s[pos], s[pos + 1], s[pos + 2], s[pos + 3]]))
    } else if rtype == 28 && rdlen == 16 {
        RdataV::Aaaa(spec_ipv6_at(s, pos))
    } else if rtype == 5 {
        match spec_dns_name(s, pos, base, 0) {
            Some((n, _)) => RdataV::Cname(n),
            None => unknown,
        }
    } else if rtype == 2 {
        match spec_dns_name(s, pos, base, 0) {
            Some((n, _)) => RdataV::Ns(n),
            None => unknown,
        }
    } else if rtype == 12 {
        match spec_dns_name(s, pos, base, 0) {
            Some((n, _)) => RdataV::Ptr(n),
            None => unknown,
        }
    } else if rtype == 15 && rdlen >= 3 {
        match spec_dns_name(s, pos + 2, base, 0) {
            Some((n, _)) => RdataV::Mx { preference: be16(s, pos), exchange: n },
            None => unknown,
        }
    } else if rtype == 16 {
        RdataV::Txt(spec_txt(s, pos, pos + rdlen))
    } else if rtype == 33 && rdlen >= 6 {
        match spec_dns_name(s, pos + 6, base, 0) {
            Some((n, _)) => RdataV::Srv {
                priority: be16(s, pos),
                weight: be16(s, pos + 2),
                port: be16(s, pos + 4),
                target: n,
            },
            None => unknown,
        }
    } else if rtype == 6 {
        match spec_dns_name(s, pos, base, 0) {
            None => unknown,
            Some((mname, p1)) => match spec_dns_name(s, p1, base, 0) {
                None => unknown,
                Some((rname, p)) => if p + 20 > s.len() {
                    unknown
                } else {
                    RdataV::Soa {
                        mname,
                        rname,
                        serial: be32(s, p),
                        refresh: be32(s, p + 4),
                        retry: be32(s, p + 8),
                        expire: be32(s, p + 12),
                        minimum: be32(s, p + 16),
                    }
                },
            },
        }
    } else {
        unknown
    }
}

/// The kind of record data follows the record type: an address of type 1
/// (A), 28 (AAAA); a name of type 5 (CNAME), 2 (NS), 12 (PTR); MX only for 15,
/// TXT only for 16, SRV only for 33, SOA only for 6. Data of any other shape
/// is kept raw with its own type.
pub proof fn law_rdata_kind_follows_record_type(
    s: Seq<u8>,
    pos: int,
    rdlen: int,
    base: int,
    rtype: u16,
)
    ensures
        spec_rdata(s, pos, rdlen, base, rtype) is A ==> rtype == 1u16,
        spec_rdata(s, pos, rdlen, base, rtype) is Aaaa ==> rtype == 28u16,
        spec_rdata(s, pos, rdlen, base, rtype) is Cname ==> rtype == 5u16,
        spec_rdata(s, pos, rdlen, base, rtype) is Ns ==> rtype == 2u16,
        spec_rdata(s, pos, rdlen, base, rtype) is Ptr ==> rtype == 12u16,
        spec_rdata(s, pos, rdlen, base, rtype) is Mx ==> rtype == 15u16,
        spec_rdata(s, pos, rdlen, base, rtype) is Txt ==> rtype == 16u16,
        spec_rdata(s, pos, rdlen, base, rtype) is Srv ==> rtype == 33u16,
        spec_rdata(s, pos, rdlen, base, rtype) is Soa ==> rtype == 6u16,
        spec_rdata(s, pos, rdlen, base, rtype) matches RdataV::Unknown { rtype: t, .. } ==> t
            == rtype,
{
}

/// An A record with four bytes of data holds those four bytes, in order, as
/// its address.
pub proof fn law_a_record_holds_its_bytes(s: Seq<u8>, pos: int, base: int)
    requires
        0 <= pos,
        pos + 4 <= s.len(),
    ensures
        spec_rdata(s, pos, 4, base, 1u16) matches RdataV::A(a) && a.0@ == s.subrange(pos, pos + 4),
{
    let r = spec_rdata(s, pos, 4, base, 1u16);
    if let RdataV::A(a) = r {
        assert(a.0@ =~= s.subrange(pos, pos + 4));
    }
}

/// A record of type 5, 2 or 12 whose data starts with a name that decodes
/// gives that name, as a CNAME, NS or PTR record respectively.
pub proof fn law_name_records_carry_their_name(
    s: Seq<u8>,
    pos: int,
    rdlen: int,
    base: int,
    rtype: u16,
)
    requires
        spec_dns_name(s, pos, base, 0) is Some,
    ensures
        ({
            let (n, _) = spec_dns_name(s, pos, base, 0)->0;
            &&& rtype == 5u16 ==> spec_rdata(s, pos, rdlen, base, rtype) == RdataV::Cname(n)
            &&& rtype == 2u16 ==> spec_rdata(s, pos, rdlen, base, rtype) == RdataV::Ns(n)
            &&& rtype == 12u16 ==> spec_rdata(s, pos, rdlen, base, rtype) == RdataV::Ptr(n)
        }),
{
}

/// The resource record at `start`: name, 10 fixed bytes, then `rdlen`
/// bytes of data, all within the buffer. Gives the record and the position
/// after it.
pub open spec fn spec_rr(s: Seq<u8>, start: int, base: int) -> Option<(RecordV, int)> {
    match spec_dns_name(s, start, base, 0) {
        None => None,
        Some((name, pos)) => if pos + 10 > s.len() {
            None
        } else {
            let rtype = be16(s, pos);
            let rdlen = be16(s, pos + 8) as int;
            if pos + 10 + rdlen > s.len() {
                None
            } else {
                Some(
                    (
                        RecordV {
                            name,
                            rtype,
                            rclass: be16(s, pos + 2),
                            ttl: be32(s, pos + 4),
                            rdata: spec_rdata(s, pos + 10, rdlen, base, rtype),
                        },
                        pos + 10 + rdlen,
                    ),
                )
            }
        },
    }
}

/// Up to `k` consecutive records from `pos`, stopping at the first that does
/// not parse. Gives the records and the position after the last one read.
pub open spec fn spec_records(s: Seq<u8>, pos: int, base: int, k: nat) -> (Seq<RecordV>, int)
    decreases k,
{
    if k == 0 {
        (seq![], pos)
    } else {
        match spec_rr(s, pos, base) {
            None => (seq![], pos),
            Some((r, np)) => {
                let (rest, end) = spec_records(s, np, base, (k - 1) as nat);
                (seq![r] + rest, end)
            },
        }
    }
}

/// Up to `k` questions from `pos`. A name that does not parse makes the
/// whole message undecodable (`None`); a question whose type and class do
/// not fit stops the list.
pub open spec fn spec_questions(s: Seq<u8>, pos: int, base: int, k: nat) -> Option<(Seq<QuestionV>, int)>
    decreases k,
{
    if k == 0 {
        Some((seq![], pos))
    } else {
        match spec_dns_name(s, pos, base, 0) {
            None => None,
            Some((n, np)) => if np + 4 > s.len() {
                Some((seq![], np))
            } else {
                match spec_questions(s, np + 4, base, (k - 1) as nat) {
                    None => None,
                    Some((rest, end)) => Some(
                        (
                            seq![QuestionV { qname: n, qtype: be16(s, np), qclass: be16(s, np + 2) }]
                                + rest,
                            end,
                        ),
                    ),
                }
            },
        }
    }
}

/// The DNS message at `o`: a 12-byte header with sane section counts (at
/// most 100 questions and 4096 records per section), at least one question,
/// then as many records of each section as parse.
pub open spec fn spec_try_decode_dns(s: Seq<u8>, o: int) -> Option<DnsInfoV> {
    if o > s.len() || s.len() - o < 12 {
        None
    } else {
        let flags = be16(s, o + 2);
        let qd = be16(s, o + 4);
        let an = be16(s, o + 6);
        let ns = be16(s, o + 8);
        let ar = be16(s, o + 10);
        if qd > 100 || an > 4096 || ns > 4096 || ar > 4096 {
            None
        } else {
            match spec_questions(s, o + 12, o, qd as nat) {
                None => None,
                Some((qs, p0)) => if qs.len() == 0 {
                    None
                } else {
                    let (ans, p1) = spec_records(s, p0, o, an as nat);
                    let (auth, p2) = spec_records(s, p1, o, ns as nat);
                    let (add, p3) = spec_records(s, p2, o, ar as nat);
                    Some(
                        DnsInfoV {
                            transaction_id: be16(s, o),
                            is_response: flags >= 0x8000,
                            rcode: (flags % 16) as u8,
                            questions: qs,
                            answers: ans,
                            authorities: auth,
                            additionals: add,
                            header_range: (
                                o as usize,
                                (if p3 <= s.len() { p3 } else { s.len() as int }) as usize,
                            ),
                        },
                    )
                },
            }
        }
    }
}


fn parse_txt(data: &[u8], pos: usize, end: usize) -> (r: Vec<String>)
    requires
        pos <= end <= data@.len(),
    ensures
        strings_view(r@) == spec_txt(data@, pos as int, end as int),
{
    let mut out: Vec<String> = Vec::new();
    let mut p = pos;
    assert(strings_view(out@) =~= Seq::<Seq<char>>::empty());
    while p < end
        invariant
            pos <= p <= end <= data@.len(),
            strings_view(out@) + spec_txt(data@, p as int, end as int) == spec_txt(
                data@,
                pos as int,
                end as int,
            ),
        decreases end - p,
    {
        let len = data[p] as usize;
        let q = p + 1;
        if len > end - q {
            assert(strings_view(out@) + spec_txt(data@, p as int, end as int) =~= strings_view(
                out@,
            ));
            return out;
        }
        let st = utf8_lossy(&data[q..q + len]);
        let ghost before = strings_view(out@);
        out.push(st);
        assert(strings_view(out@) =~= before.push(st@));
        assert(before + spec_txt(data@, p as int, end as int) =~= strings_view(out@) + spec_txt(
            data@,
            (q + len) as int,
            end as int,
        ));
        p = q + len;
    }
    assert(strings_view(out@) + spec_txt(data@, p as int, end as int) =~= strings_view(out@));
    out
}

fn parse_rdata(data: &[u8], pos: usize, rdlen: usize, base: usize, rtype: u16) -> (r: DnsRdata)
    requires
        pos + rdlen <= data@.len(),
    ensures
        r@ == spec_rdata(data@, pos as int, rdlen as int, base as int, rtype),
{
    assert(data@.len() == data.len());
    if rtype == 1 && rdlen == 4 {
        return DnsRdata::A(read_ipv4(data, pos));
    }
    if rtype == 28 && rdlen == 16 {
        return DnsRdata::Aaaa(read_ipv6(data, pos));
    }
    if rtype == 5 || rtype == 2 || rtype == 12 {
        match parse_dns_name(data, pos, base, 0) {
            Some((n, _)) => {
                if rtype == 5 {
                    return DnsRdata::Cname(n);
                } else if rtype == 2 {
                    return DnsRdata::Ns(n);
                } else {
                    return DnsRdata::Ptr(n);
                }
            },
            None => {},
        }
    } else if rtype == 15 && rdlen >= 3 {
        assert(data@.len() == data.len());
        let preference = read_be16(data, pos);
        match parse_dns_name(data, pos + 2, base, 0) {
            Some((exchange, _)) => {
                return DnsRdata::Mx { preference, exchange };
            },
            None => {},
        }
    } else if rtype == 16 {
        let strings = parse_txt(data, pos, pos + rdlen);
        return DnsRdata::Txt(strings);
    } else if rtype == 33 && rdlen >= 6 {
        assert(data@.len() == data.len());
        let priority = read_be16(data, pos);
        let weight = read_be16(data, pos + 2);
        let port = read_be16(data, pos + 4);
        match parse_dns_name(data, pos + 6, base, 0) {
            Some((target, _)) => {
                return DnsRdata::Srv { priority, weight, port, target };
            },
            None => {},
        }
    } else if rtype == 6 {
        match parse_dns_name(data, pos, base, 0) {
            Some((mname, p1)) => {
                proof {
                    lemma_name_end(data@, pos as int, base as int, 0);
                }
                match parse_dns_name(data, p1, base, 0) {
                    Some((rname, p)) => {
                        proof {
                            lemma_name_end(data@, p1 as int, base as int, 0);
                        }
                        if p <= data.len() && data.len() - p >= 20 {
                            return DnsRdata::Soa {
                                mname,
                                rname,
                                serial: read_be32(data, p),
                                refresh: read_be32(data, p + 4),
                                retry: read_be32(data, p + 8),
                                expire: read_be32(data, p + 12),
                                minimum: read_be32(data, p + 16),
                            };
                        }
                    },
                    None => {},
                }
            },
            None => {},
        }
    }
    DnsRdata::Unknown { rtype, data: copy_range(data, pos, pos + rdlen) }
}

fn parse_rr(data: &[u8], start: usize, base: usize) -> (r: Option<(DnsRecord, usize)>)
    ensures
        match r {
            None => spec_rr(data@, start as int, base as int) is None,
            Some((rec, e)) => spec_rr(data@, start as int, base as int) == Some((rec@, e as int)),
        },
{
    let (name, pos) = match parse_dns_name(data, start, base, 0) {
        Some(x) => x,
        None => {
            return None;
        },
    };
    proof {
        lemma_name_end(data@, start as int, base as int, 0);
    }
    if data.len() - pos < 10 {
        return None;
    }
    let rtype = read_be16(data, pos);
    let rclass = read_be16(data, pos + 2);
    let ttl = read_be32(data, pos + 4);
    let rdlen = read_be16(data, pos + 8) as usize;
    let p = pos + 10;
    if data.len() - p < rdlen {
        return None;
    }
    let rdata = parse_rdata(data, p, rdlen, base, rtype);
    Some((DnsRecord { name, rtype, rclass, ttl, rdata }, p + rdlen))
}

proof fn lemma_records_end(s: Seq<u8>, pos: int, base: int, k: nat)
    requires
        0 <= pos <= s.len(),
    ensures
        pos <= spec_records(s, pos, base, k).1 <= s.len(),
    decreases k,
{
    if k > 0 {
        match spec_rr(s, pos, base) {
            None => {},
            Some((r, np)) => {
                lemma_name_end(s, pos, base, 0);
                lemma_records_end(s, np, base, (k - 1) as nat);
            },
        }
    }
}

fn parse_records(data: &[u8], pos: &mut usize, base: usize, count: usize, out: &mut Vec<DnsRecord>)
    requires
        *old(pos) <= data@.len(),
    ensures
        records_view(final(out)@) == records_view(old(out)@) + spec_records(
            data@,
            *old(pos) as int,
            base as int,
            count as nat,
        ).0,
        *final(pos) as int == spec_records(data@, *old(pos) as int, base as int, count as nat).1,
{
    let mut k = count;
    let ghost start_out = records_view(out@);
    while k > 0
        invariant
            *pos <= data@.len(),
            records_view(out@) + spec_records(data@, *pos as int, base as int, k as nat).0
                == start_out + spec_records(data@, *old(pos) as int, base as int, count as nat).0,
            spec_records(data@, *pos as int, base as int, k as nat).1 == spec_records(
                data@,
                *old(pos) as int,
                base as int,
                count as nat,
            ).1,
            start_out == records_view(old(out)@),
        decreases k,
    {
        match parse_rr(data, *pos, base) {
            Some((rec, new_pos)) => {
                proof {
                    lemma_name_end(data@, *pos as int, base as int, 0);
                }
                let ghost before = records_view(out@);
                let ghost rv = rec@;
                out.push(rec);
                assert(records_view(out@) =~= before.push(rv));
                assert(before + spec_records(data@, *pos as int, base as int, k as nat).0 =~= records_view(out@) + spec_records(data@, new_pos as int, base as int, (k - 1) as nat).0);
                *pos = new_pos;
                k = k - 1;
            },
            None => {
                assert(records_view(out@) + spec_records(data@, *pos as int, base as int, k as nat).0 =~= records_view(out@));
                return;
            },
        }
    }
    assert(records_view(out@) + spec_records(data@, *pos as int, base as int, k as nat).0 =~= records_view(out@));
}

proof fn lemma_questions_end(s: Seq<u8>, pos: int, base: int, k: nat)
    requires
        0 <= pos <= s.len(),
    ensures
        spec_questions(s, pos, base, k) matches Some((_, e)) ==> pos <= e <= s.len(),
    decreases k,
{
    if k > 0 {
        lemma_name_end(s, pos, base, 0);
        if let Some((n, np)) = spec_dns_name(s, pos, base, 0) {
            if np + 4 <= s.len() {
                lemma_questions_end(s, np + 4, base, (k - 1) as nat);
            }
        }
    }
}

fn parse_questions(data: &[u8], pos: usize, base: usize, k: u16) -> (r: Option<(Vec<DnsQuestion>, usize)>)
    requires
        pos <= data@.len(),
    ensures
        match r {
            None => spec_questions(data@, pos as int, base as int, k as nat) is None,
            Some((v, e)) => spec_questions(data@, pos as int, base as int, k as nat) == Some(
                (questions_view(v@), e as int),
            ),
        },
    decreases k,
{
    if k == 0 {
        let v: Vec<DnsQuestion> = Vec::new();
        assert(questions_view(v@) =~= Seq::<QuestionV>::empty());
        return Some((v, pos));
    }
    let (qname, np) = match parse_dns_name(data, pos, base, 0) {
        Some(x) => x,
        None => {
            return None;
        },
    };
    proof {
        lemma_name_end(data@, pos as int, base as int, 0);
    }
    if data.len() - np < 4 {
        let v: Vec<DnsQuestion> = Vec::new();
        assert(questions_view(v@) =~= Seq::<QuestionV>::empty());
        return Some((v, np));
    }
    let qtype = read_be16(data, np);
    let qclass = read_be16(data, np + 2);
    let q = DnsQuestion { qname, qtype, qclass };
    let ghost qv = q@;
    match parse_questions(data, np + 4, base, k - 1) {
        None => None,
        Some((rest, e)) => {
            let mut v = rest;
            let ghost rv = questions_view(v@);
            v.insert(0, q);
            assert(questions_view(v@) =~= seq![qv] + rv);
            Some((v, e))
        },
    }
}

/// Decodes a DNS message starting at `offset` within `data`: the question
/// section plus the answer, authority and additional records. Compression
/// pointers are resolved relative to the message start (`offset`).
pub fn try_decode_dns(data: &[u8], offset: usize) -> (r: Option<DnsInfo>)
    ensures
        match r {
            None => spec_try_decode_dns(data@, offset as int) is None,
            Some(info) => spec_try_decode_dns(data@, offset as int) == Some(info@),
        },
{
    if offset > data.len() || data.len() - offset < 12 {
        return None;
    }
    let base = offset;
    let o = offset;
    let transaction_id = read_be16(data, o);
    let flags = read_be16(data, o + 2);
    let qdcount = read_be16(data, o + 4);
    let ancount = read_be16(data, o + 6);
    let nscount = read_be16(data, o + 8);
    let arcount = read_be16(data, o + 10);
    if qdcount > 100 || ancount > 4096 || nscount > 4096 || arcount > 4096 {
        return None;
    }
    let (questions, qend) = match parse_questions(data, o + 12, base, qdcount) {
        Some(x) => x,
        None => {
            return None;
        },
    };
    let mut pos = qend;
    if questions.len() == 0 {
        return None;
    }
    proof {
        lemma_questions_end(data@, (o + 12) as int, base as int, qdcount as nat);
    }
    let mut answers: Vec<DnsRecord> = Vec::new();
    let mut authorities: Vec<DnsRecord> = Vec::new();
    let mut additionals: Vec<DnsRecord> = Vec::new();
    assert(records_view(answers@) =~= Seq::<RecordV>::empty());
    assert(records_view(authorities@) =~= Seq::<RecordV>::empty());
    assert(records_view(additionals@) =~= Seq::<RecordV>::empty());
    let p0 = pos;
    parse_records(data, &mut pos, base, ancount as usize, &mut answers);
    proof { lemma_records_end(data@, p0 as int, base as int, ancount as nat); }
    let p1 = pos;
    parse_records(data, &mut pos, base, nscount as usize, &mut authorities);
    proof { lemma_records_end(data@, p1 as int, base as int, nscount as nat); }
    let p2 = pos;
    parse_records(data, &mut pos, base, arcount as usize, &mut additionals);
    proof { lemma_records_end(data@, p2 as int, base as int, arcount as nat); }
    let end = if pos <= data.len() { pos } else { data.len() };
    assert(records_view(answers@) =~= spec_records(data@, p0 as int, base as int, ancount as nat).0);
    assert(records_view(authorities@) =~= spec_records(data@, p1 as int, base as int, nscount as nat).0);
    assert(records_view(additionals@) =~= spec_records(data@, p2 as int, base as int, arcount as nat).0);
    let info = DnsInfo {
        transaction_id,
        is_response: flags >= 0x8000,
        rcode: (flags % 16) as u8,
        questions,
        answers,
        authorities,
        additionals,
        header_range: (offset, end),
    };
    Some(info)
}

} // verus!
