//! Conservative, on-demand anomaly heuristics over a decoded packet. Only
//! plaintext cases are flagged, never encrypted traffic, to keep false
//! positives low.
use vstd::prelude::*;
use crate::decode::chain::{dec16, layers_view, LayerV};
use crate::decode::http::{chars_eq_lower, HttpInfoV};
use crate::decode::{DecodedPacket, Layer};
use crate::text::{lower_seq, string_chars};

verus! {

broadcast use vstd::string::group_string_axioms;

#[derive(Debug, Clone, Copy, PartialEq, Eq)]
pub enum AnomalyKind {
    PlaintextCredential,
    UnusualPort,
    KnownBadIp,
}

#[derive(Debug, Clone, Copy, PartialEq, Eq)]
pub enum AnomalySeverity {
    Info,
    Warning,
}

#[derive(Debug, Clone, PartialEq, Eq)]
pub struct AnomalyAnnotation {
    pub kind: AnomalyKind,
    pub detail: String,
    pub severity: AnomalySeverity,
}

pub struct AnnotationV {
    pub kind: AnomalyKind,
    pub detail: Seq<char>,
    pub severity: AnomalySeverity,
}

impl View for AnomalyAnnotation {
    type V = AnnotationV;

    open spec fn view(&self) -> AnnotationV {
        AnnotationV { kind: self.kind, detail: self.detail@, severity: self.severity }
    }
}

pub open spec fn is_encrypted(l: LayerV) -> bool {
    l is TlsClientHello || l is TlsHandshake || l is Quic
}

/// Source and destination ports of the first TCP or UDP layer.
pub open spec fn first_ports(ls: Seq<LayerV>) -> Option<(u16, u16)>
    decreases ls.len(),
{
    if ls.len() == 0 {
        None
    } else {
        match ls[0] {
            LayerV::Tcp(t) => Some((t.src_port, t.dst_port)),
            LayerV::Udp(u) => Some((u.src_port, u.dst_port)),
            _ => first_ports(ls.drop_first()),
        }
    }
}

pub open spec fn first_http(ls: Seq<LayerV>) -> Option<HttpInfoV>
    decreases ls.len(),
{
    if ls.len() == 0 {
        None
    } else {
        match ls[0] {
            LayerV::Http(h) => Some(h),
            _ => first_http(ls.drop_first()),
        }
    }
}

pub open spec fn first_payload(ls: Seq<LayerV>) -> Option<(usize, usize)>
    decreases ls.len(),
{
    if ls.len() == 0 {
        None
    } else {
        match ls[0] {
            LayerV::Payload { offset, len } => Some((offset, len)),
            _ => first_payload(ls.drop_first()),
        }
    }
}

/// The ports usually serving cleartext HTTP.
pub open spec fn common_http_port(p: u16) -> bool {
    p == 80 || p == 8080 || p == 8000 || p == 8888 || p == 3000
}

/// An `Authorization` header (any case) whose value starts with `basic` (any
/// case).
pub open spec fn basic_auth(h: (Seq<char>, Seq<char>)) -> bool {
    lower_seq(h.0) == "authorization"@ && h.1.len() >= 5 && lower_seq(h.1.take(5)) == "basic"@
}

pub open spec fn lower_byte(b: u8) -> u8 {
    if 65 <= b && b <= 90 {
        (b + 32) as u8
    } else {
        b
    }
}

/// `PASS ` in any case at position `i`.
pub open spec fn pass_at(b: Seq<u8>, i: int) -> bool {
    lower_byte(b[i]) == 0x70 && lower_byte(b[i + 1]) == 0x61 && lower_byte(b[i + 2]) == 0x73
        && lower_byte(b[i + 3]) == 0x73 && b[i + 4] == 0x20
}

pub open spec fn has_pass(b: Seq<u8>) -> bool {
    exists|i: int| 0 <= i && i + 5 <= b.len() && #[trigger] pass_at(b, i)
}

/// The bytes of the first payload layer, cut at the end of the data; none
/// when it starts past the end.
pub open spec fn payload_bytes(data: Seq<u8>, ls: Seq<LayerV>) -> Option<Seq<u8>> {
    match first_payload(ls) {
        None => None,
        Some((o, l)) => {
            let end = if o + l < data.len() {
                o + l
            } else {
                data.len() as int
            };
            if o <= end {
                Some(data.subrange(o as int, end))
            } else {
                None
            }
        },
    }
}

pub open spec fn ftp_check(data: Seq<u8>, ls: Seq<LayerV>) -> Option<AnnotationV> {
    match first_ports(ls) {
        Some((sp, dp)) => if sp == 21 || dp == 21 {
            match payload_bytes(data, ls) {
                Some(b) => if has_pass(b) {
                    Some(
                        AnnotationV {
                            kind: AnomalyKind::PlaintextCredential,
                            detail: "FTP password sent in cleartext"@,
                            severity: AnomalySeverity::Warning,
                        },
                    )
                } else {
                    None
                },
                None => None,
            }
        } else {
            None
        },
        None => None,
    }
}

/// What [`analyze`] finds in a packet: nothing when any layer is encrypted;
/// else HTTP Basic credentials, then cleartext HTTP on an unusual port (when
/// neither port is a usual HTTP port), then an FTP `PASS` command on port 21.
pub open spec fn spec_analyze(data: Seq<u8>, ls: Seq<LayerV>) -> Option<AnnotationV> {
    if exists|k: int| 0 <= k < ls.len() && is_encrypted(#[trigger] ls[k]) {
        None
    } else {
        match first_http(ls) {
            Some(h) => if exists|k: int| 0 <= k < h.headers.len() && basic_auth(#[trigger] h.headers[k]) {
                Some(
                    AnnotationV {
                        kind: AnomalyKind::PlaintextCredential,
                        detail: "HTTP Basic credentials sent in cleartext"@,
                        severity: AnomalySeverity::Warning,
                    },
                )
            } else {
                match first_ports(ls) {
                    Some((sp, dp)) => if !common_http_port(sp) && !common_http_port(dp) {
                        Some(
                            AnnotationV {
                                kind: AnomalyKind::UnusualPort,
                                detail: "cleartext HTTP on unusual port "@ + dec16(dp),
                                severity: AnomalySeverity::Info,
                            },
                        )
                    } else {
                        ftp_check(data, ls)
                    },
                    None => ftp_check(data, ls),
                }
            },
            None => ftp_check(data, ls),
        }
    }
}

/// A port that conventionally serves cleartext HTTP.
pub open spec fn usual_http_port(p: u16) -> bool {
    p == 80u16 || p == 8080u16 || p == 8000u16 || p == 8888u16 || p == 3000u16
}

/// The source and destination port of a TCP or UDP layer.
pub open spec fn transport_ports(l: LayerV) -> Option<(u16, u16)> {
    match l {
        LayerV::Tcp(t) => Some((t.src_port, t.dst_port)),
        LayerV::Udp(u) => Some((u.src_port, u.dst_port)),
        _ => None,
    }
}

proof fn lemma_first_ports_is_first_transport(ls: Seq<LayerV>, k: int)
    requires
        0 <= k < ls.len(),
        transport_ports(ls[k]) is Some,
        forall|j: int| 0 <= j < k ==> transport_ports(#[trigger] ls[j]) is None,
    ensures
        first_ports(ls) == transport_ports(ls[k]),
    decreases k,
{
    if k > 0 {
        assert(transport_ports(ls[0]) is None);
        let t = ls.drop_first();
        assert forall|j: int| 0 <= j < k - 1 implies transport_ports(#[trigger] t[j]) is None by {
            assert(t[j] == ls[j + 1]);
        }
        lemma_first_ports_is_first_transport(t, k - 1);
    }
}

proof fn lemma_no_transport_no_ports(ls: Seq<LayerV>)
    requires
        forall|j: int| 0 <= j < ls.len() ==> transport_ports(#[trigger] ls[j]) is None,
    ensures
        first_ports(ls) is None,
    decreases ls.len(),
{
    if ls.len() > 0 {
        assert(transport_ports(ls[0]) is None);
        let t = ls.drop_first();
        assert forall|j: int| 0 <= j < t.len() implies transport_ports(#[trigger] t[j]) is None by {
            assert(t[j] == ls[j + 1]);
        }
        lemma_no_transport_no_ports(t);
    }
}

proof fn lemma_ftp_never_unusual_port(data: Seq<u8>, ls: Seq<LayerV>)
    ensures
        ftp_check(data, ls) matches Some(a) ==> a.kind == AnomalyKind::PlaintextCredential,
{
}

/// Cleartext HTTP is flagged as running on an unusual port only when neither
/// end of the connection uses a usual HTTP port (80, 8080, 8000, 8888, 3000):
/// for the packet's first TCP or UDP layer, a usual source port (a reply from
/// a web server) or a usual destination port means no such flag. The flag
/// also needs a TCP or UDP layer at all, and it names the destination port.
pub proof fn law_unusual_port_needs_both_ports_unusual(data: Seq<u8>, ls: Seq<LayerV>, k: int)
    requires
        0 <= k < ls.len(),
        transport_ports(ls[k]) is Some,
        forall|j: int| 0 <= j < k ==> transport_ports(#[trigger] ls[j]) is None,
    ensures
        ({
            let (sp, dp) = transport_ports(ls[k])->0;
            (usual_http_port(sp) || usual_http_port(dp)) ==> !(spec_analyze(data, ls) matches Some(
                a,
            ) && a.kind == AnomalyKind::UnusualPort)
        }),
        ({
            let (sp, dp) = transport_ports(ls[k])->0;
            match spec_analyze(data, ls) {
                Some(a) => a.kind == AnomalyKind::UnusualPort ==> (!usual_http_port(sp)
                    && !usual_http_port(dp) && a.detail == "cleartext HTTP on unusual port "@
                    + dec16(dp) && a.severity == AnomalySeverity::Info),
                None => true,
            }
        }),
{
    lemma_first_ports_is_first_transport(ls, k);
    lemma_ftp_never_unusual_port(data, ls);
}

/// Encrypted traffic is never flagged: a packet with a TLS ClientHello, a TLS
/// handshake or a QUIC layer anywhere gives no annotation.
pub proof fn law_encrypted_traffic_is_never_flagged(data: Seq<u8>, ls: Seq<LayerV>, k: int)
    requires
        0 <= k < ls.len(),
        ls[k] is TlsClientHello || ls[k] is TlsHandshake || ls[k] is Quic,
    ensures
        spec_analyze(data, ls) is None,
{
    assert(is_encrypted(ls[k]));
}

/// A credential is reported only for HTTP Basic authorization or for an FTP
/// exchange: when the first TCP or UDP layer uses port 21 on neither side and
/// the packet has no HTTP layer, nothing is flagged at all.
pub proof fn law_no_http_no_ftp_nothing_flagged(data: Seq<u8>, ls: Seq<LayerV>, k: int)
    requires
        0 <= k < ls.len(),
        transport_ports(ls[k]) is Some,
        forall|j: int| 0 <= j < k ==> transport_ports(#[trigger] ls[j]) is None,
        forall|j: int| 0 <= j < ls.len() ==> !(#[trigger] ls[j] is Http),
        transport_ports(ls[k]) matches Some((sp, dp)) && sp != 21u16 && dp != 21u16,
    ensures
        spec_analyze(data, ls) is None,
{
    lemma_first_ports_is_first_transport(ls, k);
    lemma_no_http(ls);
}

proof fn lemma_no_http(ls: Seq<LayerV>)
    requires
        forall|j: int| 0 <= j < ls.len() ==> !(#[trigger] ls[j] is Http),
    ensures
        first_http(ls) is None,
    decreases ls.len(),
{
    if ls.len() > 0 {
        assert(!(ls[0] is Http));
        let t = ls.drop_first();
        assert forall|j: int| 0 <= j < t.len() implies !(#[trigger] t[j] is Http) by {
            assert(t[j] == ls[j + 1]);
        }
        lemma_no_http(t);
    }
}

/// Without any TCP or UDP layer nothing is flagged as an unusual port.
pub proof fn law_unusual_port_needs_transport(data: Seq<u8>, ls: Seq<LayerV>)
    requires
        forall|j: int| 0 <= j < ls.len() ==> transport_ports(#[trigger] ls[j]) is None,
    ensures
        !(spec_analyze(data, ls) matches Some(a) && a.kind == AnomalyKind::UnusualPort),
{
    lemma_no_transport_no_ports(ls);
    lemma_ftp_never_unusual_port(data, ls);
}

fn lower_byte_e(b: u8) -> (r: u8)
    ensures
        r == lower_byte(b),
{
    if 65 <= b && b <= 90 {
        b + 32
    } else {
        b
    }
}

fn has_pass_e(b: &[u8]) -> (r: bool)
    ensures
        r == has_pass(b@),
{
    let n = b.len();
    if n < 5 {
        return false;
    }
    let mut i: usize = 0;
    while i <= n - 5
        invariant
            n == b@.len(),
            n >= 5,
            i <= n - 4,
            forall|k: int| 0 <= k < i ==> !#[trigger] pass_at(b@, k),
        decreases n - i,
    {
        if lower_byte_e(b[i]) == 0x70 && lower_byte_e(b[i + 1]) == 0x61 && lower_byte_e(b[i + 2])
            == 0x73 && lower_byte_e(b[i + 3]) == 0x73 && b[i + 4] == 0x20 {
            assert(pass_at(b@, i as int));
            return true;
        }
        i = i + 1;
    }
    false
}

fn tcp_udp_ports(ls: &[Layer]) -> (r: Option<(u16, u16)>)
    ensures
        r == first_ports(layers_view(ls@)),
{
    let ghost lv = layers_view(ls@);
    let mut i: usize = 0;
    assert(lv.skip(0) =~= lv);
    while i < ls.len()
        invariant
            i <= ls@.len(),
            lv == layers_view(ls@),
            first_ports(lv) == first_ports(lv.skip(i as int)),
        decreases ls@.len() - i,
    {
        assert(lv.skip(i as int)[0] == ls@[i as int]@);
        assert(lv.skip(i as int).drop_first() =~= lv.skip(i + 1));
        match &ls[i] {
            Layer::Tcp(t) => return Some((t.src_port, t.dst_port)),
            Layer::Udp(u) => return Some((u.src_port, u.dst_port)),
            _ => {},
        }
        i = i + 1;
    }
    assert(lv.skip(i as int).len() == 0);
    None
}

fn app_payload<'a>(data: &'a [u8], ls: &[Layer]) -> (r: Option<&'a [u8]>)
    requires
        forall|k: int|
            0 <= k < ls@.len() ==> (#[trigger] ls@[k]@ matches LayerV::Payload { offset, len }
                ==> offset + len <= usize::MAX),
    ensures
        match payload_bytes(data@, layers_view(ls@)) {
            Some(b) => r matches Some(x) && x@ == b,
            None => r is None,
        },
{
    let ghost lv = layers_view(ls@);
    let mut i: usize = 0;
    assert(lv.skip(0) =~= lv);
    while i < ls.len()
        invariant
            i <= ls@.len(),
            lv == layers_view(ls@),
            forall|k: int|
                0 <= k < ls@.len() ==> (#[trigger] ls@[k]@ matches LayerV::Payload { offset, len }
                    ==> offset + len <= usize::MAX),
            first_payload(lv) == first_payload(lv.skip(i as int)),
        decreases ls@.len() - i,
    {
        assert(lv.skip(i as int)[0] == ls@[i as int]@);
        assert(lv.skip(i as int).drop_first() =~= lv.skip(i + 1));
        match &ls[i] {
            Layer::Payload { offset, len } => {
                let o = *offset;
                let l = *len;
                assert(ls@[i as int]@ matches LayerV::Payload { offset, len });
                assert(o + l <= usize::MAX);
                let end = if o + l < data.len() {
                    o + l
                } else {
                    data.len()
                };
                if o <= end {
                    let s = &data[o..end];
                    assert(s@ =~= data@.subrange(o as int, end as int));
                    return Some(s);
                } else {
                    return None;
                }
            },
            _ => {},
        }
        i = i + 1;
    }
    None
}

fn ftp_e(data: &[u8], ls: &[Layer]) -> (r: Option<AnomalyAnnotation>)
    requires
        forall|k: int|
            0 <= k < ls@.len() ==> (#[trigger] ls@[k]@ matches LayerV::Payload { offset, len }
                ==> offset + len <= usize::MAX),
    ensures
        match ftp_check(data@, layers_view(ls@)) {
            Some(a) => r matches Some(x) && x@ == a,
            None => r is None,
        },
{
    match tcp_udp_ports(ls) {
        Some((sp, dp)) => {
            if sp == 21 || dp == 21 {
                match app_payload(data, ls) {
                    Some(b) => {
                        if has_pass_e(b) {
                            return Some(
                                AnomalyAnnotation {
                                    kind: AnomalyKind::PlaintextCredential,
                                    detail: "FTP password sent in cleartext".to_string(),
                                    severity: AnomalySeverity::Warning,
                                },
                            );
                        }
                    },
                    None => {},
                }
            }
        },
        None => {},
    }
    None
}

/// Whether a header is HTTP Basic authorization.
fn basic_auth_e(k: &String, v: &String, auth: &[char], basic: &[char]) -> (r: bool)
    requires
        auth@ == "authorization"@,
        basic@ == "basic"@,
    ensures
        r == basic_auth((k@, v@)),
{
    let kc = string_chars(k.as_str());
    let vc = string_chars(v.as_str());
    if !chars_eq_lower(kc.as_slice(), auth) {
        return false;
    }
    if vc.len() < 5 {
        return false;
    }
    let head = &vc.as_slice()[0..5];
    assert(head@ =~= v@.take(5));
    chars_eq_lower(head, basic)
}

fn first_http_e(ls: &[Layer]) -> (r: Option<&crate::decode::HttpInfo>)
    ensures
        match first_http(layers_view(ls@)) {
            Some(h) => r matches Some(x) && x@ == h,
            None => r is None,
        },
{
    let ghost lv = layers_view(ls@);
    let mut j: usize = 0;
    assert(lv.skip(0) =~= lv);
    while j < ls.len()
        invariant
            j <= ls@.len(),
            lv == layers_view(ls@),
            first_http(lv) == first_http(lv.skip(j as int)),
        decreases ls@.len() - j,
    {
        assert(lv.skip(j as int)[0] == ls@[j as int]@);
        assert(lv.skip(j as int).drop_first() =~= lv.skip(j + 1));
        match &ls[j] {
            Layer::Http(h) => return Some(h),
            _ => {},
        }
        j = j + 1;
    }
    None
}

fn has_basic_auth_e(h: &crate::decode::HttpInfo) -> (r: bool)
    ensures
        r == exists|k: int| 0 <= k < h@.headers.len() && basic_auth(#[trigger] h@.headers[k]),
{
    let auth = string_chars("authorization");
    let basic = string_chars("basic");
    let mut k: usize = 0;
    while k < h.headers.len()
        invariant
            k <= h.headers@.len(),
            auth@ == "authorization"@,
            basic@ == "basic"@,
            forall|m: int| 0 <= m < k ==> !basic_auth(#[trigger] h@.headers[m]),
        decreases h.headers@.len() - k,
    {
        let (hk, hv) = &h.headers[k];
        if basic_auth_e(hk, hv, auth.as_slice(), basic.as_slice()) {
            assert(basic_auth(h@.headers[k as int]));
            return true;
        }
        k = k + 1;
    }
    false
}

/// Inspects a packet for cheap, high-signal anomalies; `None` for encrypted
/// or unremarkable traffic.
pub fn analyze(pkt: &DecodedPacket) -> (r: Option<AnomalyAnnotation>)
    requires
        forall|k: int|
            0 <= k < pkt.layers@.len() ==> (#[trigger] pkt.layers@[k]@ matches LayerV::Payload {
                offset,
                len,
            } ==> offset + len <= usize::MAX),
    ensures
        match spec_analyze(pkt.data@, layers_view(pkt.layers@)) {
            Some(a) => r matches Some(x) && x@ == a,
            None => r is None,
        },
{
    let ls = pkt.layers.as_slice();
    let ghost lv = layers_view(ls@);
    assert(lv == layers_view(pkt.layers@));
    let mut i: usize = 0;
    while i < ls.len()
        invariant
            i <= ls@.len(),
            lv == layers_view(ls@),
            ls@ == pkt.layers@,
            forall|k: int| 0 <= k < i ==> !is_encrypted(#[trigger] lv[k]),
        decreases ls@.len() - i,
    {
        match &ls[i] {
            Layer::TlsClientHello(_) | Layer::TlsHandshake(_) | Layer::Quic(_) => {
                assert(is_encrypted(lv[i as int]));
                assert(exists|k: int| 0 <= k < lv.len() && is_encrypted(#[trigger] lv[k]));
                assert(spec_analyze(pkt.data@, lv) is None);
                return None;
            },
            _ => {},
        }
        i = i + 1;
    }
    let ports = tcp_udp_ports(ls);
    match first_http_e(ls) {
        Some(h) => {
            if has_basic_auth_e(h) {
                return Some(
                    AnomalyAnnotation {
                        kind: AnomalyKind::PlaintextCredential,
                        detail: "HTTP Basic credentials sent in cleartext".to_string(),
                        severity: AnomalySeverity::Warning,
                    },
                );
            }
            match ports {
                Some((sp, dp)) => {
                    let common_sp = sp == 80 || sp == 8080 || sp == 8000 || sp == 8888 || sp
                        == 3000;
                    let common_dp = dp == 80 || dp == 8080 || dp == 8000 || dp == 8888 || dp
                        == 3000;
                    if !common_sp && !common_dp {
                        let mut d = String::new();
                        d.append("cleartext HTTP on unusual port ");
                        crate::text::push_dec(&mut d, dp as u64);
                        return Some(
                            AnomalyAnnotation {
                                kind: AnomalyKind::UnusualPort,
                                detail: d,
                                severity: AnomalySeverity::Info,
                            },
                        );
                    }
                },
                None => {},
            }
            ftp_e(&pkt.data, ls)
        },
        None => ftp_e(&pkt.data, ls),
    }
}

} // verus!
