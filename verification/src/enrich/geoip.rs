//! Country and ASN information of destinations, and which addresses are worth
//! looking up.
use vstd::prelude::*;
use crate::net::{be_value, IpAddr};

verus! {

/// Country and ASN/org of a destination, resolved from local offline
/// databases. `country` is an ISO 3166-1 alpha-2 code such as `US`.
#[derive(Debug, Clone, Default, PartialEq, Eq)]
pub struct GeoInfo {
    pub country: Option<String>,
    pub asn: Option<u32>,
    pub as_org: Option<String>,
}

/// The empty result: nothing known.
pub fn empty_geo() -> (r: GeoInfo)
    ensures
        r.country is None,
        r.asn is None,
        r.as_org is None,
{
    GeoInfo { country: None, asn: None, as_org: None }
}

/// Whether an IPv4 address (octets `a.b.c.d`) is globally routable: not
/// private (10/8, 172.16/12, 192.168/16), loopback (127/8), link-local
/// (169.254/16), broadcast, documentation (192.0.2/24, 198.51.100/24,
/// 203.0.113/24), unspecified or multicast (224/4).
pub open spec fn v4_global(b: Seq<u8>) -> bool {
    !(b[0] == 10 || (b[0] == 172 && 16 <= b[1] && b[1] < 32) || (b[0] == 192 && b[1] == 168)
        || b[0] == 127 || (b[0] == 169 && b[1] == 254) || (b[0] == 255 && b[1] == 255 && b[2]
        == 255 && b[3] == 255) || (b[0] == 192 && b[1] == 0 && b[2] == 2) || (b[0] == 198 && b[1]
        == 51 && b[2] == 100) || (b[0] == 203 && b[1] == 0 && b[2] == 113) || (b[0] == 0 && b[1]
        == 0 && b[2] == 0 && b[3] == 0) || (224 <= b[0] && b[0] < 240))
}

/// Whether an IPv6 address is globally routable: not loopback (::1),
/// unspecified (::), multicast (ff00::/8), link-local (fe80::/10) or unique
/// local (fc00::/7).
pub open spec fn v6_global(b: Seq<u8>) -> bool {
    !(be_value(b) == 1 || be_value(b) == 0 || b[0] == 0xff || (b[0] == 0xfe && 0x80 <= b[1]
        && b[1] < 0xc0) || (b[0] == 0xfc || b[0] == 0xfd))
}

pub open spec fn spec_is_global(ip: IpAddr) -> bool {
    match ip {
        IpAddr::V4(a) => v4_global(a.0@),
        IpAddr::V6(a) => v6_global(a.0@),
    }
}

fn all_zero_before_last(b: &[u8; 16]) -> (r: bool)
    ensures
        r == (forall|k: int| 0 <= k < 15 ==> b@[k] == 0),
{
    let mut i: usize = 0;
    while i < 15
        invariant
            i <= 15,
            forall|k: int| 0 <= k < i ==> b@[k] == 0,
        decreases 15 - i,
    {
        if b[i] != 0 {
            return false;
        }
        i = i + 1;
    }
    true
}

proof fn lemma_be_small(b: Seq<u8>)
    requires
        b.len() == 16,
    ensures
        (forall|k: int| 0 <= k < 15 ==> b[k] == 0) ==> be_value(b) == b[15],
        be_value(b) <= 1 ==> (forall|k: int| 0 <= k < 15 ==> b[k] == 0),
{
    crate::net::lemma_be_append(b.take(15), seq![b[15]]);
    assert(b.take(15) + seq![b[15]] =~= b);
    crate::net::lemma_be_value_bound(seq![b[15]]);
    if forall|k: int| 0 <= k < 15 ==> b[k] == 0 {
        lemma_be_zero(b.take(15));
    }
    if be_value(b) <= 1 {
        lemma_be_pos(b.take(15));
    }
}

proof fn lemma_be_zero(b: Seq<u8>)
    requires
        forall|k: int| 0 <= k < b.len() ==> b[k] == 0,
    ensures
        be_value(b) == 0,
    decreases b.len(),
{
    if b.len() > 0 {
        lemma_be_zero(b.drop_last());
    }
}

proof fn lemma_be_pos(b: Seq<u8>)
    ensures
        (exists|k: int| 0 <= k < b.len() && b[k] != 0) ==> be_value(b) >= 1,
    decreases b.len(),
{
    if b.len() > 0 {
        lemma_be_pos(b.drop_last());
        if exists|k: int| 0 <= k < b.len() && b[k] != 0 {
            let k = choose|k: int| 0 <= k < b.len() && b[k] != 0;
            if k < b.len() - 1 {
                assert(b.drop_last()[k] != 0);
            }
        }
    }
}

/// Whether an address is globally routable (worth geo-locating). Private,
/// loopback, link-local, multicast, and unspecified addresses are skipped.
pub fn is_global(ip: IpAddr) -> (r: bool)
    ensures
        r == spec_is_global(ip),
{
    match ip {
        IpAddr::V4(a) => {
            let b = a.0;
            !(b[0] == 10 || (b[0] == 172 && 16 <= b[1] && b[1] < 32) || (b[0] == 192 && b[1] == 168)
                || b[0] == 127 || (b[0] == 169 && b[1] == 254) || (b[0] == 255 && b[1] == 255
                && b[2] == 255 && b[3] == 255) || (b[0] == 192 && b[1] == 0 && b[2] == 2) || (b[0]
                == 198 && b[1] == 51 && b[2] == 100) || (b[0] == 203 && b[1] == 0 && b[2] == 113)
                || (b[0] == 0 && b[1] == 0 && b[2] == 0 && b[3] == 0) || (224 <= b[0] && b[0]
                < 240))
        },
        IpAddr::V6(a) => {
            let b = a.0;
            let zeros = all_zero_before_last(&b);
            proof {
                lemma_be_small(b@);
            }
            let small = zeros && b[15] <= 1;
            !(small || b[0] == 0xff || (b[0] == 0xfe && 0x80 <= b[1] && b[1] < 0xc0) || (b[0] == 0xfc
                || b[0] == 0xfd))
        },
    }
}

/// A lookup service that knows nothing.
pub struct NullEnricher;

impl NullEnricher {
    /// Every address: nothing known.
    pub fn lookup(&self, ip: IpAddr) -> (r: GeoInfo)
        ensures
            r.country is None,
            r.asn is None,
            r.as_org is None,
    {
        empty_geo()
    }
}

} // verus!
