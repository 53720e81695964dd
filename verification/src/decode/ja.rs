//! JA3 (MD5) and JA4 (SHA-256) TLS client fingerprints, computed from the
//! parsed ClientHello fields. GREASE values (RFC 8701) are excluded.
use vstd::prelude::*;
use vstd::string::*;
use vstd::utf8::encode_utf8;
use crate::text::{
    dec, dec2, hex4, hex_bytes, hex_string, join_sep, lemma_hex_bytes_len, push_char, push_dec, push_dec2, push_hex4,
    push_sep_item,
};
use md5::Md5;
use sha2::{Digest, Sha256};

verus! {

// ---------------------------------------------------------------------------
// Digests (outside crates)
// ---------------------------------------------------------------------------

/// The MD5 digest of a byte sequence.
pub uninterp spec fn spec_md5(data: Seq<u8>) -> Seq<u8>;

/// The SHA-256 digest of a byte sequence.
pub uninterp spec fn spec_sha256(data: Seq<u8>) -> Seq<u8>;

/// `Digest::digest` of `md5::Md5` (RustCrypto `md-5`): the digest is named
/// `spec_md5(data)`; it is 16 bytes long.
#[verifier::external_body]
fn md5_digest(data: &[u8]) -> (d: Vec<u8>)
    ensures
        d@ == spec_md5(data@),
        d@.len() == 16,
{
    Md5::digest(data).to_vec()
}

/// `Digest::digest` of `sha2::Sha256`: the digest is named
/// `spec_sha256(data)`; it is 32 bytes long.
#[verifier::external_body]
pub(crate) fn sha256_digest(data: &[u8]) -> (d: Vec<u8>)
    ensures
        d@ == spec_sha256(data@),
        d@.len() == 32,
{
    Sha256::digest(data).to_vec()
}

// ---------------------------------------------------------------------------
// GREASE
// ---------------------------------------------------------------------------

/// RFC 8701 GREASE values: high byte equal to low byte, low nibble `0xa`.
pub open spec fn spec_is_grease(v: u16) -> bool {
    v / 256 == v % 256 && v % 16 == 10
}

/// True for RFC 8701 GREASE values (high byte == low byte, low nibble == 0xa).
pub fn is_grease(v: u16) -> (r: bool)
    ensures
        r == spec_is_grease(v),
{
    v / 256 == v % 256 && v % 16 == 10
}

/// The values of `xs` that are not GREASE, in order.
pub open spec fn non_grease(xs: Seq<u16>) -> Seq<u16>
    decreases xs.len(),
{
    if xs.len() == 0 {
        seq![]
    } else if spec_is_grease(xs.last()) {
        non_grease(xs.drop_last())
    } else {
        non_grease(xs.drop_last()).push(xs.last())
    }
}

pub(crate) fn filter_non_grease(xs: &[u16]) -> (r: Vec<u16>)
    ensures
        r@ == non_grease(xs@),
{
    let mut r: Vec<u16> = Vec::new();
    let mut i: usize = 0;
    while i < xs.len()
        invariant
            i <= xs@.len(),
            r@ == non_grease(xs@.take(i as int)),
        decreases xs.len() - i,
    {
        if !is_grease(xs[i]) {
            r.push(xs[i]);
        }
        i = i + 1;
        assert(xs@.take(i as int).drop_last() =~= xs@.take(i - 1));
    }
    assert(xs@.take(i as int) =~= xs@);
    r
}

// ---------------------------------------------------------------------------
// JA3
// ---------------------------------------------------------------------------

pub open spec fn dec_parts16(xs: Seq<u16>) -> Seq<Seq<char>> {
    xs.map_values(|v: u16| dec(v as nat))
}

pub open spec fn dec_parts8(xs: Seq<u8>) -> Seq<Seq<char>> {
    xs.map_values(|v: u8| dec(v as nat))
}

/// `version,ciphers,extensions,curves,point_formats`, each list dash-joined
/// in decimal, GREASE values left out of the first three lists.
pub open spec fn ja3_text(
    version: u16,
    ciphers: Seq<u16>,
    exts: Seq<u16>,
    groups: Seq<u16>,
    formats: Seq<u8>,
) -> Seq<char> {
    dec(version as nat) + ","@ + join_sep(dec_parts16(non_grease(ciphers)), "-"@) + ","@
        + join_sep(dec_parts16(non_grease(exts)), "-"@) + ","@ + join_sep(
        dec_parts16(non_grease(groups)),
        "-"@,
    ) + ","@ + join_sep(dec_parts8(formats), "-"@)
}

/// Appends the dash-joined decimal list of the non-GREASE values of `xs`.
fn push_dec_list16(s: &mut String, xs: &[u16])
    ensures
        final(s)@ == old(s)@ + join_sep(dec_parts16(non_grease(xs@)), "-"@),
{
    let ys = filter_non_grease(xs);
    let ghost prefix = s@;
    let mut i: usize = 0;
    assert(dec_parts16(ys@.take(0)) =~= Seq::<Seq<char>>::empty());
    while i < ys.len()
        invariant
            i <= ys@.len(),
            s@ == prefix + join_sep(dec_parts16(ys@.take(i as int)), "-"@),
        decreases ys.len() - i,
    {
        let d = crate::text::dec_string(ys[i] as u64);
        push_sep_item(&mut *s, i, "-", d.as_str(), Ghost(prefix), Ghost(dec_parts16(ys@.take(i as int))));
        i = i + 1;
        assert(dec_parts16(ys@.take(i as int)) =~= dec_parts16(ys@.take(i - 1)).push(dec(ys@[i - 1] as nat)));
    }
    assert(ys@.take(i as int) =~= ys@);
}

/// Appends the dash-joined decimal list of `xs`.
fn push_dec_list8(s: &mut String, xs: &[u8])
    ensures
        final(s)@ == old(s)@ + join_sep(dec_parts8(xs@), "-"@),
{
    let ghost prefix = s@;
    let mut i: usize = 0;
    assert(dec_parts8(xs@.take(0)) =~= Seq::<Seq<char>>::empty());
    while i < xs.len()
        invariant
            i <= xs@.len(),
            s@ == prefix + join_sep(dec_parts8(xs@.take(i as int)), "-"@),
        decreases xs.len() - i,
    {
        let d = crate::text::dec_string(xs[i] as u64);
        push_sep_item(&mut *s, i, "-", d.as_str(), Ghost(prefix), Ghost(dec_parts8(xs@.take(i as int))));
        i = i + 1;
        assert(dec_parts8(xs@.take(i as int)) =~= dec_parts8(xs@.take(i - 1)).push(dec(xs@[i - 1] as nat)));
    }
    assert(xs@.take(i as int) =~= xs@);
}

/// Build the canonical JA3 string:
/// `version,ciphers,extensions,curves,point_formats` (GREASE-filtered).
pub fn ja3_string(version: u16, ciphers: &[u16], exts: &[u16], groups: &[u16], formats: &[u8]) -> (s: String)
    ensures
        s@ == ja3_text(version, ciphers@, exts@, groups@, formats@),
{
    let mut s = String::new();
    push_dec(&mut s, version as u64);
    s.append(",");
    push_dec_list16(&mut s, ciphers);
    s.append(",");
    push_dec_list16(&mut s, exts);
    s.append(",");
    push_dec_list16(&mut s, groups);
    s.append(",");
    push_dec_list8(&mut s, formats);
    assert(s@ =~= ja3_text(version, ciphers@, exts@, groups@, formats@));
    s
}

/// MD5 hash (lower-case hex) of a JA3 string's UTF-8 bytes.
pub fn ja3_hash(s: &str) -> (h: String)
    ensures
        h@ == hex_bytes(spec_md5(encode_utf8(s@))),
        h@.len() == 32,
{
    let bytes = s.as_bytes();
    let d = md5_digest(bytes);
    hex_string(d.as_slice())
}

// ---------------------------------------------------------------------------
// Sorting
// ---------------------------------------------------------------------------

/// Inserts `x` into the ascending sequence `s`, after every element `<= x`.
pub open spec fn ins(s: Seq<u16>, x: u16) -> Seq<u16>
    decreases s.len(),
{
    if s.len() == 0 {
        seq![x]
    } else if s.last() <= x {
        s.push(x)
    } else {
        ins(s.drop_last(), x).push(s.last())
    }
}

/// `xs` in ascending order (insertion sort).
pub open spec fn sorted_asc(xs: Seq<u16>) -> Seq<u16>
    decreases xs.len(),
{
    if xs.len() == 0 {
        seq![]
    } else {
        ins(sorted_asc(xs.drop_last()), xs.last())
    }
}

proof fn lemma_ins_split(s: Seq<u16>, x: u16, j: int)
    requires
        0 <= j <= s.len(),
        forall|k: int| j <= k < s.len() ==> s[k] > x,
    ensures
        ins(s, x) == ins(s.take(j), x) + s.skip(j),
    decreases s.len() - j,
{
    if j == s.len() {
        assert(s.take(j) =~= s);
        assert(s.skip(j) =~= Seq::<u16>::empty());
        assert(ins(s, x) + Seq::<u16>::empty() =~= ins(s, x));
    } else {
        lemma_ins_split(s, x, j + 1);
        let t = s.take(j + 1);
        assert(t.drop_last() =~= s.take(j));
        assert(t.last() == s[j]);
        assert(ins(t, x) == ins(s.take(j), x).push(s[j]));
        assert(ins(s.take(j), x).push(s[j]) + s.skip(j + 1) =~= ins(s.take(j), x) + s.skip(j));
    }
}

/// Inserts `x` into the ascending vector `v` (see `ins`).
fn insert_sorted(v: &mut Vec<u16>, x: u16)
    ensures
        final(v)@ == ins(old(v)@, x),
{
    let mut j = v.len();
    while j > 0 && v[j - 1] > x
        invariant
            j <= v@.len(),
            v@ == old(v)@,
            forall|k: int| j <= k < v@.len() ==> v@[k] > x,
        decreases j,
    {
        j = j - 1;
    }
    proof {
        lemma_ins_split(v@, x, j as int);
        if j == 0 {
            assert(v@.take(0) =~= Seq::<u16>::empty());
        } else {
            assert(v@.take(j as int).last() == v@[j - 1]);
        }
    }
    let ghost before = v@;
    v.insert(j, x);
    assert(v@ =~= ins(before.take(j as int), x) + before.skip(j as int));
}

/// `xs` sorted ascending.
fn sort_u16(xs: &[u16]) -> (r: Vec<u16>)
    ensures
        r@ == sorted_asc(xs@),
{
    let mut r: Vec<u16> = Vec::new();
    let mut i: usize = 0;
    while i < xs.len()
        invariant
            i <= xs@.len(),
            r@ == sorted_asc(xs@.take(i as int)),
        decreases xs.len() - i,
    {
        insert_sorted(&mut r, xs[i]);
        i = i + 1;
        assert(xs@.take(i as int).drop_last() =~= xs@.take(i - 1));
    }
    assert(xs@.take(i as int) =~= xs@);
    r
}

// ---------------------------------------------------------------------------
// JA4
// ---------------------------------------------------------------------------

/// Two-character TLS version code of JA4.
pub open spec fn ja4_version_text(v: u16) -> Seq<char> {
    if v == 0x0304 {
        "13"@
    } else if v == 0x0303 {
        "12"@
    } else if v == 0x0302 {
        "11"@
    } else if v == 0x0301 {
        "10"@
    } else if v == 0x0300 {
        "s3"@
    } else if v == 0xfeff {
        "d1"@
    } else if v == 0xfefd {
        "d2"@
    } else {
        "00"@
    }
}

fn ja4_version_code(v: u16) -> (r: &'static str)
    ensures
        r@ == ja4_version_text(v),
{
    if v == 0x0304 {
        "13"
    } else if v == 0x0303 {
        "12"
    } else if v == 0x0302 {
        "11"
    } else if v == 0x0301 {
        "10"
    } else if v == 0x0300 {
        "s3"
    } else if v == 0xfeff {
        "d1"
    } else if v == 0xfefd {
        "d2"
    } else {
        "00"
    }
}

/// First and last byte of the first ALPN value (each byte read as a
/// character), or `00` when there is none or it is empty.
pub open spec fn ja4_alpn_text(first: Option<Seq<char>>) -> Seq<char> {
    match first {
        Some(s) if s.len() > 0 => {
            let b = encode_utf8(s);
            seq![b[0] as char, b.last() as char]
        },
        _ => "00"@,
    }
}

fn ja4_alpn(first: Option<&str>, s: &mut String)
    ensures
        final(s)@ == old(s)@ + ja4_alpn_text(
            match first {
                Some(x) => Some(x@),
                None => None,
            },
        ),
{
    match first {
        Some(a) => {
            let b = a.as_bytes();
            if b.len() > 0 {
                proof {
                    crate::text::lemma_encode_utf8_empty_iff(a@);
                }
                push_char(s, b[0] as char);
                push_char(s, b[b.len() - 1] as char);
                assert(final(s)@ =~= old(s)@ + ja4_alpn_text(Some(a@)));
                return;
            } else {
                proof {
                    crate::text::lemma_encode_utf8_empty_iff(a@);
                }
            }
        },
        None => {},
    }
    s.append("00");
}

/// Comma-joined four-digit hex values.
pub open spec fn hex4_list(xs: Seq<u16>) -> Seq<char> {
    join_sep(xs.map_values(|v: u16| hex4(v)), ","@)
}

fn push_hex4_list(s: &mut String, xs: &[u16])
    ensures
        final(s)@ == old(s)@ + hex4_list(xs@),
{
    let ghost prefix = s@;
    let mut i: usize = 0;
    assert(xs@.take(0).map_values(|v: u16| hex4(v)) =~= Seq::<Seq<char>>::empty());
    while i < xs.len()
        invariant
            i <= xs@.len(),
            s@ == prefix + join_sep(xs@.take(i as int).map_values(|v: u16| hex4(v)), ","@),
        decreases xs.len() - i,
    {
        let mut h = String::new();
        push_hex4(&mut h, xs[i]);
        push_sep_item(&mut *s, i, ",", h.as_str(), Ghost(prefix), Ghost(xs@.take(i as int).map_values(|v: u16| hex4(v))));
        i = i + 1;
        assert(xs@.take(i as int).map_values(|v: u16| hex4(v)) =~= xs@.take(i - 1).map_values(
            |v: u16| hex4(v),
        ).push(hex4(xs@[i - 1])));
    }
    assert(xs@.take(i as int) =~= xs@);
}

/// Twelve hex characters of the SHA-256 of `text` (its first six digest
/// bytes), or twelve zeros when the list behind `text` is empty.
pub open spec fn sha12_text(text: Seq<char>, empty: bool) -> Seq<char> {
    if empty {
        "000000000000"@
    } else {
        hex_bytes(spec_sha256(encode_utf8(text)).take(6))
    }
}

fn sha12(s: &str, empty: bool) -> (r: String)
    ensures
        r@ == sha12_text(s@, empty),
        r@.len() == 12,
{
    if empty {
        proof {
            reveal_strlit("000000000000");
        }
        return "000000000000".to_string();
    }
    let d = sha256_digest(s.as_bytes());
    let first = &d.as_slice()[0..6];
    assert(first@ =~= d@.take(6));
    proof {
        lemma_hex_bytes_len(first@);
    }
    hex_string(first)
}

/// Extensions counted in JA4_c: not GREASE, not SNI (0), not ALPN (0x10).
pub open spec fn ja4_exts(xs: Seq<u16>) -> Seq<u16>
    decreases xs.len(),
{
    if xs.len() == 0 {
        seq![]
    } else {
        let v = xs.last();
        if spec_is_grease(v) || v == 0 || v == 0x10 {
            ja4_exts(xs.drop_last())
        } else {
            ja4_exts(xs.drop_last()).push(v)
        }
    }
}

fn filter_ja4_exts(xs: &[u16]) -> (r: Vec<u16>)
    ensures
        r@ == ja4_exts(xs@),
{
    let mut r: Vec<u16> = Vec::new();
    let mut i: usize = 0;
    while i < xs.len()
        invariant
            i <= xs@.len(),
            r@ == ja4_exts(xs@.take(i as int)),
        decreases xs.len() - i,
    {
        let v = xs[i];
        if !(is_grease(v) || v == 0 || v == 0x10) {
            r.push(v);
        }
        i = i + 1;
        assert(xs@.take(i as int).drop_last() =~= xs@.take(i - 1));
    }
    assert(xs@.take(i as int) =~= xs@);
    r
}

pub open spec fn min99(n: nat) -> nat {
    if n < 99 {
        n
    } else {
        99
    }
}

/// The first part of a JA4 fingerprint: protocol (`q`/`t`), version code,
/// `d`/`i` for SNI, two-digit counts of non-GREASE ciphers and extensions
/// (at most 99), ALPN characters.
pub open spec fn ja4_prefix(
    version: u16,
    over_quic: bool,
    sni_present: bool,
    ciphers: Seq<u16>,
    exts: Seq<u16>,
    alpn_first: Option<Seq<char>>,
) -> Seq<char> {
    seq![if over_quic { 'q' } else { 't' }] + ja4_version_text(version) + seq![
        if sni_present {
            'd'
        } else {
            'i'
        },
    ] + dec2(min99(non_grease(ciphers).len())) + dec2(min99(non_grease(exts).len()))
        + ja4_alpn_text(alpn_first)
}

/// The JA4 fingerprint `a_b_c`: `a` is [`ja4_prefix`]; `b` = truncated
/// SHA-256 of the sorted non-GREASE ciphers; `c` = truncated SHA-256 of the
/// sorted counted extensions, `_`, and the non-GREASE signature algorithms
/// in order. GREASE values take no part anywhere.
pub open spec fn ja4_text(
    version: u16,
    over_quic: bool,
    sni_present: bool,
    ciphers: Seq<u16>,
    exts: Seq<u16>,
    sig_algs: Seq<u16>,
    alpn_first: Option<Seq<char>>,
) -> Seq<char> {
    let c = sorted_asc(non_grease(ciphers));
    let e = sorted_asc(ja4_exts(exts));
    let sa = non_grease(sig_algs);
    ja4_prefix(version, over_quic, sni_present, ciphers, exts, alpn_first) + "_"@ + sha12_text(
        hex4_list(c),
        c.len() == 0,
    ) + "_"@ + sha12_text(hex4_list(e) + "_"@ + hex4_list(sa), e.len() == 0 && sa.len() == 0)
}

proof fn lemma_ja4_exts_non_grease(xs: Seq<u16>)
    ensures
        ja4_exts(non_grease(xs)) == ja4_exts(xs),
    decreases xs.len(),
{
    if xs.len() > 0 {
        lemma_ja4_exts_non_grease(xs.drop_last());
        let v = xs.last();
        if !spec_is_grease(v) {
            let n = non_grease(xs.drop_last()).push(v);
            assert(n.drop_last() =~= non_grease(xs.drop_last()));
            assert(n.last() == v);
        }
    }
}

/// GREASE values never change a JA4 fingerprint: lists with the same
/// non-GREASE values, in the same order, give the same fingerprint.
pub proof fn law_ja4_ignores_grease(
    version: u16,
    over_quic: bool,
    sni_present: bool,
    ciphers: Seq<u16>,
    exts: Seq<u16>,
    sig_algs: Seq<u16>,
    ciphers2: Seq<u16>,
    exts2: Seq<u16>,
    sig_algs2: Seq<u16>,
    alpn_first: Option<Seq<char>>,
)
    requires
        non_grease(ciphers2) == non_grease(ciphers),
        non_grease(exts2) == non_grease(exts),
        non_grease(sig_algs2) == non_grease(sig_algs),
    ensures
        ja4_text(version, over_quic, sni_present, ciphers2, exts2, sig_algs2, alpn_first)
            == ja4_text(version, over_quic, sni_present, ciphers, exts, sig_algs, alpn_first),
{
    lemma_ja4_exts_non_grease(exts);
    lemma_ja4_exts_non_grease(exts2);
}

proof fn lemma_ins_len(s: Seq<u16>, x: u16)
    ensures
        ins(s, x).len() == s.len() + 1,
    decreases s.len(),
{
    if s.len() > 0 && s.last() > x {
        lemma_ins_len(s.drop_last(), x);
    }
}

proof fn lemma_sorted_len(xs: Seq<u16>)
    ensures
        sorted_asc(xs).len() == xs.len(),
    decreases xs.len(),
{
    if xs.len() > 0 {
        lemma_sorted_len(xs.drop_last());
        lemma_ins_len(sorted_asc(xs.drop_last()), xs.last());
    }
}

/// Compute the JA4 fingerprint (`ja4_a_ja4_b_ja4_c`). `version` should be the
/// negotiated/highest offered TLS version; `over_quic` selects the q/t prefix.
#[verifier::rlimit(40)]
pub fn ja4(
    version: u16,
    over_quic: bool,
    sni_present: bool,
    ciphers: &[u16],
    exts: &[u16],
    sig_algs: &[u16],
    alpn_first: Option<&str>,
) -> (r: String)
    ensures
        r@ == ja4_text(
            version,
            over_quic,
            sni_present,
            ciphers@,
            exts@,
            sig_algs@,
            match alpn_first {
                Some(x) => Some(x@),
                None => None,
            },
        ),
        r@.len() == ja4_prefix(
            version,
            over_quic,
            sni_present,
            ciphers@,
            exts@,
            match alpn_first {
                Some(x) => Some(x@),
                None => None,
            },
        ).len() + 26,
{
    let mut s = String::new();
    push_char(&mut s, if over_quic { 'q' } else { 't' });
    s.append(ja4_version_code(version));
    push_char(&mut s, if sni_present { 'd' } else { 'i' });
    let ng_ciphers = filter_non_grease(ciphers);
    let ng_exts = filter_non_grease(exts);
    let nciph = if ng_ciphers.len() < 99 { ng_ciphers.len() } else { 99 };
    let next = if ng_exts.len() < 99 { ng_exts.len() } else { 99 };
    push_dec2(&mut s, nciph as u64);
    push_dec2(&mut s, next as u64);
    ja4_alpn(alpn_first, &mut s);
    s.append("_");
    let c = sort_u16(ng_ciphers.as_slice());
    proof {
        lemma_sorted_len(ng_ciphers@);
    }
    let mut cstr = String::new();
    push_hex4_list(&mut cstr, c.as_slice());
    let b = sha12(cstr.as_str(), c.len() == 0);
    s.append(b.as_str());
    s.append("_");
    let e0 = filter_ja4_exts(exts);
    let e = sort_u16(e0.as_slice());
    proof {
        lemma_sorted_len(e0@);
    }
    let mut estr = String::new();
    push_hex4_list(&mut estr, e.as_slice());
    estr.append("_");
    let sa = filter_non_grease(sig_algs);
    push_hex4_list(&mut estr, sa.as_slice());
    let cpart = sha12(estr.as_str(), e.len() == 0 && sa.len() == 0);
    s.append(cpart.as_str());
    proof {
        reveal_strlit("_");
    }
    assert(s@ =~= ja4_text(
        version,
        over_quic,
        sni_present,
        ciphers@,
        exts@,
        sig_algs@,
        match alpn_first {
            Some(x) => Some(x@),
            None => None,
        },
    ));
    s
}

} // verus!
