//! Diff two captures by packet content: a multiset comparison of raw bytes.
use vstd::prelude::*;
use crate::decode::DecodedPacket;
use vstd::multiset::Multiset;

verus! {

#[derive(Debug, Clone, Default, PartialEq, Eq)]
pub struct DiffResult {
    /// Indices into `a` of packets with no match in `b`.
    pub only_a: Vec<usize>,
    /// Indices into `b` of packets with no match in `a`.
    pub only_b: Vec<usize>,
    /// Number of packets present in both (matched as a multiset).
    pub common: usize,
}

pub open spec fn contents(p: Seq<DecodedPacket>) -> Seq<Seq<u8>> {
    p.map_values(|x: DecodedPacket| x.data@)
}

/// How many of the first `n` contents equal `x`.
pub open spec fn count_in(s: Seq<Seq<u8>>, x: Seq<u8>, n: int) -> nat
    decreases n,
{
    if n <= 0 {
        0
    } else {
        count_in(s, x, n - 1) + if s[n - 1] == x {
            1nat
        } else {
            0nat
        }
    }
}

/// Whether `s[k]` finds a partner in `t`: the j-th copy of a content in `s`
/// is matched when `t` holds at least j copies of it.
pub open spec fn matched(s: Seq<Seq<u8>>, t: Seq<Seq<u8>>, k: int) -> bool {
    count_in(s, s[k], k + 1) <= count_in(t, s[k], t.len() as int)
}

/// The indices below `n` of `s` that find no partner in `t`, ascending.
pub open spec fn unmatched(s: Seq<Seq<u8>>, t: Seq<Seq<u8>>, n: int) -> Seq<usize>
    decreases n,
{
    if n <= 0 {
        seq![]
    } else if matched(s, t, n - 1) {
        unmatched(s, t, n - 1)
    } else {
        unmatched(s, t, n - 1).push((n - 1) as usize)
    }
}

/// The multiset of the first `n` contents.
pub open spec fn bag(s: Seq<Seq<u8>>, n: int) -> Multiset<Seq<u8>>
    decreases n,
{
    if n <= 0 {
        Multiset::empty()
    } else {
        bag(s, n - 1).insert(s[n - 1])
    }
}

proof fn lemma_bag_count(s: Seq<Seq<u8>>, x: Seq<u8>, n: int)
    requires
        0 <= n <= s.len(),
    ensures
        bag(s, n).count(x) == count_in(s, x, n),
    decreases n,
{
    broadcast use vstd::multiset::group_multiset_axioms;

    if n > 0 {
        lemma_bag_count(s, x, n - 1);
    }
}

/// The packets of `s` (among its first `n`) that find a partner in `t` are
/// as many as the common part of the two as multisets.
proof fn lemma_matched_is_common(s: Seq<Seq<u8>>, t: Seq<Seq<u8>>, n: int)
    requires
        0 <= n <= s.len(),
    ensures
        unmatched(s, t, n).len() <= n,
        n - unmatched(s, t, n).len() == bag(s, n).intersection_with(bag(t, t.len() as int)).len(),
    decreases n,
{
    broadcast use {
        vstd::multiset::group_multiset_axioms,
        vstd::multiset::group_multiset_properties,
    };

    let tb = bag(t, t.len() as int);
    if n == 0 {
        assert(bag(s, 0).intersection_with(tb) =~= Multiset::empty());
    } else {
        lemma_matched_is_common(s, t, n - 1);
        let x = s[n - 1];
        let before = bag(s, n - 1).intersection_with(tb);
        let after = bag(s, n).intersection_with(tb);
        lemma_bag_count(s, x, n - 1);
        lemma_bag_count(s, x, n);
        lemma_bag_count(t, x, t.len() as int);
        if matched(s, t, n - 1) {
            assert(after =~= before.insert(x)) by {
                assert forall|y: Seq<u8>| after.count(y) == before.insert(x).count(y) by {
                    if y != x {
                        assert(bag(s, n).count(y) == bag(s, n - 1).count(y));
                    }
                }
            }
        } else {
            assert(after =~= before) by {
                assert forall|y: Seq<u8>| after.count(y) == before.count(y) by {
                    if y != x {
                        assert(bag(s, n).count(y) == bag(s, n - 1).count(y));
                    }
                }
            }
        }
    }
}

/// Diffing matches as many packets of one capture as of the other: the
/// packets of `a` with a partner in `b` are as many as those of `b` with a
/// partner in `a`.
pub proof fn law_diff_common_is_symmetric(a: Seq<Seq<u8>>, b: Seq<Seq<u8>>)
    ensures
        unmatched(a, b, a.len() as int).len() <= a.len(),
        unmatched(b, a, b.len() as int).len() <= b.len(),
        a.len() - unmatched(a, b, a.len() as int).len() == b.len() - unmatched(
            b,
            a,
            b.len() as int,
        ).len(),
{
    broadcast use vstd::multiset::group_multiset_axioms;

    lemma_matched_is_common(a, b, a.len() as int);
    lemma_matched_is_common(b, a, b.len() as int);
    let ba = bag(a, a.len() as int);
    let bb = bag(b, b.len() as int);
    assert(ba.intersection_with(bb) =~= bb.intersection_with(ba)) by {
        assert forall|y: Seq<u8>| ba.intersection_with(bb).count(y) == bb.intersection_with(ba).count(
            y,
        ) by {
            vstd::multiset::lemma_intersection_count(ba, bb, y);
            vstd::multiset::lemma_intersection_count(bb, ba, y);
        }
    }
}

fn bytes_eq(a: &Vec<u8>, b: &Vec<u8>) -> (r: bool)
    ensures
        r == (a@ == b@),
{
    if a.len() != b.len() {
        return false;
    }
    let mut i: usize = 0;
    while i < a.len()
        invariant
            i <= a@.len() == b@.len(),
            forall|k: int| 0 <= k < i ==> a@[k] == b@[k],
        decreases a@.len() - i,
    {
        if a[i] != b[i] {
            return false;
        }
        i = i + 1;
    }
    assert(a@ =~= b@);
    true
}

/// How many of the first `n` packets carry the bytes `x`.
fn count_exec(p: &[DecodedPacket], x: &Vec<u8>, n: usize) -> (r: usize)
    requires
        n <= p@.len(),
    ensures
        r == count_in(contents(p@), x@, n as int),
{
    let mut c: usize = 0;
    let mut k: usize = 0;
    while k < n
        invariant
            k <= n <= p@.len(),
            c == count_in(contents(p@), x@, k as int),
            c <= k,
        decreases n - k,
    {
        if bytes_eq(&p[k].data, x) {
            c = c + 1;
        }
        k = k + 1;
    }
    c
}

/// The packets of `s` that find no partner in `t`, and how many did.
fn unmatched_exec(s: &[DecodedPacket], t: &[DecodedPacket]) -> (r: (Vec<usize>, usize))
    ensures
        r.0@ == unmatched(contents(s@), contents(t@), s@.len() as int),
        r.1 + r.0@.len() == s@.len(),
{
    let mut out: Vec<usize> = Vec::new();
    let mut common: usize = 0;
    let mut i: usize = 0;
    while i < s.len()
        invariant
            i <= s@.len(),
            out@ == unmatched(contents(s@), contents(t@), i as int),
            common + out@.len() == i,
        decreases s@.len() - i,
    {
        let x = &s[i].data;
        let mine = count_exec(s, x, i + 1);
        let theirs = count_exec(t, x, t.len());
        if mine <= theirs {
            common = common + 1;
        } else {
            out.push(i);
        }
        i = i + 1;
    }
    (out, common)
}

/// Compares two captures by raw packet content, duplicates counted as a
/// multiset: the j-th copy of some bytes on one side is matched when the other
/// side holds at least j copies.
pub fn diff_by_content(a: &[DecodedPacket], b: &[DecodedPacket]) -> (r: DiffResult)
    ensures
        r.only_a@ == unmatched(contents(a@), contents(b@), a@.len() as int),
        r.only_b@ == unmatched(contents(b@), contents(a@), b@.len() as int),
        r.common + r.only_a@.len() == a@.len(),
        r.common + r.only_b@.len() == b@.len(),
{
    let (only_a, common) = unmatched_exec(a, b);
    let (only_b, _) = unmatched_exec(b, a);
    proof {
        law_diff_common_is_symmetric(contents(a@), contents(b@));
    }
    DiffResult { only_a, only_b, common }
}

} // verus!
