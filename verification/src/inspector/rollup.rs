//! Rolling live connections up by a text key (a process name, a domain):
//! one group per key, kept in key order, then ordered by traffic.
use vstd::prelude::*;
use crate::decode::http::chars_eq;
use crate::ipc::protocol::ConnectionDto;
use crate::text::string_chars;

verus! {

/// Code-point order on character sequences, the order of `String`'s `Ord`
/// (UTF-8 byte order agrees with code-point order).
pub open spec fn chars_lt(a: Seq<char>, b: Seq<char>) -> bool
    decreases a.len(),
{
    if b.len() == 0 {
        false
    } else if a.len() == 0 {
        true
    } else if a[0] != b[0] {
        (a[0] as u32) < (b[0] as u32)
    } else {
        chars_lt(a.drop_first(), b.drop_first())
    }
}

/// One group of a rollup.
pub struct GroupV {
    pub key: Seq<char>,
    /// The pid of the group's first connection.
    pub pid: Option<u32>,
    pub conns: nat,
    pub bytes_up: nat,
    pub bytes_down: nat,
}

pub open spec fn group_total(g: GroupV) -> nat {
    g.bytes_up + g.bytes_down
}

pub open spec fn new_group(key: Seq<char>, c: ConnectionDto) -> GroupV {
    GroupV {
        key,
        pid: c.pid,
        conns: 1,
        bytes_up: c.bytes_up as nat,
        bytes_down: c.bytes_down as nat,
    }
}

pub open spec fn grow_group(g: GroupV, c: ConnectionDto) -> GroupV {
    GroupV {
        key: g.key,
        pid: g.pid,
        conns: g.conns + 1,
        bytes_up: g.bytes_up + c.bytes_up as nat,
        bytes_down: g.bytes_down + c.bytes_down as nat,
    }
}

/// Groups `gs` (in key order) after connection `c` with key `key` is
/// counted: into its key's group, or a new group in key order.
pub open spec fn add_to_group(gs: Seq<GroupV>, key: Seq<char>, c: ConnectionDto) -> Seq<GroupV>
    decreases gs.len(),
{
    if gs.len() == 0 {
        seq![new_group(key, c)]
    } else if chars_lt(gs[0].key, key) {
        seq![gs[0]] + add_to_group(gs.drop_first(), key, c)
    } else if gs[0].key == key {
        seq![grow_group(gs[0], c)] + gs.drop_first()
    } else {
        seq![new_group(key, c)] + gs
    }
}

/// The groups of connections `s`, whose keys are `ks` (one per connection),
/// counted in order.
pub open spec fn rollup(s: Seq<ConnectionDto>, ks: Seq<Seq<char>>) -> Seq<GroupV>
    decreases s.len(),
{
    if s.len() == 0 {
        Seq::empty()
    } else {
        add_to_group(rollup(s.drop_last(), ks.drop_last()), ks.last(), s.last())
    }
}

/// `x` put into `gs` after every group with at least as much traffic.
pub open spec fn insert_by_total(gs: Seq<GroupV>, x: GroupV) -> Seq<GroupV>
    decreases gs.len(),
{
    if gs.len() == 0 {
        seq![x]
    } else if group_total(gs[0]) < group_total(x) {
        seq![x] + gs
    } else {
        seq![gs[0]] + insert_by_total(gs.drop_first(), x)
    }
}

/// Groups ordered by traffic, largest first; ties keep their order.
pub open spec fn by_total(gs: Seq<GroupV>) -> Seq<GroupV>
    decreases gs.len(),
{
    if gs.len() == 0 {
        gs
    } else {
        insert_by_total(by_total(gs.drop_last()), gs.last())
    }
}

/// Traffic of all connections, both directions.
pub open spec fn bytes_total(s: Seq<ConnectionDto>) -> nat
    decreases s.len(),
{
    if s.len() == 0 {
        0
    } else {
        bytes_total(s.drop_last()) + s.last().bytes_up as nat + s.last().bytes_down as nat
    }
}

/// Traffic of all groups.
pub open spec fn groups_total(gs: Seq<GroupV>) -> nat
    decreases gs.len(),
{
    if gs.len() == 0 {
        0
    } else {
        group_total(gs[0]) + groups_total(gs.drop_first())
    }
}

/// Connections of all groups.
pub open spec fn groups_conns(gs: Seq<GroupV>) -> nat
    decreases gs.len(),
{
    if gs.len() == 0 {
        0
    } else {
        gs[0].conns + groups_conns(gs.drop_first())
    }
}

proof fn lemma_add_to_group_sums(gs: Seq<GroupV>, key: Seq<char>, c: ConnectionDto)
    ensures
        groups_total(add_to_group(gs, key, c)) == groups_total(gs) + c.bytes_up + c.bytes_down,
        groups_conns(add_to_group(gs, key, c)) == groups_conns(gs) + 1,
    decreases gs.len(),
{
    let r = add_to_group(gs, key, c);
    if gs.len() == 0 {
        assert(r.drop_first() =~= Seq::<GroupV>::empty());
        assert(r[0] == new_group(key, c));
        assert(groups_total(r.drop_first()) == 0);
        assert(groups_conns(r.drop_first()) == 0);
    } else if chars_lt(gs[0].key, key) {
        lemma_add_to_group_sums(gs.drop_first(), key, c);
        assert(r.drop_first() =~= add_to_group(gs.drop_first(), key, c));
        assert(r[0] == gs[0]);
    } else if gs[0].key == key {
        assert(r.drop_first() =~= gs.drop_first());
        assert(r[0] == grow_group(gs[0], c));
    } else {
        assert(r.drop_first() =~= gs);
        assert(r[0] == new_group(key, c));
    }
}

proof fn lemma_group_le_total(gs: Seq<GroupV>, k: int)
    requires
        0 <= k < gs.len(),
    ensures
        group_total(gs[k]) <= groups_total(gs),
        gs[k].conns <= groups_conns(gs),
    decreases k,
{
    if k > 0 {
        lemma_group_le_total(gs.drop_first(), k - 1);
    }
}

proof fn lemma_update_sums(gs: Seq<GroupV>, k: int, g: GroupV)
    requires
        0 <= k < gs.len(),
    ensures
        groups_total(gs.update(k, g)) == groups_total(gs) - group_total(gs[k]) + group_total(g),
        groups_conns(gs.update(k, g)) == groups_conns(gs) - gs[k].conns + g.conns,
    decreases k,
{
    if k == 0 {
        assert(gs.update(k, g).drop_first() =~= gs.drop_first());
    } else {
        lemma_update_sums(gs.drop_first(), k - 1, g);
        assert(gs.update(k, g).drop_first() =~= gs.drop_first().update(k - 1, g));
    }
}

proof fn lemma_prefix_total(s: Seq<ConnectionDto>, i: int)
    requires
        0 <= i <= s.len(),
    ensures
        bytes_total(s.take(i)) <= bytes_total(s),
    decreases s.len() - i,
{
    if i < s.len() {
        lemma_prefix_total(s, i + 1);
        assert(s.take(i + 1).drop_last() =~= s.take(i));
    } else {
        assert(s.take(i) =~= s);
    }
}

proof fn lemma_chars_lt_irreflexive(a: Seq<char>)
    ensures
        !chars_lt(a, a),
    decreases a.len(),
{
    if a.len() > 0 {
        lemma_chars_lt_irreflexive(a.drop_first());
    }
}

proof fn lemma_add_to_group_at(gs: Seq<GroupV>, key: Seq<char>, c: ConnectionDto, pos: int)
    requires
        0 <= pos <= gs.len(),
        forall|k: int| 0 <= k < pos ==> chars_lt(#[trigger] gs[k].key, key),
        pos < gs.len() ==> !chars_lt(gs[pos].key, key),
    ensures
        add_to_group(gs, key, c) == if pos < gs.len() && gs[pos].key == key {
            gs.update(pos, grow_group(gs[pos], c))
        } else {
            gs.insert(pos, new_group(key, c))
        },
    decreases pos,
{
    if pos == 0 {
        if gs.len() > 0 && gs[0].key == key {
            assert(seq![grow_group(gs[0], c)] + gs.drop_first() =~= gs.update(0, grow_group(gs[0], c)));
        } else {
            assert(seq![new_group(key, c)] + gs =~= gs.insert(0, new_group(key, c)));
        }
    } else {
        let t = gs.drop_first();
        assert(chars_lt(gs[0].key, key));
        assert forall|k: int| 0 <= k < pos - 1 implies chars_lt(#[trigger] t[k].key, key) by {
            assert(t[k] == gs[k + 1]);
        }
        lemma_add_to_group_at(t, key, c, pos - 1);
        if pos < gs.len() && gs[pos].key == key {
            assert(seq![gs[0]] + t.update(pos - 1, grow_group(t[pos - 1], c)) =~= gs.update(
                pos,
                grow_group(gs[pos], c),
            ));
        } else {
            assert(seq![gs[0]] + t.insert(pos - 1, new_group(key, c)) =~= gs.insert(
                pos,
                new_group(key, c),
            ));
        }
    }
}

proof fn lemma_insert_by_total_at(gs: Seq<GroupV>, x: GroupV, pos: int)
    requires
        0 <= pos <= gs.len(),
        forall|k: int| 0 <= k < pos ==> group_total(#[trigger] gs[k]) >= group_total(x),
        pos < gs.len() ==> group_total(gs[pos]) < group_total(x),
    ensures
        insert_by_total(gs, x) == gs.insert(pos, x),
    decreases pos,
{
    if pos == 0 {
        assert(seq![x] + gs =~= gs.insert(0, x));
    } else {
        let t = gs.drop_first();
        assert forall|k: int| 0 <= k < pos - 1 implies group_total(#[trigger] t[k]) >= group_total(
            x,
        ) by {
            assert(t[k] == gs[k + 1]);
        }
        lemma_insert_by_total_at(t, x, pos - 1);
        assert(seq![gs[0]] + t.insert(pos - 1, x) =~= gs.insert(pos, x));
    }
}

/// Code-point order of two character slices.
pub fn chars_less(a: &[char], b: &[char]) -> (r: bool)
    ensures
        r == chars_lt(a@, b@),
    decreases a.len(),
{
    if b.len() == 0 {
        false
    } else if a.len() == 0 {
        true
    } else if a[0] != b[0] {
        (a[0] as u32) < (b[0] as u32)
    } else {
        let an = a.len();
        let bn = b.len();
        let ta = &a[1..an];
        let tb = &b[1..bn];
        assert(ta@ =~= a@.drop_first());
        assert(tb@ =~= b@.drop_first());
        chars_less(ta, tb)
    }
}

/// One group as it is being counted.
pub struct Group {
    pub name: String,
    pub pid: Option<u32>,
    pub conns: usize,
    pub bytes_up: u64,
    pub bytes_down: u64,
}

impl View for Group {
    type V = GroupV;

    open spec fn view(&self) -> GroupV {
        GroupV {
            key: self.name@,
            pid: self.pid,
            conns: self.conns as nat,
            bytes_up: self.bytes_up as nat,
            bytes_down: self.bytes_down as nat,
        }
    }
}

pub open spec fn groups_view(v: Seq<Group>) -> Seq<GroupV> {
    v.map_values(|g: Group| g@)
}

/// Counts connections `conns` into groups by their keys `names`, then
/// orders the groups by traffic, largest first.
pub fn rollup_by(conns: &Vec<ConnectionDto>, names: Vec<String>) -> (out: Vec<Group>)
    requires
        names@.len() == conns@.len(),
        bytes_total(conns@) <= u64::MAX,
    ensures
        groups_view(out@) == by_total(
            rollup(conns@, names@.map_values(|s: String| s@)),
        ),
{
    let n = conns.len();
    let ghost ks = names@.map_values(|s: String| s@);
    let mut names = names;
    let mut gs: Vec<Group> = Vec::new();
    let mut i: usize = 0;
    let ghost all_names = names@;
    while i < n
        invariant
            n == conns@.len(),
            i <= n,
            names@.len() == n - i,
            forall|k: int| 0 <= k < names@.len() ==> #[trigger] names@[k] == all_names[i + k],
            all_names.len() == n,
            ks == all_names.map_values(|s: String| s@),
            groups_view(gs@) == rollup(conns@.take(i as int), ks.take(i as int)),
            groups_total(groups_view(gs@)) == bytes_total(conns@.take(i as int)),
            groups_conns(groups_view(gs@)) == i,
            bytes_total(conns@) <= u64::MAX,
        decreases n - i,
    {
        let name = names.remove(0);
        let c = &conns[i];
        let key = string_chars(name.as_str());
        let m = gs.len();
        let mut pos: usize = 0;
        while pos < m && chars_less(string_chars(gs[pos].name.as_str()).as_slice(), key.as_slice())
            invariant
                m == gs@.len(),
                pos <= m,
                forall|k: int| 0 <= k < pos ==> chars_lt(#[trigger] gs@[k].name@, key@),
            decreases m - pos,
        {
            pos = pos + 1;
        }
        let ghost g0 = groups_view(gs@);
        proof {
            assert forall|k: int| 0 <= k < pos implies chars_lt(#[trigger] g0[k].key, key@) by {
                assert(g0[k] == gs@[k]@);
            }
            if pos < m {
                assert(g0[pos as int] == gs@[pos as int]@);
            }
            lemma_add_to_group_at(g0, key@, *c, pos as int);
            lemma_add_to_group_sums(g0, key@, *c);
            lemma_prefix_total(conns@, i + 1);
            let p = conns@.take(i + 1);
            assert(p.drop_last() =~= conns@.take(i as int));
            assert(p.last() == *c);
            let pk = ks.take(i + 1);
            assert(pk.drop_last() =~= ks.take(i as int));
            assert(pk.last() == name@);
        }
        if pos < m && chars_eq(string_chars(gs[pos].name.as_str()).as_slice(), key.as_slice()) {
            proof {
                lemma_group_le_total(g0, pos as int);
                lemma_update_sums(g0, pos as int, grow_group(g0[pos as int], *c));
                assert(g0[pos as int] == gs@[pos as int]@);
            }
            let old_g = gs.remove(pos);
            let grown = Group {
                name: old_g.name,
                pid: old_g.pid,
                conns: old_g.conns + 1,
                bytes_up: old_g.bytes_up + c.bytes_up,
                bytes_down: old_g.bytes_down + c.bytes_down,
            };
            gs.insert(pos, grown);
            assert(groups_view(gs@) =~= g0.update(pos as int, grow_group(g0[pos as int], *c)));
        } else {
            let fresh = Group {
                name,
                pid: c.pid,
                conns: 1,
                bytes_up: c.bytes_up,
                bytes_down: c.bytes_down,
            };
            gs.insert(pos, fresh);
            assert(groups_view(gs@) =~= g0.insert(pos as int, new_group(key@, *c)));
        }
        i = i + 1;
        proof {
            assert forall|k: int| 0 <= k < names@.len() implies #[trigger] names@[k]
                == all_names[i + k] by {}
        }
    }
    assert(conns@.take(n as int) =~= conns@);
    assert(ks.take(n as int) =~= ks);
    let ghost grouped = groups_view(gs@);
    // Order by traffic, largest first, keeping key order among equals.
    let mut out: Vec<Group> = Vec::new();
    let mut j: usize = 0;
    let total = gs.len();
    while gs.len() > 0
        invariant
            j + gs@.len() == total,
            total == grouped.len(),
            forall|k: int| 0 <= k < gs@.len() ==> #[trigger] gs@[k]@ == grouped[j + k],
            groups_view(out@) == by_total(grouped.take(j as int)),
        decreases gs.len(),
    {
        let g = gs.remove(0);
        let m = out.len();
        let mut pos: usize = 0;
        while pos < m && (out[pos].bytes_up as u128) + (out[pos].bytes_down as u128) >= (g.bytes_up
            as u128) + (g.bytes_down as u128)
            invariant
                m == out@.len(),
                pos <= m,
                forall|k: int| 0 <= k < pos ==> group_total(#[trigger] out@[k]@) >= group_total(g@),
            decreases m - pos,
        {
            pos = pos + 1;
        }
        let ghost o0 = groups_view(out@);
        proof {
            assert forall|k: int| 0 <= k < pos implies group_total(#[trigger] o0[k]) >= group_total(
                g@,
            ) by {
                assert(o0[k] == out@[k]@);
            }
            if pos < m {
                assert(o0[pos as int] == out@[pos as int]@);
            }
            lemma_insert_by_total_at(o0, g@, pos as int);
            let p = grouped.take(j + 1);
            assert(p.drop_last() =~= grouped.take(j as int));
            assert(p.last() == g@);
        }
        out.insert(pos, g);
        assert(groups_view(out@) =~= o0.insert(pos as int, g@));
        j = j + 1;
        proof {
            assert forall|k: int| 0 <= k < gs@.len() implies #[trigger] gs@[k]@ == grouped[j + k] by {}
        }
    }
    assert(grouped.take(total as int) =~= grouped);
    out
}

} // verus!
