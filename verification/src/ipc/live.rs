//! The table of live connections that the daemon's worker writes and its
//! IPC server reads: one row per flow.
use vstd::prelude::*;
use crate::flow::FlowKey;
use crate::inspector::state::{by_recency, targets};
use crate::ipc::protocol::ConnectionDto;
use crate::net::{compare_ip, lemma_rank_injective};

verus! {

/// Whether two flow keys are the same key.
pub fn same_key(a: &FlowKey, b: &FlowKey) -> (r: bool)
    ensures
        r == (*a == *b),
{
    let same_low = compare_ip(&a.addr_low, &b.addr_low) == 0;
    let same_high = compare_ip(&a.addr_high, &b.addr_high) == 0;
    proof {
        if same_low {
            lemma_rank_injective(a.addr_low, b.addr_low);
        }
        if same_high {
            lemma_rank_injective(a.addr_high, b.addr_high);
        }
    }
    same_low && same_high && a.port_low == b.port_low && a.port_high == b.port_high && a.protocol
        == b.protocol
}

/// A copy of a row, field for field.
pub fn copy_row(c: &ConnectionDto) -> (r: ConnectionDto)
    ensures
        r == *c,
{
    ConnectionDto {
        id: c.id,
        process: c.process.clone(),
        pid: c.pid,
        dest_name: c.dest_name.clone(),
        remote_ip: c.remote_ip.clone(),
        remote_port: c.remote_port,
        local_port: c.local_port,
        protocol: c.protocol,
        country: c.country.clone(),
        asn: c.asn,
        as_org: c.as_org.clone(),
        bytes_up: c.bytes_up,
        bytes_down: c.bytes_down,
        first_seen_ms: c.first_seen_ms,
        last_seen_ms: c.last_seen_ms,
        outbound: c.outbound,
    }
}

/// No key twice.
pub open spec fn keys_distinct(s: Seq<(FlowKey, ConnectionDto)>) -> bool {
    forall|i: int, j: int| 0 <= i < j < s.len() ==> s[i].0 != s[j].0
}

/// The rows, in the order they were first added.
pub open spec fn rows_of(s: Seq<(FlowKey, ConnectionDto)>) -> Seq<ConnectionDto> {
    s.map_values(|e: (FlowKey, ConnectionDto)| e.1)
}

/// The row for each key, as a map.
pub open spec fn table_of(s: Seq<(FlowKey, ConnectionDto)>) -> Map<FlowKey, ConnectionDto> {
    Map::new(
        |k: FlowKey| exists|i: int| 0 <= i < s.len() && s[i].0 == k,
        |k: FlowKey| s[choose|i: int| 0 <= i < s.len() && s[i].0 == k].1,
    )
}

/// Live (currently active) connections, one row per flow.
pub struct LiveState {
    conns: Vec<(FlowKey, ConnectionDto)>,
}

impl LiveState {
    /// The rows with their keys, in the order their flows were first seen.
    pub closed spec fn entries(&self) -> Seq<(FlowKey, ConnectionDto)> {
        self.conns@
    }

    pub closed spec fn wf(&self) -> bool {
        keys_distinct(self.conns@)
    }

    pub fn new() -> (l: Self)
        ensures
            l.wf(),
            l.entries() == Seq::<(FlowKey, ConnectionDto)>::empty(),
    {
        LiveState { conns: Vec::new() }
    }

    fn position(&self, key: &FlowKey) -> (r: Option<usize>)
        ensures
            match r {
                Some(i) => i < self.conns@.len() && self.conns@[i as int].0 == *key,
                None => forall|i: int| 0 <= i < self.conns@.len() ==> self.conns@[i].0 != *key,
            },
    {
        let n = self.conns.len();
        let mut i: usize = 0;
        while i < n
            invariant
                n == self.conns@.len(),
                i <= n,
                forall|k: int| 0 <= k < i ==> self.conns@[k].0 != *key,
            decreases n - i,
        {
            if same_key(&self.conns[i].0, key) {
                return Some(i);
            }
            i = i + 1;
        }
        None
    }

    /// The row of a flow.
    pub fn get(&self, key: &FlowKey) -> (r: Option<&ConnectionDto>)
        requires
            self.wf(),
        ensures
            match r {
                Some(c) => table_of(self.entries()).contains_key(*key) && *c == table_of(
                    self.entries(),
                )[*key],
                None => !table_of(self.entries()).contains_key(*key),
            },
    {
        match self.position(key) {
            Some(i) => {
                proof {
                    let s = self.conns@;
                    let j = choose|j: int| 0 <= j < s.len() && s[j].0 == *key;
                    assert(s[i as int].0 == *key);
                    if j != i {
                        assert(keys_distinct(s));
                    }
                }
                Some(&self.conns[i].1)
            },
            None => None,
        }
    }

    /// Puts a flow's row in: it replaces the flow's old row in its place, or
    /// comes last when the flow is new.
    pub fn put(&mut self, key: FlowKey, row: ConnectionDto)
        requires
            old(self).wf(),
        ensures
            final(self).wf(),
            table_of(final(self).entries()) == table_of(old(self).entries()).insert(key, row),
            match old(self).position_spec(key) {
                Some(i) => final(self).entries() == old(self).entries().update(i, (key, row)),
                None => final(self).entries() == old(self).entries().push((key, row)),
            },
    {
        let ghost s0 = self.conns@;
        match self.position(&key) {
            Some(i) => {
                self.conns.set(i, (key, row));
                proof {
                    assert(s0[i as int].0 == key);
                    lemma_position_spec(s0, key, i as int);
                    let s1 = self.conns@;
                    assert forall|a: int, b: int| 0 <= a < b < s1.len() implies s1[a].0
                        != s1[b].0 by {
                        assert(s0[a].0 == s1[a].0 && s0[b].0 == s1[b].0);
                    }
                    lemma_table_update(s0, i as int, key, row);
                }
            },
            None => {
                self.conns.push((key, row));
                proof {
                    lemma_position_spec_absent(s0, key);
                    let s1 = self.conns@;
                    assert forall|a: int, b: int| 0 <= a < b < s1.len() implies s1[a].0
                        != s1[b].0 by {
                        if b < s0.len() {
                            assert(s0[a].0 == s1[a].0 && s0[b].0 == s1[b].0);
                        } else {
                            assert(s1[a] == s0[a]);
                        }
                    }
                    lemma_table_push(s0, key, row);
                }
            },
        }
    }

    /// Takes a flow's row out.
    pub fn remove(&mut self, key: &FlowKey) -> (r: Option<ConnectionDto>)
        requires
            old(self).wf(),
        ensures
            final(self).wf(),
            table_of(final(self).entries()) == table_of(old(self).entries()).remove(*key),
            match r {
                Some(c) => table_of(old(self).entries()).contains_key(*key) && c == table_of(
                    old(self).entries(),
                )[*key],
                None => !table_of(old(self).entries()).contains_key(*key),
            },
    {
        let ghost s0 = self.conns@;
        match self.position(key) {
            Some(i) => {
                proof {
                    lemma_table_remove(s0, i as int);
                }
                let (_, c) = self.conns.remove(i);
                proof {
                    let s1 = self.conns@;
                    assert forall|a: int, b: int| 0 <= a < b < s1.len() implies s1[a].0
                        != s1[b].0 by {
                        let a0 = if a < i { a } else { a + 1 };
                        let b0 = if b < i { b } else { b + 1 };
                        assert(s1[a] == s0[a0] && s1[b] == s0[b0]);
                    }
                }
                Some(c)
            },
            None => {
                proof {
                    assert(table_of(s0).remove(*key) =~= table_of(s0));
                }
                None
            },
        }
    }

    /// All rows, most recently active first (rows equally recent in the
    /// order their flows were first seen).
    pub fn snapshot(&self) -> (v: Vec<ConnectionDto>)
        requires
            self.wf(),
        ensures
            v@ == by_recency(rows_of(self.entries())),
    {
        let n = self.conns.len();
        let mut refs: Vec<&ConnectionDto> = Vec::new();
        let mut i: usize = 0;
        while i < n
            invariant
                n == self.conns@.len(),
                i <= n,
                refs@.len() == i,
                targets(refs@) == rows_of(self.conns@).take(i as int),
            decreases n - i,
        {
            refs.push(&self.conns[i].1);
            assert(targets(refs@) =~= rows_of(self.conns@).take(i + 1));
            i = i + 1;
        }
        assert(rows_of(self.conns@).take(n as int) =~= rows_of(self.conns@));
        sort_by_recency(refs)
    }

    pub closed spec fn position_spec(&self, key: FlowKey) -> Option<int> {
        if exists|i: int| 0 <= i < self.conns@.len() && self.conns@[i].0 == key {
            Some(choose|i: int| 0 <= i < self.conns@.len() && self.conns@[i].0 == key)
        } else {
            None
        }
    }
}

impl Default for LiveState {
    fn default() -> (l: Self)
        ensures
            l.wf(),
            l.entries() == Seq::<(FlowKey, ConnectionDto)>::empty(),
    {
        LiveState::new()
    }
}

proof fn lemma_position_spec(s: Seq<(FlowKey, ConnectionDto)>, key: FlowKey, i: int)
    requires
        keys_distinct(s),
        0 <= i < s.len(),
        s[i].0 == key,
    ensures
        (choose|j: int| 0 <= j < s.len() && s[j].0 == key) == i,
{
    let j = choose|j: int| 0 <= j < s.len() && s[j].0 == key;
    if j != i {
        assert(s[j].0 == key);
    }
}

proof fn lemma_position_spec_absent(s: Seq<(FlowKey, ConnectionDto)>, key: FlowKey)
    requires
        forall|i: int| 0 <= i < s.len() ==> s[i].0 != key,
    ensures
        !(exists|i: int| 0 <= i < s.len() && s[i].0 == key),
{
}

proof fn lemma_table_update(
    s: Seq<(FlowKey, ConnectionDto)>,
    i: int,
    key: FlowKey,
    row: ConnectionDto,
)
    requires
        keys_distinct(s),
        0 <= i < s.len(),
        s[i].0 == key,
    ensures
        table_of(s.update(i, (key, row))) == table_of(s).insert(key, row),
{
    let s1 = s.update(i, (key, row));
    assert forall|k: FlowKey| #[trigger] table_of(s1).contains_key(k) == table_of(s).insert(
        key,
        row,
    ).contains_key(k) by {
        if exists|j: int| 0 <= j < s.len() && s[j].0 == k {
            let j = choose|j: int| 0 <= j < s.len() && s[j].0 == k;
            assert(s1[j].0 == k);
        }
        if exists|j: int| 0 <= j < s1.len() && s1[j].0 == k {
            let j = choose|j: int| 0 <= j < s1.len() && s1[j].0 == k;
            assert(s[j].0 == k);
        }
    }
    assert forall|k: FlowKey| #[trigger] table_of(s1).contains_key(k) implies table_of(s1)[k]
        == table_of(s).insert(key, row)[k] by {
        let j1 = choose|j: int| 0 <= j < s1.len() && s1[j].0 == k;
        if k == key {
            assert(s1[i].0 == key);
            if j1 != i {
                assert(s[j1].0 == key);
            }
        } else {
            let j0 = choose|j: int| 0 <= j < s.len() && s[j].0 == k;
            assert(s1[j0].0 == k);
            if j0 != j1 {
                assert(s[j1].0 == k);
            }
        }
    }
    assert(table_of(s1) =~= table_of(s).insert(key, row));
}

proof fn lemma_table_push(s: Seq<(FlowKey, ConnectionDto)>, key: FlowKey, row: ConnectionDto)
    requires
        keys_distinct(s),
        forall|i: int| 0 <= i < s.len() ==> s[i].0 != key,
    ensures
        table_of(s.push((key, row))) == table_of(s).insert(key, row),
{
    let s1 = s.push((key, row));
    assert forall|k: FlowKey| #[trigger] table_of(s1).contains_key(k) == table_of(s).insert(
        key,
        row,
    ).contains_key(k) by {
        if exists|j: int| 0 <= j < s.len() && s[j].0 == k {
            let j = choose|j: int| 0 <= j < s.len() && s[j].0 == k;
            assert(s1[j].0 == k);
        }
        if k == key {
            assert(s1[s.len() as int].0 == key);
        }
        if exists|j: int| 0 <= j < s1.len() && s1[j].0 == k {
            let j = choose|j: int| 0 <= j < s1.len() && s1[j].0 == k;
            if j < s.len() {
                assert(s[j].0 == k);
            }
        }
    }
    assert forall|k: FlowKey| #[trigger] table_of(s1).contains_key(k) implies table_of(s1)[k]
        == table_of(s).insert(key, row)[k] by {
        let j1 = choose|j: int| 0 <= j < s1.len() && s1[j].0 == k;
        if k == key {
            if j1 < s.len() {
                assert(s[j1].0 == key);
            }
        } else {
            let j0 = choose|j: int| 0 <= j < s.len() && s[j].0 == k;
            assert(s1[j0].0 == k);
            if j1 == s.len() {
                assert(s1[j1].0 == key);
            }
            if j0 != j1 && j1 < s.len() {
                assert(s1[j0] == s[j0] && s1[j1] == s[j1]);
            }
        }
    }
    assert(table_of(s1) =~= table_of(s).insert(key, row));
}

proof fn lemma_table_remove(s: Seq<(FlowKey, ConnectionDto)>, i: int)
    requires
        keys_distinct(s),
        0 <= i < s.len(),
    ensures
        table_of(s.remove(i)) == table_of(s).remove(s[i].0),
        table_of(s).contains_key(s[i].0),
        table_of(s)[s[i].0] == s[i].1,
{
    let key = s[i].0;
    let s1 = s.remove(i);
    assert(table_of(s).contains_key(key));
    let jk = choose|j: int| 0 <= j < s.len() && s[j].0 == key;
    if jk != i {
        assert(s[jk].0 == key);
    }
    assert forall|k: FlowKey| #[trigger] table_of(s1).contains_key(k) == table_of(s).remove(
        key,
    ).contains_key(k) by {
        if exists|j: int| 0 <= j < s1.len() && s1[j].0 == k {
            let j = choose|j: int| 0 <= j < s1.len() && s1[j].0 == k;
            let j0 = if j < i { j } else { j + 1 };
            assert(s[j0].0 == k);
            if k == key {
                assert(s[j0].0 == s[i].0);
            }
        }
        if k != key && exists|j: int| 0 <= j < s.len() && s[j].0 == k {
            let j = choose|j: int| 0 <= j < s.len() && s[j].0 == k;
            if j < i {
                assert(s1[j].0 == k);
            } else if j > i {
                assert(s1[j - 1].0 == k);
            }
        }
    }
    assert forall|k: FlowKey| #[trigger] table_of(s1).contains_key(k) implies table_of(s1)[k]
        == table_of(s).remove(key)[k] by {
        let j1 = choose|j: int| 0 <= j < s1.len() && s1[j].0 == k;
        let j1o = if j1 < i { j1 } else { j1 + 1 };
        assert(s[j1o].0 == k);
        let j0 = choose|j: int| 0 <= j < s.len() && s[j].0 == k;
        if j0 != j1o {
            assert(s[j0].0 == k);
        }
    }
    assert(table_of(s1) =~= table_of(s).remove(key));
}

/// Copies of the referenced rows, most recently active first.
fn sort_by_recency(refs: Vec<&ConnectionDto>) -> (v: Vec<ConnectionDto>)
    ensures
        v@ == by_recency(targets(refs@)),
{
    let sorted = crate::inspector::state::order_by_recency(&refs);
    let n = sorted.len();
    let mut out: Vec<ConnectionDto> = Vec::new();
    let mut i: usize = 0;
    while i < n
        invariant
            n == sorted@.len(),
            i <= n,
            out@.len() == i,
            out@ == targets(sorted@).take(i as int),
        decreases n - i,
    {
        out.push(copy_row(sorted[i]));
        assert(out@ =~= targets(sorted@).take(i + 1));
        i = i + 1;
    }
    assert(targets(sorted@).take(n as int) =~= targets(sorted@));
    out
}

} // verus!
