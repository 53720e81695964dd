//! The inspector's state: the live connections (kept by increasing id),
//! the alert feed, the daemon's status, and the queries a front end asks.
use vstd::prelude::*;
use std::collections::VecDeque;
use crate::alert::Alert;
use crate::ipc::protocol::{ConnectionDto, DaemonStatus, Event};
use crate::enrich::names::{registrable_domain_of, spec_registrable_domain};
use crate::identity::{contains_exec, has_sub};
use crate::inspector::rollup::{by_total, bytes_total, rollup, rollup_by, Group, GroupV};
use crate::text::{spec_to_lowercase, str_to_string, string_chars, to_lowercase};

verus! {

/// How many alerts the feed keeps; the oldest fall off the back.
pub const MAX_ALERTS: usize = 500;

/// Entries ordered by strictly increasing connection id (so no id twice).
pub open spec fn ids_increasing(s: Seq<ConnectionDto>) -> bool {
    forall|i: int, j: int| 0 <= i < j < s.len() ==> s[i].id < s[j].id
}

/// `s` with `c` in its place by id: the entry with `c`'s id is replaced,
/// else `c` goes in before the first entry with a larger id.
pub open spec fn upsert(s: Seq<ConnectionDto>, c: ConnectionDto) -> Seq<ConnectionDto>
    decreases s.len(),
{
    if s.len() == 0 {
        seq![c]
    } else if s[0].id == c.id {
        seq![c] + s.drop_first()
    } else if c.id < s[0].id {
        seq![c] + s
    } else {
        seq![s[0]] + upsert(s.drop_first(), c)
    }
}

/// `s` without its entry for `id`.
pub open spec fn drop_id(s: Seq<ConnectionDto>, id: u64) -> Seq<ConnectionDto>
    decreases s.len(),
{
    if s.len() == 0 {
        s
    } else if s[0].id == id {
        s.drop_first()
    } else {
        seq![s[0]] + drop_id(s.drop_first(), id)
    }
}

/// Every connection of `cs`, put in by id in turn, starting from `s`.
pub open spec fn upsert_all(s: Seq<ConnectionDto>, cs: Seq<ConnectionDto>) -> Seq<
    ConnectionDto,
>
    decreases cs.len(),
{
    if cs.len() == 0 {
        s
    } else {
        upsert(upsert_all(s, cs.drop_last()), cs.last())
    }
}

proof fn lemma_drop_absent(s: Seq<ConnectionDto>, id: u64)
    requires
        forall|k: int| 0 <= k < s.len() ==> #[trigger] s[k].id != id,
    ensures
        drop_id(s, id) == s,
    decreases s.len(),
{
    if s.len() > 0 {
        let t = s.drop_first();
        assert forall|k: int| 0 <= k < t.len() implies #[trigger] t[k].id != id by {
            assert(t[k] == s[k + 1]);
        }
        lemma_drop_absent(t, id);
        assert(seq![s[0]] + t =~= s);
    }
}

/// A connection that opens and then closes leaves the live set as closing
/// its id alone would have.
pub proof fn law_flow_then_closed(s: Seq<ConnectionDto>, c: ConnectionDto)
    requires
        ids_increasing(s),
    ensures
        drop_id(upsert(s, c), c.id) == drop_id(s, c.id),
    decreases s.len(),
{
    if s.len() == 0 {
        assert(upsert(s, c) =~= seq![c]);
        assert(seq![c].drop_first() =~= s);
    } else {
        let t = s.drop_first();
        if s[0].id == c.id {
            assert((seq![c] + t).drop_first() =~= t);
        } else if c.id < s[0].id {
            assert((seq![c] + s).drop_first() =~= s);
            assert forall|k: int| 0 <= k < s.len() implies #[trigger] s[k].id != c.id by {
                if k > 0 {
                    assert(s[0].id < s[k].id);
                }
            }
            lemma_drop_absent(s, c.id);
        } else {
            assert(ids_increasing(t)) by {
                assert forall|i: int, j: int| 0 <= i < j < t.len() implies t[i].id < t[j].id by {
                    assert(t[i] == s[i + 1] && t[j] == s[j + 1]);
                }
            }
            law_flow_then_closed(t, c);
            let u = upsert(t, c);
            assert((seq![s[0]] + u)[0] == s[0]);
            assert((seq![s[0]] + u).drop_first() =~= u);
        }
    }
}

/// The alert feed after `a` arrives: newest first, at most `MAX_ALERTS` long.
pub open spec fn feed_after(feed: Seq<Alert>, a: Alert) -> Seq<Alert> {
    let all = seq![a] + feed;
    if all.len() > MAX_ALERTS {
        all.take(MAX_ALERTS as int)
    } else {
        all
    }
}

/// After an alert arrives the feed starts with it and holds at most
/// `MAX_ALERTS` alerts, the rest in their old order.
pub proof fn law_feed_newest_first_and_capped(feed: Seq<Alert>, a: Alert)
    ensures
        feed_after(feed, a).len() <= MAX_ALERTS,
        feed_after(feed, a)[0] == a,
        forall|i: int| 1 <= i < feed_after(feed, a).len() ==> #[trigger] feed_after(feed, a)[i] == feed[i - 1],
{
}

proof fn lemma_upsert_at(s: Seq<ConnectionDto>, c: ConnectionDto, pos: int)
    requires
        0 <= pos <= s.len(),
        forall|k: int| 0 <= k < pos ==> #[trigger] s[k].id < c.id,
        pos < s.len() ==> s[pos].id >= c.id,
    ensures
        upsert(s, c) == if pos < s.len() && s[pos].id == c.id {
            s.update(pos, c)
        } else {
            s.insert(pos, c)
        },
    decreases pos,
{
    if pos == 0 {
        if s.len() > 0 && s[0].id == c.id {
            assert(seq![c] + s.drop_first() =~= s.update(0, c));
        } else {
            assert(seq![c] + s =~= s.insert(0, c));
        }
    } else {
        let t = s.drop_first();
        assert forall|k: int| 0 <= k < pos - 1 implies #[trigger] t[k].id < c.id by {
            assert(t[k] == s[k + 1]);
        }
        lemma_upsert_at(t, c, pos - 1);
        if pos < s.len() && s[pos].id == c.id {
            assert(seq![s[0]] + t.update(pos - 1, c) =~= s.update(pos, c));
        } else {
            assert(seq![s[0]] + t.insert(pos - 1, c) =~= s.insert(pos, c));
        }
    }
}

proof fn lemma_drop_id_at(s: Seq<ConnectionDto>, id: u64, pos: int)
    requires
        0 <= pos <= s.len(),
        forall|k: int| 0 <= k < pos ==> #[trigger] s[k].id != id,
        pos < s.len() ==> s[pos].id == id,
    ensures
        drop_id(s, id) == if pos < s.len() {
            s.remove(pos)
        } else {
            s
        },
    decreases pos,
{
    if pos == 0 {
        if s.len() > 0 {
            assert(s.drop_first() =~= s.remove(0));
        }
    } else {
        let t = s.drop_first();
        assert forall|k: int| 0 <= k < pos - 1 implies #[trigger] t[k].id != id by {
            assert(t[k] == s[k + 1]);
        }
        lemma_drop_id_at(t, id, pos - 1);
        if pos < s.len() {
            assert(seq![s[0]] + t.remove(pos - 1) =~= s.remove(pos));
        } else {
            assert(seq![s[0]] + t =~= s);
        }
    }
}

/// Putting a connection in keeps the ids strictly increasing; the entry for
/// its id is then that connection, and every other id keeps its entry.
pub proof fn law_upsert_replaces_by_id(s: Seq<ConnectionDto>, c: ConnectionDto)
    requires
        ids_increasing(s),
    ensures
        ids_increasing(upsert(s, c)),
        upsert(s, c).contains(c),
        forall|x: ConnectionDto| #[trigger]
            upsert(s, c).contains(x) <==> (x == c || (s.contains(x) && x.id != c.id)),
    decreases s.len(),
{
    if s.len() == 0 {
        assert(upsert(s, c) =~= seq![c]);
        assert(upsert(s, c)[0] == c);
    } else {
        let t = s.drop_first();
        if s[0].id == c.id {
            let r = seq![c] + t;
            assert(r[0] == c);
            assert forall|x: ConnectionDto| #[trigger] r.contains(x) <==> (x == c || (s.contains(x)
                && x.id != c.id)) by {
                if r.contains(x) && x != c {
                    let k = choose|k: int| 0 <= k < r.len() && r[k] == x;
                    assert(s[k] == x);
                }
                if s.contains(x) && x.id != c.id {
                    let k = choose|k: int| 0 <= k < s.len() && s[k] == x;
                    assert(k != 0);
                    assert(r[k] == x);
                }
            }
        } else if c.id < s[0].id {
            let r = seq![c] + s;
            assert(r[0] == c);
            assert forall|x: ConnectionDto| #[trigger] r.contains(x) <==> (x == c || (s.contains(x)
                && x.id != c.id)) by {
                if r.contains(x) && x != c {
                    let k = choose|k: int| 0 <= k < r.len() && r[k] == x;
                    assert(s[k - 1] == x);
                }
                if s.contains(x) {
                    let k = choose|k: int| 0 <= k < s.len() && s[k] == x;
                    assert(r[k + 1] == x);
                }
            }
        } else {
            assert(ids_increasing(t)) by {
                assert forall|i: int, j: int| 0 <= i < j < t.len() implies t[i].id < t[j].id by {
                    assert(t[i] == s[i + 1] && t[j] == s[j + 1]);
                }
            }
            law_upsert_replaces_by_id(t, c);
            let u = upsert(t, c);
            let r = seq![s[0]] + u;
            assert(r == upsert(s, c));
            assert forall|x: ConnectionDto| #[trigger] u.contains(x) implies s[0].id < x.id by {
                if x != c {
                    let k = choose|k: int| 0 <= k < t.len() && t[k] == x;
                    assert(s[k + 1] == x);
                }
            }
            assert forall|i: int, j: int| 0 <= i < j < r.len() implies r[i].id < r[j].id by {
                if i == 0 {
                    assert(u.contains(r[j]));
                }
            }
            assert(u.contains(c));
            assert(r[u.len() as int] == u[u.len() - 1]);
            let k0 = choose|k: int| 0 <= k < u.len() && u[k] == c;
            assert(r[k0 + 1] == c);
            assert forall|x: ConnectionDto| #[trigger] r.contains(x) <==> (x == c || (s.contains(x)
                && x.id != c.id)) by {
                if r.contains(x) && x != s[0] {
                    let k = choose|k: int| 0 <= k < r.len() && r[k] == x;
                    assert(u[k - 1] == x);
                    assert(u.contains(x));
                    if x != c {
                        assert(t.contains(x));
                        let m = choose|m: int| 0 <= m < t.len() && t[m] == x;
                        assert(s[m + 1] == x);
                    }
                }
                if r.contains(x) && x == s[0] {
                    assert(s[0] == s[0]);
                    assert(s.contains(s[0]));
                }
                if s.contains(x) && x.id != c.id {
                    let k = choose|k: int| 0 <= k < s.len() && s[k] == x;
                    if k == 0 {
                        assert(r[0] == x);
                    } else {
                        assert(t[k - 1] == x);
                        assert(t.contains(x));
                        assert(u.contains(x));
                        let m = choose|m: int| 0 <= m < u.len() && u[m] == x;
                        assert(r[m + 1] == x);
                    }
                }
                if x == c {
                    assert(r[k0 + 1] == c);
                }
            }
        }
    }
}

/// `x` put into `s` after every entry that is at least as recently active.
pub open spec fn insert_by_recency(s: Seq<ConnectionDto>, x: ConnectionDto) -> Seq<ConnectionDto>
    decreases s.len(),
{
    if s.len() == 0 {
        seq![x]
    } else if s[0].last_seen_ms < x.last_seen_ms {
        seq![x] + s
    } else {
        seq![s[0]] + insert_by_recency(s.drop_first(), x)
    }
}

/// `s` ordered most recently active first; entries equally recent keep
/// their order in `s`.
pub open spec fn by_recency(s: Seq<ConnectionDto>) -> Seq<ConnectionDto>
    decreases s.len(),
{
    if s.len() == 0 {
        s
    } else {
        insert_by_recency(by_recency(s.drop_last()), s.last())
    }
}

/// Most recently active first.
pub open spec fn recency_sorted(s: Seq<ConnectionDto>) -> bool {
    forall|i: int, j: int| 0 <= i < j < s.len() ==> s[i].last_seen_ms >= s[j].last_seen_ms
}

/// The connections that references point at.
pub open spec fn targets(v: Seq<&ConnectionDto>) -> Seq<ConnectionDto> {
    v.map_values(|c: &ConnectionDto| *c)
}

proof fn lemma_insert_by_recency_at(s: Seq<ConnectionDto>, x: ConnectionDto, pos: int)
    requires
        0 <= pos <= s.len(),
        forall|k: int| 0 <= k < pos ==> #[trigger] s[k].last_seen_ms >= x.last_seen_ms,
        pos < s.len() ==> s[pos].last_seen_ms < x.last_seen_ms,
    ensures
        insert_by_recency(s, x) == s.insert(pos, x),
    decreases pos,
{
    if pos == 0 {
        assert(seq![x] + s =~= s.insert(0, x));
    } else {
        let t = s.drop_first();
        assert forall|k: int| 0 <= k < pos - 1 implies #[trigger] t[k].last_seen_ms
            >= x.last_seen_ms by {
            assert(t[k] == s[k + 1]);
        }
        lemma_insert_by_recency_at(t, x, pos - 1);
        assert(seq![s[0]] + t.insert(pos - 1, x) =~= s.insert(pos, x));
    }
}

proof fn lemma_insert_by_recency_sorted(s: Seq<ConnectionDto>, x: ConnectionDto)
    requires
        recency_sorted(s),
    ensures
        recency_sorted(insert_by_recency(s, x)),
        insert_by_recency(s, x).to_multiset() == s.to_multiset().insert(x),
    decreases s.len(),
{
    broadcast use vstd::seq_lib::group_to_multiset_ensures;
    if s.len() == 0 {
        assert(insert_by_recency(s, x) =~= seq![x]);
        assert(seq![x] =~= s.push(x));
    } else if s[0].last_seen_ms < x.last_seen_ms {
        let r = seq![x] + s;
        assert forall|i: int, j: int| 0 <= i < j < r.len() implies r[i].last_seen_ms
            >= r[j].last_seen_ms by {
            if i > 0 {
                assert(r[i] == s[i - 1] && r[j] == s[j - 1]);
            } else {
                assert(r[j] == s[j - 1]);
            }
        }
        vstd::seq_lib::lemma_multiset_commutative(seq![x], s);
        assert(seq![x] =~= Seq::<ConnectionDto>::empty().push(x));
    } else {
        let t = s.drop_first();
        assert forall|i: int, j: int| 0 <= i < j < t.len() implies t[i].last_seen_ms
            >= t[j].last_seen_ms by {
            assert(t[i] == s[i + 1] && t[j] == s[j + 1]);
        }
        lemma_insert_by_recency_sorted(t, x);
        let u = insert_by_recency(t, x);
        let r = seq![s[0]] + u;
        assert forall|k: int| 0 <= k < u.len() implies #[trigger] u[k].last_seen_ms
            <= s[0].last_seen_ms by {
            assert(u.to_multiset().count(u[k]) > 0);
            assert(t.to_multiset().insert(x).count(u[k]) > 0);
            if u[k] != x {
                assert(t.to_multiset().count(u[k]) > 0);
                assert(t.contains(u[k]));
                let m = choose|m: int| 0 <= m < t.len() && t[m] == u[k];
                assert(s[m + 1] == u[k]);
            }
        }
        assert forall|i: int, j: int| 0 <= i < j < r.len() implies r[i].last_seen_ms
            >= r[j].last_seen_ms by {
            if i > 0 {
                assert(r[i] == u[i - 1] && r[j] == u[j - 1]);
            } else {
                assert(r[j] == u[j - 1]);
            }
        }
        vstd::seq_lib::lemma_multiset_commutative(seq![s[0]], u);
        vstd::seq_lib::lemma_multiset_commutative(seq![s[0]], t);
        assert(seq![s[0]] + t =~= s);
    }
}

/// Ordering by recency sorts most recently active first and keeps every
/// connection, each as often as it was there.
pub proof fn law_by_recency_sorts(s: Seq<ConnectionDto>)
    ensures
        recency_sorted(by_recency(s)),
        by_recency(s).to_multiset() == s.to_multiset(),
    decreases s.len(),
{
    broadcast use vstd::seq_lib::group_to_multiset_ensures;
    if s.len() > 0 {
        law_by_recency_sorts(s.drop_last());
        lemma_insert_by_recency_sorted(by_recency(s.drop_last()), s.last());
        assert(s.drop_last().push(s.last()) =~= s);
    }
}

/// The referenced connections, most recently active first (equally recent
/// ones in their given order).
pub fn order_by_recency<'a>(items: &Vec<&'a ConnectionDto>) -> (v: Vec<&'a ConnectionDto>)
    ensures
        targets(v@) == by_recency(targets(items@)),
{
    let n = items.len();
    let mut v: Vec<&ConnectionDto> = Vec::new();
    let mut i: usize = 0;
    while i < n
        invariant
            n == items@.len(),
            i <= n,
            targets(v@) == by_recency(targets(items@).take(i as int)),
        decreases n - i,
    {
        let x = items[i];
        let m = v.len();
        let mut pos: usize = 0;
        while pos < m && v[pos].last_seen_ms >= x.last_seen_ms
            invariant
                m == v@.len(),
                pos <= m,
                forall|k: int| 0 <= k < pos ==> #[trigger] v@[k].last_seen_ms >= x.last_seen_ms,
            decreases m - pos,
        {
            pos = pos + 1;
        }
        let ghost t = targets(v@);
        proof {
            assert forall|k: int| 0 <= k < pos implies #[trigger] t[k].last_seen_ms
                >= x.last_seen_ms by {
                assert(t[k] == *v@[k]);
            }
            lemma_insert_by_recency_at(t, *x, pos as int);
            let p = targets(items@).take(i + 1);
            assert(p.drop_last() =~= targets(items@).take(i as int));
            assert(p.last() == *x);
        }
        v.insert(pos, x);
        proof {
            assert(targets(v@) =~= t.insert(pos as int, *x));
        }
        i = i + 1;
    }
    assert(targets(items@).take(n as int) =~= targets(items@));
    v
}

/// The text of an optional field, empty where there is none.
pub open spec fn opt_text(o: Option<String>) -> Seq<char> {
    match o {
        Some(s) => s@,
        None => Seq::empty(),
    }
}

/// Whether a connection matches a lower-cased query: a substring of its
/// lower-cased process, destination name, organisation or country, or of
/// its remote address as written.
pub open spec fn conn_matches(c: ConnectionDto, q: Seq<char>) -> bool {
    ||| has_sub(spec_to_lowercase(c.process@), q)
    ||| has_sub(spec_to_lowercase(c.dest_name@), q)
    ||| has_sub(c.remote_ip@, q)
    ||| has_sub(spec_to_lowercase(opt_text(c.as_org)), q)
    ||| has_sub(spec_to_lowercase(opt_text(c.country)), q)
}

/// Per-process rollup of live connections.
#[derive(Debug, Clone)]
pub struct ProcessAgg {
    pub process: String,
    pub pid: Option<u32>,
    pub conns: usize,
    pub bytes_up: u64,
    pub bytes_down: u64,
}

/// Per-domain rollup of live connections.
#[derive(Debug, Clone)]
pub struct DomainAgg {
    pub domain: String,
    pub conns: usize,
    pub bytes_up: u64,
    pub bytes_down: u64,
}

impl View for ProcessAgg {
    type V = GroupV;

    open spec fn view(&self) -> GroupV {
        GroupV {
            key: self.process@,
            pid: self.pid,
            conns: self.conns as nat,
            bytes_up: self.bytes_up as nat,
            bytes_down: self.bytes_down as nat,
        }
    }
}

impl View for DomainAgg {
    type V = GroupV;

    open spec fn view(&self) -> GroupV {
        GroupV {
            key: self.domain@,
            pid: None,
            conns: self.conns as nat,
            bytes_up: self.bytes_up as nat,
            bytes_down: self.bytes_down as nat,
        }
    }
}

/// The key a connection is rolled up under by domain: its organisation
/// where known, else the registrable domain of its destination name.
pub open spec fn domain_key(c: ConnectionDto) -> Seq<char> {
    match c.as_org {
        Some(o) => o@,
        None => spec_registrable_domain(c.dest_name@),
    }
}

/// A group as a domain rollup shows it: without a pid.
pub open spec fn without_pid(g: GroupV) -> GroupV {
    GroupV { pid: None, ..g }
}

/// Inspector state: the live connections, the alert feed and the daemon's
/// status. It survives a daemon disconnect by keeping the last-known state
/// beside a banner message.
pub struct InspectorApp {
    conns: Vec<ConnectionDto>,
    pub alerts: VecDeque<Alert>,
    pub status: Option<DaemonStatus>,
    pub connected: bool,
    pub disconnect_msg: Option<String>,
}

impl InspectorApp {
    /// The live connections, by increasing id.
    pub closed spec fn live(&self) -> Seq<ConnectionDto> {
        self.conns@
    }

    /// The alert feed, newest first.
    pub closed spec fn feed(&self) -> Seq<Alert> {
        self.alerts@
    }

    pub closed spec fn daemon_status(&self) -> Option<DaemonStatus> {
        self.status
    }

    pub closed spec fn is_connected(&self) -> bool {
        self.connected
    }

    pub closed spec fn banner(&self) -> Option<String> {
        self.disconnect_msg
    }

    pub closed spec fn wf(&self) -> bool {
        ids_increasing(self.conns@)
    }

    pub fn new() -> (app: Self)
        ensures
            app.wf(),
            app.live() == Seq::<ConnectionDto>::empty(),
            app.feed() == Seq::<Alert>::empty(),
            app.daemon_status() is None,
            app.is_connected(),
            app.banner() is None,
    {
        InspectorApp {
            conns: Vec::new(),
            alerts: VecDeque::new(),
            status: None,
            connected: true,
            disconnect_msg: None,
        }
    }

    fn put(&mut self, c: ConnectionDto)
        requires
            old(self).wf(),
        ensures
            final(self).wf(),
            final(self).live() == upsert(old(self).live(), c),
            final(self).feed() == old(self).feed(),
            final(self).daemon_status() == old(self).daemon_status(),
            final(self).is_connected() == old(self).is_connected(),
            final(self).banner() == old(self).banner(),
    {
        let n = self.conns.len();
        let mut pos: usize = 0;
        while pos < n && self.conns[pos].id < c.id
            invariant
                n == self.conns.len(),
                pos <= n,
                forall|k: int| 0 <= k < pos ==> #[trigger] self.conns@[k].id < c.id,
            decreases n - pos,
        {
            pos = pos + 1;
        }
        proof {
            lemma_upsert_at(self.conns@, c, pos as int);
            law_upsert_replaces_by_id(self.conns@, c);
        }
        if pos < n && self.conns[pos].id == c.id {
            self.conns.set(pos, c);
        } else {
            self.conns.insert(pos, c);
        }
    }

    /// Apply a streamed event from the daemon.
    pub fn apply(&mut self, ev: Event)
        requires
            old(self).wf(),
        ensures
            final(self).wf(),
            final(self).daemon_status() == old(self).daemon_status(),
            final(self).is_connected() == old(self).is_connected(),
            final(self).banner() == old(self).banner(),
            match ev {
                Event::Flow(dto) => {
                    &&& final(self).live() == upsert(old(self).live(), dto)
                    &&& final(self).feed() == old(self).feed()
                },
                Event::Closed { id } => {
                    &&& final(self).live() == drop_id(old(self).live(), id)
                    &&& final(self).feed() == old(self).feed()
                },
                Event::Alert(a) => {
                    &&& final(self).live() == old(self).live()
                    &&& final(self).feed() == feed_after(old(self).feed(), a)
                },
                Event::Heartbeat { .. } => {
                    &&& final(self).live() == old(self).live()
                    &&& final(self).feed() == old(self).feed()
                },
            },
    {
        match ev {
            Event::Flow(dto) => {
                self.put(dto);
            },
            Event::Closed { id } => {
                let n = self.conns.len();
                let mut pos: usize = 0;
                while pos < n && self.conns[pos].id != id
                    invariant
                        n == self.conns.len(),
                        pos <= n,
                        forall|k: int| 0 <= k < pos ==> #[trigger] self.conns@[k].id != id,
                    decreases n - pos,
                {
                    pos = pos + 1;
                }
                proof {
                    lemma_drop_id_at(self.conns@, id, pos as int);
                }
                if pos < n {
                    let ghost s0 = self.conns@;
                    self.conns.remove(pos);
                    proof {
                        let r = self.conns@;
                        assert forall|i: int, j: int| 0 <= i < j < r.len() implies r[i].id < r[j].id by {
                            let a = if i < pos { i } else { i + 1 };
                            let b = if j < pos { j } else { j + 1 };
                            assert(r[i] == s0[a] && r[j] == s0[b]);
                        }
                    }
                }
            },
            Event::Alert(a) => {
                let ghost before = self.alerts@;
                self.alerts.push_front(a);
                while self.alerts.len() > MAX_ALERTS
                    invariant
                        self.alerts@ == (seq![a] + before).take(self.alerts@.len() as int),
                        self.alerts@.len() <= before.len() + 1,
                        self.alerts@.len() < before.len() + 1 ==> self.alerts@.len() >= MAX_ALERTS,
                        self.conns == old(self).conns,
                        self.status == old(self).status,
                        self.connected == old(self).connected,
                        self.disconnect_msg == old(self).disconnect_msg,
                    decreases self.alerts@.len(),
                {
                    self.alerts.pop_back();
                }
                proof {
                    let all = seq![a] + before;
                    if all.len() <= MAX_ALERTS {
                        assert(all.take(all.len() as int) =~= all);
                    }
                }
            },
            Event::Heartbeat { .. } => {},
        }
    }

    /// Replace the live connections with those of a snapshot.
    pub fn set_snapshot(&mut self, conns: Vec<ConnectionDto>)
        requires
            old(self).wf(),
        ensures
            final(self).wf(),
            final(self).live() == upsert_all(Seq::empty(), conns@),
            final(self).feed() == old(self).feed(),
            final(self).daemon_status() == old(self).daemon_status(),
            final(self).is_connected() == old(self).is_connected(),
            final(self).banner() == old(self).banner(),
    {
        self.conns.clear();
        let mut rest = conns;
        let ghost all = rest@;
        let ghost orig = self.alerts@;
        while rest.len() > 0
            invariant
                self.wf(),
                rest@.len() <= all.len(),
                all == all.take(all.len() - rest@.len()) + rest@,
                self.live() == upsert_all(Seq::empty(), all.take(all.len() - rest@.len())),
                self.alerts@ == orig,
                self.status == old(self).daemon_status(),
                self.connected == old(self).is_connected(),
                self.disconnect_msg == old(self).banner(),
            decreases rest.len(),
        {
            let ghost k = all.len() - rest@.len();
            let c = rest.remove(0);
            proof {
                assert(all.take(k + 1).drop_last() =~= all.take(k));
                assert(all[k] == c);
                assert(all.take(k + 1).last() == c);
                assert(all =~= all.take(k + 1) + rest@);
            }
            self.put(c);
        }
        assert(all.take(all.len() as int) =~= all);
    }

    pub fn set_recent_alerts(&mut self, alerts: Vec<Alert>)
        requires
            old(self).wf(),
        ensures
            final(self).wf(),
            final(self).live() == old(self).live(),
            final(self).feed() == alerts@,
            final(self).daemon_status() == old(self).daemon_status(),
            final(self).is_connected() == old(self).is_connected(),
            final(self).banner() == old(self).banner(),
    {
        let mut feed: VecDeque<Alert> = VecDeque::new();
        let mut rest = alerts;
        let ghost all = rest@;
        while rest.len() > 0
            invariant
                all == feed@.reverse() + rest@,
            decreases rest.len(),
        {
            let a = rest.remove(0);
            feed.push_front(a);
            assert(all =~= feed@.reverse() + rest@);
        }
        let mut out: VecDeque<Alert> = VecDeque::new();
        while feed.len() > 0
            invariant
                all == out@ + feed@.reverse(),
            decreases feed.len(),
        {
            let a = feed.pop_back().unwrap();
            out.push_back(a);
            assert(all =~= out@ + feed@.reverse());
        }
        assert(feed@.reverse() =~= Seq::<Alert>::empty());
        self.alerts = out;
    }

    pub fn set_status(&mut self, status: DaemonStatus)
        requires
            old(self).wf(),
        ensures
            final(self).wf(),
            final(self).live() == old(self).live(),
            final(self).feed() == old(self).feed(),
            final(self).daemon_status() == Some(status),
            final(self).is_connected() == old(self).is_connected(),
            final(self).banner() == old(self).banner(),
    {
        self.status = Some(status);
    }

    /// Mark the daemon as gone, keeping the last-known state.
    pub fn set_disconnected(&mut self, msg: &str)
        requires
            old(self).wf(),
        ensures
            final(self).wf(),
            final(self).live() == old(self).live(),
            final(self).feed() == old(self).feed(),
            final(self).daemon_status() == old(self).daemon_status(),
            !final(self).is_connected(),
            final(self).banner() matches Some(m) && m@ == msg@,
    {
        self.connected = false;
        self.disconnect_msg = Some(str_to_string(msg));
    }

    /// Live connections, most recently active first.
    pub fn connections(&self) -> (v: Vec<&ConnectionDto>)
        requires
            self.wf(),
        ensures
            targets(v@) == by_recency(self.live()),
    {
        let n = self.conns.len();
        let mut refs: Vec<&ConnectionDto> = Vec::new();
        let mut i: usize = 0;
        while i < n
            invariant
                n == self.conns@.len(),
                i <= n,
                refs@.len() == i,
                targets(refs@) == self.conns@.take(i as int),
            decreases n - i,
        {
            refs.push(&self.conns[i]);
            assert(targets(refs@) =~= self.conns@.take(i + 1));
            i = i + 1;
        }
        assert(self.conns@.take(n as int) =~= self.conns@);
        order_by_recency(&refs)
    }

    /// Live connections, most recently active first, that match a
    /// case-insensitive query (all of them for an empty query).
    pub fn matching(&self, query: &str) -> (v: Vec<&ConnectionDto>)
        requires
            self.wf(),
        ensures
            query@.len() == 0 ==> targets(v@) == by_recency(self.live()),
            query@.len() > 0 ==> targets(v@) == by_recency(self.live()).filter(
                |c: ConnectionDto| conn_matches(c, spec_to_lowercase(query@)),
            ),
    {
        let all = self.connections();
        let qc = string_chars(query);
        if qc.len() == 0 {
            return all;
        }
        let q = string_chars(to_lowercase(query).as_str());
        let ghost lq = spec_to_lowercase(query@);
        let ghost pred = |c: ConnectionDto| conn_matches(c, lq);
        let n = all.len();
        let mut out: Vec<&ConnectionDto> = Vec::new();
        let mut i: usize = 0;
        while i < n
            invariant
                n == all@.len(),
                i <= n,
                q@ == lq,
                pred == (|c: ConnectionDto| conn_matches(c, lq)),
                targets(out@) == targets(all@).take(i as int).filter(pred),
            decreases n - i,
        {
            let c = all[i];
            let hit = Self::hits(c, &q);
            proof {
                let p = targets(all@).take(i + 1);
                assert(p.drop_last() =~= targets(all@).take(i as int));
                assert(p.last() == *c);
                reveal(Seq::filter);
            }
            if hit {
                out.push(c);
                assert(targets(out@) =~= targets(all@).take(i as int).filter(pred).push(*c));
            }
            i = i + 1;
        }
        assert(targets(all@).take(n as int) =~= targets(all@));
        out
    }

    fn hits(c: &ConnectionDto, q: &Vec<char>) -> (r: bool)
        ensures
            r == conn_matches(*c, q@),
    {
        let process = string_chars(to_lowercase(c.process.as_str()).as_str());
        if contains_exec(&process, q) {
            return true;
        }
        let dest = string_chars(to_lowercase(c.dest_name.as_str()).as_str());
        if contains_exec(&dest, q) {
            return true;
        }
        let ip = string_chars(c.remote_ip.as_str());
        if contains_exec(&ip, q) {
            return true;
        }
        let org = match &c.as_org {
            Some(s) => string_chars(to_lowercase(s.as_str()).as_str()),
            None => string_chars(to_lowercase(String::new().as_str()).as_str()),
        };
        if contains_exec(&org, q) {
            return true;
        }
        let country = match &c.country {
            Some(s) => string_chars(to_lowercase(s.as_str()).as_str()),
            None => string_chars(to_lowercase(String::new().as_str()).as_str()),
        };
        contains_exec(&country, q)
    }

    /// Per-process rollup of the live connections, most traffic first
    /// (process-name order among equals).
    pub fn process_aggs(&self) -> (v: Vec<ProcessAgg>)
        requires
            self.wf(),
            bytes_total(self.live()) <= u64::MAX,
        ensures
            v@.map_values(|a: ProcessAgg| a@) == by_total(
                rollup(self.live(), self.live().map_values(|c: ConnectionDto| c.process@)),
            ),
    {
        let n = self.conns.len();
        let mut names: Vec<String> = Vec::new();
        let mut i: usize = 0;
        while i < n
            invariant
                n == self.conns@.len(),
                i <= n,
                names@.len() == i,
                forall|k: int| 0 <= k < i ==> #[trigger] names@[k]@ == self.conns@[k].process@,
            decreases n - i,
        {
            names.push(self.conns[i].process.clone());
            i = i + 1;
        }
        let ghost ks = self.conns@.map_values(|c: ConnectionDto| c.process@);
        assert(names@.map_values(|s: String| s@) =~= ks);
        let mut groups = rollup_by(&self.conns, names);
        let ghost gv = groups@.map_values(|g: Group| g@);
        let total = groups.len();
        let mut out: Vec<ProcessAgg> = Vec::new();
        while groups.len() > 0
            invariant
                out@.len() + groups@.len() == total,
                total == gv.len(),
                forall|k: int| 0 <= k < out@.len() ==> #[trigger] out@[k]@ == gv[k],
                forall|k: int| 0 <= k < groups@.len() ==> #[trigger] groups@[k]@ == gv[out@.len() + k],
            decreases groups.len(),
        {
            let ghost idx = out@.len() as int;
            assert(groups@[0]@ == gv[idx]);
            let g = groups.remove(0);
            out.push(
                ProcessAgg {
                    process: g.name,
                    pid: g.pid,
                    conns: g.conns,
                    bytes_up: g.bytes_up,
                    bytes_down: g.bytes_down,
                },
            );
            proof {
                assert(out@[idx]@ == gv[idx]);
                assert forall|k: int| 0 <= k < groups@.len() implies #[trigger] groups@[k]@ == gv[out@.len() + k] by {}
            }
        }
        assert(out@.map_values(|a: ProcessAgg| a@) =~= gv);
        out
    }

    /// Per-domain rollup of the live connections (by organisation, else by
    /// registrable domain), most traffic first (domain order among equals).
    pub fn domain_aggs(&self) -> (v: Vec<DomainAgg>)
        requires
            self.wf(),
            bytes_total(self.live()) <= u64::MAX,
        ensures
            v@.map_values(|a: DomainAgg| a@) == by_total(
                rollup(self.live(), self.live().map_values(|c: ConnectionDto| domain_key(c))),
            ).map_values(|g: GroupV| without_pid(g)),
    {
        let n = self.conns.len();
        let mut names: Vec<String> = Vec::new();
        let mut i: usize = 0;
        while i < n
            invariant
                n == self.conns@.len(),
                i <= n,
                names@.len() == i,
                forall|k: int| 0 <= k < i ==> #[trigger] names@[k]@ == domain_key(self.conns@[k]),
            decreases n - i,
        {
            let c = &self.conns[i];
            let name = match &c.as_org {
                Some(o) => o.clone(),
                None => registrable_domain_of(c.dest_name.as_str()),
            };
            names.push(name);
            i = i + 1;
        }
        let ghost ks = self.conns@.map_values(|c: ConnectionDto| domain_key(c));
        assert(names@.map_values(|s: String| s@) =~= ks);
        let mut groups = rollup_by(&self.conns, names);
        let ghost gv = groups@.map_values(|g: Group| g@);
        let total = groups.len();
        let mut out: Vec<DomainAgg> = Vec::new();
        while groups.len() > 0
            invariant
                out@.len() + groups@.len() == total,
                total == gv.len(),
                forall|k: int| 0 <= k < out@.len() ==> #[trigger] out@[k]@ == without_pid(gv[k]),
                forall|k: int| 0 <= k < groups@.len() ==> #[trigger] groups@[k]@ == gv[out@.len() + k],
            decreases groups.len(),
        {
            let ghost idx = out@.len() as int;
            assert(groups@[0]@ == gv[idx]);
            let g = groups.remove(0);
            out.push(
                DomainAgg {
                    domain: g.name,
                    conns: g.conns,
                    bytes_up: g.bytes_up,
                    bytes_down: g.bytes_down,
                },
            );
            proof {
                assert(out@[idx]@ == without_pid(gv[idx]));
                assert forall|k: int| 0 <= k < groups@.len() implies #[trigger] groups@[k]@ == gv[out@.len() + k] by {}
            }
        }
        assert(out@.map_values(|a: DomainAgg| a@) =~= gv.map_values(|g: GroupV| without_pid(g)));
        out
    }

    pub fn live_count(&self) -> (n: usize)
        requires
            self.wf(),
        ensures
            n == self.live().len(),
    {
        self.conns.len()
    }
}

impl Default for InspectorApp {
    /// An empty state that is not yet connected.
    fn default() -> (app: Self)
        ensures
            app.wf(),
            app.live() == Seq::<ConnectionDto>::empty(),
            app.feed() == Seq::<Alert>::empty(),
            app.daemon_status() is None,
            !app.is_connected(),
            app.banner() is None,
    {
        InspectorApp {
            conns: Vec::new(),
            alerts: VecDeque::new(),
            status: None,
            connected: false,
            disconnect_msg: None,
        }
    }
}

} // verus!
