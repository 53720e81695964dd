//! Reassembly of one direction of a TCP byte stream.
use vstd::prelude::*;
use std::collections::BTreeMap;

verus! {

broadcast use vstd::std_specs::btree::group_btree_axioms;

/// Most bytes one direction may hold, drained or not, before it is capped.
pub const MAX_STREAM_BUFFER: usize = 1024 * 1024;

/// Outcome of inserting a TCP segment into a [`ReassemblyBuffer`].
#[derive(Debug, PartialEq, Eq)]
pub enum ReassemblyResult {
    /// Stored in order at the head (drainable now).
    Contiguous,
    /// Stored ahead of a gap (out of order).
    Gap,
    /// Nothing to store (an empty segment).
    Buffered,
    /// Already-seen data; ignored.
    Duplicate,
    /// Buffer cap reached; not stored.
    Capped,
}

/// Reassembles one direction of a TCP byte stream from segments that may
/// arrive out of order, duplicated or overlapping. Sequence numbers compare in
/// serial-number arithmetic, so the 2^32 wrap is handled.
pub struct ReassemblyBuffer {
    /// Contiguous bytes received but not yet drained.
    pending: Vec<u8>,
    /// Out-of-order future segments, keyed by sequence number.
    segments: BTreeMap<u32, Vec<u8>>,
    base_seq: Option<u32>,
    /// Next contiguous sequence number expected (one past `pending`).
    next_seq: u32,
    total_buffered: usize,
    fin: bool,
    capped: bool,
}

/// Model of a [`ReassemblyBuffer`].
pub struct ReassemblyV {
    pub pending: Seq<u8>,
    pub segments: Map<u32, Seq<u8>>,
    pub base_seq: Option<u32>,
    pub next_seq: u32,
    pub total_buffered: nat,
    pub fin: bool,
    pub capped: bool,
}

impl View for ReassemblyBuffer {
    type V = ReassemblyV;

    closed spec fn view(&self) -> ReassemblyV {
        ReassemblyV {
            pending: self.pending@,
            segments: self.segments@.map_values(|v: Vec<u8>| v@),
            base_seq: self.base_seq,
            next_seq: self.next_seq,
            total_buffered: self.total_buffered as nat,
            fin: self.fin,
            capped: self.capped,
        }
    }
}

/// Total length of the out-of-order segments.
pub open spec fn seg_bytes(m: Map<u32, Seq<u8>>) -> nat
    decreases m.dom().len(),
{
    if m.dom().finite() && m.dom().len() > 0 {
        let k = m.dom().choose();
        m[k].len() + seg_bytes(m.remove(k))
    } else {
        0
    }
}

/// The byte count covers exactly the pending bytes and the stored segments,
/// and stays within the cap.
pub open spec fn reassembly_wf(b: ReassemblyV) -> bool {
    &&& b.segments.dom().finite()
    &&& b.total_buffered == b.pending.len() + seg_bytes(b.segments)
    &&& b.total_buffered <= MAX_STREAM_BUFFER
}

/// `a < b` in TCP serial-number arithmetic: `a - b` is negative as an `i32`.
pub open spec fn seq_lt(a: u32, b: u32) -> bool {
    a.wrapping_sub(b) >= 0x8000_0000
}

pub open spec fn empty_reassembly() -> ReassemblyV {
    ReassemblyV {
        pending: seq![],
        segments: Map::empty(),
        base_seq: None,
        next_seq: 0,
        total_buffered: 0,
        fin: false,
        capped: false,
    }
}

/// Moves the segments that continue the contiguous data into it, in order.
pub open spec fn pull_segments(b: ReassemblyV) -> ReassemblyV
    decreases b.segments.dom().len(),
{
    if b.segments.dom().finite() && b.segments.contains_key(b.next_seq) {
        let seg = b.segments[b.next_seq];
        pull_segments(
            ReassemblyV {
                segments: b.segments.remove(b.next_seq),
                next_seq: b.next_seq.wrapping_add(seg.len() as u32),
                pending: b.pending + seg,
                ..b
            },
        )
    } else {
        b
    }
}

/// The part of a segment not yet consumed: `None` when all of it lies before
/// `next_seq`, else its start and bytes (trimmed at the front if it overlaps).
pub open spec fn fresh_part(next_seq: u32, seq: u32, data: Seq<u8>) -> Option<(u32, Seq<u8>)> {
    let end = seq.wrapping_add(data.len() as u32);
    if !seq_lt(next_seq, end) {
        None
    } else if seq_lt(seq, next_seq) {
        let skip = next_seq.wrapping_sub(seq) as int;
        if skip >= data.len() {
            None
        } else {
            Some((next_seq, data.skip(skip)))
        }
    } else {
        Some((seq, data))
    }
}

/// What inserting a segment does and answers.
pub open spec fn insert_segment_spec(b: ReassemblyV, seq: u32, data: Seq<u8>) -> (
    ReassemblyV,
    ReassemblyResult,
) {
    if data.len() == 0 {
        (b, ReassemblyResult::Buffered)
    } else {
        let b1 = if b.base_seq is None {
            ReassemblyV { base_seq: Some(seq), next_seq: seq, ..b }
        } else {
            b
        };
        match fresh_part(b1.next_seq, seq, data) {
            None => (b1, ReassemblyResult::Duplicate),
            Some((s2, d2)) => if b1.capped {
                (b1, ReassemblyResult::Capped)
            } else if b1.total_buffered + d2.len() > MAX_STREAM_BUFFER {
                (ReassemblyV { capped: true, ..b1 }, ReassemblyResult::Capped)
            } else if s2 == b1.next_seq {
                (
                    pull_segments(
                        ReassemblyV {
                            pending: b1.pending + d2,
                            next_seq: b1.next_seq.wrapping_add(d2.len() as u32),
                            total_buffered: b1.total_buffered + d2.len(),
                            ..b1
                        },
                    ),
                    ReassemblyResult::Contiguous,
                )
            } else if b1.segments.contains_key(s2) {
                (b1, ReassemblyResult::Duplicate)
            } else {
                (
                    ReassemblyV {
                        segments: b1.segments.insert(s2, d2),
                        total_buffered: b1.total_buffered + d2.len(),
                        ..b1
                    },
                    ReassemblyResult::Gap,
                )
            },
        }
    }
}

proof fn lemma_serial_ahead(n: u32, a: u32, b: u32)
    requires
        0 < a < 0x4000_0000,
        0 < b < 0x4000_0000,
    ensures
        seq_lt(n, n.wrapping_add(a)),
        !seq_lt(n, n),
        !seq_lt(n.wrapping_add(a), n),
        n.wrapping_add(a) != n,
        seq_lt(n, n.wrapping_add(a).wrapping_add(b)),
        seq_lt(n.wrapping_add(a), n.wrapping_add(a).wrapping_add(b)),
        !seq_lt(n.wrapping_add(a), n.wrapping_add(a)),
{
    let m = n.wrapping_add(a);
    let e = m.wrapping_add(b);
    assert(m == (if n as int + a as int > u32::MAX { (n as int + a as int - 0x1_0000_0000) as u32 } else { (n + a) as u32 }));
    assert(e == (if m as int + b as int > u32::MAX { (m as int + b as int - 0x1_0000_0000) as u32 } else { (m + b) as u32 }));
    assert(n.wrapping_sub(m) >= 0x8000_0000 && n.wrapping_sub(n) < 0x8000_0000 && m.wrapping_sub(n)
        < 0x8000_0000 && m != n && n.wrapping_sub(e) >= 0x8000_0000 && m.wrapping_sub(e)
        >= 0x8000_0000 && m.wrapping_sub(m) < 0x8000_0000) by (bit_vector)
        requires
            0 < a < 0x4000_0000,
            0 < b < 0x4000_0000,
            m == (if n as int + a as int > u32::MAX { (n as int + a as int - 0x1_0000_0000) as u32 } else { (n + a) as u32 }),
            e == (if m as int + b as int > u32::MAX { (m as int + b as int - 0x1_0000_0000) as u32 } else { (m + b) as u32 }),
    ;
}

/// Segments that arrive out of order are reassembled as if they had arrived
/// in order: a segment that lands ahead of a gap, followed by the segment
/// that fills the gap, leaves the buffer exactly as the two in stream order
/// would (same contiguous bytes, same next sequence number, same stored
/// segments); with nothing stored where the later one ends, the contiguous
/// bytes are the old ones followed by the two segments. This holds once the
/// stream's start is known, while neither segment is empty, nothing is stored
/// yet where the later one starts, and the cap is not reached.
pub proof fn law_out_of_order_matches_in_order(b: ReassemblyV, d1: Seq<u8>, d2: Seq<u8>)
    requires
        reassembly_wf(b),
        b.base_seq is Some,
        !b.capped,
        d1.len() > 0,
        d2.len() > 0,
        b.total_buffered + d1.len() + d2.len() <= MAX_STREAM_BUFFER,
        !b.segments.contains_key(b.next_seq.wrapping_add(d1.len() as u32)),
    ensures
        ({
            let n = b.next_seq;
            let later = n.wrapping_add(d1.len() as u32);
            let (x1, r1) = insert_segment_spec(b, later, d2);
            let (x2, r2) = insert_segment_spec(x1, n, d1);
            let (y1, s1) = insert_segment_spec(b, n, d1);
            let (y2, s2) = insert_segment_spec(y1, later, d2);
            &&& r1 == ReassemblyResult::Gap
            &&& r2 == ReassemblyResult::Contiguous
            &&& s1 == ReassemblyResult::Contiguous
            &&& s2 == ReassemblyResult::Contiguous
            &&& x2 == y2
            &&& !b.segments.contains_key(later.wrapping_add(d2.len() as u32)) ==> x2.pending
                == b.pending + d1 + d2
        }),
{
    let n = b.next_seq;
    let a = d1.len() as u32;
    let c = d2.len() as u32;
    lemma_serial_ahead(n, a, c);
    let later = n.wrapping_add(a);
    let end = later.wrapping_add(c);
    // Out of order: the later segment is stored, then the gap is filled.
    let (x1, r1) = insert_segment_spec(b, later, d2);
    assert(fresh_part(n, later, d2) == Some((later, d2)));
    assert(r1 == ReassemblyResult::Gap);
    let (x2, r2) = insert_segment_spec(x1, n, d1);
    assert(fresh_part(n, n, d1) == Some((n, d1)));
    assert(r2 == ReassemblyResult::Contiguous);
    let mid = ReassemblyV {
        pending: b.pending + d1,
        next_seq: later,
        total_buffered: b.total_buffered + d2.len() + d1.len(),
        segments: b.segments.insert(later, d2),
        ..b
    };
    assert(x2 == pull_segments(mid));
    let last = ReassemblyV {
        segments: b.segments.insert(later, d2).remove(later),
        next_seq: end,
        pending: b.pending + d1 + d2,
        ..mid
    };
    assert(pull_segments(mid) == pull_segments(last));
    assert(b.segments.insert(later, d2).remove(later) =~= b.segments);
    // In order: the first segment, then the one right after it.
    let (y1, s1) = insert_segment_spec(b, n, d1);
    assert(s1 == ReassemblyResult::Contiguous);
    let y1_raw = ReassemblyV {
        pending: b.pending + d1,
        next_seq: later,
        total_buffered: b.total_buffered + d1.len(),
        ..b
    };
    assert(y1 == pull_segments(y1_raw));
    assert(pull_segments(y1_raw) == y1_raw);
    let (y2, s2) = insert_segment_spec(y1, later, d2);
    assert(fresh_part(later, later, d2) == Some((later, d2)));
    assert(s2 == ReassemblyResult::Contiguous);
    let y2_raw = ReassemblyV {
        pending: b.pending + d1 + d2,
        next_seq: end,
        total_buffered: b.total_buffered + d1.len() + d2.len(),
        ..b
    };
    assert(y2 == pull_segments(y2_raw));
    assert(last == y2_raw);
    assert(x2 == y2);
    if !b.segments.contains_key(end) {
        assert(pull_segments(y2_raw) == y2_raw);
    }
}

/// Data that lies wholly before the next expected byte was already taken in:
/// it is reported as a duplicate and changes nothing.
pub proof fn law_consumed_data_is_duplicate(b: ReassemblyV, seq: u32, data: Seq<u8>)
    requires
        b.base_seq is Some,
        data.len() > 0,
        !seq_lt(b.next_seq, seq.wrapping_add(data.len() as u32)),
    ensures
        insert_segment_spec(b, seq, data) == (b, ReassemblyResult::Duplicate),
{
}

/// What draining does: the contiguous bytes leave the buffer (nothing
/// changes when there are none).
pub open spec fn drained(b: ReassemblyV) -> ReassemblyV {
    if b.pending.len() == 0 {
        b
    } else {
        ReassemblyV { pending: seq![], total_buffered: (b.total_buffered - b.pending.len()) as nat, ..b }
    }
}

/// What marking the end of the stream does: only the FIN flag is set.
pub open spec fn fin_marked(b: ReassemblyV) -> ReassemblyV {
    ReassemblyV { fin: true, ..b }
}

/// The stream ended (FIN seen) and no out-of-order segment is waiting.
pub open spec fn complete(b: ReassemblyV) -> bool {
    b.fin && b.segments.dom().len() == 0
}

/// One call on a buffer.
pub enum ReassemblyOp {
    Insert(u32, Seq<u8>),
    Drain,
    MarkFin,
}

pub open spec fn apply_op(b: ReassemblyV, op: ReassemblyOp) -> ReassemblyV {
    match op {
        ReassemblyOp::Insert(seq, data) => insert_segment_spec(b, seq, data).0,
        ReassemblyOp::Drain => drained(b),
        ReassemblyOp::MarkFin => fin_marked(b),
    }
}

/// The buffer after a fresh one has gone through `ops`, in order.
pub open spec fn replay(ops: Seq<ReassemblyOp>) -> ReassemblyV
    decreases ops.len(),
{
    if ops.len() == 0 {
        empty_reassembly()
    } else {
        apply_op(replay(ops.drop_last()), ops.last())
    }
}

proof fn lemma_pull_keeps_fin(b: ReassemblyV)
    ensures
        pull_segments(b).fin == b.fin,
    decreases b.segments.dom().len(),
{
    if b.segments.dom().finite() && b.segments.contains_key(b.next_seq) {
        let seg = b.segments[b.next_seq];
        lemma_pull_keeps_fin(
            ReassemblyV {
                segments: b.segments.remove(b.next_seq),
                next_seq: b.next_seq.wrapping_add(seg.len() as u32),
                pending: b.pending + seg,
                ..b
            },
        );
    }
}

/// Only marking the end sets the FIN flag: inserting and draining keep it.
pub proof fn lemma_op_keeps_fin(b: ReassemblyV, op: ReassemblyOp)
    ensures
        apply_op(b, op).fin == (b.fin || op is MarkFin),
{
    match op {
        ReassemblyOp::Insert(seq, data) => {
            if data.len() > 0 {
                let b1 = if b.base_seq is None {
                    ReassemblyV { base_seq: Some(seq), next_seq: seq, ..b }
                } else {
                    b
                };
                match fresh_part(b1.next_seq, seq, data) {
                    Some((s2, d2)) => {
                        lemma_pull_keeps_fin(
                            ReassemblyV {
                                pending: b1.pending + d2,
                                next_seq: b1.next_seq.wrapping_add(d2.len() as u32),
                                total_buffered: b1.total_buffered + d2.len(),
                                ..b1
                            },
                        );
                    },
                    None => {},
                }
            }
        },
        _ => {},
    }
}

/// A buffer is complete exactly when the end of the stream has been marked at
/// some point of its history and no out-of-order segment is stored: whatever
/// segments were inserted and whatever was drained before or after, FIN is
/// set by `mark_fin` alone and never cleared.
pub proof fn law_complete_iff_fin_marked_and_no_gaps(ops: Seq<ReassemblyOp>)
    ensures
        replay(ops).fin == (exists|i: int| 0 <= i < ops.len() && #[trigger] ops[i] is MarkFin),
        complete(replay(ops)) == ((exists|i: int| 0 <= i < ops.len() && #[trigger] ops[i] is MarkFin)
            && replay(ops).segments.dom().len() == 0),
    decreases ops.len(),
{
    if ops.len() > 0 {
        let pre = ops.drop_last();
        law_complete_iff_fin_marked_and_no_gaps(pre);
        lemma_op_keeps_fin(replay(pre), ops.last());
        if exists|i: int| 0 <= i < pre.len() && #[trigger] pre[i] is MarkFin {
            let i = choose|i: int| 0 <= i < pre.len() && #[trigger] pre[i] is MarkFin;
            assert(ops[i] == pre[i]);
        }
        if ops.last() is MarkFin {
            assert(ops[ops.len() - 1] is MarkFin);
        }
        if exists|i: int| 0 <= i < ops.len() && #[trigger] ops[i] is MarkFin {
            let i = choose|i: int| 0 <= i < ops.len() && #[trigger] ops[i] is MarkFin;
            if i < ops.len() - 1 {
                assert(pre[i] == ops[i]);
            }
        }
    }
}

pub proof fn lemma_seg_bytes_remove(m: Map<u32, Seq<u8>>, k: u32)
    requires
        m.dom().finite(),
        m.contains_key(k),
    ensures
        seg_bytes(m) == m[k].len() + seg_bytes(m.remove(k)),
    decreases m.dom().len(),
{
    let c = m.dom().choose();
    if c != k {
        lemma_seg_bytes_remove(m.remove(c), k);
        lemma_seg_bytes_remove(m.remove(k), c);
        assert(m.remove(c).remove(k) =~= m.remove(k).remove(c));
    }
}

pub proof fn lemma_seg_bytes_insert(m: Map<u32, Seq<u8>>, k: u32, v: Seq<u8>)
    requires
        m.dom().finite(),
        !m.contains_key(k),
    ensures
        seg_bytes(m.insert(k, v)) == seg_bytes(m) + v.len(),
{
    lemma_seg_bytes_remove(m.insert(k, v), k);
    assert(m.insert(k, v).remove(k) =~= m);
}

fn append_bytes(v: &mut Vec<u8>, d: &[u8])
    ensures
        final(v)@ == old(v)@ + d@,
{
    let mut i: usize = 0;
    while i < d.len()
        invariant
            i <= d@.len(),
            v@ == old(v)@ + d@.take(i as int),
        decreases d@.len() - i,
    {
        v.push(d[i]);
        i = i + 1;
        assert(d@.take(i as int) =~= d@.take(i - 1).push(d@[i - 1]));
    }
    assert(d@.take(i as int) =~= d@);
}

impl ReassemblyBuffer {
    pub fn new() -> (r: ReassemblyBuffer)
        ensures
            r@ == empty_reassembly(),
            reassembly_wf(r@),
    {
        let r = ReassemblyBuffer {
            pending: Vec::new(),
            segments: BTreeMap::new(),
            base_seq: None,
            next_seq: 0,
            total_buffered: 0,
            fin: false,
            capped: false,
        };
        assert(r@.segments =~= Map::<u32, Seq<u8>>::empty());
        assert(r@ == empty_reassembly());
        r
    }

    fn pull(&mut self)
        requires
            reassembly_wf(old(self)@),
        ensures
            final(self)@ == pull_segments(old(self)@),
            reassembly_wf(final(self)@),
    {
        let ghost target = pull_segments(self@);
        loop
            invariant_except_break
                reassembly_wf(self@),
                target == pull_segments(self@),
            ensures
                reassembly_wf(self@),
                target == self@,
            decreases self@.segments.dom().len(),
        {
            let ghost before = self@;
            let ghost raw = self.segments@;
            let key = self.next_seq;
            match self.segments.remove(&key) {
                Some(seg) => {
                    proof {
                        lemma_seg_bytes_remove(before.segments, key);
                    }
                    assert(self@.segments =~= before.segments.remove(key));
                    self.next_seq = self.next_seq.wrapping_add(seg.len() as u32);
                    append_bytes(&mut self.pending, seg.as_slice());
                },
                None => {
                    assert(!before.segments.contains_key(key));
                    assert(self.segments@ =~= raw);
                    assert(self@ == before);
                    break ;
                },
            }
        }
    }

    /// Inserts a segment that starts at sequence number `seq`. The first
    /// segment fixes the start of the stream.
    pub fn insert_segment(&mut self, seq: u32, data: &[u8]) -> (r: ReassemblyResult)
        requires
            reassembly_wf(old(self)@),
        ensures
            reassembly_wf(final(self)@),
            (final(self)@, r) == insert_segment_spec(old(self)@, seq, data@),
    {
        if data.len() == 0 {
            return ReassemblyResult::Buffered;
        }
        if self.base_seq.is_none() {
            self.base_seq = Some(seq);
            self.next_seq = seq;
        }
        let mut seq = seq;
        let mut data = data;
        let end = seq.wrapping_add(data.len() as u32);
        if !(self.next_seq.wrapping_sub(end) >= 0x8000_0000) {
            return ReassemblyResult::Duplicate;
        }
        if seq.wrapping_sub(self.next_seq) >= 0x8000_0000 {
            let skip = self.next_seq.wrapping_sub(seq) as usize;
            if skip >= data.len() {
                return ReassemblyResult::Duplicate;
            }
            data = &data[skip..data.len()];
            seq = self.next_seq;
        }
        if self.capped {
            return ReassemblyResult::Capped;
        }
        if data.len() > MAX_STREAM_BUFFER - self.total_buffered {
            self.capped = true;
            return ReassemblyResult::Capped;
        }
        let ghost before = self@;
        if seq == self.next_seq {
            append_bytes(&mut self.pending, data);
            self.next_seq = self.next_seq.wrapping_add(data.len() as u32);
            self.total_buffered = self.total_buffered + data.len();
            self.pull();
            ReassemblyResult::Contiguous
        } else {
            if self.segments.contains_key(&seq) {
                return ReassemblyResult::Duplicate;
            }
            let mut v: Vec<u8> = Vec::new();
            append_bytes(&mut v, data);
            proof {
                lemma_seg_bytes_insert(before.segments, seq, data@);
            }
            self.segments.insert(seq, v);
            assert(self@.segments =~= before.segments.insert(seq, data@));
            self.total_buffered = self.total_buffered + data.len();
            ReassemblyResult::Gap
        }
    }

    /// Removes and returns the contiguous bytes received so far.
    pub fn try_drain(&mut self) -> (r: Option<Vec<u8>>)
        requires
            reassembly_wf(old(self)@),
        ensures
            reassembly_wf(final(self)@),
            final(self)@ == drained(old(self)@),
            old(self)@.pending.len() == 0 ==> r is None,
            old(self)@.pending.len() > 0 ==> (r matches Some(v) && v@ == old(self)@.pending),
    {
        if self.pending.len() == 0 {
            return None;
        }
        self.total_buffered = self.total_buffered - self.pending.len();
        let mut out: Vec<u8> = Vec::new();
        std::mem::swap(&mut out, &mut self.pending);
        Some(out)
    }

    pub fn mark_fin(&mut self)
        ensures
            final(self)@ == fin_marked(old(self)@),
    {
        self.fin = true;
    }

    /// FIN seen and no buffered gaps remain.
    pub fn is_complete(&self) -> (r: bool)
        ensures
            r == complete(self@),
    {
        assert(self@.segments.dom() =~= self.segments@.dom());
        self.fin && self.segments.len() == 0
    }

    pub fn buffered_len(&self) -> (r: usize)
        ensures
            r == self@.total_buffered,
    {
        self.total_buffered
    }

    pub fn capped(&self) -> (r: bool)
        ensures
            r == self@.capped,
    {
        self.capped
    }
}

impl Default for ReassemblyBuffer {
    fn default() -> (r: ReassemblyBuffer)
        ensures
            r@ == empty_reassembly(),
            reassembly_wf(r@),
    {
        ReassemblyBuffer::new()
    }
}

/// Both directions of a reassembled TCP conversation.
#[derive(Debug, Clone, Default)]
pub struct StreamData {
    pub client_to_server: Vec<u8>,
    pub server_to_client: Vec<u8>,
}

} // verus!
