//! The decisions of a chunked copy: how much of each chunk to write, when
//! to report progress, when to honour a cancellation request and when the
//! copy is over. The caller performs the reads and writes.

use vstd::prelude::*;

verus! {

/// Bytes asked of each read.
pub const CHUNK_SIZE: usize = 1048576;

/// Progress is reported, and cancellation checked, after every this many chunks.
pub const REPORT_EVERY: u64 = 10;

/// What the caller does after a chunk has been handled.
#[derive(Clone, Copy, Debug, PartialEq, Eq, Structural)]
pub enum Decision {
    /// Read the next chunk.
    Continue,
    /// The source is exhausted (or the range is copied).
    Finish,
    /// Stop: the copy was cancelled.
    Cancel,
}

/// The handling of one chunk: write its first `write_len` bytes, report
/// `progress` if there is one, then follow `decision`.
#[derive(Clone, Copy, Debug, PartialEq, Eq)]
pub struct ChunkPlan {
    pub write_len: usize,
    pub progress: Option<u8>,
    pub decision: Decision,
}

/// The state of a chunked copy of about `total` bytes.
///
/// A bounded copy (an extraction) never writes past `total`; an unbounded
/// one (an append) writes whatever the sources hold.
#[derive(Clone, Copy, Debug)]
pub struct Transfer {
    pub total: u64,
    pub bounded: bool,
    pub current: u64,
    pub chunks: u64,
    pub source_start: u64,
    pub done: bool,
}

/// The progress percentage after `current` of `total` bytes: rounded down,
/// at most 100, and 100 for an empty copy.
pub open spec fn percent_of(current: u64, total: u64) -> nat {
    if total == 0 || current >= total {
        100
    } else {
        (current * 100 / (total as int)) as nat
    }
}

/// How much of a chunk of `read_len` bytes is written: all of it, except
/// that a bounded copy stops at `total`.
pub open spec fn chunk_write_len(bounded: bool, current: u64, total: u64, read_len: usize) -> usize {
    if bounded && current + read_len > total {
        (total - current) as usize
    } else {
        read_len
    }
}

/// The bytes that the plans `plans` write in all.
pub open spec fn written(plans: Seq<ChunkPlan>) -> nat
    decreases plans.len(),
{
    if plans.len() == 0 {
        0
    } else {
        plans[0].write_len as nat + written(plans.drop_first())
    }
}

/// An unbounded copy (an append) writes every chunk whole, in the order
/// read: nothing of a source is dropped or reordered.
pub proof fn lemma_unbounded_writes_what_it_reads(
    t: Transfer,
    read_len: usize,
    capacity: usize,
    cancel: bool,
)
    requires
        !t.bounded,
    ensures
        step(t, read_len, capacity, cancel).1.write_len == read_len,
{
}

/// A bounded copy (an extraction) fed full chunks from a source that
/// extends past the range, and never cancelled, writes exactly the rest of
/// its range and then finishes.
pub proof fn lemma_bounded_run_copies_range(t: Transfer, reads: Seq<usize>, capacity: usize)
    requires
        t.wf(),
        t.bounded,
        !t.done,
        capacity > 0,
        forall|i: int| 0 <= i < reads.len() ==> reads[i] == capacity,
        reads.len() * capacity > t.total - t.current,
        t.chunks + reads.len() <= u64::MAX,
    ensures
        ({
            let (t2, plans) = run(t, reads, capacity, false);
            &&& written(plans) == t.total - t.current
            &&& t2.current == t.total
            &&& plans.len() > 0
            &&& plans.last().decision == Decision::Finish
        }),
    decreases t.total - t.current,
{
    let (t1, plan) = step(t, reads[0], capacity, false);
    if plan.decision == Decision::Continue {
        assert(plan.write_len == capacity);
        let rest = reads.drop_first();
        assert(rest.len() * capacity > t1.total - t1.current) by (nonlinear_arith)
            requires
                reads.len() * capacity > t.total - t.current,
                rest.len() == reads.len() - 1,
                t1.current == t.current + capacity,
                t1.total == t.total,
        ;
        lemma_bounded_run_copies_range(t1, rest, capacity);
        let (t2, plans) = run(t1, rest, capacity, false);
        let all = seq![plan] + plans;
        assert(run(t, reads, capacity, false).1 == all);
        assert(all.drop_first() =~= plans);
        assert(written(all) == plan.write_len + written(plans));
    } else {
        let all = seq![plan];
        assert(run(t, reads, capacity, false).1 == all);
        assert(all.drop_first() =~= Seq::<ChunkPlan>::empty());
        assert(written(all.drop_first()) == 0);
        assert(written(all) == plan.write_len);
        assert(plan.write_len == t.total - t.current);
    }
}

/// A bounded copy of nothing writes nothing, whatever a read returns.
pub proof fn lemma_empty_range_writes_nothing(read_len: usize)
    ensures
        chunk_write_len(true, 0, 0, read_len) == 0,
{
}

/// Percentages never go down as the copy advances.
pub proof fn lemma_percent_monotonic(a: u64, b: u64, total: u64)
    requires
        a <= b,
    ensures
        percent_of(a, total) <= percent_of(b, total),
{
    if total != 0 && b < total {
        assert(a * 100 / (total as int) <= b * 100 / (total as int)) by (nonlinear_arith)
            requires
                a <= b,
                total > 0,
        ;
    }
    if total != 0 && a < total {
        assert(a * 100 / (total as int) <= 100) by (nonlinear_arith)
            requires
                a < total,
                total > 0,
        ;
    }
}

/// One step of a copy: the state after a read that filled `read_len` bytes
/// of a buffer of `capacity` bytes, with the cancellation flag reading
/// `cancel`, and what to do with the chunk.
///
/// An empty read finishes the copy. Otherwise the chunk is written (a
/// bounded copy clips it at `total`) and counted. Every `REPORT_EVERY`th
/// chunk is a checkpoint: there a set flag cancels the copy, with no
/// report, and otherwise the progress is reported. A short chunk finishes
/// the copy.
pub open spec fn step(t: Transfer, read_len: usize, capacity: usize, cancel: bool) -> (
    Transfer,
    ChunkPlan,
) {
    if read_len == 0 {
        (
            Transfer { done: true, ..t },
            ChunkPlan { write_len: 0, progress: None, decision: Decision::Finish },
        )
    } else {
        let w = chunk_write_len(t.bounded, t.current, t.total, read_len);
        let current = (t.current + w) as u64;
        let chunks = (t.chunks + 1) as u64;
        let checkpoint = chunks % REPORT_EVERY == 0;
        let decision = if checkpoint && cancel {
            Decision::Cancel
        } else if w < capacity {
            Decision::Finish
        } else {
            Decision::Continue
        };
        let progress = if checkpoint && !cancel {
            Some(percent_of(current, t.total) as u8)
        } else {
            None
        };
        (
            Transfer { current, chunks, done: decision != Decision::Continue, ..t },
            ChunkPlan { write_len: w, progress, decision },
        )
    }
}

/// The steps of a copy fed the reads `reads` one by one, up to the first
/// step that does not continue: the final state and the plans of the
/// steps taken.
pub open spec fn run(t: Transfer, reads: Seq<usize>, capacity: usize, cancel: bool) -> (
    Transfer,
    Seq<ChunkPlan>,
)
    decreases reads.len(),
{
    if reads.len() == 0 {
        (t, seq![])
    } else {
        let (t1, plan) = step(t, reads[0], capacity, cancel);
        if plan.decision != Decision::Continue {
            (t1, seq![plan])
        } else {
            let (t2, plans) = run(t1, reads.drop_first(), capacity, cancel);
            (t2, seq![plan] + plans)
        }
    }
}

proof fn lemma_run_until_checkpoint(
    t: Transfer,
    reads: Seq<usize>,
    capacity: usize,
    k: nat,
)
    requires
        !t.done,
        capacity > 0,
        k == REPORT_EVERY - t.chunks % REPORT_EVERY,
        reads.len() >= k,
        forall|i: int| 0 <= i < reads.len() ==> reads[i] == capacity,
        t.chunks + k <= u64::MAX,
        t.current + k * capacity <= u64::MAX,
        t.bounded ==> t.current + k * capacity <= t.total,
    ensures
        ({
            let (t2, plans) = run(t, reads, capacity, true);
            &&& plans.len() == k
            &&& plans.last().decision == Decision::Cancel
            &&& forall|i: int| 0 <= i < plans.len() ==> (#[trigger] plans[i]).progress is None
            &&& t2.done
        }),
    decreases k,
{
    let (t1, plan) = step(t, reads[0], capacity, true);
    assert(t.current + capacity <= t.current + k * capacity) by (nonlinear_arith)
        requires
            k >= 1,
    ;
    if k > 1 {
        assert((t.chunks + 1) % REPORT_EVERY as int != 0);
        assert(plan.decision == Decision::Continue);
        assert(k - 1 == REPORT_EVERY - t1.chunks % REPORT_EVERY);
        assert(t1.current + (k - 1) * capacity == t.current + k * capacity) by (nonlinear_arith)
            requires
                t1.current == t.current + capacity,
        ;
        lemma_run_until_checkpoint(t1, reads.drop_first(), capacity, (k - 1) as nat);
        let (t2, plans) = run(t1, reads.drop_first(), capacity, true);
        assert(run(t, reads, capacity, true).1 =~= seq![plan] + plans);
    }
}

/// Once the cancellation flag is set, a copy that still has at least
/// `REPORT_EVERY` full chunks ahead stops with `Cancel` within
/// `REPORT_EVERY` chunks, and reports no progress in between.
pub proof fn lemma_cancel_within_cadence(t: Transfer, reads: Seq<usize>, capacity: usize)
    requires
        !t.done,
        capacity > 0,
        reads.len() >= REPORT_EVERY,
        forall|i: int| 0 <= i < reads.len() ==> reads[i] == capacity,
        t.chunks + REPORT_EVERY <= u64::MAX,
        t.current + REPORT_EVERY * capacity <= u64::MAX,
        t.bounded ==> t.current + REPORT_EVERY * capacity <= t.total,
    ensures
        ({
            let (t2, plans) = run(t, reads, capacity, true);
            &&& 1 <= plans.len() <= REPORT_EVERY
            &&& plans.last().decision == Decision::Cancel
            &&& forall|i: int| 0 <= i < plans.len() ==> (#[trigger] plans[i]).progress is None
            &&& t2.done
        }),
{
    let k = (REPORT_EVERY - t.chunks % REPORT_EVERY) as nat;
    assert(t.current + k * capacity <= t.current + REPORT_EVERY * capacity) by (nonlinear_arith)
        requires
            k <= REPORT_EVERY,
    ;
    lemma_run_until_checkpoint(t, reads, capacity, k);
}

impl Transfer {
    pub open spec fn wf(&self) -> bool {
        &&& self.source_start <= self.current
        &&& self.chunks <= self.current + 1
        &&& !self.done ==> self.chunks <= self.current
        &&& !self.bounded ==> self.chunks <= self.current
        &&& self.bounded ==> self.current <= self.total
    }

    /// A copy of two or more sources one after the other, about `total`
    /// bytes in all.
    pub fn new(total: u64) -> (r: Transfer)
        ensures
            r.wf(),
            r == (Transfer {
                total,
                bounded: false,
                current: 0,
                chunks: 0,
                source_start: 0,
                done: false,
            }),
    {
        Transfer { total, bounded: false, current: 0, chunks: 0, source_start: 0, done: false }
    }

    /// A copy of exactly `total` bytes out of a larger source.
    pub fn new_bounded(total: u64) -> (r: Transfer)
        ensures
            r.wf(),
            r == (Transfer {
                total,
                bounded: true,
                current: 0,
                chunks: 0,
                source_start: 0,
                done: false,
            }),
    {
        Transfer { total, bounded: true, current: 0, chunks: 0, source_start: 0, done: false }
    }

    /// The progress percentage so far.
    pub fn percent(&self) -> (r: u8)
        ensures
            r as nat == percent_of(self.current, self.total),
    {
        if self.total == 0 || self.current >= self.total {
            100
        } else {
            let p = (self.current as u128 * 100) / self.total as u128;
            assert(p < 100) by (nonlinear_arith)
                requires
                    p == (self.current * 100) / (self.total as int),
                    self.current < self.total,
            ;
            p as u8
        }
    }

    /// Handles a read that filled `read_len` bytes of a buffer of `capacity`
    /// bytes; `cancel_requested` is the cancellation flag as it reads now.
    pub fn on_chunk(&mut self, read_len: usize, capacity: usize, cancel_requested: bool) -> (r:
        ChunkPlan)
        requires
            old(self).wf(),
            !old(self).done,
            read_len <= capacity,
            old(self).current + read_len <= u64::MAX,
        ensures
            final(self).wf(),
            (*final(self), r) == step(*old(self), read_len, capacity, cancel_requested),
            r.decision == Decision::Cancel ==> r.progress is None,
    {
        if read_len == 0 {
            self.done = true;
            return ChunkPlan { write_len: 0, progress: None, decision: Decision::Finish };
        }
        let write_len: usize = if self.bounded && self.current + read_len as u64 > self.total {
            (self.total - self.current) as usize
        } else {
            read_len
        };
        self.current = self.current + write_len as u64;
        self.chunks = self.chunks + 1;
        let mut progress: Option<u8> = None;
        let decision = if self.chunks % REPORT_EVERY == 0 {
            if cancel_requested {
                Decision::Cancel
            } else {
                progress = Some(self.percent());
                if write_len < capacity {
                    Decision::Finish
                } else {
                    Decision::Continue
                }
            }
        } else if write_len < capacity {
            Decision::Finish
        } else {
            Decision::Continue
        };
        self.done = decision != Decision::Continue;
        ChunkPlan { write_len, progress, decision }
    }

    /// Moves on to the next source of an unbounded copy once the previous
    /// one has finished.
    pub fn next_source(&mut self)
        requires
            old(self).wf(),
            old(self).done,
            !old(self).bounded,
        ensures
            final(self).wf(),
            *final(self) == (Transfer { done: false, source_start: old(self).current, ..*old(self) }),
    {
        self.source_start = self.current;
        self.done = false;
    }

    /// Bytes written from the current source so far.
    pub fn source_bytes(&self) -> (r: u64)
        requires
            self.wf(),
        ensures
            r == self.current - self.source_start,
    {
        self.current - self.source_start
    }
}

} // verus!
