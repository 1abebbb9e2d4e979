use vstd::prelude::*;

use crate::classify::{classified_batch, events_to_log_records};
use crate::record::{RawEvent, Update};

verus! {

/// The smallest of the watermarks; with no workers nothing can still arrive.
pub open spec fn min_watermark(w: Seq<u64>) -> u64
    decreases w.len(),
{
    if w.len() == 0 {
        u64::MAX
    } else {
        let rest = min_watermark(w.drop_last());
        if w.last() < rest {
            w.last()
        } else {
            rest
        }
    }
}

/// The updates of `s` whose epoch lies before `frontier`, in order.
pub open spec fn ready_before(s: Seq<Update>, frontier: u64) -> Seq<Update>
    decreases s.len(),
{
    if s.len() == 0 {
        seq![]
    } else {
        let prefix = ready_before(s.drop_last(), frontier);
        if s.last().1 < frontier {
            prefix.push(s.last())
        } else {
            prefix
        }
    }
}

/// The updates of `s` whose epoch is not before `frontier`, in order.
pub open spec fn held_from(s: Seq<Update>, frontier: u64) -> Seq<Update>
    decreases s.len(),
{
    if s.len() == 0 {
        seq![]
    } else {
        let prefix = held_from(s.drop_last(), frontier);
        if s.last().1 < frontier {
            prefix
        } else {
            prefix.push(s.last())
        }
    }
}

proof fn lemma_min_watermark_le(w: Seq<u64>, i: int)
    requires
        0 <= i < w.len(),
    ensures
        min_watermark(w) <= w[i],
    decreases w.len(),
{
    if i < w.len() - 1 {
        lemma_min_watermark_le(w.drop_last(), i);
    }
}

proof fn lemma_ready_before_epochs(s: Seq<Update>, frontier: u64, k: int)
    requires
        0 <= k < ready_before(s, frontier).len(),
    ensures
        ready_before(s, frontier)[k].1 < frontier,
    decreases s.len(),
{
    if s.len() > 0 {
        let prefix = ready_before(s.drop_last(), frontier);
        if k < prefix.len() {
            lemma_ready_before_epochs(s.drop_last(), frontier, k);
        }
    }
}

/// Whatever is released at the frontier of the workers' watermarks belongs to an
/// epoch that every worker has already passed.
pub proof fn lemma_released_epochs_closed(pending: Seq<Update>, watermarks: Seq<u64>)
    ensures
        forall|k: int, w: int|
            0 <= k < ready_before(pending, min_watermark(watermarks)).len() && 0 <= w
                < watermarks.len() ==> #[trigger] ready_before(pending, min_watermark(watermarks))[k].1
                < #[trigger] watermarks[w],
{
    assert forall|k: int, w: int|
        0 <= k < ready_before(pending, min_watermark(watermarks)).len() && 0 <= w < watermarks.len()
            implies #[trigger] ready_before(pending, min_watermark(watermarks))[k].1
            < #[trigger] watermarks[w] by {
        lemma_ready_before_epochs(pending, min_watermark(watermarks), k);
        lemma_min_watermark_le(watermarks, w);
    }
}

proof fn lemma_held_from_epochs(s: Seq<Update>, frontier: u64, k: int)
    requires
        0 <= k < held_from(s, frontier).len(),
    ensures
        held_from(s, frontier)[k].1 >= frontier,
    decreases s.len(),
{
    if s.len() > 0 {
        let prefix = held_from(s.drop_last(), frontier);
        if k < prefix.len() {
            lemma_held_from_epochs(s.drop_last(), frontier, k);
        }
    }
}

proof fn lemma_classified_batch_epochs(epoch: u64, events: Seq<RawEvent>, k: int)
    requires
        0 <= k < classified_batch(epoch, events).len(),
    ensures
        classified_batch(epoch, events)[k].1 == epoch,
    decreases events.len(),
{
    if events.len() > 0 {
        let prefix = classified_batch(epoch, events.drop_last());
        if k < prefix.len() {
            lemma_classified_batch_epochs(epoch, events.drop_last(), k);
        }
    }
}

/// Holds the classified updates of each epoch until every worker's watermark has
/// passed that epoch.
///
/// A worker's watermark `w` promises that no more events of an epoch below `w`
/// will come from that worker.
pub struct EpochBatcher {
    watermarks: Vec<u64>,
    pending: Vec<Update>,
}

impl EpochBatcher {
    /// Per worker, the lowest epoch that may still receive events.
    pub closed spec fn watermarks(&self) -> Seq<u64> {
        self.watermarks@
    }

    /// The updates held back, in arrival order.
    pub closed spec fn pending(&self) -> Seq<Update> {
        self.pending@
    }

    /// Nothing held is already due: every held update's epoch is one that some
    /// worker has not passed yet.
    pub open spec fn wf(&self) -> bool {
        forall|k: int| 0 <= k < self.pending().len() ==> #[trigger] self.pending()[k].1 >= self.frontier_spec()
    }

    /// The epoch below which every worker is complete.
    pub open spec fn frontier_spec(&self) -> u64 {
        min_watermark(self.watermarks())
    }

    /// A batcher for `workers` workers, none of which has completed an epoch.
    pub fn new(workers: usize) -> (r: EpochBatcher)
        ensures
            r.wf(),
            r.watermarks() == Seq::new(workers as nat, |i: int| 0u64),
            r.pending() == Seq::<Update>::empty(),
    {
        let mut watermarks: Vec<u64> = Vec::new();
        let mut i: usize = 0;
        while i < workers
            invariant
                i <= workers,
                watermarks@ == Seq::new(i as nat, |j: int| 0u64),
            decreases workers - i,
        {
            watermarks.push(0);
            i = i + 1;
        }
        EpochBatcher { watermarks, pending: Vec::new() }
    }

    /// The epoch below which every worker is complete.
    pub fn frontier(&self) -> (r: u64)
        ensures
            r == self.frontier_spec(),
    {
        let mut m: u64 = u64::MAX;
        let mut i: usize = 0;
        while i < self.watermarks.len()
            invariant
                i <= self.watermarks@.len(),
                m == min_watermark(self.watermarks@.subrange(0, i as int)),
            decreases self.watermarks@.len() - i,
        {
            assert(self.watermarks@.subrange(0, i + 1).drop_last() == self.watermarks@.subrange(
                0,
                i as int,
            ));
            if self.watermarks[i] < m {
                m = self.watermarks[i];
            }
            i = i + 1;
        }
        assert(self.watermarks@.subrange(0, self.watermarks@.len() as int) == self.watermarks@);
        m
    }

    /// Classifies the events that arrived in `epoch` and holds their records.
    ///
    /// Events for an epoch that every worker has already completed break the
    /// watermark promise: they are refused (`false`) and nothing changes.
    pub fn ingest(&mut self, epoch: u64, events: &Vec<RawEvent>) -> (accepted: bool)
        requires
            old(self).wf(),
        ensures
            final(self).wf(),
            accepted == (epoch >= old(self).frontier_spec()),
            final(self).watermarks() == old(self).watermarks(),
            final(self).pending() == if accepted {
                old(self).pending() + classified_batch(epoch, events@)
            } else {
                old(self).pending()
            },
    {
        if epoch < self.frontier() {
            return false;
        }
        let mut batch = events_to_log_records(epoch, events);
        let ghost before = self.pending@;
        let ghost added = batch@;
        self.pending.append(&mut batch);
        proof {
            assert(self.pending@ == before + added);
            assert forall|k: int| 0 <= k < self.pending@.len() implies #[trigger] self.pending@[k].1
                >= self.frontier_spec() by {
                if k >= before.len() {
                    lemma_classified_batch_epochs(epoch, events@, k - before.len());
                } else {
                    assert(self.pending@[k] == before[k]);
                    assert(old(self).pending()[k].1 >= old(self).frontier_spec());
                }
            }
        }
        true
    }

    /// Records that `worker` will send nothing more for epochs below `watermark`
    /// (a watermark never moves back), and releases, in arrival order, the held
    /// updates whose epoch every worker has now completed.
    pub fn advance(&mut self, worker: usize, watermark: u64) -> (out: Vec<Update>)
        requires
            old(self).wf(),
            worker < old(self).watermarks().len(),
        ensures
            final(self).wf(),
            final(self).watermarks() == old(self).watermarks().update(
                worker as int,
                if watermark > old(self).watermarks()[worker as int] {
                    watermark
                } else {
                    old(self).watermarks()[worker as int]
                },
            ),
            out@ == ready_before(old(self).pending(), final(self).frontier_spec()),
            final(self).pending() == held_from(old(self).pending(), final(self).frontier_spec()),
            forall|k: int, w: int|
                0 <= k < out@.len() && 0 <= w < final(self).watermarks().len() ==> #[trigger] out@[k].1
                    < #[trigger] final(self).watermarks()[w],
    {
        if watermark > self.watermarks[worker] {
            self.watermarks.set(worker, watermark);
        }
        let frontier = self.frontier();
        let mut out: Vec<Update> = Vec::new();
        let mut held: Vec<Update> = Vec::new();
        let mut i: usize = 0;
        while i < self.pending.len()
            invariant
                i <= self.pending@.len(),
                out@ == ready_before(self.pending@.subrange(0, i as int), frontier),
                held@ == held_from(self.pending@.subrange(0, i as int), frontier),
            decreases self.pending@.len() - i,
        {
            assert(self.pending@.subrange(0, i + 1).drop_last() == self.pending@.subrange(
                0,
                i as int,
            ));
            let u = self.pending[i];
            if u.1 < frontier {
                out.push(u);
            } else {
                held.push(u);
            }
            i = i + 1;
        }
        assert(self.pending@.subrange(0, self.pending@.len() as int) == self.pending@);
        self.pending = held;
        proof {
            assert forall|k: int| 0 <= k < self.pending@.len() implies #[trigger] self.pending@[k].1
                >= self.frontier_spec() by {
                lemma_held_from_epochs(old(self).pending@, frontier, k);
            }
            lemma_released_epochs_closed(old(self).pending@, self.watermarks@);
        }
        out
    }

    /// The source has ended: releases every held update in arrival order.
    pub fn finish(&mut self) -> (out: Vec<Update>)
        ensures
            final(self).wf(),
            out@ == old(self).pending(),
            final(self).pending() == Seq::<Update>::empty(),
            final(self).watermarks() == old(self).watermarks(),
    {
        let mut out: Vec<Update> = Vec::new();
        std::mem::swap(&mut out, &mut self.pending);
        out
    }
}

} // verus!
