use vstd::prelude::*;

use crate::batch::{held_from, ready_before, EpochBatcher};
use crate::classify::classified_batch;
use crate::peel::{declared, lemma_peeled_contains, peel_operators, peel_set, peeled, violations, Topology, TopologyViolation};
use crate::record::{RawEvent, Update};

verus! {

/// The whole ingestion pipeline of one partition: raw events are classified and
/// held per epoch; once every worker has passed an epoch its records are released,
/// stripped of the records of encompassing operators.
pub struct LogRecordStream {
    topology: Topology,
    batcher: EpochBatcher,
}

impl LogRecordStream {
    /// The accumulator holds nothing that is already due.
    pub open spec fn wf(&self) -> bool {
        self.batcher().wf()
    }

    /// The operator topology declared so far.
    pub closed spec fn topology(&self) -> Topology {
        self.topology
    }

    /// The per-epoch accumulator.
    pub closed spec fn batcher(&self) -> EpochBatcher {
        self.batcher
    }

    /// A pipeline for `workers` workers whose topology is declared at `bootstrap_epoch`.
    pub fn new(workers: usize, bootstrap_epoch: u64) -> (r: LogRecordStream)
        ensures
            r.wf(),
            r.batcher().watermarks() == Seq::new(workers as nat, |i: int| 0u64),
            r.batcher().pending() == Seq::<Update>::empty(),
            r.topology().operates() == Seq::<(Seq<u64>, u64)>::empty(),
            r.topology().bootstrap() == bootstrap_epoch,
    {
        LogRecordStream { topology: Topology::new(bootstrap_epoch), batcher: EpochBatcher::new(workers) }
    }

    /// Takes in operator declarations; those made outside the bootstrap epoch
    /// are left out and returned.
    pub fn declare(&mut self, events: &Vec<RawEvent>) -> (r: Vec<TopologyViolation>)
        ensures
            final(self).wf() == old(self).wf(),
            final(self).batcher() == old(self).batcher(),
            final(self).topology().bootstrap() == old(self).topology().bootstrap(),
            final(self).topology().operates() == old(self).topology().operates() + declared(
                old(self).topology().bootstrap(),
                events@,
            ),
            r@ == violations(old(self).topology().bootstrap(), events@),
    {
        self.topology.observe_all(events)
    }

    /// Classifies and holds the events that arrived in `epoch`; refuses them
    /// (`false`) when every worker has already passed that epoch.
    pub fn ingest(&mut self, epoch: u64, events: &Vec<RawEvent>) -> (accepted: bool)
        requires
            old(self).wf(),
        ensures
            final(self).wf(),
            final(self).topology() == old(self).topology(),
            accepted == (epoch >= old(self).batcher().frontier_spec()),
            final(self).batcher().watermarks() == old(self).batcher().watermarks(),
            final(self).batcher().pending() == if accepted {
                old(self).batcher().pending() + classified_batch(epoch, events@)
            } else {
                old(self).batcher().pending()
            },
    {
        self.batcher.ingest(epoch, events)
    }

    /// Moves the watermark of `worker` up to `watermark` and releases, peeled and
    /// in arrival order, the records of every epoch that all workers have passed.
    pub fn advance(&mut self, worker: usize, watermark: u64) -> (out: Vec<Update>)
        requires
            old(self).wf(),
            worker < old(self).batcher().watermarks().len(),
        ensures
            final(self).wf(),
            final(self).topology() == old(self).topology(),
            final(self).batcher().watermarks() == old(self).batcher().watermarks().update(
                worker as int,
                if watermark > old(self).batcher().watermarks()[worker as int] {
                    watermark
                } else {
                    old(self).batcher().watermarks()[worker as int]
                },
            ),
            out@ == peeled(
                ready_before(old(self).batcher().pending(), final(self).batcher().frontier_spec()),
                peel_set(old(self).topology().operates()),
            ),
            final(self).batcher().pending() == held_from(
                old(self).batcher().pending(),
                final(self).batcher().frontier_spec(),
            ),
            forall|k: int, w: int|
                0 <= k < out@.len() && 0 <= w < final(self).batcher().watermarks().len()
                    ==> #[trigger] out@[k].1 < #[trigger] final(self).batcher().watermarks()[w],
    {
        let ready = self.batcher.advance(worker, watermark);
        let out = peel_operators(&ready, &self.topology);
        proof {
            let ids = peel_set(self.topology.operates());
            assert forall|k: int, w: int|
                0 <= k < out@.len() && 0 <= w < self.batcher.watermarks().len() implies #[trigger] out@[k].1
                    < #[trigger] self.batcher.watermarks()[w] by {
                lemma_peeled_contains(ready@, ids, out@[k]);
                assert(out@.contains(out@[k]));
                let j = choose|j: int| 0 <= j < ready@.len() && ready@[j] == out@[k];
                assert(ready@[j].1 < self.batcher.watermarks()[w]);
            }
        }
        out
    }

    /// The source has ended: releases every held record, peeled, in arrival order.
    pub fn finish(&mut self) -> (out: Vec<Update>)
        ensures
            final(self).wf(),
            final(self).topology() == old(self).topology(),
            final(self).batcher().watermarks() == old(self).batcher().watermarks(),
            final(self).batcher().pending() == Seq::<Update>::empty(),
            out@ == peeled(old(self).batcher().pending(), peel_set(old(self).topology().operates())),
    {
        let rest = self.batcher.finish();
        peel_operators(&rest, &self.topology)
    }
}

} // verus!
