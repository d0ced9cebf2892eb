//! The correlation pipeline: what each event does to the shared state.

use crate::batching::{chunked, into_batches};
use crate::block_info::{BlockInfo, BlockInfoModel};
use crate::clock::Timestamp;
use crate::delay_queue::{
    released_after, releases, waiting_after, DelayQueue, DelayedBlockModel, QueueStep, Released,
};
use crate::error_tally::{tally_after, ErrorTally, TallyStep};
use crate::events::{BlockEvent, BlockEventModel, NotificationModel, TransactionNotification};
use crate::history::{replayed, IndexEvent};
use crate::limits::{bumped, clamp, clamped};
use crate::metrics::Metrics;
use crate::transaction_index::{
    after_block, after_notification, consistent, is_eviction_of, retained, TransactionIndex,
};
use crate::transaction_info::{infos_view, TransactionInfo, TransactionInfoModel};
use vstd::prelude::*;

verus! {

/// How long a block is held back before it is processed, in milliseconds.
pub const BLOCK_HOLD_MILLIS: u64 = 30_000;

/// The time between two eviction passes, in milliseconds.
pub const EVICTION_PERIOD_MILLIS: u64 = 60_000;

/// How many slots behind the watermark an entry must lie to be evicted.
pub const LAG_WINDOW_SLOTS: u64 = 300;

/// The largest number of entries persisted in one call.
pub const BATCH_SIZE: usize = 8;

/// The state that the notification handler, the block processor and the eviction
/// job share. It changes through the methods below only.
pub struct Pipeline {
    index: TransactionIndex,
    tally: ErrorTally,
    delayed: DelayQueue,
    watermark: u64,
    metrics: Metrics,
}

#[verifier::ext_equal]
pub struct PipelineModel {
    /// The entries of the index, by signature.
    pub index: Map<Seq<char>, TransactionInfoModel>,
    /// The error counts not yet taken, by slot.
    pub tally: Map<u64, u64>,
    /// The blocks that wait for their release, oldest first.
    pub waiting: Seq<DelayedBlockModel>,
    /// The time each block is held back, in milliseconds.
    pub hold_millis: u64,
    /// The highest slot of any processed block.
    pub watermark: u64,
    pub metrics: Metrics,
}

impl View for Pipeline {
    type V = PipelineModel;

    closed spec fn view(&self) -> PipelineModel {
        PipelineModel {
            index: self.index@,
            tally: self.tally@,
            waiting: self.delayed@.waiting,
            hold_millis: self.delayed@.hold_millis,
            watermark: self.watermark,
            metrics: self.metrics,
        }
    }
}

/// What the block processor did in one step, and what its caller is to do.
pub enum BlockStep {
    /// No block is waiting.
    Idle,
    /// The oldest block is not due before the given time.
    WaitUntil(u64),
    /// A block was processed; its record is to be persisted.
    Persist(BlockInfo),
}

/// The error count of a slot as the block record carries it.
pub open spec fn taken_errors(tally: Map<u64, u64>, slot: u64) -> Option<i64> {
    if tally.contains_key(slot) {
        Some(clamped(tally[slot] as int))
    } else {
        None
    }
}

pub open spec fn higher(a: u64, b: u64) -> u64 {
    if a >= b {
        a
    } else {
        b
    }
}

impl PipelineModel {
    /// Every index entry is stored under its own signature and is well formed.
    pub open spec fn well_formed(self) -> bool {
        consistent(self.index)
    }

    /// The empty pipeline that holds each block back for `hold_millis`.
    pub open spec fn empty(hold_millis: u64) -> PipelineModel {
        PipelineModel {
            index: Map::empty(),
            tally: Map::empty(),
            waiting: Seq::empty(),
            hold_millis,
            watermark: 0,
            metrics: Metrics::zero(),
        }
    }

    /// The state after a notification seen at `at`: one without a cause changes
    /// nothing; any other is counted for its slot, counted as an event, and merged
    /// into the index.
    pub open spec fn after_notification(self, notification: NotificationModel, at: Timestamp)
        -> PipelineModel {
        if notification.error is None {
            self
        } else {
            PipelineModel {
                index: after_notification(self.index, notification, at),
                tally: self.tally.insert(
                    notification.slot,
                    bumped(
                        if self.tally.contains_key(notification.slot) {
                            self.tally[notification.slot]
                        } else {
                            0
                        },
                    ),
                ),
                metrics: self.metrics.after_error_event(),
                ..self
            }
        }
    }

    /// The state after a block arrived at `arrived_at`: it is counted and queued
    /// behind the blocks that wait, and nothing else changes until it is released.
    pub open spec fn after_arrival(self, block: BlockEventModel, arrived_at: u64)
        -> PipelineModel {
        PipelineModel {
            waiting: self.waiting.push(
                DelayedBlockModel { release_at: (arrived_at + self.hold_millis) as u64, block },
            ),
            metrics: self.metrics.after_block_arrival(block.transactions.len()),
            ..self
        }
    }

    /// The record of `block` when it is processed in this state: it carries the
    /// error count that the tally holds for the block's slot at that moment.
    pub open spec fn record_of(self, block: BlockEventModel) -> BlockInfoModel {
        BlockInfoModel::of(block, taken_errors(self.tally, block.slot))
    }

    /// The state after `block` was processed: its transactions are merged into the
    /// entries that exist for them, the slot's error count is taken, the metrics are
    /// updated and the watermark is raised to the block's slot, never lowered.
    pub open spec fn after_block(self, block: BlockEventModel) -> PipelineModel {
        PipelineModel {
            index: after_block(self.index, block.slot, block.transactions),
            tally: self.tally.remove(block.slot),
            watermark: higher(self.watermark, block.slot),
            metrics: self.metrics.after_block_processed(
                self.record_of(block).banking_stage_errors,
                self.record_of(block).failed_transactions(),
            ),
            ..self
        }
    }

    /// The state after the oldest waiting block left the queue and was processed.
    pub open spec fn after_release(self) -> PipelineModel {
        PipelineModel { waiting: self.waiting.drop_first(), ..self }.after_block(
            self.waiting[0].block,
        )
    }

    /// The state after an eviction pass.
    pub open spec fn after_eviction(self, lag_window: u64) -> PipelineModel {
        PipelineModel { index: retained(self.index, self.watermark, lag_window), ..self }
    }
}

impl Pipeline {
    /// An empty pipeline that holds each block back for `hold_millis`.
    pub fn new(hold_millis: u64) -> (r: Self)
        ensures
            r@ == PipelineModel::empty(hold_millis),
            r@.well_formed(),
    {
        Pipeline {
            index: TransactionIndex::new(),
            tally: ErrorTally::new(),
            delayed: DelayQueue::new(hold_millis),
            watermark: 0,
            metrics: Metrics::new(),
        }
    }

    /// The index of transactions in flight.
    pub fn index(&self) -> (r: &TransactionIndex)
        ensures
            r@ == self@.index,
    {
        &self.index
    }

    /// The error counts not yet taken.
    pub fn tally(&self) -> (r: &ErrorTally)
        ensures
            r@ == self@.tally,
    {
        &self.tally
    }

    /// The highest slot of any processed block.
    pub fn watermark(&self) -> (r: u64)
        ensures
            r == self@.watermark,
    {
        self.watermark
    }

    pub fn metrics(&self) -> (r: Metrics)
        ensures
            r == self@.metrics,
    {
        self.metrics
    }

    /// The number of blocks that wait for their release.
    pub fn waiting(&self) -> (r: usize)
        ensures
            r == self@.waiting.len(),
    {
        self.delayed.len()
    }

    /// The time each block is held back, in milliseconds.
    pub fn hold(&self) -> (r: u64)
        ensures
            r == self@.hold_millis,
    {
        self.delayed.hold()
    }

    /// Handles a notification that was seen at `at`.
    pub fn on_notification(&mut self, notification: &TransactionNotification, at: Timestamp)
        requires
            old(self)@.well_formed(),
        ensures
            final(self)@ == old(self)@.after_notification(notification@, at),
            final(self)@.well_formed(),
    {
        if notification.error.is_none() {
            return ;
        }
        self.metrics.record_error_event();
        self.tally.record_error(notification.slot);
        self.index.upsert_notification(notification, at);
    }

    /// Takes in a block that arrived at `arrived_at`.
    pub fn on_block(&mut self, block: BlockEvent, arrived_at: u64)
        requires
            old(self)@.well_formed(),
            arrived_at + old(self)@.hold_millis <= u64::MAX,
        ensures
            final(self)@ == old(self)@.after_arrival(block@, arrived_at),
            final(self)@.well_formed(),
    {
        self.metrics.record_block_arrival(block.transactions.len());
        self.delayed.push(block, arrived_at);
    }

    /// Processes a released block and hands out its record.
    pub fn process_block(&mut self, block: &BlockEvent) -> (info: BlockInfo)
        requires
            old(self)@.well_formed(),
        ensures
            info@ == old(self)@.record_of(block@),
            final(self)@ == old(self)@.after_block(block@),
            final(self)@.well_formed(),
    {
        self.index.merge_block(block.slot, &block.transactions);
        let errors: Option<i64> = match self.tally.take(block.slot) {
            Some(count) => Some(clamp(count)),
            None => None,
        };
        let info = BlockInfo::new(block, errors);
        self.metrics.record_block_processed(&info);
        if block.slot > self.watermark {
            self.watermark = block.slot;
        }
        info
    }

    /// One step of the block processor at time `now`: the oldest waiting block is
    /// processed if it is due, and nothing happens if it is not.
    pub fn advance(&mut self, now: u64) -> (step: BlockStep)
        requires
            old(self)@.well_formed(),
        ensures
            final(self)@.well_formed(),
            match step {
                BlockStep::Idle => old(self)@.waiting.len() == 0 && final(self)@ == old(self)@,
                BlockStep::WaitUntil(until) => {
                    &&& old(self)@.waiting.len() > 0
                    &&& !releases(old(self)@.waiting, now)
                    &&& until == old(self)@.waiting[0].release_at
                    &&& final(self)@ == old(self)@
                },
                BlockStep::Persist(info) => {
                    &&& releases(old(self)@.waiting, now)
                    &&& info@ == old(self)@.record_of(old(self)@.waiting[0].block)
                    &&& final(self)@ == old(self)@.after_release()
                },
            },
    {
        match self.delayed.poll(now) {
            Released::Empty => BlockStep::Idle,
            Released::Wait(until) => BlockStep::WaitUntil(until),
            Released::Ready(block) => BlockStep::Persist(self.process_block(&block)),
        }
    }

    /// One pass of the eviction job: removes the entries that lie more than
    /// `lag_window` slots behind the watermark and hands them out in batches of
    /// `batch_size`. In which order the entries leave is not fixed.
    pub fn evict(&mut self, lag_window: u64, batch_size: usize) -> (batches: Vec<
        Vec<TransactionInfo>,
    >)
        requires
            old(self)@.well_formed(),
            batch_size > 0,
        ensures
            final(self)@ == old(self)@.after_eviction(lag_window),
            final(self)@.well_formed(),
            exists|evicted: Seq<TransactionInfoModel>|
                is_eviction_of(evicted, old(self)@.index, old(self)@.watermark, lag_window)
                    && batch_models(batches@) == #[trigger] chunked(evicted, batch_size as nat),
    {
        let evicted = self.index.evict(self.watermark, lag_window);
        proof {
            lemma_chunked_models(evicted@, batch_size as nat);
        }
        let batches = into_batches(evicted, batch_size);
        assert(batch_models(batches@) =~= models_of_batches(
            crate::batching::batches_view(batches@),
        ));
        batches
    }
}

/// The batches as sequences of entry models.
pub open spec fn batch_models(batches: Seq<Vec<TransactionInfo>>) -> Seq<
    Seq<TransactionInfoModel>,
> {
    Seq::new(batches.len(), |i: int| infos_view(batches[i]@))
}

pub open spec fn models_of_batches(batches: Seq<Seq<TransactionInfo>>) -> Seq<
    Seq<TransactionInfoModel>,
> {
    Seq::new(batches.len(), |i: int| infos_view(batches[i]))
}

/// Cutting entries into batches and taking their models comes to the same as
/// cutting their models into batches.
proof fn lemma_chunked_models(entries: Seq<TransactionInfo>, size: nat)
    requires
        size > 0,
    ensures
        models_of_batches(chunked(entries, size)) == chunked(infos_view(entries), size),
    decreases entries.len(),
{
    let models = infos_view(entries);
    if entries.len() == 0 {
        assert(models_of_batches(chunked(entries, size)) =~= chunked(models, size));
    } else if entries.len() <= size {
        assert(models_of_batches(chunked(entries, size)) =~= chunked(models, size));
    } else {
        lemma_chunked_models(entries.skip(size as int), size);
        assert(infos_view(entries.skip(size as int)) =~= models.skip(size as int));
        assert(infos_view(entries.take(size as int)) =~= models.take(size as int));
        assert(models_of_batches(chunked(entries, size)) =~= chunked(models, size));
    }
}

/// An entry leaves the index in an eviction pass exactly when its first slot lies
/// more than the lag window behind the watermark. One that leaves stands once in
/// the batches of that pass, as it stood in the index; one that stays stands in none.
pub proof fn law_evicted_entries_are_batched_once(
    entries: Map<Seq<char>, TransactionInfoModel>,
    watermark: u64,
    lag_window: u64,
    evicted: Seq<TransactionInfoModel>,
    batch_size: nat,
    signature: Seq<char>,
)
    requires
        consistent(entries),
        entries.contains_key(signature),
        is_eviction_of(evicted, entries, watermark, lag_window),
        batch_size > 0,
    ensures
        retained(entries, watermark, lag_window).contains_key(signature) <==> watermark
            - entries[signature].first_notification_slot <= lag_window,
        watermark - entries[signature].first_notification_slot > lag_window ==> exists|t: int|
            0 <= t < evicted.len() && #[trigger] evicted[t] == entries[signature] && forall|u: int|
                0 <= u < evicted.len() && (#[trigger] evicted[u]).signature == signature ==> u
                    == t,
        watermark - entries[signature].first_notification_slot <= lag_window ==> forall|u: int|
            0 <= u < evicted.len() ==> (#[trigger] evicted[u]).signature != signature,
        crate::batching::flattened(chunked(evicted, batch_size)) == evicted,
{
    crate::batching::law_batches_keep_items(evicted, batch_size);
    if crate::transaction_index::is_aged(
        entries[signature].first_notification_slot,
        watermark,
        lag_window,
    ) {
        let t = choose|t: int| 0 <= t < evicted.len() && #[trigger] evicted[t].signature == signature;
        assert(evicted[t] == entries[signature]);
        assert forall|u: int|
            0 <= u < evicted.len() && (#[trigger] evicted[u]).signature == signature implies u
            == t by {
            if u < t {
                assert(evicted[u].signature != evicted[t].signature);
            } else if t < u {
                assert(evicted[t].signature != evicted[u].signature);
            }
        }
    } else {
        assert forall|u: int| 0 <= u < evicted.len() implies (#[trigger] evicted[u]).signature
            != signature by {
            if evicted[u].signature == signature {
                assert(entries[evicted[u].signature] == evicted[u]);
            }
        }
    }
}

/// One call on the pipeline that changes what it recorded.
pub enum PipelineStep {
    /// `on_notification`.
    Notification { notification: NotificationModel, at: Timestamp },
    /// `on_block`.
    Arrival { block: BlockEventModel, at: u64 },
    /// `advance` at `now`.
    Advance { now: u64 },
    /// `process_block`, called directly.
    Process { block: BlockEventModel },
}

/// The state of a pipeline with hold time `hold_millis` that starts empty and sees
/// `steps` in order.
pub open spec fn ran(hold_millis: u64, steps: Seq<PipelineStep>) -> PipelineModel
    decreases steps.len(),
{
    if steps.len() == 0 {
        PipelineModel::empty(hold_millis)
    } else {
        let before = ran(hold_millis, steps.drop_last());
        match steps.last() {
            PipelineStep::Notification { notification, at } => before.after_notification(
                notification,
                at,
            ),
            PipelineStep::Arrival { block, at } => before.after_arrival(block, at),
            PipelineStep::Advance { now } => if releases(before.waiting, now) {
                before.after_release()
            } else {
                before
            },
            PipelineStep::Process { block } => before.after_block(block),
        }
    }
}

/// The records that the `advance` calls among `steps` handed out to be persisted.
pub open spec fn persisted(hold_millis: u64, steps: Seq<PipelineStep>) -> Seq<BlockInfoModel>
    decreases steps.len(),
{
    if steps.len() == 0 {
        Seq::empty()
    } else {
        let before = ran(hold_millis, steps.drop_last());
        let earlier = persisted(hold_millis, steps.drop_last());
        match steps.last() {
            PipelineStep::Advance { now } => if releases(before.waiting, now) {
                earlier.push(before.record_of(before.waiting[0].block))
            } else {
                earlier
            },
            _ => earlier,
        }
    }
}

/// The calls on the index that `steps` come to.
pub open spec fn index_events(hold_millis: u64, steps: Seq<PipelineStep>) -> Seq<IndexEvent>
    decreases steps.len(),
{
    if steps.len() == 0 {
        Seq::empty()
    } else {
        let before = ran(hold_millis, steps.drop_last());
        let earlier = index_events(hold_millis, steps.drop_last());
        match steps.last() {
            PipelineStep::Notification { notification, at } => earlier.push(
                IndexEvent::Notification { notification, at },
            ),
            PipelineStep::Arrival { .. } => earlier,
            PipelineStep::Advance { now } => if releases(before.waiting, now) {
                earlier.push(
                    IndexEvent::Block {
                        block_slot: before.waiting[0].block.slot,
                        txs: before.waiting[0].block.transactions,
                    },
                )
            } else {
                earlier
            },
            PipelineStep::Process { block } => earlier.push(
                IndexEvent::Block { block_slot: block.slot, txs: block.transactions },
            ),
        }
    }
}

/// The calls on the tally that `steps` come to.
pub open spec fn tally_steps(hold_millis: u64, steps: Seq<PipelineStep>) -> Seq<TallyStep>
    decreases steps.len(),
{
    if steps.len() == 0 {
        Seq::empty()
    } else {
        let before = ran(hold_millis, steps.drop_last());
        let earlier = tally_steps(hold_millis, steps.drop_last());
        match steps.last() {
            PipelineStep::Notification { notification, .. } => if notification.error is Some {
                earlier.push(TallyStep::Record { slot: notification.slot })
            } else {
                earlier
            },
            PipelineStep::Arrival { .. } => earlier,
            PipelineStep::Advance { now } => if releases(before.waiting, now) {
                earlier.push(TallyStep::Take { slot: before.waiting[0].block.slot })
            } else {
                earlier
            },
            PipelineStep::Process { block } => earlier.push(TallyStep::Take { slot: block.slot }),
        }
    }
}

/// The calls on the delay queue that `steps` come to.
pub open spec fn queue_steps(steps: Seq<PipelineStep>) -> Seq<QueueStep>
    decreases steps.len(),
{
    if steps.len() == 0 {
        Seq::empty()
    } else {
        let earlier = queue_steps(steps.drop_last());
        match steps.last() {
            PipelineStep::Arrival { block, at } => earlier.push(QueueStep::Arrival { block, at }),
            PipelineStep::Advance { now } => earlier.push(QueueStep::Poll { now }),
            _ => earlier,
        }
    }
}

/// Whatever a pipeline handles, in whatever order, its index, its tally and its
/// queue are what the same calls leave of an index, a tally and a queue alone: what
/// is proved of their histories holds of every run of the pipeline between
/// evictions. Each block that leaves the queue yields one record to persist, in
/// the order the blocks leave.
pub proof fn law_run_is_history_of_its_parts(hold_millis: u64, steps: Seq<PipelineStep>)
    ensures
        ran(hold_millis, steps).index == replayed(index_events(hold_millis, steps)),
        ran(hold_millis, steps).tally == tally_after(tally_steps(hold_millis, steps)),
        ran(hold_millis, steps).waiting == waiting_after(hold_millis, queue_steps(steps)),
        ran(hold_millis, steps).hold_millis == hold_millis,
        persisted(hold_millis, steps).len() == released_after(
            hold_millis,
            queue_steps(steps),
        ).len(),
        forall|i: int|
            0 <= i < persisted(hold_millis, steps).len() ==> (#[trigger] persisted(
                hold_millis,
                steps,
            )[i]).slot == clamped(
                released_after(hold_millis, queue_steps(steps))[i].block.slot as int,
            ) && persisted(hold_millis, steps)[i].block_hash == released_after(
                hold_millis,
                queue_steps(steps),
            )[i].block.block_hash,
    decreases steps.len(),
{
    if steps.len() > 0 {
        let rest = steps.drop_last();
        law_run_is_history_of_its_parts(hold_millis, rest);
        let before = ran(hold_millis, rest);
        let events = index_events(hold_millis, rest);
        let taken = tally_steps(hold_millis, rest);
        let queued = queue_steps(rest);
        match steps.last() {
            PipelineStep::Notification { notification, at } => {
                let event = IndexEvent::Notification { notification, at };
                assert(events.push(event).drop_last() =~= events);
                if notification.error is Some {
                    let step = TallyStep::Record { slot: notification.slot };
                    assert(taken.push(step).drop_last() =~= taken);
                }
            },
            PipelineStep::Arrival { block, at } => {
                let step = QueueStep::Arrival { block, at };
                assert(queued.push(step).drop_last() =~= queued);
            },
            PipelineStep::Advance { now } => {
                let poll = QueueStep::Poll { now };
                assert(queued.push(poll).drop_last() =~= queued);
                if releases(before.waiting, now) {
                    let block = before.waiting[0].block;
                    let event = IndexEvent::Block {
                        block_slot: block.slot,
                        txs: block.transactions,
                    };
                    assert(events.push(event).drop_last() =~= events);
                    let step = TallyStep::Take { slot: block.slot };
                    assert(taken.push(step).drop_last() =~= taken);
                }
            },
            PipelineStep::Process { block } => {
                let event = IndexEvent::Block { block_slot: block.slot, txs: block.transactions };
                assert(events.push(event).drop_last() =~= events);
                let step = TallyStep::Take { slot: block.slot };
                assert(taken.push(step).drop_last() =~= taken);
            },
        }
    }
}

} // verus!
