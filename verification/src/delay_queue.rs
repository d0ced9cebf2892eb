//! The hold-back queue between block arrival and block processing.

use crate::events::{BlockEvent, BlockEventModel};
use std::collections::VecDeque;
use vstd::prelude::*;

verus! {

/// A block waiting for its release time, in milliseconds of the caller's clock.
pub struct DelayedBlock {
    pub release_at: u64,
    pub block: BlockEvent,
}

#[verifier::ext_equal]
pub struct DelayedBlockModel {
    pub release_at: u64,
    pub block: BlockEventModel,
}

impl View for DelayedBlock {
    type V = DelayedBlockModel;

    open spec fn view(&self) -> DelayedBlockModel {
        DelayedBlockModel { release_at: self.release_at, block: self.block@ }
    }
}

pub open spec fn waiting_view(waiting: Seq<DelayedBlock>) -> Seq<DelayedBlockModel> {
    Seq::new(waiting.len(), |i: int| waiting[i]@)
}

/// Whether a poll at `now` hands out the oldest block of `waiting`.
pub open spec fn releases(waiting: Seq<DelayedBlockModel>, now: u64) -> bool {
    waiting.len() > 0 && waiting[0].release_at <= now
}

/// What the consumer is to do next.
pub enum Released {
    /// Nothing is waiting.
    Empty,
    /// The oldest block is not due before the given time.
    Wait(u64),
    /// The oldest block is due and has left the queue.
    Ready(BlockEvent),
}

/// Blocks in arrival order, each held back for a fixed time after it arrived.
pub struct DelayQueue {
    hold: u64,
    waiting: VecDeque<DelayedBlock>,
}

/// What a queue holds: its hold time in milliseconds, and the blocks that wait,
/// oldest first.
#[verifier::ext_equal]
pub struct DelayQueueModel {
    pub hold_millis: u64,
    pub waiting: Seq<DelayedBlockModel>,
}

impl View for DelayQueue {
    type V = DelayQueueModel;

    closed spec fn view(&self) -> DelayQueueModel {
        DelayQueueModel { hold_millis: self.hold, waiting: waiting_view(self.waiting@) }
    }
}

impl DelayQueueModel {
    /// The queue after a block that arrived at `arrived_at` is queued behind all
    /// blocks queued before.
    pub open spec fn pushed(self, block: BlockEventModel, arrived_at: u64) -> DelayQueueModel {
        DelayQueueModel {
            waiting: self.waiting.push(
                DelayedBlockModel { release_at: (arrived_at + self.hold_millis) as u64, block },
            ),
            ..self
        }
    }

    /// The queue without its oldest block.
    pub open spec fn released(self) -> DelayQueueModel {
        DelayQueueModel { waiting: self.waiting.drop_first(), ..self }
    }
}

impl DelayQueue {
    pub fn new(hold_millis: u64) -> (r: Self)
        ensures
            r@ == (DelayQueueModel { hold_millis, waiting: Seq::empty() }),
    {
        DelayQueue { hold: hold_millis, waiting: VecDeque::new() }
    }

    /// The time each block is held back, in milliseconds.
    pub fn hold(&self) -> (r: u64)
        ensures
            r == self@.hold_millis,
    {
        self.hold
    }

    pub fn len(&self) -> (r: usize)
        ensures
            r == self@.waiting.len(),
    {
        self.waiting.len()
    }

    /// Queues a block that arrived at `arrived_at` behind all blocks queued before.
    pub fn push(&mut self, block: BlockEvent, arrived_at: u64)
        requires
            arrived_at + old(self)@.hold_millis <= u64::MAX,
        ensures
            final(self)@ == old(self)@.pushed(block@, arrived_at),
    {
        let release_at: u64 = arrived_at + self.hold;
        self.waiting.push_back(DelayedBlock { release_at, block });
    }

    /// Looks at the oldest block only: hands it out if it is due at `now`, and says
    /// how long to wait if it is not. Blocks behind it stay behind it.
    pub fn poll(&mut self, now: u64) -> (r: Released)
        ensures
            match r {
                Released::Empty => old(self)@.waiting.len() == 0 && final(self)@ == old(self)@,
                Released::Wait(until) => {
                    &&& old(self)@.waiting.len() > 0
                    &&& !releases(old(self)@.waiting, now)
                    &&& until == old(self)@.waiting[0].release_at
                    &&& final(self)@ == old(self)@
                },
                Released::Ready(block) => {
                    &&& releases(old(self)@.waiting, now)
                    &&& block@ == old(self)@.waiting[0].block
                    &&& final(self)@ == old(self)@.released()
                },
            },
    {
        if self.waiting.len() == 0 {
            return Released::Empty;
        }
        let release_at: u64 = self.waiting[0].release_at;
        if release_at > now {
            return Released::Wait(release_at);
        }
        match self.waiting.pop_front() {
            Some(delayed) => Released::Ready(delayed.block),
            None => Released::Empty,
        }
    }
}

/// One call on the queue.
pub enum QueueStep {
    /// `push` of a block that arrived at `at`.
    Arrival { block: BlockEventModel, at: u64 },
    /// `poll` at `now`.
    Poll { now: u64 },
}

/// A block together with a time: that of its arrival, or that of its release.
pub struct Stamped {
    pub block: BlockEventModel,
    pub at: u64,
}

/// The queue with hold time `hold` after `steps`, starting empty.
pub open spec fn waiting_after(hold: u64, steps: Seq<QueueStep>) -> Seq<DelayedBlockModel>
    decreases steps.len(),
{
    if steps.len() == 0 {
        Seq::empty()
    } else {
        let before = waiting_after(hold, steps.drop_last());
        match steps.last() {
            QueueStep::Arrival { block, at } => before.push(
                DelayedBlockModel { release_at: (at + hold) as u64, block },
            ),
            QueueStep::Poll { now } => if releases(before, now) {
                before.drop_first()
            } else {
                before
            },
        }
    }
}

/// The blocks that the polls among `steps` handed out, each with the time of that
/// poll, in the order they were handed out.
pub open spec fn released_after(hold: u64, steps: Seq<QueueStep>) -> Seq<Stamped>
    decreases steps.len(),
{
    if steps.len() == 0 {
        Seq::empty()
    } else {
        let earlier = released_after(hold, steps.drop_last());
        let before = waiting_after(hold, steps.drop_last());
        match steps.last() {
            QueueStep::Arrival { .. } => earlier,
            QueueStep::Poll { now } => if releases(before, now) {
                earlier.push(Stamped { block: before[0].block, at: now })
            } else {
                earlier
            },
        }
    }
}

/// The blocks that arrived during `steps`, each with its arrival time, in order.
pub open spec fn arrivals(steps: Seq<QueueStep>) -> Seq<Stamped>
    decreases steps.len(),
{
    if steps.len() == 0 {
        Seq::empty()
    } else {
        let earlier = arrivals(steps.drop_last());
        match steps.last() {
            QueueStep::Arrival { block, at } => earlier.push(Stamped { block, at }),
            QueueStep::Poll { .. } => earlier,
        }
    }
}

/// After any sequence of arrivals and polls, the blocks handed out followed by the
/// blocks still waiting are the blocks that arrived, in arrival order: every block is
/// handed out at most once and never ahead of an earlier one. None is handed out
/// before its hold time has passed.
pub proof fn law_released_in_arrival_order_after_hold(hold: u64, steps: Seq<QueueStep>)
    requires
        forall|i: int|
            0 <= i < steps.len() ==> (#[trigger] steps[i] matches QueueStep::Arrival { at, .. }
                ==> at + hold <= u64::MAX),
    ensures
        released_after(hold, steps).len() + waiting_after(hold, steps).len() == arrivals(
            steps,
        ).len(),
        forall|i: int|
            0 <= i < released_after(hold, steps).len() ==> (#[trigger] released_after(
                hold,
                steps,
            )[i]).block == arrivals(steps)[i].block && released_after(hold, steps)[i].at
                >= arrivals(steps)[i].at + hold,
        forall|j: int|
            0 <= j < waiting_after(hold, steps).len() ==> (#[trigger] waiting_after(
                hold,
                steps,
            )[j]).block == arrivals(steps)[released_after(hold, steps).len() + j].block
                && waiting_after(hold, steps)[j].release_at == arrivals(steps)[released_after(
                hold,
                steps,
            ).len() + j].at + hold,
    decreases steps.len(),
{
    if steps.len() > 0 {
        law_released_in_arrival_order_after_hold(hold, steps.drop_last());
    }
}

} // verus!
