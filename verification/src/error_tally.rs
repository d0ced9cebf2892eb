//! Per-slot count of banking-stage error notifications.

use crate::dash::{tally_counts, tally_get, tally_insert, tally_new, tally_remove};
use crate::limits::{bump, bumped, held};
use dashmap::DashMap;
use vstd::prelude::*;

verus! {

/// Concurrent-map backed tally of error notifications per slot.
pub struct ErrorTally {
    counts: DashMap<u64, u64>,
}

impl View for ErrorTally {
    type V = Map<u64, u64>;

    closed spec fn view(&self) -> Map<u64, u64> {
        tally_counts(self.counts)
    }
}

impl ErrorTally {
    /// The number of errors recorded for `slot` and not yet taken; zero if there is none.
    pub open spec fn pending(&self, slot: u64) -> u64 {
        if self@.contains_key(slot) {
            self@[slot]
        } else {
            0
        }
    }

    pub fn new() -> (r: Self)
        ensures
            r@ == Map::<u64, u64>::empty(),
    {
        ErrorTally { counts: tally_new() }
    }

    /// Counts one more error notification for `slot`.
    pub fn record_error(&mut self, slot: u64)
        ensures
            final(self)@ == old(self)@.insert(slot, bumped(old(self).pending(slot))),
    {
        let next: u64 = match tally_get(&self.counts, slot) {
            Some(count) => bump(count),
            None => 1,
        };
        tally_insert(&mut self.counts, slot, next);
    }

    /// Reads and removes the count for `slot`. `None` means that no error was recorded
    /// for the slot since it was last taken.
    pub fn take(&mut self, slot: u64) -> (r: Option<u64>)
        ensures
            r == (if old(self)@.contains_key(slot) {
                Some(old(self)@[slot])
            } else {
                None
            }),
            final(self)@ == old(self)@.remove(slot),
    {
        tally_remove(&mut self.counts, slot)
    }

    /// The count recorded for `slot`, left in place.
    pub fn peek(&self, slot: u64) -> (r: Option<u64>)
        ensures
            r == (if self@.contains_key(slot) {
                Some(self@[slot])
            } else {
                None
            }),
    {
        tally_get(&self.counts, slot)
    }
}

/// One call on the tally.
pub enum TallyStep {
    /// `record_error` for a slot.
    Record { slot: u64 },
    /// `take` for a slot.
    Take { slot: u64 },
}

/// The tally that starts empty and sees `steps` in order.
pub open spec fn tally_after(steps: Seq<TallyStep>) -> Map<u64, u64>
    decreases steps.len(),
{
    if steps.len() == 0 {
        Map::empty()
    } else {
        let before = tally_after(steps.drop_last());
        match steps.last() {
            TallyStep::Record { slot } => before.insert(
                slot,
                bumped(
                    if before.contains_key(slot) {
                        before[slot]
                    } else {
                        0
                    },
                ),
            ),
            TallyStep::Take { slot } => before.remove(slot),
        }
    }
}

/// The number of errors recorded for `slot` since it was last taken.
pub open spec fn recorded_since_taken(steps: Seq<TallyStep>, slot: u64) -> nat
    decreases steps.len(),
{
    if steps.len() == 0 {
        0
    } else {
        match steps.last() {
            TallyStep::Record { slot: s } => recorded_since_taken(steps.drop_last(), slot) + if s
                == slot {
                1nat
            } else {
                0nat
            },
            TallyStep::Take { slot: s } => if s == slot {
                0
            } else {
                recorded_since_taken(steps.drop_last(), slot)
            },
        }
    }
}

/// What `take` hands out for a slot is the number of errors recorded for it since it
/// was last taken: errors recorded before count, errors recorded after do not. A slot
/// without such errors has no entry.
pub proof fn law_take_counts_errors_recorded_before(steps: Seq<TallyStep>, slot: u64)
    ensures
        tally_after(steps).contains_key(slot) <==> recorded_since_taken(steps, slot) > 0,
        tally_after(steps).contains_key(slot) ==> tally_after(steps)[slot] == held(
            recorded_since_taken(steps, slot),
        ),
    decreases steps.len(),
{
    if steps.len() > 0 {
        law_take_counts_errors_recorded_before(steps.drop_last(), slot);
    }
}

} // verus!
