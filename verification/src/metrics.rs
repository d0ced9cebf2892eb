//! The values that the metrics exporter publishes.

use crate::block_info::BlockInfo;
use crate::limits::{bump, bumped, clamp_len, clamp_wide, clamped};
use vstd::prelude::*;

verus! {

/// Gauges are signed, counters unsigned; each is held at its largest value once
/// that is reached.
#[derive(Clone, Copy, Debug, PartialEq, Eq, Structural)]
pub struct Metrics {
    /// `block_arrived`: transactions in the block that arrived last.
    pub block_txs: i64,
    /// `bankingstage_banking_errors`: error counts of processed blocks, added up.
    pub banking_stage_errors: i64,
    /// `bankingstage_txerrors`: failed transactions of processed blocks, added up.
    pub tx_errors: i64,
    /// `bankingstage_banking_stage_events_counter`: error notifications received.
    pub banking_stage_events: u64,
    /// `bankingstage_blocks_counter`: blocks received.
    pub blocks: u64,
}

fn add_gauge(gauge: i64, delta: i64) -> (r: i64)
    ensures
        r == clamped(gauge + delta),
{
    clamp_wide(gauge as i128 + delta as i128)
}

impl Metrics {
    pub open spec fn zero() -> Metrics {
        Metrics {
            block_txs: 0,
            banking_stage_errors: 0,
            tx_errors: 0,
            banking_stage_events: 0,
            blocks: 0,
        }
    }

    /// The metrics after one more error notification.
    pub open spec fn after_error_event(self) -> Metrics {
        Metrics { banking_stage_events: bumped(self.banking_stage_events), ..self }
    }

    /// The metrics after a block with `transactions` transactions arrived.
    pub open spec fn after_block_arrival(self, transactions: nat) -> Metrics {
        Metrics { block_txs: clamped(transactions as int), blocks: bumped(self.blocks), ..self }
    }

    /// The metrics after a block with `errors` counted error notifications and
    /// `failed` failed transactions was processed.
    pub open spec fn after_block_processed(self, errors: Option<i64>, failed: int) -> Metrics {
        Metrics {
            banking_stage_errors: clamped(
                self.banking_stage_errors + match errors {
                    Some(n) => n as int,
                    None => 0,
                },
            ),
            tx_errors: clamped(self.tx_errors + clamped(failed)),
            ..self
        }
    }

    pub fn new() -> (r: Metrics)
        ensures
            r == Metrics::zero(),
    {
        Metrics { block_txs: 0, banking_stage_errors: 0, tx_errors: 0, banking_stage_events: 0, blocks: 0 }
    }

    pub fn record_error_event(&mut self)
        ensures
            *final(self) == old(self).after_error_event(),
    {
        self.banking_stage_events = bump(self.banking_stage_events);
    }

    pub fn record_block_arrival(&mut self, transactions: usize)
        ensures
            *final(self) == old(self).after_block_arrival(transactions as nat),
    {
        self.block_txs = clamp_len(transactions);
        self.blocks = bump(self.blocks);
    }

    pub fn record_block_processed(&mut self, info: &BlockInfo)
        ensures
            *final(self) == old(self).after_block_processed(
                info.banking_stage_errors,
                info@.failed_transactions(),
            ),
    {
        let errors: i64 = match info.banking_stage_errors {
            Some(n) => n,
            None => 0,
        };
        self.banking_stage_errors = add_gauge(self.banking_stage_errors, errors);
        self.tx_errors = add_gauge(self.tx_errors, info.failed_transactions());
    }
}

} // verus!
