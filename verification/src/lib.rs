//! Correlation of a validator's banking-stage error notifications with the blocks
//! it finalizes.
//!
//! Two feeds arrive independently: notifications that a transaction failed at a
//! slot, and the contents of each finalized block. [`pipeline::Pipeline`] holds what
//! they share: the index of transactions in flight, the per-slot tally of errors,
//! the queue that holds each block back until its errors had time to arrive, the
//! slot watermark and the metrics. Entries that lie far enough behind the watermark
//! leave the index in batches and are stored as rows.
//!
//! Each module states what its functions do over the views of its types, and proves
//! what holds after any sequence of calls.

pub mod batching;
pub mod block_info;
pub mod clock;
pub mod dash;
pub mod delay_queue;
pub mod error_tally;
pub mod events;
pub mod history;
pub mod limits;
pub mod metrics;
pub mod pipeline;
pub mod postgres;
pub mod query;
pub mod session;
pub mod transaction_index;
pub mod transaction_info;
