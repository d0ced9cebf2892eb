//! What holds of the index after any sequence of calls.

use crate::clock::Timestamp;
use crate::events::{law_account_flags_map_accounts, BlockTransactionModel, NotificationModel};
use crate::limits::held;
use crate::transaction_index::{
    after_block, after_inclusion, after_known_inclusion, after_notification, consistent,
};
use crate::transaction_info::{
    lemma_recorded_counts_its_pair, lemma_recorded_counts_one_more, lemma_recorded_distinct,
    pair_count, total_count, TransactionInfoModel,
};
use vstd::prelude::*;

verus! {

/// One call on the index.
pub enum IndexEvent {
    /// `upsert_notification`.
    Notification { notification: NotificationModel, at: Timestamp },
    /// `upsert_inclusion`.
    Inclusion { block_slot: u64, tx: BlockTransactionModel, at: Timestamp },
    /// `merge_inclusion`.
    KnownInclusion { block_slot: u64, tx: BlockTransactionModel },
    /// `merge_block`, as the block processor calls it.
    Block { block_slot: u64, txs: Seq<BlockTransactionModel> },
}

/// The index after `event`.
pub open spec fn applied(entries: Map<Seq<char>, TransactionInfoModel>, event: IndexEvent) -> Map<
    Seq<char>,
    TransactionInfoModel,
> {
    match event {
        IndexEvent::Notification { notification, at } => after_notification(
            entries,
            notification,
            at,
        ),
        IndexEvent::Inclusion { block_slot, tx, at } => after_inclusion(entries, block_slot, tx, at),
        IndexEvent::KnownInclusion { block_slot, tx } => after_known_inclusion(
            entries,
            block_slot,
            tx,
        ),
        IndexEvent::Block { block_slot, txs } => after_block(entries, block_slot, txs),
    }
}

/// The index that starts empty and sees `events` in order.
pub open spec fn replayed(events: Seq<IndexEvent>) -> Map<Seq<char>, TransactionInfoModel>
    decreases events.len(),
{
    if events.len() == 0 {
        Map::empty()
    } else {
        applied(replayed(events.drop_last()), events.last())
    }
}

/// Whether `event` is an error report for `signature`.
pub open spec fn reports(event: IndexEvent, signature: Seq<char>) -> bool {
    event matches IndexEvent::Notification { notification, .. } && notification.error is Some
        && notification.signature == signature
}

/// Whether `event` reports `error` at `slot` for `signature`.
pub open spec fn reports_pair(event: IndexEvent, signature: Seq<char>, error: Seq<char>, slot: u64)
    -> bool {
    event matches IndexEvent::Notification { notification, .. } && notification.error == Some(
        error,
    ) && notification.slot == slot && notification.signature == signature
}

/// Whether `event` makes an entry for `signature` where there is none: an error
/// report for it, or an inclusion that is upserted. A block that is merged makes none.
pub open spec fn concerns(event: IndexEvent, signature: Seq<char>) -> bool {
    reports(event, signature) || (event matches IndexEvent::Inclusion { tx, .. } && tx.signature
        == signature)
}

/// The slot that `event` is observed at.
pub open spec fn slot_of(event: IndexEvent) -> u64 {
    match event {
        IndexEvent::Notification { notification, .. } => notification.slot,
        IndexEvent::Inclusion { block_slot, .. } => block_slot,
        IndexEvent::KnownInclusion { block_slot, .. } => block_slot,
        IndexEvent::Block { block_slot, .. } => block_slot,
    }
}

/// The number of error reports for `signature` among `events`.
pub open spec fn report_count(events: Seq<IndexEvent>, signature: Seq<char>) -> nat
    decreases events.len(),
{
    if events.len() == 0 {
        0
    } else {
        report_count(events.drop_last(), signature) + if reports(events.last(), signature) {
            1nat
        } else {
            0nat
        }
    }
}

/// The number of reports of `error` at `slot` for `signature` among `events`.
pub open spec fn pair_report_count(
    events: Seq<IndexEvent>,
    signature: Seq<char>,
    error: Seq<char>,
    slot: u64,
) -> nat
    decreases events.len(),
{
    if events.len() == 0 {
        0
    } else {
        pair_report_count(events.drop_last(), signature, error, slot) + if reports_pair(
            events.last(),
            signature,
            error,
            slot,
        ) {
            1nat
        } else {
            0nat
        }
    }
}

/// Merging a block makes and removes no entry, and leaves the errors and the first
/// slot of every entry as they were.
pub proof fn lemma_block_keeps_what_was_observed(
    entries: Map<Seq<char>, TransactionInfoModel>,
    block_slot: u64,
    txs: Seq<BlockTransactionModel>,
    signature: Seq<char>,
)
    ensures
        after_block(entries, block_slot, txs).contains_key(signature) == entries.contains_key(
            signature,
        ),
        entries.contains_key(signature) ==> after_block(entries, block_slot, txs)[signature].errors
            == entries[signature].errors && after_block(
            entries,
            block_slot,
            txs,
        )[signature].first_notification_slot == entries[signature].first_notification_slot,
    decreases txs.len(),
{
    if txs.len() > 0 {
        lemma_block_keeps_what_was_observed(entries, block_slot, txs.drop_last(), signature);
    }
}

/// Merging a block keeps every entry under its own signature and well formed.
pub proof fn lemma_block_keeps_consistent(
    entries: Map<Seq<char>, TransactionInfoModel>,
    block_slot: u64,
    txs: Seq<BlockTransactionModel>,
)
    requires
        consistent(entries),
    ensures
        consistent(after_block(entries, block_slot, txs)),
    decreases txs.len(),
{
    if txs.len() > 0 {
        lemma_block_keeps_consistent(entries, block_slot, txs.drop_last());
        law_account_flags_map_accounts(txs.last().accounts);
    }
}

/// After any sequence of calls every entry is stored under its own signature and
/// holds each pair of cause and slot, and each account, once.
pub proof fn law_index_stays_consistent(events: Seq<IndexEvent>)
    ensures
        consistent(replayed(events)),
    decreases events.len(),
{
    if events.len() > 0 {
        law_index_stays_consistent(events.drop_last());
        let before = replayed(events.drop_last());
        match events.last() {
            IndexEvent::Notification { notification, at } => {
                if notification.error is Some {
                    let cause = notification.error->Some_0;
                    if before.contains_key(notification.signature) {
                        lemma_recorded_distinct(
                            before[notification.signature].errors,
                            cause,
                            notification.slot,
                        );
                    } else {
                        lemma_recorded_distinct(Seq::empty(), cause, notification.slot);
                    }
                }
            },
            IndexEvent::Inclusion { block_slot, tx, at } => {
                law_account_flags_map_accounts(tx.accounts);
            },
            IndexEvent::KnownInclusion { block_slot, tx } => {
                law_account_flags_map_accounts(tx.accounts);
            },
            IndexEvent::Block { block_slot, txs } => {
                lemma_block_keeps_consistent(before, block_slot, txs);
            },
        }
    }
}

/// A signature that no event concerns has no entry.
pub proof fn lemma_unseen_has_no_entry(events: Seq<IndexEvent>, signature: Seq<char>)
    requires
        forall|j: int| 0 <= j < events.len() ==> !concerns(events[j], signature),
    ensures
        !replayed(events).contains_key(signature),
        report_count(events, signature) == 0,
    decreases events.len(),
{
    if events.len() > 0 {
        lemma_unseen_has_no_entry(events.drop_last(), signature);
        assert(!concerns(events.last(), signature));
        match events.last() {
            IndexEvent::Block { block_slot, txs } => {
                lemma_block_keeps_what_was_observed(
                    replayed(events.drop_last()),
                    block_slot,
                    txs,
                    signature,
                );
            },
            _ => {},
        }
    }
}

/// However many events follow, in whatever order notifications and blocks come,
/// the first slot of an entry is the slot of the first event that concerned its
/// signature.
pub proof fn law_first_slot_is_set_once(events: Seq<IndexEvent>, signature: Seq<char>, i: int)
    requires
        0 <= i < events.len(),
        concerns(events[i], signature),
        forall|j: int| 0 <= j < i ==> !concerns(events[j], signature),
    ensures
        replayed(events).contains_key(signature),
        replayed(events)[signature].first_notification_slot == slot_of(events[i]),
    decreases events.len(),
{
    let earlier = events.drop_last();
    if i == events.len() - 1 {
        lemma_unseen_has_no_entry(earlier, signature);
    } else {
        law_first_slot_is_set_once(earlier, signature, i);
        match events.last() {
            IndexEvent::Block { block_slot, txs } => {
                lemma_block_keeps_what_was_observed(replayed(earlier), block_slot, txs, signature);
            },
            _ => {},
        }
    }
}

/// The counts of an entry add up to the number of error reports received for its
/// signature, as long as that number fits in 64 bits.
pub proof fn law_errors_count_reports(events: Seq<IndexEvent>, signature: Seq<char>)
    requires
        events.len() <= u64::MAX,
    ensures
        report_count(events, signature) <= events.len(),
        replayed(events).contains_key(signature) ==> total_count(
            replayed(events)[signature].errors,
        ) == report_count(events, signature),
        !replayed(events).contains_key(signature) ==> report_count(events, signature) == 0,
    decreases events.len(),
{
    if events.len() > 0 {
        let earlier = events.drop_last();
        law_errors_count_reports(earlier, signature);
        let before = replayed(earlier);
        match events.last() {
            IndexEvent::Notification { notification, at } => {
                if reports(events.last(), signature) {
                    let error = notification.error->Some_0;
                    if before.contains_key(signature) {
                        lemma_recorded_counts_one_more(
                            before[signature].errors,
                            error,
                            notification.slot,
                        );
                    } else {
                        lemma_recorded_counts_one_more(Seq::empty(), error, notification.slot);
                    }
                }
            },
            IndexEvent::Inclusion { block_slot, tx, at } => {},
            IndexEvent::KnownInclusion { block_slot, tx } => {},
            IndexEvent::Block { block_slot, txs } => {
                lemma_block_keeps_what_was_observed(before, block_slot, txs, signature);
            },
        }
    }
}

/// An entry counts, for each pair of cause and slot, the error reports with that
/// cause and slot received for its signature; a count that does not fit in 64 bits
/// is held at the largest value.
pub proof fn law_errors_count_reports_by_pair(
    events: Seq<IndexEvent>,
    signature: Seq<char>,
    error: Seq<char>,
    slot: u64,
)
    ensures
        replayed(events).contains_key(signature) ==> pair_count(
            replayed(events)[signature].errors,
            error,
            slot,
        ) == held(pair_report_count(events, signature, error, slot)),
        !replayed(events).contains_key(signature) ==> pair_report_count(
            events,
            signature,
            error,
            slot,
        ) == 0,
    decreases events.len(),
{
    if events.len() > 0 {
        let earlier = events.drop_last();
        law_errors_count_reports_by_pair(earlier, signature, error, slot);
        law_index_stays_consistent(earlier);
        let before = replayed(earlier);
        match events.last() {
            IndexEvent::Notification { notification, at } => {
                if reports(events.last(), signature) {
                    let cause = notification.error->Some_0;
                    if before.contains_key(signature) {
                        lemma_recorded_counts_its_pair(
                            before[signature].errors,
                            cause,
                            notification.slot,
                            error,
                            slot,
                        );
                        lemma_recorded_counts_its_pair(
                            before[signature].errors,
                            error,
                            slot,
                            error,
                            slot,
                        );
                    } else {
                        lemma_recorded_counts_its_pair(
                            Seq::empty(),
                            cause,
                            notification.slot,
                            error,
                            slot,
                        );
                    }
                }
            },
            IndexEvent::Inclusion { block_slot, tx, at } => {},
            IndexEvent::KnownInclusion { block_slot, tx } => {},
            IndexEvent::Block { block_slot, txs } => {
                lemma_block_keeps_what_was_observed(before, block_slot, txs, signature);
            },
        }
    }
}

} // verus!
