//! The index of in-flight transactions, keyed by signature.

use crate::clock::Timestamp;
use crate::events::{
    law_account_flags_map_accounts, BlockTransaction, BlockTransactionModel, NotificationModel,
    TransactionNotification,
};
use crate::dash::{
    index_contains, index_entries, index_first_slots, index_get, index_insert, index_new,
    index_remove,
};
use crate::transaction_info::{
    infos_view, lemma_recorded_distinct, TransactionInfo, TransactionInfoModel,
};
use dashmap::DashMap;
use vstd::prelude::*;

verus! {

/// Every entry is stored under its own signature and holds each pair of cause and
/// slot once.
pub open spec fn consistent(entries: Map<Seq<char>, TransactionInfoModel>) -> bool {
    forall|k: Seq<char>| #[trigger]
        entries.contains_key(k) ==> entries[k].signature == k && entries[k].well_formed()
}

/// The index after a notification. One without a cause is ignored; the first one for
/// a signature creates its entry, stamped `at`; a later one is merged into it.
pub open spec fn after_notification(
    entries: Map<Seq<char>, TransactionInfoModel>,
    notification: NotificationModel,
    at: Timestamp,
) -> Map<Seq<char>, TransactionInfoModel> {
    if notification.error is None {
        entries
    } else if entries.contains_key(notification.signature) {
        entries.insert(
            notification.signature,
            entries[notification.signature].after_notification(notification),
        )
    } else {
        entries.insert(
            notification.signature,
            TransactionInfoModel::from_notification(notification, at),
        )
    }
}

/// The index after a transaction's inclusion in the block of `block_slot`: merged
/// into the entry of its signature, or a new entry stamped `at`.
pub open spec fn after_inclusion(
    entries: Map<Seq<char>, TransactionInfoModel>,
    block_slot: u64,
    tx: BlockTransactionModel,
    at: Timestamp,
) -> Map<Seq<char>, TransactionInfoModel> {
    if entries.contains_key(tx.signature) {
        entries.insert(tx.signature, entries[tx.signature].after_inclusion(block_slot, tx))
    } else {
        entries.insert(tx.signature, TransactionInfoModel::from_inclusion(block_slot, tx, at))
    }
}

/// Concurrent-map backed index from signature to what was observed for it.
pub struct TransactionIndex {
    entries: DashMap<String, TransactionInfo>,
}

impl View for TransactionIndex {
    type V = Map<Seq<char>, TransactionInfoModel>;

    closed spec fn view(&self) -> Map<Seq<char>, TransactionInfoModel> {
        index_entries(self.entries)
    }
}

impl TransactionIndex {
    pub fn new() -> (r: Self)
        ensures
            r@ == Map::<Seq<char>, TransactionInfoModel>::empty(),
            consistent(r@),
    {
        TransactionIndex { entries: index_new() }
    }

    /// Whether an entry exists for `signature`.
    pub fn contains(&self, signature: &String) -> (r: bool)
        ensures
            r == self@.contains_key(signature@),
    {
        index_contains(&self.entries, signature)
    }

    /// A copy of the entry for `signature`.
    pub fn get(&self, signature: &String) -> (r: Option<TransactionInfo>)
        ensures
            match r {
                Some(info) => self@.contains_key(signature@) && info@ == self@[signature@],
                None => !self@.contains_key(signature@),
            },
    {
        index_get(&self.entries, signature)
    }

    /// Merges a notification seen at `at` into the index.
    pub fn upsert_notification(&mut self, notification: &TransactionNotification, at: Timestamp)
        requires
            consistent(old(self)@),
        ensures
            final(self)@ == after_notification(old(self)@, notification@, at),
            consistent(final(self)@),
    {
        match &notification.error {
            None => {},
            Some(error) => {
                let info = match index_remove(&mut self.entries, &notification.signature) {
                    Some(mut info) => {
                        proof {
                            lemma_recorded_distinct(info@.errors, error@, notification.slot);
                        }
                        info.add_notification(notification);
                        info
                    },
                    None => {
                        proof {
                            lemma_recorded_distinct(Seq::empty(), error@, notification.slot);
                        }
                        TransactionInfo::new(notification, at)
                    },
                };
                index_insert(&mut self.entries, notification.signature.clone(), info);
            },
        }
    }

    /// Merges a transaction's inclusion in the block of `block_slot`, seen at `at`,
    /// into the index; a signature without an entry gets a minimal one.
    pub fn upsert_inclusion(
        &mut self,
        block_slot: u64,
        transaction: &BlockTransaction,
        at: Timestamp,
    )
        requires
            consistent(old(self)@),
        ensures
            final(self)@ == after_inclusion(old(self)@, block_slot, transaction@, at),
            consistent(final(self)@),
    {
        proof {
            law_account_flags_map_accounts(transaction@.accounts);
        }
        let info = match index_remove(&mut self.entries, &transaction.signature) {
            Some(mut info) => {
                info.add_transaction(transaction, block_slot);
                info
            },
            None => TransactionInfo::included(transaction, block_slot, at),
        };
        index_insert(&mut self.entries, transaction.signature.clone(), info);
    }
}

/// Whether an entry first seen at `first_slot` lies more than `lag_window` slots
/// behind `watermark`.
pub open spec fn is_aged(first_slot: u64, watermark: u64, lag_window: u64) -> bool {
    watermark - first_slot > lag_window
}

pub fn aged(first_slot: u64, watermark: u64, lag_window: u64) -> (r: bool)
    ensures
        r == is_aged(first_slot, watermark, lag_window),
{
    watermark > first_slot && watermark - first_slot > lag_window
}

/// The entries that an eviction pass leaves in the index.
pub open spec fn retained(
    entries: Map<Seq<char>, TransactionInfoModel>,
    watermark: u64,
    lag_window: u64,
) -> Map<Seq<char>, TransactionInfoModel> {
    Map::new(
        |k: Seq<char>|
            entries.contains_key(k) && !is_aged(
                entries[k].first_notification_slot,
                watermark,
                lag_window,
            ),
        |k: Seq<char>| entries[k],
    )
}

/// Whether `evicted` holds exactly the aged entries of `entries`, each once and as it
/// stood in the index, in any order.
pub open spec fn is_eviction_of(
    evicted: Seq<TransactionInfoModel>,
    entries: Map<Seq<char>, TransactionInfoModel>,
    watermark: u64,
    lag_window: u64,
) -> bool {
    &&& forall|t: int|
        0 <= t < evicted.len() ==> entries.contains_key(#[trigger] evicted[t].signature)
            && entries[evicted[t].signature] == evicted[t] && is_aged(
            evicted[t].first_notification_slot,
            watermark,
            lag_window,
        )
    &&& forall|s: int, t: int|
        0 <= s < t < evicted.len() ==> evicted[s].signature != evicted[t].signature
    &&& forall|k: Seq<char>| #[trigger]
        entries.contains_key(k) && is_aged(entries[k].first_notification_slot, watermark, lag_window)
            ==> exists|t: int| 0 <= t < evicted.len() && #[trigger] evicted[t].signature == k
}

impl TransactionIndex {
    /// Removes every entry whose first slot lies more than `lag_window` behind
    /// `watermark` and hands those entries out.
    pub fn evict(&mut self, watermark: u64, lag_window: u64) -> (evicted: Vec<TransactionInfo>)
        requires
            consistent(old(self)@),
        ensures
            final(self)@ == retained(old(self)@, watermark, lag_window),
            is_eviction_of(infos_view(evicted@), old(self)@, watermark, lag_window),
            consistent(final(self)@),
    {
        let keys = index_first_slots(&self.entries);
        let ghost before = self@;
        let mut evicted: Vec<TransactionInfo> = Vec::new();
        let ghost mut picked: Seq<int> = Seq::empty();
        let mut i: usize = 0;
        while i < keys.len()
            invariant
                i <= keys.len(),
                before == old(self)@,
                consistent(before),
                forall|j: int|
                    0 <= j < keys.len() ==> before.contains_key(#[trigger] keys[j].0@)
                        && before[keys[j].0@].first_notification_slot == keys[j].1,
                forall|a: int, b: int| 0 <= a < b < keys.len() ==> keys[a].0@ != keys[b].0@,
                forall|k: Seq<char>| #[trigger]
                    before.contains_key(k) ==> exists|j: int|
                        0 <= j < keys.len() && #[trigger] keys[j].0@ == k,
                forall|k: Seq<char>|
                    self@.contains_key(k) <==> before.contains_key(k) && !(exists|j: int|
                        0 <= j < i && #[trigger] keys[j].0@ == k && is_aged(
                            keys[j].1,
                            watermark,
                            lag_window,
                        )),
                forall|k: Seq<char>| self@.contains_key(k) ==> self@[k] == before[k],
                picked.len() == evicted.len(),
                forall|t: int|
                    0 <= t < picked.len() ==> 0 <= #[trigger] picked[t] < i && is_aged(
                        keys[picked[t]].1,
                        watermark,
                        lag_window,
                    ) && evicted[t]@ == before[keys[picked[t]].0@],
                forall|s: int, t: int| 0 <= s < t < picked.len() ==> picked[s] < picked[t],
                forall|j: int|
                    0 <= j < i && is_aged(keys[j].1, watermark, lag_window) ==> exists|t: int|
                        0 <= t < picked.len() && #[trigger] picked[t] == j,
            decreases keys.len() - i,
        {
            if aged(keys[i].1, watermark, lag_window) {
                let ghost key = keys[i as int].0@;
                assert(self@.contains_key(key));
                let ghost mid = self@;
                match index_remove(&mut self.entries, &keys[i].0) {
                    Some(info) => {
                        evicted.push(info);
                        proof {
                            let prev = picked;
                            picked = prev.push(i as int);
                            assert forall|j: int|
                                0 <= j < i + 1 && is_aged(
                                    keys[j].1,
                                    watermark,
                                    lag_window,
                                ) implies exists|t: int|
                                0 <= t < picked.len() && #[trigger] picked[t] == j by {
                                if j == i {
                                    assert(picked[prev.len() as int] == j);
                                } else {
                                    let t0 = choose|t: int|
                                        0 <= t < prev.len() && #[trigger] prev[t] == j;
                                    assert(picked[t0] == j);
                                }
                            }
                        }
                    },
                    None => {},
                }
                assert(self@ == mid.remove(key));
            }
            i += 1;
        }
        proof {
            assert(self@ =~= retained(before, watermark, lag_window));
            let out = infos_view(evicted@);
            assert forall|t: int| 0 <= t < out.len() implies before.contains_key(
                #[trigger] out[t].signature,
            ) && before[out[t].signature] == out[t] && is_aged(
                out[t].first_notification_slot,
                watermark,
                lag_window,
            ) by {
                let j = picked[t];
                assert(before.contains_key(keys[j].0@));
            }
            assert forall|s: int, t: int| 0 <= s < t < out.len() implies out[s].signature
                != out[t].signature by {
                let a = picked[s];
                let b = picked[t];
                assert(before.contains_key(keys[a].0@));
                assert(before.contains_key(keys[b].0@));
            }
            assert forall|k: Seq<char>| #[trigger]
                before.contains_key(k) && is_aged(
                    before[k].first_notification_slot,
                    watermark,
                    lag_window,
                ) implies exists|t: int| 0 <= t < out.len() && #[trigger] out[t].signature == k by {
                let j = choose|j: int| 0 <= j < keys.len() && #[trigger] keys[j].0@ == k;
                let t = choose|t: int| 0 <= t < picked.len() && #[trigger] picked[t] == j;
                assert(out[t].signature == k);
            }
        }
        evicted
    }
}

/// The index after an inclusion that only entries already present take note of.
pub open spec fn after_known_inclusion(
    entries: Map<Seq<char>, TransactionInfoModel>,
    block_slot: u64,
    tx: BlockTransactionModel,
) -> Map<Seq<char>, TransactionInfoModel> {
    if entries.contains_key(tx.signature) {
        entries.insert(tx.signature, entries[tx.signature].after_inclusion(block_slot, tx))
    } else {
        entries
    }
}

/// The index after the transactions of the block of `block_slot` are merged in, in
/// block order. A transaction without an entry leaves the index as it is.
pub open spec fn after_block(
    entries: Map<Seq<char>, TransactionInfoModel>,
    block_slot: u64,
    txs: Seq<BlockTransactionModel>,
) -> Map<Seq<char>, TransactionInfoModel>
    decreases txs.len(),
{
    if txs.len() == 0 {
        entries
    } else {
        after_known_inclusion(
            after_block(entries, block_slot, txs.drop_last()),
            block_slot,
            txs.last(),
        )
    }
}

impl TransactionIndex {
    /// Merges a transaction's inclusion into the entry of its signature, if there is
    /// one, and says whether there was.
    pub fn merge_inclusion(&mut self, block_slot: u64, transaction: &BlockTransaction) -> (known:
        bool)
        requires
            consistent(old(self)@),
        ensures
            known == old(self)@.contains_key(transaction@.signature),
            final(self)@ == after_known_inclusion(old(self)@, block_slot, transaction@),
            consistent(final(self)@),
    {
        proof {
            law_account_flags_map_accounts(transaction@.accounts);
        }
        match index_remove(&mut self.entries, &transaction.signature) {
            Some(mut info) => {
                info.add_transaction(transaction, block_slot);
                index_insert(&mut self.entries, transaction.signature.clone(), info);
                true
            },
            None => false,
        }
    }

    /// Merges every transaction of a block into the entries that exist for them.
    pub fn merge_block(&mut self, block_slot: u64, transactions: &Vec<BlockTransaction>)
        requires
            consistent(old(self)@),
        ensures
            final(self)@ == after_block(
                old(self)@,
                block_slot,
                crate::events::transactions_view(transactions@),
            ),
            consistent(final(self)@),
    {
        let ghost txs = crate::events::transactions_view(transactions@);
        let mut i: usize = 0;
        while i < transactions.len()
            invariant
                i <= transactions.len(),
                txs == crate::events::transactions_view(transactions@),
                consistent(self@),
                self@ == after_block(old(self)@, block_slot, txs.take(i as int)),
            decreases transactions.len() - i,
        {
            assert(txs.take(i as int + 1).drop_last() =~= txs.take(i as int));
            self.merge_inclusion(block_slot, &transactions[i]);
            i += 1;
        }
        assert(txs.take(i as int) =~= txs);
    }
}

} // verus!
