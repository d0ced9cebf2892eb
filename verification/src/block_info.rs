//! The per-slot record derived from a finalized block.

use crate::events::{
    AccountAccessModel, BlockEvent, BlockEventModel, BlockTransaction, BlockTransactionModel,
};
use crate::limits::{bump, bumped, clamp, clamp_len, clamp_wide, clamped, held};
use vstd::prelude::*;

verus! {

/// How many of a block's transactions lock one account in one way.
pub struct AccountUsage {
    pub key: String,
    pub count: u64,
}

#[verifier::ext_equal]
pub struct AccountUsageModel {
    pub key: Seq<char>,
    pub count: u64,
}

impl View for AccountUsage {
    type V = AccountUsageModel;

    open spec fn view(&self) -> AccountUsageModel {
        AccountUsageModel { key: self.key@, count: self.count }
    }
}

pub open spec fn usage_view(usage: Seq<AccountUsage>) -> Seq<AccountUsageModel> {
    Seq::new(usage.len(), |i: int| usage[i]@)
}

/// The number of successful transactions among `txs`.
pub open spec fn successes(txs: Seq<BlockTransactionModel>) -> nat
    decreases txs.len(),
{
    if txs.len() == 0 {
        0
    } else {
        successes(txs.drop_last()) + if txs.last().is_successful {
            1nat
        } else {
            0nat
        }
    }
}

/// The compute units that `txs` consumed, added up.
pub open spec fn cu_used(txs: Seq<BlockTransactionModel>) -> nat
    decreases txs.len(),
{
    if txs.len() == 0 {
        0
    } else {
        cu_used(txs.drop_last()) + txs.last().cu_consumed as nat
    }
}

/// The compute units that `txs` requested, added up.
pub open spec fn cu_requested(txs: Seq<BlockTransactionModel>) -> nat
    decreases txs.len(),
{
    if txs.len() == 0 {
        0
    } else {
        cu_requested(txs.drop_last()) + txs.last().cu_requested as nat
    }
}

pub open spec fn names_key(usage: Seq<AccountUsageModel>, i: int, key: Seq<char>) -> bool {
    0 <= i < usage.len() && usage[i].key == key
}

pub open spec fn first_naming(usage: Seq<AccountUsageModel>, i: int, key: Seq<char>) -> bool {
    names_key(usage, i, key) && forall|j: int| 0 <= j < i ==> !names_key(usage, j, key)
}

/// `usage` after one more lock of `key`: its entry is bumped, or appended with count one.
pub open spec fn counted(usage: Seq<AccountUsageModel>, key: Seq<char>) -> Seq<AccountUsageModel> {
    if exists|i: int| names_key(usage, i, key) {
        let i = choose|i: int| first_naming(usage, i, key);
        usage.update(i, AccountUsageModel { key, count: bumped(usage[i].count) })
    } else {
        usage.push(AccountUsageModel { key, count: 1 })
    }
}

/// `usage` after the locks of kind `writable` among `accounts` are counted in.
pub open spec fn counted_accounts(
    usage: Seq<AccountUsageModel>,
    accounts: Seq<AccountAccessModel>,
    writable: bool,
) -> Seq<AccountUsageModel>
    decreases accounts.len(),
{
    if accounts.len() == 0 {
        usage
    } else {
        let before = counted_accounts(usage, accounts.drop_last(), writable);
        if accounts.last().writable == writable {
            counted(before, accounts.last().key)
        } else {
            before
        }
    }
}

/// The accounts that `txs` lock in the way `writable` says, each with the number of
/// such locks, in order of first appearance.
pub open spec fn lock_counts(txs: Seq<BlockTransactionModel>, writable: bool) -> Seq<
    AccountUsageModel,
>
    decreases txs.len(),
{
    if txs.len() == 0 {
        Seq::empty()
    } else {
        counted_accounts(lock_counts(txs.drop_last(), writable), txs.last().accounts, writable)
    }
}

/// `ranking` with `item` put behind every entry that counts at least as much.
pub open spec fn placed(ranking: Seq<AccountUsageModel>, item: AccountUsageModel) -> Seq<
    AccountUsageModel,
>
    decreases ranking.len(),
{
    if ranking.len() == 0 {
        seq![item]
    } else if ranking.last().count >= item.count {
        ranking.push(item)
    } else {
        placed(ranking.drop_last(), item).push(ranking.last())
    }
}

/// `usage` ordered by falling count; entries of equal count keep their order.
pub open spec fn ranked(usage: Seq<AccountUsageModel>) -> Seq<AccountUsageModel>
    decreases usage.len(),
{
    if usage.len() == 0 {
        Seq::empty()
    } else {
        placed(ranked(usage.drop_last()), usage.last())
    }
}

/// Counts one more lock of `key`.
fn count_key(usage: &mut Vec<AccountUsage>, key: &String)
    ensures
        usage_view(final(usage)@) == counted(usage_view(old(usage)@), key@),
{
    let ghost before = usage_view(usage@);
    let mut i: usize = 0;
    while i < usage.len()
        invariant
            i <= usage.len(),
            usage_view(usage@) == before,
            before == usage_view(old(usage)@),
            forall|j: int| 0 <= j < i ==> !names_key(before, j, key@),
        decreases usage.len() - i,
    {
        if usage[i].key == *key {
            let next: u64 = bump(usage[i].count);
            usage.set(i, AccountUsage { key: key.clone(), count: next });
            proof {
                assert(first_naming(before, i as int, key@));
            }
            return ;
        }
        i += 1;
    }
    usage.push(AccountUsage { key: key.clone(), count: 1 });
}

/// The accounts that the block's transactions lock in the way `writable` says, with
/// their lock counts, in order of first appearance.
fn count_locks(transactions: &Vec<BlockTransaction>, writable: bool) -> (usage: Vec<AccountUsage>)
    ensures
        usage_view(usage@) == lock_counts(crate::events::transactions_view(transactions@), writable),
{
    let ghost txs = crate::events::transactions_view(transactions@);
    let mut usage: Vec<AccountUsage> = Vec::new();
    let mut t: usize = 0;
    while t < transactions.len()
        invariant
            t <= transactions.len(),
            txs == crate::events::transactions_view(transactions@),
            usage_view(usage@) == lock_counts(txs.take(t as int), writable),
        decreases transactions.len() - t,
    {
        let accounts = &transactions[t].accounts;
        let ghost accs = crate::events::accesses_view(accounts@);
        let ghost start = usage_view(usage@);
        let mut a: usize = 0;
        while a < accounts.len()
            invariant
                a <= accounts.len(),
                accs == crate::events::accesses_view(accounts@),
                usage_view(usage@) == counted_accounts(start, accs.take(a as int), writable),
            decreases accounts.len() - a,
        {
            assert(accs.take(a as int + 1).drop_last() =~= accs.take(a as int));
            if accounts[a].writable == writable {
                count_key(&mut usage, &accounts[a].key);
            }
            a += 1;
        }
        proof {
            assert(accs.take(a as int) =~= accs);
            assert(txs.take(t as int + 1).drop_last() =~= txs.take(t as int));
        }
        t += 1;
    }
    assert(txs.take(t as int) =~= txs);
    usage
}

/// Where everything from `p` on counts less than `item` and everything before counts at
/// least as much, `item` is placed at `p`.
proof fn lemma_placed_at(ranking: Seq<AccountUsageModel>, item: AccountUsageModel, p: int)
    requires
        0 <= p <= ranking.len(),
        forall|j: int| p <= j < ranking.len() ==> ranking[j].count < item.count,
        p > 0 ==> ranking[p - 1].count >= item.count,
    ensures
        placed(ranking, item) == ranking.insert(p, item),
    decreases ranking.len(),
{
    if ranking.len() == 0 {
        assert(placed(ranking, item) =~= ranking.insert(p, item));
    } else if p == ranking.len() {
        assert(placed(ranking, item) =~= ranking.insert(p, item));
    } else {
        lemma_placed_at(ranking.drop_last(), item, p);
        assert(placed(ranking, item) =~= ranking.insert(p, item));
    }
}

/// Orders `usage` by falling count; entries of equal count keep their order.
fn rank(usage: &Vec<AccountUsage>) -> (ranking: Vec<AccountUsage>)
    ensures
        usage_view(ranking@) == ranked(usage_view(usage@)),
{
    let ghost model = usage_view(usage@);
    let mut ranking: Vec<AccountUsage> = Vec::new();
    let mut i: usize = 0;
    assert(usage_view(ranking@) =~= ranked(model.take(0)));
    while i < usage.len()
        invariant
            i <= usage.len(),
            model == usage_view(usage@),
            usage_view(ranking@) == ranked(model.take(i as int)),
        decreases usage.len() - i,
    {
        let count: u64 = usage[i].count;
        let ghost before = usage_view(ranking@);
        let mut p: usize = ranking.len();
        while p > 0 && ranking[p - 1].count < count
            invariant
                p <= ranking.len(),
                before == usage_view(ranking@),
                forall|j: int| p <= j < before.len() ==> before[j].count < count,
            decreases p,
        {
            assert(before[p - 1] == ranking[p - 1]@);
            p -= 1;
        }
        let item = AccountUsage { key: usage[i].key.clone(), count };
        proof {
            if p > 0 {
                assert(before[p - 1] == ranking[p - 1]@);
            }
            lemma_placed_at(before, item@, p as int);
            assert(model.take(i as int + 1).drop_last() =~= model.take(i as int));
            assert(model.take(i as int + 1).last() == item@);
        }
        ranking.insert(p, item);
        assert(usage_view(ranking@) =~= before.insert(p as int, item@));
        i += 1;
    }
    assert(model.take(i as int) =~= model);
    ranking
}

/// What is recorded of one processed block. The numbers are 64-bit signed, as the
/// storage schema has them.
pub struct BlockInfo {
    pub block_hash: String,
    pub slot: i64,
    pub leader_identity: String,
    pub successful_transactions: i64,
    /// The error notifications counted for the slot when the block was processed;
    /// `None` where there were none.
    pub banking_stage_errors: Option<i64>,
    pub processed_transactions: i64,
    pub total_cu_used: i64,
    pub total_cu_requested: i64,
    /// Write-locked accounts, most often locked first.
    pub heavily_writelocked_accounts: Vec<AccountUsage>,
    /// Read-locked accounts, most often locked first.
    pub heavily_readlocked_accounts: Vec<AccountUsage>,
}

#[verifier::ext_equal]
pub struct BlockInfoModel {
    pub block_hash: Seq<char>,
    pub slot: i64,
    pub leader_identity: Seq<char>,
    pub successful_transactions: i64,
    pub banking_stage_errors: Option<i64>,
    pub processed_transactions: i64,
    pub total_cu_used: i64,
    pub total_cu_requested: i64,
    pub heavily_writelocked_accounts: Seq<AccountUsageModel>,
    pub heavily_readlocked_accounts: Seq<AccountUsageModel>,
}

impl View for BlockInfo {
    type V = BlockInfoModel;

    open spec fn view(&self) -> BlockInfoModel {
        BlockInfoModel {
            block_hash: self.block_hash@,
            slot: self.slot,
            leader_identity: self.leader_identity@,
            successful_transactions: self.successful_transactions,
            banking_stage_errors: self.banking_stage_errors,
            processed_transactions: self.processed_transactions,
            total_cu_used: self.total_cu_used,
            total_cu_requested: self.total_cu_requested,
            heavily_writelocked_accounts: usage_view(self.heavily_writelocked_accounts@),
            heavily_readlocked_accounts: usage_view(self.heavily_readlocked_accounts@),
        }
    }
}

impl BlockInfoModel {
    /// The record of `block`, given the error count taken for its slot.
    pub open spec fn of(block: BlockEventModel, banking_stage_errors: Option<i64>) -> Self {
        BlockInfoModel {
            block_hash: block.block_hash,
            slot: clamped(block.slot as int),
            leader_identity: block.leader_identity,
            successful_transactions: clamped(successes(block.transactions) as int),
            banking_stage_errors,
            processed_transactions: clamped(block.transactions.len() as int),
            total_cu_used: clamped(cu_used(block.transactions) as int),
            total_cu_requested: clamped(cu_requested(block.transactions) as int),
            heavily_writelocked_accounts: ranked(lock_counts(block.transactions, true)),
            heavily_readlocked_accounts: ranked(lock_counts(block.transactions, false)),
        }
    }

    /// Transactions in the block that did not succeed.
    pub open spec fn failed_transactions(self) -> int {
        self.processed_transactions - self.successful_transactions
    }
}

/// `sum + n`, held at the largest 64-bit signed value.
fn add_clamped(sum: i64, n: u64) -> (r: i64)
    requires
        sum >= 0,
    ensures
        r == clamped(sum + n),
        r >= 0,
{
    let room: u64 = (0x7fff_ffff_ffff_ffff - sum) as u64;
    if n > room {
        0x7fff_ffff_ffff_ffff
    } else {
        sum + n as i64
    }
}

impl BlockInfo {
    /// Derives the record of `block`; `banking_stage_errors` is the count taken from
    /// the error tally for the block's slot.
    pub fn new(block: &BlockEvent, banking_stage_errors: Option<i64>) -> (r: BlockInfo)
        ensures
            r@ == BlockInfoModel::of(block@, banking_stage_errors),
    {
        let ghost txs = block@.transactions;
        let mut successful: i64 = 0;
        let mut used: i64 = 0;
        let mut requested: i64 = 0;
        let mut i: usize = 0;
        while i < block.transactions.len()
            invariant
                i <= block.transactions.len(),
                txs == crate::events::transactions_view(block.transactions@),
                successful == clamped(successes(txs.take(i as int)) as int),
                used == clamped(cu_used(txs.take(i as int)) as int),
                requested == clamped(cu_requested(txs.take(i as int)) as int),
            decreases block.transactions.len() - i,
        {
            assert(txs.take(i as int + 1).drop_last() =~= txs.take(i as int));
            let tx = &block.transactions[i];
            if tx.is_successful {
                successful = add_clamped(successful, 1);
            }
            used = add_clamped(used, tx.cu_consumed);
            requested = add_clamped(requested, tx.cu_requested);
            i += 1;
        }
        assert(txs.take(i as int) =~= txs);
        let write_counts = count_locks(&block.transactions, true);
        let read_counts = count_locks(&block.transactions, false);
        BlockInfo {
            block_hash: block.block_hash.clone(),
            slot: clamp(block.slot),
            leader_identity: block.leader_identity.clone(),
            successful_transactions: successful,
            banking_stage_errors,
            processed_transactions: clamp_len(block.transactions.len()),
            total_cu_used: used,
            total_cu_requested: requested,
            heavily_writelocked_accounts: rank(&write_counts),
            heavily_readlocked_accounts: rank(&read_counts),
        }
    }

    /// The number of the block's transactions that did not succeed.
    pub fn failed_transactions(&self) -> (r: i64)
        ensures
            r == clamped(self@.failed_transactions()),
    {
        clamp_wide(self.processed_transactions as i128 - self.successful_transactions as i128)
    }
}

/// Counts never rise from one entry to the next.
pub open spec fn falling(ranking: Seq<AccountUsageModel>) -> bool {
    forall|i: int, j: int| 0 <= i < j < ranking.len() ==> ranking[i].count >= ranking[j].count
}

/// No account has two entries.
pub open spec fn distinct_keys(usage: Seq<AccountUsageModel>) -> bool {
    forall|i: int, j: int| 0 <= i < j < usage.len() ==> usage[i].key != usage[j].key
}

/// The number of locks of kind `writable` that `accounts` hold on `key`.
pub open spec fn locks_among(accounts: Seq<AccountAccessModel>, writable: bool, key: Seq<char>)
    -> nat
    decreases accounts.len(),
{
    if accounts.len() == 0 {
        0
    } else {
        locks_among(accounts.drop_last(), writable, key) + if accounts.last().writable
            == writable && accounts.last().key == key {
            1nat
        } else {
            0nat
        }
    }
}

/// The number of locks of kind `writable` that the transactions hold on `key`.
pub open spec fn locks_on(txs: Seq<BlockTransactionModel>, writable: bool, key: Seq<char>) -> nat
    decreases txs.len(),
{
    if txs.len() == 0 {
        0
    } else {
        locks_on(txs.drop_last(), writable, key) + locks_among(txs.last().accounts, writable, key)
    }
}

/// The place that `placed` puts `item` at.
proof fn lemma_placed_position(ranking: Seq<AccountUsageModel>, item: AccountUsageModel) -> (p:
    int)
    ensures
        0 <= p <= ranking.len(),
        placed(ranking, item) == ranking.insert(p, item),
        forall|j: int| p <= j < ranking.len() ==> ranking[j].count < item.count,
        p > 0 ==> ranking[p - 1].count >= item.count,
    decreases ranking.len(),
{
    if ranking.len() == 0 {
        assert(placed(ranking, item) =~= ranking.insert(0, item));
        0
    } else if ranking.last().count >= item.count {
        let p = ranking.len() as int;
        assert(placed(ranking, item) =~= ranking.insert(p, item));
        p
    } else {
        let rest = ranking.drop_last();
        let p = lemma_placed_position(rest, item);
        assert(placed(ranking, item) =~= ranking.insert(p, item));
        assert forall|j: int| p <= j < ranking.len() implies ranking[j].count < item.count by {
            if j < rest.len() {
                assert(ranking[j] == rest[j]);
            }
        }
        if p > 0 {
            assert(ranking[p - 1] == rest[p - 1]);
        }
        p
    }
}

/// A ranking lists the same entries as the usage it ranks, the most locked first.
pub proof fn law_ranking_orders_the_same_entries(usage: Seq<AccountUsageModel>)
    ensures
        falling(ranked(usage)),
        ranked(usage).to_multiset() == usage.to_multiset(),
        ranked(usage).len() == usage.len(),
    decreases usage.len(),
{
    broadcast use vstd::seq_lib::group_to_multiset_ensures;

    if usage.len() > 0 {
        let rest = usage.drop_last();
        law_ranking_orders_the_same_entries(rest);
        let before = ranked(rest);
        let p = lemma_placed_position(before, usage.last());
        vstd::seq_lib::to_multiset_insert(before, p, usage.last());
        assert(rest.push(usage.last()) =~= usage);
    }
}

/// Whether `usage` has one entry for each account that `locks` is positive on, with
/// that number as its count.
pub open spec fn counts_locks(usage: Seq<AccountUsageModel>, locks: spec_fn(Seq<char>) -> nat)
    -> bool {
    &&& distinct_keys(usage)
    &&& forall|i: int|
        0 <= i < usage.len() ==> (#[trigger] usage[i]).count == held(locks(usage[i].key)) && locks(
            usage[i].key,
        ) > 0
    &&& forall|key: Seq<char>| #[trigger] locks(key) > 0 ==> exists|i: int| names_key(usage, i, key)
}

proof fn lemma_counted_counts_one_more(
    usage: Seq<AccountUsageModel>,
    key: Seq<char>,
    locks: spec_fn(Seq<char>) -> nat,
    more: spec_fn(Seq<char>) -> nat,
)
    requires
        counts_locks(usage, locks),
        forall|k: Seq<char>| #[trigger]
            more(k) == locks(k) + if k == key {
                1nat
            } else {
                0nat
            },
    ensures
        counts_locks(counted(usage, key), more),
{
    let after = counted(usage, key);
    if exists|i: int| names_key(usage, i, key) {
        let w = choose|i: int| names_key(usage, i, key);
        assert(first_naming(usage, w, key)) by {
            assert forall|j: int| 0 <= j < w implies !names_key(usage, j, key) by {
                if names_key(usage, j, key) {
                    assert(usage[j].key != usage[w].key);
                }
            }
        }
        let c = choose|i: int| first_naming(usage, i, key);
        assert(after == usage.update(c, AccountUsageModel { key, count: bumped(usage[c].count) }));
        assert forall|i: int| 0 <= i < after.len() implies (#[trigger] after[i]).count == held(
            more(after[i].key),
        ) && more(after[i].key) > 0 by {
            if i != c {
                assert(after[i] == usage[i]);
                if i < c {
                    assert(usage[i].key != usage[c].key);
                } else {
                    assert(usage[c].key != usage[i].key);
                }
            } else {
                assert(usage[c].count == held(locks(key)));
            }
        }
        assert forall|i: int, j: int| 0 <= i < j < after.len() implies after[i].key
            != after[j].key by {
            assert(usage[i].key != usage[j].key);
        }
        assert forall|k: Seq<char>| #[trigger] more(k) > 0 implies exists|i: int|
            names_key(after, i, k) by {
            if k == key {
                assert(names_key(after, c, k));
            } else {
                assert(locks(k) > 0);
                let i = choose|i: int| names_key(usage, i, k);
                assert(names_key(after, i, k));
            }
        }
    } else {
        assert(locks(key) == 0) by {
            if locks(key) > 0 {
                let i = choose|i: int| names_key(usage, i, key);
            }
        }
        assert forall|i: int| 0 <= i < after.len() implies (#[trigger] after[i]).count == held(
            more(after[i].key),
        ) && more(after[i].key) > 0 by {
            if i < usage.len() {
                assert(after[i] == usage[i]);
                assert(!names_key(usage, i, key));
            }
        }
        assert forall|i: int, j: int| 0 <= i < j < after.len() implies after[i].key
            != after[j].key by {
            if j < usage.len() {
                assert(usage[i].key != usage[j].key);
            } else {
                assert(!names_key(usage, i, key));
            }
        }
        assert forall|k: Seq<char>| #[trigger] more(k) > 0 implies exists|i: int|
            names_key(after, i, k) by {
            if k == key {
                assert(names_key(after, usage.len() as int, k));
            } else {
                assert(locks(k) > 0);
                let i = choose|i: int| names_key(usage, i, k);
                assert(names_key(after, i, k));
            }
        }
    }
}

proof fn lemma_counted_accounts_count_locks(
    usage: Seq<AccountUsageModel>,
    accounts: Seq<AccountAccessModel>,
    writable: bool,
    locks: spec_fn(Seq<char>) -> nat,
    more: spec_fn(Seq<char>) -> nat,
)
    requires
        counts_locks(usage, locks),
        forall|k: Seq<char>| #[trigger] more(k) == locks(k) + locks_among(accounts, writable, k),
    ensures
        counts_locks(counted_accounts(usage, accounts, writable), more),
    decreases accounts.len(),
{
    if accounts.len() == 0 {
        assert forall|k: Seq<char>| #[trigger] locks(k) > 0 implies more(k) > 0 by {}
        assert forall|k: Seq<char>| #[trigger] more(k) > 0 implies exists|i: int|
            names_key(usage, i, k) by {
            assert(locks(k) > 0);
        }
        assert forall|i: int| 0 <= i < usage.len() implies (#[trigger] usage[i]).count == held(
            more(usage[i].key),
        ) && more(usage[i].key) > 0 by {
            assert(more(usage[i].key) == locks(usage[i].key));
        }
    } else {
        let rest = accounts.drop_last();
        let middle = |k: Seq<char>| locks(k) + locks_among(rest, writable, k);
        lemma_counted_accounts_count_locks(usage, rest, writable, locks, middle);
        let before = counted_accounts(usage, rest, writable);
        if accounts.last().writable == writable {
            assert forall|k: Seq<char>| #[trigger]
                more(k) == middle(k) + if k == accounts.last().key {
                    1nat
                } else {
                    0nat
                } by {}
            lemma_counted_counts_one_more(before, accounts.last().key, middle, more);
        } else {
            assert forall|k: Seq<char>| #[trigger] more(k) > 0 implies exists|i: int|
                names_key(before, i, k) by {
                assert(middle(k) > 0);
            }
            assert forall|i: int| 0 <= i < before.len() implies (#[trigger] before[i]).count
                == held(more(before[i].key)) && more(before[i].key) > 0 by {
                assert(more(before[i].key) == middle(before[i].key));
            }
        }
    }
}

/// The usage counted for a block has one entry for each account locked in the way
/// `writable` says, and the entry's count is the number of those locks.
pub proof fn law_lock_counts_count_locks(txs: Seq<BlockTransactionModel>, writable: bool)
    ensures
        counts_locks(lock_counts(txs, writable), |key: Seq<char>| locks_on(txs, writable, key)),
    decreases txs.len(),
{
    let locks = |key: Seq<char>| locks_on(txs, writable, key);
    if txs.len() == 0 {
        assert(counts_locks(lock_counts(txs, writable), locks));
    } else {
        let rest = txs.drop_last();
        let earlier = |key: Seq<char>| locks_on(rest, writable, key);
        law_lock_counts_count_locks(rest, writable);
        assert forall|k: Seq<char>| #[trigger]
            locks(k) == earlier(k) + locks_among(txs.last().accounts, writable, k) by {}
        lemma_counted_accounts_count_locks(
            lock_counts(rest, writable),
            txs.last().accounts,
            writable,
            earlier,
            locks,
        );
    }
}

} // verus!
