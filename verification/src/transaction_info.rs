//! The aggregate kept for one transaction signature while it is in flight.

use crate::clock::Timestamp;
use crate::events::{
    accesses_view, account_flags, copy_accesses, distinct_accounts, merge_accesses, AccountAccess,
    AccountAccessModel, BlockTransaction, BlockTransactionModel, NotificationModel,
    TransactionNotification,
};
use crate::limits::{bump, bumped, held};
use vstd::prelude::*;

verus! {

/// How often one failure cause was reported for one slot.
pub struct ErrorCount {
    pub error: String,
    pub slot: u64,
    pub count: u64,
}

#[verifier::ext_equal]
pub struct ErrorCountModel {
    pub error: Seq<char>,
    pub slot: u64,
    pub count: u64,
}

impl View for ErrorCount {
    type V = ErrorCountModel;

    open spec fn view(&self) -> ErrorCountModel {
        ErrorCountModel { error: self.error@, slot: self.slot, count: self.count }
    }
}

pub open spec fn errors_view(errors: Seq<ErrorCount>) -> Seq<ErrorCountModel> {
    Seq::new(errors.len(), |i: int| errors[i]@)
}

/// Whether the entry at `i` counts the pair (`error`, `slot`).
pub open spec fn counts_pair(errors: Seq<ErrorCountModel>, i: int, error: Seq<char>, slot: u64)
    -> bool {
    0 <= i < errors.len() && errors[i].error == error && errors[i].slot == slot
}

/// Whether `i` is the first entry that counts the pair (`error`, `slot`).
pub open spec fn first_for_pair(
    errors: Seq<ErrorCountModel>,
    i: int,
    error: Seq<char>,
    slot: u64,
) -> bool {
    counts_pair(errors, i, error, slot) && forall|j: int|
        0 <= j < i ==> !counts_pair(errors, j, error, slot)
}

pub open spec fn has_pair(errors: Seq<ErrorCountModel>, error: Seq<char>, slot: u64) -> bool {
    exists|i: int| counts_pair(errors, i, error, slot)
}

/// `errors` after one more report of `error` at `slot`: the first entry for the pair
/// is bumped, or an entry with count one is appended where there is none.
pub open spec fn recorded(errors: Seq<ErrorCountModel>, error: Seq<char>, slot: u64) -> Seq<
    ErrorCountModel,
> {
    if has_pair(errors, error, slot) {
        let i = choose|i: int| first_for_pair(errors, i, error, slot);
        errors.update(i, ErrorCountModel { error, slot, count: bumped(errors[i].count) })
    } else {
        errors.push(ErrorCountModel { error, slot, count: 1 })
    }
}

/// The number of reports that `errors` accounts for.
pub open spec fn total_count(errors: Seq<ErrorCountModel>) -> nat
    decreases errors.len(),
{
    if errors.len() == 0 {
        0
    } else {
        total_count(errors.drop_last()) + errors.last().count as nat
    }
}

/// The number of reports of `error` at `slot` that `errors` accounts for.
pub open spec fn pair_count(errors: Seq<ErrorCountModel>, error: Seq<char>, slot: u64) -> nat
    decreases errors.len(),
{
    if errors.len() == 0 {
        0
    } else {
        pair_count(errors.drop_last(), error, slot) + if errors.last().error == error
            && errors.last().slot == slot {
            errors.last().count as nat
        } else {
            0
        }
    }
}

/// No pair of cause and slot has two entries.
pub open spec fn distinct_pairs(errors: Seq<ErrorCountModel>) -> bool {
    forall|i: int, j: int|
        0 <= i < j < errors.len() ==> !(errors[i].error == errors[j].error && errors[i].slot
            == errors[j].slot)
}

/// Everything observed so far for one signature.
pub struct TransactionInfo {
    pub signature: String,
    /// One entry per distinct pair of cause and slot, in order of first report.
    pub errors: Vec<ErrorCount>,
    pub is_executed: bool,
    pub is_confirmed: bool,
    /// The slot of the first event seen for the signature.
    pub first_notification_slot: u64,
    pub cu_requested: Option<u64>,
    pub prioritization_fees: Option<u64>,
    /// Wall-clock time of the first observation.
    pub utc_timestamp: Timestamp,
    /// The accounts of the included transaction, each once, with its lock kind.
    pub accounts_used: Vec<AccountAccess>,
    pub processed_slot: Option<u64>,
}

#[verifier::ext_equal]
pub struct TransactionInfoModel {
    pub signature: Seq<char>,
    pub errors: Seq<ErrorCountModel>,
    pub is_executed: bool,
    pub is_confirmed: bool,
    pub first_notification_slot: u64,
    pub cu_requested: Option<u64>,
    pub prioritization_fees: Option<u64>,
    pub utc_timestamp: Timestamp,
    pub accounts_used: Seq<AccountAccessModel>,
    pub processed_slot: Option<u64>,
}

impl View for TransactionInfo {
    type V = TransactionInfoModel;

    open spec fn view(&self) -> TransactionInfoModel {
        TransactionInfoModel {
            signature: self.signature@,
            errors: errors_view(self.errors@),
            is_executed: self.is_executed,
            is_confirmed: self.is_confirmed,
            first_notification_slot: self.first_notification_slot,
            cu_requested: self.cu_requested,
            prioritization_fees: self.prioritization_fees,
            utc_timestamp: self.utc_timestamp,
            accounts_used: accesses_view(self.accounts_used@),
            processed_slot: self.processed_slot,
        }
    }
}

impl TransactionInfoModel {
    /// The entry for a signature whose first event was seen at `slot`, before
    /// anything of that event is merged in.
    pub open spec fn first_seen(signature: Seq<char>, slot: u64, at: Timestamp) -> Self {
        TransactionInfoModel {
            signature,
            errors: Seq::empty(),
            is_executed: false,
            is_confirmed: false,
            first_notification_slot: slot,
            cu_requested: None,
            prioritization_fees: None,
            utc_timestamp: at,
            accounts_used: Seq::empty(),
            processed_slot: None,
        }
    }

    /// The entry after a notification is merged in. One without a cause changes nothing.
    pub open spec fn after_notification(self, notification: NotificationModel) -> Self {
        match notification.error {
            Some(error) => TransactionInfoModel {
                errors: recorded(self.errors, error, notification.slot),
                ..self
            },
            None => self,
        }
    }

    /// The entry after its inclusion in the block of `block_slot` is merged in.
    pub open spec fn after_inclusion(self, block_slot: u64, tx: BlockTransactionModel) -> Self {
        TransactionInfoModel {
            is_executed: true,
            is_confirmed: true,
            cu_requested: Some(tx.cu_requested),
            prioritization_fees: Some(tx.prioritization_fees),
            accounts_used: account_flags(tx.accounts),
            processed_slot: Some(block_slot),
            ..self
        }
    }

    /// The entry that a notification creates for a signature not seen before.
    pub open spec fn from_notification(notification: NotificationModel, at: Timestamp) -> Self {
        Self::first_seen(notification.signature, notification.slot, at).after_notification(
            notification,
        )
    }

    /// The entry that a block inclusion creates for a signature not seen before.
    pub open spec fn from_inclusion(block_slot: u64, tx: BlockTransactionModel, at: Timestamp)
        -> Self {
        Self::first_seen(tx.signature, block_slot, at).after_inclusion(block_slot, tx)
    }

    /// No pair of cause and slot, and no account, has two entries.
    pub open spec fn well_formed(self) -> bool {
        distinct_pairs(self.errors) && distinct_accounts(self.accounts_used)
    }
}

/// Appends a report where the pair has no entry yet, or bumps the first entry for it.
fn record_error(errors: &mut Vec<ErrorCount>, error: &String, slot: u64)
    ensures
        errors_view(final(errors)@) == recorded(errors_view(old(errors)@), error@, slot),
{
    let ghost before = errors_view(errors@);
    let mut i: usize = 0;
    while i < errors.len()
        invariant
            i <= errors.len(),
            errors_view(errors@) == before,
            before == errors_view(old(errors)@),
            forall|j: int| 0 <= j < i ==> !counts_pair(before, j, error@, slot),
        decreases errors.len() - i,
    {
        if errors[i].slot == slot && errors[i].error == *error {
            let next: u64 = bump(errors[i].count);
            errors.set(i, ErrorCount { error: error.clone(), slot, count: next });
            proof {
                assert(first_for_pair(before, i as int, error@, slot));
            }
            return ;
        }
        i += 1;
    }
    errors.push(ErrorCount { error: error.clone(), slot, count: 1 });
}

impl TransactionInfo {
    /// The entry for a signature whose first event is `notification`, seen at `at`.
    pub fn new(notification: &TransactionNotification, at: Timestamp) -> (r: Self)
        ensures
            r@ == TransactionInfoModel::from_notification(notification@, at),
    {
        let mut info = TransactionInfo {
            signature: notification.signature.clone(),
            errors: Vec::new(),
            is_executed: false,
            is_confirmed: false,
            first_notification_slot: notification.slot,
            cu_requested: None,
            prioritization_fees: None,
            utc_timestamp: at,
            accounts_used: Vec::new(),
            processed_slot: None,
        };
        info.add_notification(notification);
        info
    }

    /// The entry for a signature whose first event is its inclusion in the block of
    /// `block_slot`, seen at `at`.
    pub fn included(transaction: &BlockTransaction, block_slot: u64, at: Timestamp) -> (r: Self)
        ensures
            r@ == TransactionInfoModel::from_inclusion(block_slot, transaction@, at),
    {
        let mut info = TransactionInfo {
            signature: transaction.signature.clone(),
            errors: Vec::new(),
            is_executed: false,
            is_confirmed: false,
            first_notification_slot: block_slot,
            cu_requested: None,
            prioritization_fees: None,
            utc_timestamp: at,
            accounts_used: Vec::new(),
            processed_slot: None,
        };
        info.add_transaction(transaction, block_slot);
        info
    }

    /// Merges one more notification into the entry.
    pub fn add_notification(&mut self, notification: &TransactionNotification)
        ensures
            final(self)@ == old(self)@.after_notification(notification@),
    {
        match &notification.error {
            Some(error) => {
                record_error(&mut self.errors, error, notification.slot);
            },
            None => {},
        }
    }

    /// Merges the transaction's inclusion in the block of `block_slot` into the entry.
    pub fn add_transaction(&mut self, transaction: &BlockTransaction, block_slot: u64)
        ensures
            final(self)@ == old(self)@.after_inclusion(block_slot, transaction@),
    {
        self.is_executed = true;
        self.is_confirmed = true;
        self.cu_requested = Some(transaction.cu_requested);
        self.prioritization_fees = Some(transaction.prioritization_fees);
        self.accounts_used = merge_accesses(&transaction.accounts);
        self.processed_slot = Some(block_slot);
    }

    /// The number of error reports merged into the entry.
    pub fn error_count(&self) -> (r: u64)
        ensures
            r == held(total_count(self@.errors)),
    {
        let mut sum: u64 = 0;
        let mut i: usize = 0;
        let ghost model = errors_view(self.errors@);
        while i < self.errors.len()
            invariant
                i <= self.errors.len(),
                model == errors_view(self.errors@),
                sum == held(total_count(model.take(i as int))),
            decreases self.errors.len() - i,
        {
            assert(model.take(i as int + 1).drop_last() =~= model.take(i as int));
            let count: u64 = self.errors[i].count;
            sum = if count > u64::MAX - sum {
                u64::MAX
            } else {
                sum + count
            };
            i += 1;
        }
        assert(model.take(i as int) =~= model);
        sum
    }
}

pub open spec fn infos_view(infos: Seq<TransactionInfo>) -> Seq<TransactionInfoModel> {
    Seq::new(infos.len(), |i: int| infos[i]@)
}

/// A copy of `errors`, element by element.
fn copy_errors(errors: &Vec<ErrorCount>) -> (r: Vec<ErrorCount>)
    ensures
        errors_view(r@) == errors_view(errors@),
{
    let mut out: Vec<ErrorCount> = Vec::new();
    let mut i: usize = 0;
    while i < errors.len()
        invariant
            i <= errors.len(),
            out.len() == i,
            forall|j: int| 0 <= j < i ==> out[j]@ == errors[j]@,
        decreases errors.len() - i,
    {
        out.push(
            ErrorCount {
                error: errors[i].error.clone(),
                slot: errors[i].slot,
                count: errors[i].count,
            },
        );
        i += 1;
    }
    out
}

impl TransactionInfo {
    /// A copy of the entry.
    pub fn duplicate(&self) -> (r: Self)
        ensures
            r@ == self@,
    {
        TransactionInfo {
            signature: self.signature.clone(),
            errors: copy_errors(&self.errors),
            is_executed: self.is_executed,
            is_confirmed: self.is_confirmed,
            first_notification_slot: self.first_notification_slot,
            cu_requested: self.cu_requested,
            prioritization_fees: self.prioritization_fees,
            utc_timestamp: self.utc_timestamp,
            accounts_used: copy_accesses(&self.accounts_used),
            processed_slot: self.processed_slot,
        }
    }
}

/// Recording a report keeps the pairs of cause and slot distinct.
pub proof fn lemma_recorded_distinct(errors: Seq<ErrorCountModel>, error: Seq<char>, slot: u64)
    requires
        distinct_pairs(errors),
    ensures
        distinct_pairs(recorded(errors, error, slot)),
{
    let after = recorded(errors, error, slot);
    if has_pair(errors, error, slot) {
        let w = choose|i: int| counts_pair(errors, i, error, slot);
        lemma_first_for_pair_exists(errors, w, error, slot);
    } else {
        assert forall|i: int, j: int| 0 <= i < j < after.len() implies !(after[i].error
            == after[j].error && after[i].slot == after[j].slot) by {
            if j == errors.len() as int {
                assert(!counts_pair(errors, i, error, slot));
            }
        }
    }
}

/// Where some entry counts a pair, a first such entry exists.
pub proof fn lemma_first_for_pair_exists(
    errors: Seq<ErrorCountModel>,
    w: int,
    error: Seq<char>,
    slot: u64,
)
    requires
        counts_pair(errors, w, error, slot),
    ensures
        exists|i: int| first_for_pair(errors, i, error, slot),
    decreases w,
{
    if exists|j: int| 0 <= j < w && counts_pair(errors, j, error, slot) {
        let j = choose|j: int| 0 <= j < w && counts_pair(errors, j, error, slot);
        lemma_first_for_pair_exists(errors, j, error, slot);
    } else {
        assert(first_for_pair(errors, w, error, slot));
    }
}

/// Replacing one entry changes the total by the difference of the two counts.
pub proof fn lemma_total_count_update(errors: Seq<ErrorCountModel>, i: int, entry: ErrorCountModel)
    requires
        0 <= i < errors.len(),
    ensures
        total_count(errors.update(i, entry)) == total_count(errors) - errors[i].count
            + entry.count,
    decreases errors.len(),
{
    let after = errors.update(i, entry);
    if i == errors.len() - 1 {
        assert(after.drop_last() =~= errors.drop_last());
    } else {
        assert(after.drop_last() =~= errors.drop_last().update(i, entry));
        lemma_total_count_update(errors.drop_last(), i, entry);
    }
}

/// While the total is below `u64::MAX`, recording a report raises it by one.
pub proof fn lemma_recorded_counts_one_more(
    errors: Seq<ErrorCountModel>,
    error: Seq<char>,
    slot: u64,
)
    requires
        total_count(errors) < u64::MAX,
    ensures
        total_count(recorded(errors, error, slot)) == total_count(errors) + 1,
{
    if has_pair(errors, error, slot) {
        let w = choose|i: int| counts_pair(errors, i, error, slot);
        lemma_first_for_pair_exists(errors, w, error, slot);
        let i = choose|i: int| first_for_pair(errors, i, error, slot);
        let zero = ErrorCountModel { error, slot, count: 0 };
        lemma_total_count_update(errors, i, zero);
        lemma_total_count_update(
            errors,
            i,
            ErrorCountModel { error, slot, count: bumped(errors[i].count) },
        );
    } else {
        let entry = ErrorCountModel { error, slot, count: 1 };
        assert(errors.push(entry).drop_last() =~= errors);
    }
}

/// Replacing one entry by another for the same pair changes that pair's count by the
/// difference of the two counts, and no other pair's count.
pub proof fn lemma_pair_count_update(
    errors: Seq<ErrorCountModel>,
    i: int,
    entry: ErrorCountModel,
    error: Seq<char>,
    slot: u64,
)
    requires
        0 <= i < errors.len(),
        entry.error == errors[i].error,
        entry.slot == errors[i].slot,
    ensures
        pair_count(errors.update(i, entry), error, slot) == pair_count(errors, error, slot) + if
            entry.error == error && entry.slot == slot {
            entry.count - errors[i].count
        } else {
            0
        },
    decreases errors.len(),
{
    let after = errors.update(i, entry);
    if i == errors.len() - 1 {
        assert(after.drop_last() =~= errors.drop_last());
    } else {
        assert(after.drop_last() =~= errors.drop_last().update(i, entry));
        lemma_pair_count_update(errors.drop_last(), i, entry, error, slot);
    }
}

/// A pair that no entry counts has count zero.
pub proof fn lemma_absent_pair_counts_zero(
    errors: Seq<ErrorCountModel>,
    error: Seq<char>,
    slot: u64,
)
    requires
        !has_pair(errors, error, slot),
    ensures
        pair_count(errors, error, slot) == 0,
    decreases errors.len(),
{
    if errors.len() > 0 {
        assert(!counts_pair(errors, errors.len() - 1, error, slot));
        assert forall|j: int| !counts_pair(errors.drop_last(), j, error, slot) by {
            assert(!counts_pair(errors, j, error, slot));
        }
        lemma_absent_pair_counts_zero(errors.drop_last(), error, slot);
    }
}

/// Where no pair has two entries, the count of a pair is the count of its entry.
pub proof fn lemma_pair_count_of_entry(errors: Seq<ErrorCountModel>, i: int)
    requires
        distinct_pairs(errors),
        0 <= i < errors.len(),
    ensures
        pair_count(errors, errors[i].error, errors[i].slot) == errors[i].count,
    decreases errors.len(),
{
    let rest = errors.drop_last();
    if i == errors.len() - 1 {
        assert forall|j: int| !counts_pair(rest, j, errors[i].error, errors[i].slot) by {
            if 0 <= j < rest.len() {
                assert(!(errors[j].error == errors[i].error && errors[j].slot == errors[i].slot));
            }
        }
        lemma_absent_pair_counts_zero(rest, errors[i].error, errors[i].slot);
    } else {
        assert(!(errors[i].error == errors.last().error && errors[i].slot == errors.last().slot));
        assert forall|a: int, b: int| 0 <= a < b < rest.len() implies !(rest[a].error
            == rest[b].error && rest[a].slot == rest[b].slot) by {
            assert(!(errors[a].error == errors[b].error && errors[a].slot == errors[b].slot));
        }
        lemma_pair_count_of_entry(rest, i);
    }
}

/// Where no pair has two entries, recording a report bumps the count of its pair of
/// cause and slot and leaves every other pair's count as it was.
pub proof fn lemma_recorded_counts_its_pair(
    errors: Seq<ErrorCountModel>,
    error: Seq<char>,
    slot: u64,
    other_error: Seq<char>,
    other_slot: u64,
)
    requires
        distinct_pairs(errors),
    ensures
        pair_count(errors, error, slot) <= u64::MAX,
        pair_count(recorded(errors, error, slot), other_error, other_slot) == if other_error
            == error && other_slot == slot {
            bumped(pair_count(errors, error, slot) as u64) as nat
        } else {
            pair_count(errors, other_error, other_slot)
        },
{
    if has_pair(errors, error, slot) {
        let w = choose|i: int| counts_pair(errors, i, error, slot);
        lemma_first_for_pair_exists(errors, w, error, slot);
        let i = choose|i: int| first_for_pair(errors, i, error, slot);
        lemma_pair_count_of_entry(errors, i);
        lemma_pair_count_update(
            errors,
            i,
            ErrorCountModel { error, slot, count: bumped(errors[i].count) },
            other_error,
            other_slot,
        );
    } else {
        lemma_absent_pair_counts_zero(errors, error, slot);
        let entry = ErrorCountModel { error, slot, count: 1 };
        assert(errors.push(entry).drop_last() =~= errors);
    }
}

} // verus!
