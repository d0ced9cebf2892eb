//! The rows that the storage sink is fed.

use crate::limits::{clamp, clamped};
use crate::clock::Timestamp;
use crate::events::{AccountAccess, AccountAccessModel};
use crate::transaction_info::{ErrorCount, ErrorCountModel, TransactionInfo, TransactionInfoModel};
use vstd::prelude::*;

verus! {

/// One element of a transaction row's `errors` column.
pub struct TransactionErrorData {
    pub error: String,
    pub slot: u64,
    pub count: u64,
}

/// One element of a transaction row's `accounts_used` column.
pub struct AccountUsed {
    pub key: String,
    pub writable: bool,
}

/// A row of the transaction table, column by column. The two list columns are
/// stored as JSON text.
pub struct PostgresTransactionInfo {
    pub signature: String,
    pub errors: Vec<TransactionErrorData>,
    pub is_executed: bool,
    pub is_confirmed: bool,
    pub first_notification_slot: i64,
    pub cu_requested: Option<i64>,
    pub prioritization_fees: Option<i64>,
    pub utc_timestamp: Timestamp,
    pub accounts_used: Vec<AccountUsed>,
    pub processed_slot: Option<i64>,
}

#[verifier::ext_equal]
pub struct PostgresTransactionInfoModel {
    pub signature: Seq<char>,
    pub errors: Seq<ErrorCountModel>,
    pub is_executed: bool,
    pub is_confirmed: bool,
    pub first_notification_slot: i64,
    pub cu_requested: Option<i64>,
    pub prioritization_fees: Option<i64>,
    pub utc_timestamp: Timestamp,
    pub accounts_used: Seq<AccountAccessModel>,
    pub processed_slot: Option<i64>,
}

impl View for TransactionErrorData {
    type V = ErrorCountModel;

    open spec fn view(&self) -> ErrorCountModel {
        ErrorCountModel { error: self.error@, slot: self.slot, count: self.count }
    }
}

impl View for AccountUsed {
    type V = AccountAccessModel;

    open spec fn view(&self) -> AccountAccessModel {
        AccountAccessModel { key: self.key@, writable: self.writable }
    }
}

pub open spec fn error_data_view(errors: Seq<TransactionErrorData>) -> Seq<ErrorCountModel> {
    Seq::new(errors.len(), |i: int| errors[i]@)
}

pub open spec fn accounts_used_view(accounts: Seq<AccountUsed>) -> Seq<AccountAccessModel> {
    Seq::new(accounts.len(), |i: int| accounts[i]@)
}

impl View for PostgresTransactionInfo {
    type V = PostgresTransactionInfoModel;

    open spec fn view(&self) -> PostgresTransactionInfoModel {
        PostgresTransactionInfoModel {
            signature: self.signature@,
            errors: error_data_view(self.errors@),
            is_executed: self.is_executed,
            is_confirmed: self.is_confirmed,
            first_notification_slot: self.first_notification_slot,
            cu_requested: self.cu_requested,
            prioritization_fees: self.prioritization_fees,
            utc_timestamp: self.utc_timestamp,
            accounts_used: accounts_used_view(self.accounts_used@),
            processed_slot: self.processed_slot,
        }
    }
}

pub open spec fn clamped_option(value: Option<u64>) -> Option<i64> {
    match value {
        Some(n) => Some(clamped(n as int)),
        None => None,
    }
}

/// The row that an evicted entry is stored as: every field carried over, the
/// numbers as 64-bit signed column values.
pub open spec fn row_of(info: TransactionInfoModel) -> PostgresTransactionInfoModel {
    PostgresTransactionInfoModel {
        signature: info.signature,
        errors: info.errors,
        is_executed: info.is_executed,
        is_confirmed: info.is_confirmed,
        first_notification_slot: clamped(info.first_notification_slot as int),
        cu_requested: clamped_option(info.cu_requested),
        prioritization_fees: clamped_option(info.prioritization_fees),
        utc_timestamp: info.utc_timestamp,
        accounts_used: info.accounts_used,
        processed_slot: clamped_option(info.processed_slot),
    }
}

pub open spec fn rows_view(rows: Seq<PostgresTransactionInfo>) -> Seq<
    PostgresTransactionInfoModel,
> {
    Seq::new(rows.len(), |i: int| rows[i]@)
}

fn clamp_option(value: Option<u64>) -> (r: Option<i64>)
    ensures
        r == clamped_option(value),
{
    match value {
        Some(n) => Some(clamp(n)),
        None => None,
    }
}

fn error_rows(errors: &Vec<ErrorCount>) -> (r: Vec<TransactionErrorData>)
    ensures
        error_data_view(r@) == crate::transaction_info::errors_view(errors@),
{
    let mut out: Vec<TransactionErrorData> = Vec::new();
    let mut i: usize = 0;
    while i < errors.len()
        invariant
            i <= errors.len(),
            out.len() == i,
            forall|j: int| 0 <= j < i ==> out[j]@ == errors[j]@,
        decreases errors.len() - i,
    {
        out.push(
            TransactionErrorData {
                error: errors[i].error.clone(),
                slot: errors[i].slot,
                count: errors[i].count,
            },
        );
        i += 1;
    }
    out
}

fn account_rows(accounts: &Vec<AccountAccess>) -> (r: Vec<AccountUsed>)
    ensures
        accounts_used_view(r@) == crate::events::accesses_view(accounts@),
{
    let mut out: Vec<AccountUsed> = Vec::new();
    let mut i: usize = 0;
    while i < accounts.len()
        invariant
            i <= accounts.len(),
            out.len() == i,
            forall|j: int| 0 <= j < i ==> out[j]@ == accounts[j]@,
        decreases accounts.len() - i,
    {
        out.push(AccountUsed { key: accounts[i].key.clone(), writable: accounts[i].writable });
        i += 1;
    }
    out
}

impl From<&TransactionInfo> for PostgresTransactionInfo {
    /// The row for an evicted entry.
    fn from(value: &TransactionInfo) -> (r: Self)
        ensures
            r@ == row_of(value@),
    {
        PostgresTransactionInfo {
            signature: value.signature.clone(),
            errors: error_rows(&value.errors),
            is_executed: value.is_executed,
            is_confirmed: value.is_confirmed,
            first_notification_slot: clamp(value.first_notification_slot),
            cu_requested: clamp_option(value.cu_requested),
            prioritization_fees: clamp_option(value.prioritization_fees),
            utc_timestamp: value.utc_timestamp,
            accounts_used: account_rows(&value.accounts_used),
            processed_slot: clamp_option(value.processed_slot),
        }
    }
}

/// The conversion is described by the view of its result, in the contract of `from`;
/// no value of the row type itself is named for it.
impl vstd::std_specs::convert::FromSpecImpl<&TransactionInfo> for PostgresTransactionInfo {
    open spec fn obeys_from_spec() -> bool {
        false
    }

    open spec fn from_spec(value: &TransactionInfo) -> Self {
        arbitrary()
    }
}

/// The rows of a batch of evicted entries.
pub open spec fn rows_of(batch: Seq<TransactionInfoModel>) -> Seq<PostgresTransactionInfoModel> {
    Seq::new(batch.len(), |i: int| row_of(batch[i]))
}

/// The rows that a batch of evicted entries is stored as, in batch order.
pub fn transaction_rows(batch: &Vec<TransactionInfo>) -> (rows: Vec<PostgresTransactionInfo>)
    ensures
        rows_view(rows@) == rows_of(crate::transaction_info::infos_view(batch@)),
{
    let mut rows: Vec<PostgresTransactionInfo> = Vec::new();
    let mut i: usize = 0;
    while i < batch.len()
        invariant
            i <= batch.len(),
            rows.len() == i,
            forall|j: int| 0 <= j < i ==> rows[j]@ == row_of(batch[j]@),
        decreases batch.len() - i,
    {
        rows.push(PostgresTransactionInfo::from(&batch[i]));
        i += 1;
    }
    rows
}

} // verus!
