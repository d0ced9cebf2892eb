//! The two event kinds that the upstream feed delivers.

use vstd::prelude::*;

verus! {

/// One observed attempt to include a transaction at a slot. Only notifications
/// that carry an error cause are tracked.
pub struct TransactionNotification {
    pub signature: String,
    pub slot: u64,
    /// The failure cause in the text form the feed reports it in.
    pub error: Option<String>,
}

#[verifier::ext_equal]
pub struct NotificationModel {
    pub signature: Seq<char>,
    pub slot: u64,
    pub error: Option<Seq<char>>,
}

impl View for TransactionNotification {
    type V = NotificationModel;

    open spec fn view(&self) -> NotificationModel {
        NotificationModel {
            signature: self.signature@,
            slot: self.slot,
            error: match self.error {
                Some(e) => Some(e@),
                None => None,
            },
        }
    }
}

/// An account that a transaction declares, with its lock kind.
pub struct AccountAccess {
    pub key: String,
    pub writable: bool,
}

#[verifier::ext_equal]
pub struct AccountAccessModel {
    pub key: Seq<char>,
    pub writable: bool,
}

impl View for AccountAccess {
    type V = AccountAccessModel;

    open spec fn view(&self) -> AccountAccessModel {
        AccountAccessModel { key: self.key@, writable: self.writable }
    }
}

/// One transaction as a finalized block lists it.
pub struct BlockTransaction {
    pub signature: String,
    pub is_successful: bool,
    pub cu_consumed: u64,
    pub cu_requested: u64,
    pub prioritization_fees: u64,
    pub accounts: Vec<AccountAccess>,
}

#[verifier::ext_equal]
pub struct BlockTransactionModel {
    pub signature: Seq<char>,
    pub is_successful: bool,
    pub cu_consumed: u64,
    pub cu_requested: u64,
    pub prioritization_fees: u64,
    pub accounts: Seq<AccountAccessModel>,
}

impl View for BlockTransaction {
    type V = BlockTransactionModel;

    open spec fn view(&self) -> BlockTransactionModel {
        BlockTransactionModel {
            signature: self.signature@,
            is_successful: self.is_successful,
            cu_consumed: self.cu_consumed,
            cu_requested: self.cu_requested,
            prioritization_fees: self.prioritization_fees,
            accounts: accesses_view(self.accounts@),
        }
    }
}

/// The contents of a finalized block for one slot.
pub struct BlockEvent {
    pub slot: u64,
    pub block_hash: String,
    pub leader_identity: String,
    pub transactions: Vec<BlockTransaction>,
}

#[verifier::ext_equal]
pub struct BlockEventModel {
    pub slot: u64,
    pub block_hash: Seq<char>,
    pub leader_identity: Seq<char>,
    pub transactions: Seq<BlockTransactionModel>,
}

impl View for BlockEvent {
    type V = BlockEventModel;

    open spec fn view(&self) -> BlockEventModel {
        BlockEventModel {
            slot: self.slot,
            block_hash: self.block_hash@,
            leader_identity: self.leader_identity@,
            transactions: transactions_view(self.transactions@),
        }
    }
}

pub open spec fn accesses_view(accounts: Seq<AccountAccess>) -> Seq<AccountAccessModel> {
    Seq::new(accounts.len(), |i: int| accounts[i]@)
}

pub open spec fn transactions_view(transactions: Seq<BlockTransaction>) -> Seq<
    BlockTransactionModel,
> {
    Seq::new(transactions.len(), |i: int| transactions[i]@)
}

/// A copy of `accounts`, element by element.
pub fn copy_accesses(accounts: &Vec<AccountAccess>) -> (r: Vec<AccountAccess>)
    ensures
        accesses_view(r@) == accesses_view(accounts@),
{
    let mut out: Vec<AccountAccess> = Vec::new();
    let mut i: usize = 0;
    while i < accounts.len()
        invariant
            i <= accounts.len(),
            out.len() == i,
            forall|j: int| 0 <= j < i ==> out[j]@ == accounts[j]@,
        decreases accounts.len() - i,
    {
        out.push(AccountAccess { key: accounts[i].key.clone(), writable: accounts[i].writable });
        i += 1;
    }
    out
}

/// Whether the entry at `i` is the one for `key`.
pub open spec fn names_account(accounts: Seq<AccountAccessModel>, i: int, key: Seq<char>) -> bool {
    0 <= i < accounts.len() && accounts[i].key == key
}

/// No account has two entries.
pub open spec fn distinct_accounts(accounts: Seq<AccountAccessModel>) -> bool {
    forall|i: int, j: int| 0 <= i < j < accounts.len() ==> accounts[i].key != accounts[j].key
}

/// `flags` after `access` is noted: the entry of its account takes its flag, or the
/// access is appended where the account has no entry.
pub open spec fn noted(flags: Seq<AccountAccessModel>, access: AccountAccessModel) -> Seq<
    AccountAccessModel,
> {
    if exists|i: int| names_account(flags, i, access.key) {
        let i = choose|i: int| names_account(flags, i, access.key);
        flags.update(i, access)
    } else {
        flags.push(access)
    }
}

/// One entry for each account among `accounts`, in order of first appearance, with
/// the flag that the account is listed with last.
pub open spec fn account_flags(accounts: Seq<AccountAccessModel>) -> Seq<AccountAccessModel>
    decreases accounts.len(),
{
    if accounts.len() == 0 {
        Seq::empty()
    } else {
        noted(account_flags(accounts.drop_last()), accounts.last())
    }
}

/// The flag that `key` is listed with last among `accounts`, if it is listed.
pub open spec fn flag_of(accounts: Seq<AccountAccessModel>, key: Seq<char>) -> Option<bool>
    decreases accounts.len(),
{
    if accounts.len() == 0 {
        None
    } else if accounts.last().key == key {
        Some(accounts.last().writable)
    } else {
        flag_of(accounts.drop_last(), key)
    }
}

/// Whether `flags` maps exactly the accounts listed in `accounts`, each once, to the
/// flag it is listed with last.
pub open spec fn maps_accounts(flags: Seq<AccountAccessModel>, accounts: Seq<AccountAccessModel>)
    -> bool {
    &&& distinct_accounts(flags)
    &&& forall|j: int|
        0 <= j < flags.len() ==> flag_of(accounts, (#[trigger] flags[j]).key) == Some(
            flags[j].writable,
        )
    &&& forall|key: Seq<char>|
        (#[trigger] flag_of(accounts, key)) is Some ==> exists|j: int|
            names_account(flags, j, key)
}

/// The flags taken from a list of accesses are a mapping from its accounts.
pub proof fn law_account_flags_map_accounts(accounts: Seq<AccountAccessModel>)
    ensures
        maps_accounts(account_flags(accounts), accounts),
    decreases accounts.len(),
{
    if accounts.len() > 0 {
        let rest = accounts.drop_last();
        let last = accounts.last();
        law_account_flags_map_accounts(rest);
        let before = account_flags(rest);
        let after = account_flags(accounts);
        if exists|i: int| names_account(before, i, last.key) {
            let c = choose|i: int| names_account(before, i, last.key);
            assert(after == before.update(c, last));
            assert forall|i: int, j: int| 0 <= i < j < after.len() implies after[i].key
                != after[j].key by {
                assert(before[i].key != before[j].key);
            }
            assert forall|j: int| 0 <= j < after.len() implies flag_of(
                accounts,
                (#[trigger] after[j]).key,
            ) == Some(after[j].writable) by {
                if j != c {
                    assert(after[j] == before[j]);
                    if j < c {
                        assert(before[j].key != before[c].key);
                    } else {
                        assert(before[c].key != before[j].key);
                    }
                }
            }
            assert forall|key: Seq<char>| (#[trigger] flag_of(accounts, key)) is Some implies exists|
                j: int,
            | names_account(after, j, key) by {
                if key == last.key {
                    assert(names_account(after, c, key));
                } else {
                    assert(flag_of(rest, key) is Some);
                    let j = choose|j: int| names_account(before, j, key);
                    assert(names_account(after, j, key));
                }
            }
        } else {
            assert(after == before.push(last));
            assert forall|i: int, j: int| 0 <= i < j < after.len() implies after[i].key
                != after[j].key by {
                if j < before.len() {
                    assert(before[i].key != before[j].key);
                } else {
                    assert(!names_account(before, i, last.key));
                }
            }
            assert forall|j: int| 0 <= j < after.len() implies flag_of(
                accounts,
                (#[trigger] after[j]).key,
            ) == Some(after[j].writable) by {
                if j < before.len() {
                    assert(after[j] == before[j]);
                    assert(!names_account(before, j, last.key));
                }
            }
            assert forall|key: Seq<char>| (#[trigger] flag_of(accounts, key)) is Some implies exists|
                j: int,
            | names_account(after, j, key) by {
                if key == last.key {
                    assert(names_account(after, before.len() as int, key));
                } else {
                    assert(flag_of(rest, key) is Some);
                    let j = choose|j: int| names_account(before, j, key);
                    assert(names_account(after, j, key));
                }
            }
        }
    }
}

/// Notes one access in `flags`.
fn note_access(flags: &mut Vec<AccountAccess>, access: &AccountAccess)
    requires
        distinct_accounts(accesses_view(old(flags)@)),
    ensures
        accesses_view(final(flags)@) == noted(accesses_view(old(flags)@), access@),
{
    let ghost before = accesses_view(flags@);
    let mut i: usize = 0;
    while i < flags.len()
        invariant
            i <= flags.len(),
            accesses_view(flags@) == before,
            before == accesses_view(old(flags)@),
            distinct_accounts(before),
            forall|j: int| 0 <= j < i ==> !names_account(before, j, access@.key),
        decreases flags.len() - i,
    {
        assert(before[i as int] == flags[i as int]@);
        if flags[i].key == access.key {
            flags.set(i, AccountAccess { key: access.key.clone(), writable: access.writable });
            proof {
                assert(names_account(before, i as int, access@.key));
                let c = choose|k: int| names_account(before, k, access@.key);
                assert(c == i) by {
                    if c < i {
                        assert(!names_account(before, c, access@.key));
                    } else if i < c {
                        assert(before[i as int].key != before[c].key);
                    }
                }
                assert(accesses_view(flags@) =~= noted(before, access@));
            }
            return ;
        }
        i += 1;
    }
    flags.push(AccountAccess { key: access.key.clone(), writable: access.writable });
    assert(accesses_view(flags@) =~= noted(before, access@));
}

/// One entry for each account among `accounts`, with the flag it is listed with last.
pub fn merge_accesses(accounts: &Vec<AccountAccess>) -> (r: Vec<AccountAccess>)
    ensures
        accesses_view(r@) == account_flags(accesses_view(accounts@)),
{
    let ghost listed = accesses_view(accounts@);
    let mut flags: Vec<AccountAccess> = Vec::new();
    let mut i: usize = 0;
    assert(accesses_view(flags@) =~= account_flags(listed.take(0)));
    while i < accounts.len()
        invariant
            i <= accounts.len(),
            listed == accesses_view(accounts@),
            accesses_view(flags@) == account_flags(listed.take(i as int)),
        decreases accounts.len() - i,
    {
        proof {
            law_account_flags_map_accounts(listed.take(i as int));
            assert(listed.take(i as int + 1).drop_last() =~= listed.take(i as int));
            assert(listed.take(i as int + 1).last() == accounts[i as int]@);
        }
        note_access(&mut flags, &accounts[i]);
        i += 1;
    }
    assert(listed.take(i as int) =~= listed);
    flags
}

} // verus!
