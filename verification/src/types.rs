//! The values that the pool stores and hands out, each with the record that
//! stands for it in contracts.

use crate::model::{AccountRecord, BetRecord, BetStatus, WagerRecord};
use crate::rules::{total_diff, Fault, TallyRecord, UpdateRecord};
use vstd::prelude::*;

verus! {

/// One member's account in one community.
#[derive(Debug, Clone, PartialEq, Eq)]
pub struct Account {
    pub community: String,
    pub member: String,
    /// What the member can still spend.
    pub balance: u64,
    /// What the member has riding on bets that are open or locked.
    pub staked: u64,
}

impl View for Account {
    type V = AccountRecord;

    open spec fn view(&self) -> AccountRecord {
        AccountRecord {
            community: self.community@,
            member: self.member@,
            balance: self.balance as nat,
            staked: self.staked as nat,
        }
    }
}

/// One bet with its options, in the order they were registered.
#[derive(Debug, Clone, PartialEq, Eq)]
pub struct Bet {
    pub community: String,
    pub id: String,
    pub status: BetStatus,
    pub options: Vec<String>,
}

impl View for Bet {
    type V = BetRecord;

    open spec fn view(&self) -> BetRecord {
        BetRecord {
            community: self.community@,
            id: self.id@,
            status: self.status,
            options: names(self.options@),
        }
    }
}

/// The stake one member holds on one option of one bet.
#[derive(Debug, Clone, PartialEq, Eq)]
pub struct Wager {
    pub community: String,
    pub bet: String,
    pub member: String,
    pub option: String,
    pub amount: u64,
}

impl View for Wager {
    type V = WagerRecord;

    open spec fn view(&self) -> WagerRecord {
        WagerRecord {
            community: self.community@,
            bet: self.bet@,
            member: self.member@,
            option: self.option@,
            amount: self.amount as nat,
        }
    }
}

/// What an operation did to one account: by how much its balance changed and
/// what the balance is now.
#[derive(Debug, Clone, PartialEq, Eq)]
pub struct AccountUpdate {
    pub community: String,
    pub member: String,
    pub diff: i128,
    pub balance: u64,
}

impl View for AccountUpdate {
    type V = UpdateRecord;

    open spec fn view(&self) -> UpdateRecord {
        UpdateRecord {
            community: self.community@,
            member: self.member@,
            diff: self.diff as int,
            balance: self.balance as nat,
        }
    }
}

/// The stake riding on one option of a bet.
#[derive(Debug, Clone, PartialEq, Eq)]
pub struct OptionTally {
    pub option: String,
    pub staked: u64,
}

impl View for OptionTally {
    type V = TallyRecord;

    open spec fn view(&self) -> TallyRecord {
        TallyRecord { option: self.option@, staked: self.staked as nat }
    }
}

/// Why the pool refused an operation.
#[derive(Debug, Clone, PartialEq, Eq)]
pub enum LedgerError {
    /// The account or bet to create is there already.
    AlreadyExists,
    /// No such account, bet or option.
    NotFound,
    /// The bet is not in a status from which the operation is allowed.
    InvalidState,
    /// The option is none of the bet's.
    UnknownOption,
    /// The member cannot spend that much.
    InsufficientFunds,
    /// The member already backs another option of the bet, which is given.
    MultipleOptions(Vec<String>),
    /// The community would hold more currency than can be counted.
    CapacityExceeded,
    /// What was read back from storage is no state of a pool.
    StorageError,
}

impl View for LedgerError {
    type V = Fault;

    open spec fn view(&self) -> Fault {
        match self {
            LedgerError::AlreadyExists => Fault::AlreadyExists,
            LedgerError::NotFound => Fault::NotFound,
            LedgerError::InvalidState => Fault::InvalidState,
            LedgerError::UnknownOption => Fault::UnknownOption,
            LedgerError::InsufficientFunds => Fault::InsufficientFunds,
            LedgerError::MultipleOptions(held) => Fault::MultipleOptions(names(held@)),
            LedgerError::CapacityExceeded => Fault::CapacityExceeded,
            LedgerError::StorageError => Fault::StorageError,
        }
    }
}

/// The names in a list of strings.
pub open spec fn names(v: Seq<String>) -> Seq<Seq<char>> {
    Seq::new(v.len(), |i: int| v[i]@)
}

/// The records of a list of accounts.
pub open spec fn account_records(v: Seq<Account>) -> Seq<AccountRecord> {
    Seq::new(v.len(), |i: int| v[i]@)
}

/// The records of a list of bets.
pub open spec fn bet_records(v: Seq<Bet>) -> Seq<BetRecord> {
    Seq::new(v.len(), |i: int| v[i]@)
}

/// The records of a list of wagers.
pub open spec fn wager_records(v: Seq<Wager>) -> Seq<WagerRecord> {
    Seq::new(v.len(), |i: int| v[i]@)
}

/// The records of a list of updates.
pub open spec fn update_records(v: Seq<AccountUpdate>) -> Seq<UpdateRecord> {
    Seq::new(v.len(), |i: int| v[i]@)
}

/// The records of a tally.
pub open spec fn tally_records(v: Seq<OptionTally>) -> Seq<TallyRecord> {
    Seq::new(v.len(), |i: int| v[i]@)
}

/// A copy of a list of names.
pub fn copy_names(list: &Vec<String>) -> (copy: Vec<String>)
    ensures
        names(copy@) == names(list@),
{
    let mut copy: Vec<String> = Vec::new();
    let mut i: usize = 0;
    while i < list.len()
        invariant
            i <= list.len(),
            copy.len() == i,
            forall|j: int| 0 <= j < i ==> copy[j]@ == list[j]@,
        decreases list.len() - i,
    {
        copy.push(list[i].clone());
        i += 1;
    }
    assert(names(copy@) =~= names(list@));
    copy
}

/// Whether a list of names holds `name`.
pub fn holds_name(list: &Vec<String>, name: &String) -> (found: bool)
    ensures
        found == names(list@).contains(name@),
{
    let mut i: usize = 0;
    while i < list.len()
        invariant
            i <= list.len(),
            forall|j: int| 0 <= j < i ==> list[j]@ != name@,
        decreases list.len() - i,
    {
        if list[i] == *name {
            assert(names(list@)[i as int] == name@);
            return true;
        }
        i += 1;
    }
    assert forall|j: int| 0 <= j < names(list@).len() implies names(list@)[j] != name@ by {
        assert(names(list@)[j] == list[j]@);
    }
    false
}

/// Whether the changes of a list of updates can be added up one after
/// another without leaving the range of `i128`.
pub open spec fn diffs_add_up(updates: Seq<UpdateRecord>) -> bool {
    forall|k: int|
        0 <= k <= updates.len() ==> i128::MIN <= #[trigger] total_diff(updates.take(k))
            <= i128::MAX
}

/// The sum of the changes that the updates report: what a refund or a payout
/// hands out in all. `None` where the sum cannot be counted in an `i128`.
pub fn total_change(updates: &Vec<AccountUpdate>) -> (total: Option<i128>)
    ensures
        match total {
            Some(sum) => sum == total_diff(update_records(updates@)) && diffs_add_up(
                update_records(updates@),
            ),
            None => !diffs_add_up(update_records(updates@)),
        },
{
    let ghost records = update_records(updates@);
    let mut sum: i128 = 0;
    let mut i: usize = 0;
    while i < updates.len()
        invariant
            i <= updates.len(),
            records == update_records(updates@),
            sum == total_diff(records.take(i as int)),
            forall|k: int|
                0 <= k <= i ==> i128::MIN <= #[trigger] total_diff(records.take(k)) <= i128::MAX,
        decreases updates.len() - i,
    {
        proof {
            assert(records.take(i + 1).drop_last() =~= records.take(i as int));
            assert(records.take(i + 1).last() == updates[i as int]@);
        }
        match sum.checked_add(updates[i].diff) {
            Some(next) => {
                sum = next;
            },
            None => {
                proof {
                    let k = i + 1;
                    assert(!(i128::MIN <= total_diff(records.take(k)) <= i128::MAX));
                }
                return None;
            },
        }
        i += 1;
    }
    proof {
        assert(records.take(i as int) =~= records);
    }
    Some(sum)
}

} // verus!
