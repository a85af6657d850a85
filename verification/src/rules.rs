//! The rules of the pool as functions on the model: for each operation, when
//! it is refused and with which fault, and the state it leaves otherwise.

use crate::model::{
    account_of, backing, bet_of, community_funds, has_account, has_bet, has_wager, share_of,
    stake_in_bet, status_of, wager_of, wager_sum, weigh, AccountRecord, BetRecord, BetStatus,
    LedgerState, Measure, Scope, WagerRecord,
};
use vstd::prelude::*;

verus! {

/// Why an operation was refused.
pub enum Fault {
    AlreadyExists,
    NotFound,
    InvalidState,
    UnknownOption,
    InsufficientFunds,
    MultipleOptions(Seq<Seq<char>>),
    CapacityExceeded,
    StorageError,
}

/// What an operation did to one account: the change of its balance and the
/// balance it has now.
pub struct UpdateRecord {
    pub community: Seq<char>,
    pub member: Seq<char>,
    pub diff: int,
    pub balance: nat,
}

/// The stake riding on one option.
pub struct TallyRecord {
    pub option: Seq<char>,
    pub staked: nat,
}

/// The wagers of `ws` that `scope` covers, in order.
pub open spec fn within(ws: Seq<WagerRecord>, scope: Scope) -> Seq<WagerRecord>
    decreases ws.len(),
{
    if ws.len() == 0 {
        ws
    } else if scope.covers(ws.last()) {
        within(ws.drop_last(), scope).push(ws.last())
    } else {
        within(ws.drop_last(), scope)
    }
}

/// The wagers of `ws` that `scope` does not cover, in order.
pub open spec fn without(ws: Seq<WagerRecord>, scope: Scope) -> Seq<WagerRecord>
    decreases ws.len(),
{
    if ws.len() == 0 {
        ws
    } else if scope.covers(ws.last()) {
        without(ws.drop_last(), scope)
    } else {
        without(ws.drop_last(), scope).push(ws.last())
    }
}

/// The accounts of one community, in order.
pub open spec fn accounts_in(accounts: Seq<AccountRecord>, community: Seq<char>) -> Seq<
    AccountRecord,
>
    decreases accounts.len(),
{
    if accounts.len() == 0 {
        accounts
    } else if accounts.last().community == community {
        accounts_in(accounts.drop_last(), community).push(accounts.last())
    } else {
        accounts_in(accounts.drop_last(), community)
    }
}

/// Each name once, in the order of its first occurrence.
pub open spec fn first_occurrences(names: Seq<Seq<char>>) -> Seq<Seq<char>>
    decreases names.len(),
{
    if names.len() == 0 {
        names
    } else if first_occurrences(names.drop_last()).contains(names.last()) {
        first_occurrences(names.drop_last())
    } else {
        first_occurrences(names.drop_last()).push(names.last())
    }
}

/// The bets with the status of one of them replaced.
pub open spec fn with_status(
    bets: Seq<BetRecord>,
    community: Seq<char>,
    bet: Seq<char>,
    status: BetStatus,
) -> Seq<BetRecord> {
    Seq::new(
        bets.len(),
        |j: int|
            if bets[j].community == community && bets[j].id == bet {
                BetRecord { status, ..bets[j] }
            } else {
                bets[j]
            },
    )
}

// ---------------------------------------------------------------- accounts

/// Why opening the account is refused, if it is: the member has one there,
/// or the community would hold more than can be counted.
pub open spec fn create_account_fault(
    s: LedgerState,
    community: Seq<char>,
    member: Seq<char>,
    starting_balance: nat,
) -> Option<Fault> {
    if has_account(s.accounts, community, member) {
        Some(Fault::AlreadyExists)
    } else if community_funds(s.accounts, community) + starting_balance > u64::MAX {
        Some(Fault::CapacityExceeded)
    } else {
        None
    }
}

/// The pool with the account opened: `starting_balance` to spend, nothing
/// at stake.
pub open spec fn create_account_next(
    s: LedgerState,
    community: Seq<char>,
    member: Seq<char>,
    starting_balance: nat,
) -> LedgerState {
    LedgerState {
        accounts: s.accounts.push(
            AccountRecord { community, member, balance: starting_balance, staked: 0 },
        ),
        ..s
    }
}

/// What `member` can spend in `community`, or `NotFound`.
pub open spec fn balance_outcome(s: LedgerState, community: Seq<char>, member: Seq<char>) -> Result<
    nat,
    Fault,
> {
    if has_account(s.accounts, community, member) {
        Ok(account_of(s.accounts, community, member).balance)
    } else {
        Err(Fault::NotFound)
    }
}

/// Every account with `amount` added to its balance.
pub open spec fn with_income(accounts: Seq<AccountRecord>, amount: nat) -> Seq<AccountRecord> {
    Seq::new(
        accounts.len(),
        |i: int| AccountRecord { balance: accounts[i].balance + amount, ..accounts[i] },
    )
}

/// Why the grant is refused, if it is: some community would hold more than
/// can be counted.
pub open spec fn grant_income_fault(s: LedgerState, amount: nat) -> Option<Fault> {
    if exists|c: Seq<char>| #[trigger]
        community_funds(with_income(s.accounts, amount), c) > u64::MAX {
        Some(Fault::CapacityExceeded)
    } else {
        None
    }
}

/// The pool with `amount` granted to every account.
pub open spec fn grant_income_next(s: LedgerState, amount: nat) -> LedgerState {
    LedgerState { accounts: with_income(s.accounts, amount), ..s }
}

/// One entry for every account, each credited with `amount`.
pub open spec fn income_entries(accounts: Seq<AccountRecord>, amount: nat) -> Seq<UpdateRecord> {
    Seq::new(
        accounts.len(),
        |i: int|
            UpdateRecord {
                community: accounts[i].community,
                member: accounts[i].member,
                diff: amount as int,
                balance: accounts[i].balance + amount,
            },
    )
}

/// What the grant reports: one entry for every account of the pool.
pub open spec fn grant_income_updates(s: LedgerState, amount: nat) -> Seq<UpdateRecord> {
    income_entries(s.accounts, amount)
}

/// The accounts with those of `community` set back to `starting_balance` and
/// nothing at stake.
pub open spec fn with_reset(
    accounts: Seq<AccountRecord>,
    community: Seq<char>,
    starting_balance: nat,
) -> Seq<AccountRecord> {
    Seq::new(
        accounts.len(),
        |i: int|
            if accounts[i].community == community {
                AccountRecord { balance: starting_balance, staked: 0, ..accounts[i] }
            } else {
                accounts[i]
            },
    )
}

/// The bets with every open or locked bet of `community` aborted.
pub open spec fn with_all_aborted(bets: Seq<BetRecord>, community: Seq<char>) -> Seq<BetRecord> {
    Seq::new(
        bets.len(),
        |j: int|
            if bets[j].community == community && bets[j].status.is_active() {
                BetRecord { status: BetStatus::Aborted, ..bets[j] }
            } else {
                bets[j]
            },
    )
}

/// Why the reset is refused, if it is: the community would hold more than
/// can be counted.
pub open spec fn reset_all_fault(s: LedgerState, community: Seq<char>, starting_balance: nat) -> Option<
    Fault,
> {
    if community_funds(with_reset(s.accounts, community, starting_balance), community) > u64::MAX {
        Some(Fault::CapacityExceeded)
    } else {
        None
    }
}

/// The pool with `community` reset: its accounts set back, its open and
/// locked bets aborted, its wagers gone.
pub open spec fn reset_all_next(s: LedgerState, community: Seq<char>, starting_balance: nat) -> LedgerState {
    LedgerState {
        accounts: with_reset(s.accounts, community, starting_balance),
        bets: with_all_aborted(s.bets, community),
        wagers: without(s.wagers, Scope::of_community(community)),
    }
}

// -------------------------------------------------------------------- bets

/// Why registering the bet is refused, if it is: the community has a bet of
/// that identifier.
pub open spec fn register_bet_fault(s: LedgerState, community: Seq<char>, bet: Seq<char>) -> Option<
    Fault,
> {
    if has_bet(s.bets, community, bet) {
        Some(Fault::AlreadyExists)
    } else {
        None
    }
}

/// The pool with the bet registered: open, with each option once.
pub open spec fn register_bet_next(
    s: LedgerState,
    community: Seq<char>,
    bet: Seq<char>,
    options: Seq<Seq<char>>,
) -> LedgerState {
    LedgerState {
        bets: s.bets.push(
            BetRecord {
                community,
                id: bet,
                status: BetStatus::Open,
                options: first_occurrences(options),
            },
        ),
        ..s
    }
}

/// Why locking the bet is refused, if it is: the bet is not open.
pub open spec fn lock_bet_fault(s: LedgerState, community: Seq<char>, bet: Seq<char>) -> Option<Fault> {
    if status_of(s.bets, community, bet) == Some(BetStatus::Open) {
        None
    } else {
        Some(Fault::InvalidState)
    }
}

/// The pool with the bet locked.
pub open spec fn lock_bet_next(s: LedgerState, community: Seq<char>, bet: Seq<char>) -> LedgerState {
    LedgerState { bets: with_status(s.bets, community, bet, BetStatus::Locked), ..s }
}

/// Whether the bet at `j` is one of `community` that has the option.
pub open spec fn is_owner_at(bets: Seq<BetRecord>, j: int, community: Seq<char>, option: Seq<char>) -> bool {
    &&& 0 <= j < bets.len()
    &&& bets[j].community == community
    &&& bets[j].options.contains(option)
}

/// `j` is the first bet of the community that has the option.
pub open spec fn is_first_owner_at(
    bets: Seq<BetRecord>,
    j: int,
    community: Seq<char>,
    option: Seq<char>,
) -> bool {
    &&& is_owner_at(bets, j, community, option)
    &&& forall|i: int| 0 <= i < j ==> !is_owner_at(bets, i, community, option)
}

/// The bet that the option belongs to: the first bet of the community that
/// has it, or `NotFound`.
pub open spec fn bet_of_option_outcome(s: LedgerState, community: Seq<char>, option: Seq<char>) -> Result<
    Seq<char>,
    Fault,
> {
    if exists|j: int| is_owner_at(s.bets, j, community, option) {
        Ok(s.bets[choose|j: int| is_first_owner_at(s.bets, j, community, option)].id)
    } else {
        Err(Fault::NotFound)
    }
}

/// The options of the bet in their order, or `NotFound`.
pub open spec fn options_of_bet_outcome(s: LedgerState, community: Seq<char>, bet: Seq<char>) -> Result<
    Seq<Seq<char>>,
    Fault,
> {
    if has_bet(s.bets, community, bet) {
        Ok(bet_of(s.bets, community, bet).options)
    } else {
        Err(Fault::NotFound)
    }
}

// ------------------------------------------------------------------ wagers

/// Why the wager is refused, if it is. The checks come in this order: the
/// bet is open, the option is one of its options, the member has an account,
/// the member backs no other option of the bet, the balance covers the
/// amount.
pub open spec fn place_wager_fault(
    s: LedgerState,
    community: Seq<char>,
    bet: Seq<char>,
    option: Seq<char>,
    member: Seq<char>,
    amount: nat,
) -> Option<Fault> {
    if status_of(s.bets, community, bet) != Some(BetStatus::Open) {
        Some(Fault::InvalidState)
    } else if !bet_of(s.bets, community, bet).options.contains(option) {
        Some(Fault::UnknownOption)
    } else if !has_account(s.accounts, community, member) {
        Some(Fault::NotFound)
    } else if has_wager(s.wagers, community, bet, member) && wager_of(
        s.wagers,
        community,
        bet,
        member,
    ).option != option {
        Some(Fault::MultipleOptions(seq![wager_of(s.wagers, community, bet, member).option]))
    } else if account_of(s.accounts, community, member).balance < amount {
        Some(Fault::InsufficientFunds)
    } else {
        None
    }
}

/// The accounts with `amount` moved from the member's balance to its stake.
pub open spec fn with_stake_moved(
    accounts: Seq<AccountRecord>,
    community: Seq<char>,
    member: Seq<char>,
    amount: nat,
) -> Seq<AccountRecord> {
    Seq::new(
        accounts.len(),
        |i: int|
            if accounts[i].community == community && accounts[i].member == member {
                AccountRecord {
                    balance: (accounts[i].balance - amount) as nat,
                    staked: accounts[i].staked + amount,
                    ..accounts[i]
                }
            } else {
                accounts[i]
            },
    )
}

/// The wagers with `amount` added to the member's wager on the bet, which is
/// created where there was none.
pub open spec fn with_wager_raised(
    ws: Seq<WagerRecord>,
    community: Seq<char>,
    bet: Seq<char>,
    option: Seq<char>,
    member: Seq<char>,
    amount: nat,
) -> Seq<WagerRecord> {
    if has_wager(ws, community, bet, member) {
        Seq::new(
            ws.len(),
            |k: int|
                if ws[k].community == community && ws[k].bet == bet && ws[k].member == member {
                    WagerRecord { amount: ws[k].amount + amount, ..ws[k] }
                } else {
                    ws[k]
                },
        )
    } else {
        ws.push(WagerRecord { community, bet, member, option, amount })
    }
}

/// The pool with the wager placed.
pub open spec fn place_wager_next(
    s: LedgerState,
    community: Seq<char>,
    bet: Seq<char>,
    option: Seq<char>,
    member: Seq<char>,
    amount: nat,
) -> LedgerState {
    LedgerState {
        accounts: with_stake_moved(s.accounts, community, member, amount),
        bets: s.bets,
        wagers: with_wager_raised(s.wagers, community, bet, option, member, amount),
    }
}

/// What placing the wager reports of the account: `amount` less to spend.
pub open spec fn place_wager_update(
    s: LedgerState,
    community: Seq<char>,
    member: Seq<char>,
    amount: nat,
) -> UpdateRecord {
    UpdateRecord {
        community,
        member,
        diff: -(amount as int),
        balance: (account_of(s.accounts, community, member).balance - amount) as nat,
    }
}

/// The stake on each of `options`, in their order.
pub open spec fn tally_entries(
    ws: Seq<WagerRecord>,
    community: Seq<char>,
    bet: Seq<char>,
    options: Seq<Seq<char>>,
) -> Seq<TallyRecord> {
    Seq::new(
        options.len(),
        |i: int|
            TallyRecord { option: options[i], staked: backing(ws, community, bet, options[i]) },
    )
}

/// The stake on each option of a bet, in the order of its options.
pub open spec fn tally(s: LedgerState, community: Seq<char>, bet: Seq<char>) -> Seq<TallyRecord> {
    tally_entries(s.wagers, community, bet, bet_of(s.bets, community, bet).options)
}

/// Why aborting the bet is refused, if it is: the bet is neither open nor
/// locked.
pub open spec fn abort_bet_fault(s: LedgerState, community: Seq<char>, bet: Seq<char>) -> Option<Fault> {
    match status_of(s.bets, community, bet) {
        Some(status) => if status.is_active() {
            None
        } else {
            Some(Fault::InvalidState)
        },
        None => Some(Fault::InvalidState),
    }
}

/// The accounts of `community` with every stake on the bet released, and
/// each credited with what `measure` gives to the wagers of its member that
/// `credited` covers.
pub open spec fn with_credits(
    accounts: Seq<AccountRecord>,
    ws: Seq<WagerRecord>,
    community: Seq<char>,
    bet: Seq<char>,
    credited: Scope,
    measure: Measure,
) -> Seq<AccountRecord> {
    Seq::new(
        accounts.len(),
        |i: int|
            if accounts[i].community == community {
                AccountRecord {
                    balance: accounts[i].balance + wager_sum(
                        ws,
                        credited.for_member(accounts[i].member),
                        measure,
                    ),
                    staked: (accounts[i].staked - stake_in_bet(
                        ws,
                        community,
                        bet,
                        accounts[i].member,
                    )) as nat,
                    ..accounts[i]
                }
            } else {
                accounts[i]
            },
    )
}

/// One entry for each of the `credited` wagers, in order: what `measure`
/// gives it and the balance that this leaves its member.
pub open spec fn credit_entries(
    accounts: Seq<AccountRecord>,
    credited: Seq<WagerRecord>,
    community: Seq<char>,
    measure: Measure,
) -> Seq<UpdateRecord> {
    Seq::new(
        credited.len(),
        |k: int|
            UpdateRecord {
                community,
                member: credited[k].member,
                diff: weigh(measure, credited[k]) as int,
                balance: account_of(accounts, community, credited[k].member).balance + weigh(
                    measure,
                    credited[k],
                ),
            },
    )
}

/// The accounts with every stake on the bet handed back.
pub open spec fn with_refunds(
    accounts: Seq<AccountRecord>,
    ws: Seq<WagerRecord>,
    community: Seq<char>,
    bet: Seq<char>,
) -> Seq<AccountRecord> {
    with_credits(accounts, ws, community, bet, Scope::of_bet(community, bet), Measure::Stake)
}

/// The pool with the bet aborted: every stake on it handed back, its wagers
/// gone.
pub open spec fn abort_bet_next(s: LedgerState, community: Seq<char>, bet: Seq<char>) -> LedgerState {
    LedgerState {
        accounts: with_refunds(s.accounts, s.wagers, community, bet),
        bets: with_status(s.bets, community, bet, BetStatus::Aborted),
        wagers: without(s.wagers, Scope::of_bet(community, bet)),
    }
}

/// One entry for every wager on the bet, in order: the stake handed back and
/// the balance it leaves.
pub open spec fn abort_bet_updates(s: LedgerState, community: Seq<char>, bet: Seq<char>) -> Seq<
    UpdateRecord,
> {
    credit_entries(
        s.accounts,
        within(s.wagers, Scope::of_bet(community, bet)),
        community,
        Measure::Stake,
    )
}

/// Why closing the bet is refused, if it is: the bet is not locked, or the
/// option is none of its options.
pub open spec fn close_bet_fault(
    s: LedgerState,
    community: Seq<char>,
    bet: Seq<char>,
    option: Seq<char>,
) -> Option<Fault> {
    if status_of(s.bets, community, bet) != Some(BetStatus::Locked) {
        Some(Fault::InvalidState)
    } else if !bet_of(s.bets, community, bet).options.contains(option) {
        Some(Fault::UnknownOption)
    } else {
        None
    }
}

/// The accounts with every stake on the bet released and the winners
/// credited with their share of the pot.
pub open spec fn with_payouts(
    accounts: Seq<AccountRecord>,
    ws: Seq<WagerRecord>,
    community: Seq<char>,
    bet: Seq<char>,
    option: Seq<char>,
) -> Seq<AccountRecord> {
    with_credits(
        accounts,
        ws,
        community,
        bet,
        Scope::of_option(community, bet, option),
        share_of(ws, community, bet, option),
    )
}

/// The pool with the bet closed on `option`: the winners credited, every
/// stake on the bet released, its wagers gone.
pub open spec fn close_bet_next(
    s: LedgerState,
    community: Seq<char>,
    bet: Seq<char>,
    option: Seq<char>,
) -> LedgerState {
    LedgerState {
        accounts: with_payouts(s.accounts, s.wagers, community, bet, option),
        bets: with_status(s.bets, community, bet, BetStatus::Closed),
        wagers: without(s.wagers, Scope::of_bet(community, bet)),
    }
}

/// One entry for every wager on the winning option, in order: the credit it
/// earned and the balance it leaves.
pub open spec fn close_bet_updates(
    s: LedgerState,
    community: Seq<char>,
    bet: Seq<char>,
    option: Seq<char>,
) -> Seq<UpdateRecord> {
    credit_entries(
        s.accounts,
        within(s.wagers, Scope::of_option(community, bet, option)),
        community,
        share_of(s.wagers, community, bet, option),
    )
}

/// The sum of the changes that a list of updates reports.
pub open spec fn total_diff(updates: Seq<UpdateRecord>) -> int
    decreases updates.len(),
{
    if updates.len() == 0 {
        0
    } else {
        total_diff(updates.drop_last()) + updates.last().diff
    }
}

} // verus!
