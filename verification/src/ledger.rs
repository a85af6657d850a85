//! The pool itself: accounts, bets and wagers behind one set of operations,
//! each of which takes effect as a whole or not at all.

use crate::accounts::{
    accounts_of, community_total, credit_all, find_account, income_fits, reset_accounts,
    reset_fits,
};
use crate::audit::{copy_accounts, copy_bets, copy_wagers, is_sound, Snapshot};
use crate::bounds::{lemma_accounts_fit, lemma_all_stakes_fit, lemma_wagers_fit};
use crate::lookup::{lemma_account_at, lemma_bet_at, lemma_first_occurrences, lemma_wager_at};
use crate::model::{
    account_of, bet_of, has_account, is_account_at, is_bet_at, is_wager_at, share_of, stake_in_bet,
    status_of, BetStatus, LedgerState, Measure, Scope,
};
use crate::preserve::{
    abort_bet_keeps_wf, close_bet_keeps_wf, create_account_keeps_wf, grant_income_keeps_wf,
    lock_bet_keeps_wf, place_wager_keeps_wf, register_bet_keeps_wf, reset_all_keeps_wf,
};
use crate::rules::{
    abort_bet_fault, abort_bet_next, abort_bet_updates, accounts_in, balance_outcome,
    bet_of_option_outcome, close_bet_fault, close_bet_next, close_bet_updates,
    create_account_fault, create_account_next, grant_income_fault, grant_income_next,
    grant_income_updates, is_first_owner_at, is_owner_at, lock_bet_fault, lock_bet_next,
    options_of_bet_outcome, place_wager_fault, place_wager_next, place_wager_update,
    register_bet_fault, register_bet_next, reset_all_fault, reset_all_next, tally,
};
use crate::sums::{lemma_sum_element, lemma_sum_narrow};
use crate::types::{
    account_records, bet_records, copy_names, holds_name, names, tally_records, update_records,
    wager_records, Account, AccountUpdate, Bet, LedgerError, OptionTally, Wager,
};
use crate::wagers::{
    abort_active, credit_measure, distinct_names, find_bet, find_wager, raise_wager, scope_of,
    set_status, settle, staked_on, tally_of, wagers_outside,
};
use vstd::prelude::*;

verus! {

/// The wagering pool of any number of communities.
pub struct Ledger {
    accounts: Vec<Account>,
    bets: Vec<Bet>,
    wagers: Vec<Wager>,
}

impl View for Ledger {
    type V = LedgerState;

    closed spec fn view(&self) -> LedgerState {
        LedgerState {
            accounts: account_records(self.accounts@),
            bets: bet_records(self.bets@),
            wagers: wager_records(self.wagers@),
        }
    }
}

impl Ledger {
    /// A pool with no account and no bet.
    pub fn new() -> (ledger: Ledger)
        ensures
            ledger@ == LedgerState::empty(),
            ledger@.wf(),
    {
        let ledger = Ledger { accounts: Vec::new(), bets: Vec::new(), wagers: Vec::new() };
        proof {
            assert(ledger@.accounts =~= Seq::empty());
            assert(ledger@.bets =~= Seq::empty());
            assert(ledger@.wagers =~= Seq::empty());
        }
        ledger
    }

    /// The accounts, bets and wagers of the pool as plain records, to be
    /// stored.
    pub fn snapshot(&self) -> (snapshot: Snapshot)
        ensures
            snapshot@ == self@,
    {
        Snapshot {
            accounts: copy_accounts(&self.accounts),
            bets: copy_bets(&self.bets),
            wagers: copy_wagers(&self.wagers),
        }
    }

    /// The pool that a snapshot was taken of.
    ///
    /// Refused with `StorageError` where the records are no state of a pool:
    /// where they break its invariant.
    pub fn restore(snapshot: Snapshot) -> (res: Result<Ledger, LedgerError>)
        ensures
            match res {
                Ok(ledger) => snapshot@.wf() && ledger@ == snapshot@,
                Err(e) => !snapshot@.wf() && e == LedgerError::StorageError,
            },
    {
        if is_sound(&snapshot) {
            Ok(Ledger { accounts: snapshot.accounts, bets: snapshot.bets, wagers: snapshot.wagers })
        } else {
            Err(LedgerError::StorageError)
        }
    }

    /// Opens an account for `member` in `community` with `starting_balance`
    /// to spend and nothing at stake.
    ///
    /// Refused with `AlreadyExists` where the member has an account there,
    /// and with `CapacityExceeded` where the community would then hold more
    /// than `u64::MAX`.
    pub fn create_account(&mut self, community: &str, member: &str, starting_balance: u64) -> (res:
        Result<(), LedgerError>)
        requires
            old(self)@.wf(),
        ensures
            final(self)@.wf(),
            match create_account_fault(old(self)@, community@, member@, starting_balance as nat) {
                Some(fault) => res matches Err(e) && e@ == fault && final(self)@ == old(self)@,
                None => res is Ok && final(self)@ == create_account_next(
                    old(self)@,
                    community@,
                    member@,
                    starting_balance as nat,
                ),
            },
    {
        let community = community.to_owned();
        let member = member.to_owned();
        if find_account(&self.accounts, &community, &member).is_some() {
            return Err(LedgerError::AlreadyExists);
        }
        let held = community_total(&self.accounts, &community);
        if starting_balance > u64::MAX - held {
            return Err(LedgerError::CapacityExceeded);
        }
        proof {
            create_account_keeps_wf(self@, community@, member@, starting_balance as nat);
        }
        let ghost before = self@;
        self.accounts.push(Account { community, member, balance: starting_balance, staked: 0 });
        proof {
            assert(self@.accounts =~= create_account_next(
                before,
                community@,
                member@,
                starting_balance as nat,
            ).accounts);
        }
        Ok(())
    }

    /// What `member` can spend in `community`; `NotFound` where the member
    /// has no account there.
    pub fn balance(&self, community: &str, member: &str) -> (res: Result<u64, LedgerError>)
        requires
            self@.wf(),
        ensures
            match balance_outcome(self@, community@, member@) {
                Ok(amount) => res == Ok::<u64, LedgerError>(amount as u64) && amount <= u64::MAX,
                Err(fault) => res matches Err(e) && e@ == fault,
            },
    {
        let community = community.to_owned();
        let member = member.to_owned();
        match find_account(&self.accounts, &community, &member) {
            Some(i) => {
                proof {
                    lemma_account_at(self@.accounts, i as int, community@, member@);
                }
                Ok(self.accounts[i].balance)
            },
            None => Err(LedgerError::NotFound),
        }
    }

    /// The account of `member` in `community`, with what it can spend and
    /// what it has at stake; `NotFound` where there is none.
    pub fn account(&self, community: &str, member: &str) -> (res: Result<Account, LedgerError>)
        requires
            self@.wf(),
        ensures
            match res {
                Ok(found) => has_account(self@.accounts, community@, member@) && found@
                    == account_of(self@.accounts, community@, member@),
                Err(e) => !has_account(self@.accounts, community@, member@) && e
                    == LedgerError::NotFound,
            },
    {
        let community = community.to_owned();
        let member = member.to_owned();
        match find_account(&self.accounts, &community, &member) {
            Some(i) => {
                proof {
                    lemma_account_at(self@.accounts, i as int, community@, member@);
                }
                Ok(
                    Account {
                        community,
                        member,
                        balance: self.accounts[i].balance,
                        staked: self.accounts[i].staked,
                    },
                )
            },
            None => Err(LedgerError::NotFound),
        }
    }

    /// The accounts of `community`, in the order they were opened.
    pub fn list_accounts(&self, community: &str) -> (list: Vec<Account>)
        ensures
            account_records(list@) == accounts_in(self@.accounts, community@),
    {
        let community = community.to_owned();
        accounts_of(&self.accounts, &community)
    }

    /// Registers the bet `bet_id` in `community`, open, with the given
    /// options, each taken once in the order of its first occurrence.
    ///
    /// Refused with `AlreadyExists` where the community has a bet of that
    /// identifier.
    pub fn register_bet(&mut self, community: &str, bet_id: &str, option_ids: &Vec<String>) -> (res:
        Result<(), LedgerError>)
        requires
            old(self)@.wf(),
        ensures
            final(self)@.wf(),
            match register_bet_fault(old(self)@, community@, bet_id@) {
                Some(fault) => res matches Err(e) && e@ == fault && final(self)@ == old(self)@,
                None => res is Ok && final(self)@ == register_bet_next(
                    old(self)@,
                    community@,
                    bet_id@,
                    names(option_ids@),
                ),
            },
            res is Ok && names(option_ids@).no_duplicates() ==> bet_of(
                final(self)@.bets,
                community@,
                bet_id@,
            ).options == names(option_ids@),
    {
        let community = community.to_owned();
        let id = bet_id.to_owned();
        if find_bet(&self.bets, &community, &id).is_some() {
            return Err(LedgerError::AlreadyExists);
        }
        let options = distinct_names(option_ids);
        let ghost before = self@;
        proof {
            register_bet_keeps_wf(before, community@, id@, names(option_ids@));
            lemma_first_occurrences(names(option_ids@));
        }
        self.bets.push(Bet { community, id, status: BetStatus::Open, options });
        proof {
            let after = register_bet_next(before, community@, id@, names(option_ids@));
            assert(self@.bets =~= after.bets);
            assert(is_bet_at(after.bets, before.bets.len() as int, community@, id@));
            lemma_bet_at(after.bets, before.bets.len() as int, community@, id@);
        }
        Ok(())
    }

    /// Locks an open bet, so that it takes no more wagers.
    ///
    /// Refused with `InvalidState` unless the bet is open.
    pub fn lock_bet(&mut self, community: &str, bet_id: &str) -> (res: Result<(), LedgerError>)
        requires
            old(self)@.wf(),
        ensures
            final(self)@.wf(),
            match lock_bet_fault(old(self)@, community@, bet_id@) {
                Some(fault) => res matches Err(e) && e@ == fault && final(self)@ == old(self)@,
                None => res is Ok && final(self)@ == lock_bet_next(old(self)@, community@, bet_id@),
            },
    {
        let community = community.to_owned();
        let id = bet_id.to_owned();
        let ghost before = self@;
        let j = match find_bet(&self.bets, &community, &id) {
            Some(j) => j,
            None => {
                return Err(LedgerError::InvalidState);
            },
        };
        proof {
            lemma_bet_at(before.bets, j as int, community@, id@);
        }
        match self.bets[j].status {
            BetStatus::Open => {},
            _ => {
                return Err(LedgerError::InvalidState);
            },
        }
        proof {
            lock_bet_keeps_wf(before, community@, id@);
        }
        self.bets[j].status = BetStatus::Locked;
        proof {
            let after = lock_bet_next(before, community@, id@);
            assert forall|i: int| 0 <= i < before.bets.len() implies self@.bets[i]
                == after.bets[i] by {
                if i != j && is_bet_at(before.bets, i, community@, id@) {
                    lemma_bet_at(before.bets, i, community@, id@);
                }
            }
            assert(self@.bets =~= after.bets);
        }
        Ok(())
    }

    /// The bet that `option_id` belongs to: the first registered bet of
    /// `community` that has it. `NotFound` where no bet has it.
    pub fn bet_of_option(&self, community: &str, option_id: &str) -> (res: Result<
        String,
        LedgerError,
    >)
        ensures
            match bet_of_option_outcome(self@, community@, option_id@) {
                Ok(id) => res matches Ok(found) && found@ == id,
                Err(fault) => res matches Err(e) && e@ == fault,
            },
    {
        let in_community = community.to_owned();
        let option = option_id.to_owned();
        let ghost bets = self@.bets;
        let mut j: usize = 0;
        while j < self.bets.len()
            invariant
                j <= self.bets.len(),
                bets == bet_records(self.bets@),
                bets == self@.bets,
                in_community@ == community@,
                option@ == option_id@,
                forall|i: int| 0 <= i < j ==> !is_owner_at(bets, i, community@, option@),
            decreases self.bets.len() - j,
        {
            if self.bets[j].community == in_community && holds_name(&self.bets[j].options, &option) {
                proof {
                    assert(is_first_owner_at(bets, j as int, community@, option@));
                    let first = choose|i: int| is_first_owner_at(bets, i, community@, option@);
                    assert(is_owner_at(bets, first, community@, option@));
                    assert(first == j);
                }
                return Ok(self.bets[j].id.clone());
            }
            j += 1;
        }
        Err(LedgerError::NotFound)
    }

    /// The options of a bet, in the order they were registered; `NotFound`
    /// where the community has no such bet.
    pub fn options_of_bet(&self, community: &str, bet_id: &str) -> (res: Result<
        Vec<String>,
        LedgerError,
    >)
        requires
            self@.wf(),
        ensures
            match options_of_bet_outcome(self@, community@, bet_id@) {
                Ok(options) => res matches Ok(found) && names(found@) == options,
                Err(fault) => res matches Err(e) && e@ == fault,
            },
    {
        let community = community.to_owned();
        let id = bet_id.to_owned();
        match find_bet(&self.bets, &community, &id) {
            Some(j) => {
                proof {
                    lemma_bet_at(self@.bets, j as int, community@, id@);
                }
                Ok(copy_names(&self.bets[j].options))
            },
            None => Err(LedgerError::NotFound),
        }
    }

    /// The status of a bet, or `None` where the community has no such bet.
    pub fn bet_status(&self, community: &str, bet_id: &str) -> (status: Option<BetStatus>)
        requires
            self@.wf(),
        ensures
            status == status_of(self@.bets, community@, bet_id@),
    {
        let community = community.to_owned();
        let id = bet_id.to_owned();
        match find_bet(&self.bets, &community, &id) {
            Some(j) => {
                proof {
                    lemma_bet_at(self@.bets, j as int, community@, id@);
                }
                Some(self.bets[j].status)
            },
            None => None,
        }
    }
}

impl Ledger {
    /// Stakes `amount` of the member's balance on one option of an open bet.
    /// A member backs one option of a bet only: a further wager on the same
    /// option raises the stake, one on another option is refused.
    ///
    /// Refused, in this order, with `InvalidState` unless the bet is open,
    /// `UnknownOption` where the option is none of the bet's, `NotFound`
    /// where the member has no account in the community, `MultipleOptions`
    /// with the option held where the member backs another one, and
    /// `InsufficientFunds` where the balance is below `amount`.
    ///
    /// Returns the change to the account and the stake on each option of the
    /// bet after it.
    pub fn place_wager(
        &mut self,
        community: &str,
        bet_id: &str,
        option_id: &str,
        member: &str,
        amount: u64,
    ) -> (res: Result<(AccountUpdate, Vec<OptionTally>), LedgerError>)
        requires
            old(self)@.wf(),
            amount > 0,
        ensures
            final(self)@.wf(),
            match place_wager_fault(
                old(self)@,
                community@,
                bet_id@,
                option_id@,
                member@,
                amount as nat,
            ) {
                Some(fault) => res matches Err(e) && e@ == fault && final(self)@ == old(self)@,
                None => res matches Ok(done) && done.0@ == place_wager_update(
                    old(self)@,
                    community@,
                    member@,
                    amount as nat,
                ) && tally_records(done.1@) == tally(final(self)@, community@, bet_id@)
                    && final(self)@ == place_wager_next(
                    old(self)@,
                    community@,
                    bet_id@,
                    option_id@,
                    member@,
                    amount as nat,
                ),
            },
    {
        let community = community.to_owned();
        let bet = bet_id.to_owned();
        let option = option_id.to_owned();
        let member = member.to_owned();
        let ghost s = self@;
        let j = match find_bet(&self.bets, &community, &bet) {
            Some(j) => j,
            None => {
                return Err(LedgerError::InvalidState);
            },
        };
        proof {
            lemma_bet_at(s.bets, j as int, community@, bet@);
        }
        match self.bets[j].status {
            BetStatus::Open => {},
            _ => {
                return Err(LedgerError::InvalidState);
            },
        }
        if !holds_name(&self.bets[j].options, &option) {
            return Err(LedgerError::UnknownOption);
        }
        let i = match find_account(&self.accounts, &community, &member) {
            Some(i) => i,
            None => {
                return Err(LedgerError::NotFound);
            },
        };
        proof {
            lemma_account_at(s.accounts, i as int, community@, member@);
        }
        if let Some(k) = find_wager(&self.wagers, &community, &bet, &member) {
            proof {
                lemma_wager_at(s.wagers, k as int, community@, bet@, member@);
            }
            if !(self.wagers[k].option == option) {
                let mut held: Vec<String> = Vec::new();
                held.push(self.wagers[k].option.clone());
                proof {
                    assert(names(held@) =~= seq![s.wagers[k as int].option]);
                }
                return Err(LedgerError::MultipleOptions(held));
            }
        }
        if self.accounts[i].balance < amount {
            return Err(LedgerError::InsufficientFunds);
        }
        let ghost t = place_wager_next(s, community@, bet@, option@, member@, amount as nat);
        proof {
            place_wager_keeps_wf(s, community@, bet@, option@, member@, amount as nat);
            lemma_accounts_fit(t);
            lemma_wagers_fit(t);
            lemma_all_stakes_fit(t);
            assert(t.accounts[i as int].staked == s.accounts[i as int].staked + amount);
            assert forall|k: int|
                is_wager_at(s.wagers, k, community@, bet@, member@) implies self.wagers[k].amount
                + amount <= u64::MAX by {
                assert(t.wagers[k].amount == s.wagers[k].amount + amount);
            }
        }
        self.accounts[i].balance = self.accounts[i].balance - amount;
        self.accounts[i].staked = self.accounts[i].staked + amount;
        proof {
            assert forall|q: int| 0 <= q < s.accounts.len() implies account_records(
                self.accounts@,
            )[q] == t.accounts[q] by {
                if q != i && is_account_at(s.accounts, q, community@, member@) {
                    lemma_account_at(s.accounts, q, community@, member@);
                }
            }
            assert(account_records(self.accounts@) =~= t.accounts);
        }
        let update = AccountUpdate {
            community: community.clone(),
            member: member.clone(),
            diff: -(amount as i128),
            balance: self.accounts[i].balance,
        };
        raise_wager(&mut self.wagers, community.clone(), bet.clone(), option, member, amount);
        let tally = tally_of(&self.wagers, &community, &bet, &self.bets[j].options);
        proof {
            assert(self@ == t);
            lemma_bet_at(t.bets, j as int, community@, bet@);
        }
        Ok((update, tally))
    }

    /// Aborts a bet that is open or locked and hands every stake on it back.
    ///
    /// Refused with `InvalidState` where the bet is aborted or closed
    /// already, or was never registered.
    ///
    /// Returns one entry for each wager refunded, in the order the wagers
    /// were first placed.
    pub fn abort_bet(&mut self, community: &str, bet_id: &str) -> (res: Result<
        Vec<AccountUpdate>,
        LedgerError,
    >)
        requires
            old(self)@.wf(),
        ensures
            final(self)@.wf(),
            match abort_bet_fault(old(self)@, community@, bet_id@) {
                Some(fault) => res matches Err(e) && e@ == fault && final(self)@ == old(self)@,
                None => res matches Ok(updates) && update_records(updates@) == abort_bet_updates(
                    old(self)@,
                    community@,
                    bet_id@,
                ) && final(self)@ == abort_bet_next(old(self)@, community@, bet_id@),
            },
    {
        let community = community.to_owned();
        let bet = bet_id.to_owned();
        let ghost s = self@;
        let j = match find_bet(&self.bets, &community, &bet) {
            Some(j) => j,
            None => {
                return Err(LedgerError::InvalidState);
            },
        };
        proof {
            lemma_bet_at(s.bets, j as int, community@, bet@);
        }
        match self.bets[j].status {
            BetStatus::Open => {},
            BetStatus::Locked => {},
            _ => {
                return Err(LedgerError::InvalidState);
            },
        }
        let ghost t = abort_bet_next(s, community@, bet@);
        proof {
            abort_bet_keeps_wf(s, community@, bet@);
            lemma_accounts_fit(t);
            lemma_settlement_ready(s, community@, bet@);
            assert(scope_of(community@, Some(&bet), None) == Scope::of_bet(community@, bet@));
        }
        set_status(&mut self.bets, j, BetStatus::Aborted);
        let (kept, updates) = settle(&mut self.accounts, &self.wagers, &community, &bet, None, 0, 0);
        self.wagers = kept;
        proof {
            assert(self@ == t);
        }
        Ok(updates)
    }

    /// Closes a locked bet on its winning option. The winners share the whole
    /// pot in proportion to their stakes, each credit rounded down; every
    /// other stake is forfeit, and so is the whole pot where nobody backed
    /// the winner. What rounding leaves over is credited to nobody.
    ///
    /// Refused with `InvalidState` unless the bet is locked, and with
    /// `UnknownOption` where the option is none of the bet's.
    ///
    /// Returns one entry for each winning wager, in the order the wagers were
    /// first placed.
    pub fn close_bet(&mut self, community: &str, bet_id: &str, winning_option_id: &str) -> (res:
        Result<Vec<AccountUpdate>, LedgerError>)
        requires
            old(self)@.wf(),
        ensures
            final(self)@.wf(),
            match close_bet_fault(old(self)@, community@, bet_id@, winning_option_id@) {
                Some(fault) => res matches Err(e) && e@ == fault && final(self)@ == old(self)@,
                None => res matches Ok(updates) && update_records(updates@) == close_bet_updates(
                    old(self)@,
                    community@,
                    bet_id@,
                    winning_option_id@,
                ) && final(self)@ == close_bet_next(
                    old(self)@,
                    community@,
                    bet_id@,
                    winning_option_id@,
                ),
            },
    {
        let community = community.to_owned();
        let bet = bet_id.to_owned();
        let option = winning_option_id.to_owned();
        let ghost s = self@;
        let j = match find_bet(&self.bets, &community, &bet) {
            Some(j) => j,
            None => {
                return Err(LedgerError::InvalidState);
            },
        };
        proof {
            lemma_bet_at(s.bets, j as int, community@, bet@);
        }
        match self.bets[j].status {
            BetStatus::Locked => {},
            _ => {
                return Err(LedgerError::InvalidState);
            },
        }
        if !holds_name(&self.bets[j].options, &option) {
            return Err(LedgerError::UnknownOption);
        }
        proof {
            lemma_all_stakes_fit(s);
            assert(scope_of(community@, Some(&bet), None) == Scope::of_bet(community@, bet@));
            assert(scope_of(community@, Some(&bet), Some(&option)) == Scope::of_option(
                community@,
                bet@,
                option@,
            ));
        }
        let total = staked_on(&self.wagers, &community, Some(&bet), None);
        let winning = staked_on(&self.wagers, &community, Some(&bet), Some(&option));
        let ghost t = close_bet_next(s, community@, bet@, option@);
        proof {
            close_bet_keeps_wf(s, community@, bet@, option@);
            lemma_accounts_fit(t);
            lemma_settlement_ready(s, community@, bet@);
            assert(credit_measure(Some(&option), total, winning) == share_of(
                s.wagers,
                community@,
                bet@,
                option@,
            ));
            assert forall|k: int|
                0 <= k < s.wagers.len() && Scope::of_option(community@, bet@, option@).covers(
                    #[trigger] s.wagers[k],
                ) implies s.wagers[k].amount <= winning by {
                lemma_sum_element(
                    s.wagers,
                    k,
                    Scope::of_option(community@, bet@, option@),
                    Measure::Stake,
                );
            }
        }
        set_status(&mut self.bets, j, BetStatus::Closed);
        let (kept, updates) = settle(
            &mut self.accounts,
            &self.wagers,
            &community,
            &bet,
            Some(&option),
            total,
            winning,
        );
        self.wagers = kept;
        proof {
            assert(self@ == t);
        }
        Ok(updates)
    }

    /// Adds `amount` to the balance of every account of every community: the
    /// one way new currency enters the pool. Either every account is
    /// credited or none is.
    ///
    /// Refused with `CapacityExceeded` where some community would then hold
    /// more than `u64::MAX`.
    ///
    /// Returns one entry for each account, in the order the accounts were
    /// opened.
    pub fn grant_income(&mut self, amount: u64) -> (res: Result<Vec<AccountUpdate>, LedgerError>)
        requires
            old(self)@.wf(),
        ensures
            final(self)@.wf(),
            match grant_income_fault(old(self)@, amount as nat) {
                Some(fault) => res matches Err(e) && e@ == fault && final(self)@ == old(self)@,
                None => res matches Ok(updates) && update_records(updates@) == grant_income_updates(
                    old(self)@,
                    amount as nat,
                ) && final(self)@ == grant_income_next(old(self)@, amount as nat),
            },
    {
        let ghost s = self@;
        if !income_fits(&self.accounts, amount) {
            return Err(LedgerError::CapacityExceeded);
        }
        let ghost t = grant_income_next(s, amount as nat);
        proof {
            grant_income_keeps_wf(s, amount as nat);
            lemma_accounts_fit(t);
            assert forall|i: int| 0 <= i < self.accounts.len() implies self.accounts[i].balance
                + amount <= u64::MAX by {
                assert(t.accounts[i].balance == s.accounts[i].balance + amount);
            }
        }
        let updates = credit_all(&mut self.accounts, amount);
        proof {
            assert(self@ == t);
        }
        Ok(updates)
    }

    /// Sets every account of `community` back to `starting_balance` with
    /// nothing at stake. Every bet of the community that is open or locked is
    /// aborted first, without refunds, so that no wager is left on a bet
    /// whose stakes the accounts no longer record.
    ///
    /// Refused with `CapacityExceeded` where the community would then hold
    /// more than `u64::MAX`.
    pub fn reset_all(&mut self, community: &str, starting_balance: u64) -> (res: Result<
        (),
        LedgerError,
    >)
        requires
            old(self)@.wf(),
        ensures
            final(self)@.wf(),
            match reset_all_fault(old(self)@, community@, starting_balance as nat) {
                Some(fault) => res matches Err(e) && e@ == fault && final(self)@ == old(self)@,
                None => res is Ok && final(self)@ == reset_all_next(
                    old(self)@,
                    community@,
                    starting_balance as nat,
                ),
            },
    {
        let community = community.to_owned();
        let ghost s = self@;
        if !reset_fits(&self.accounts, &community, starting_balance) {
            return Err(LedgerError::CapacityExceeded);
        }
        let ghost t = reset_all_next(s, community@, starting_balance as nat);
        proof {
            reset_all_keeps_wf(s, community@, starting_balance as nat);
            assert(scope_of(community@, None, None) == Scope::of_community(community@));
        }
        reset_accounts(&mut self.accounts, &community, starting_balance);
        abort_active(&mut self.bets, &community);
        let kept = wagers_outside(&self.wagers, &community, None);
        self.wagers = kept;
        proof {
            assert(self@ == t);
        }
        Ok(())
    }
}

/// What settling a bet relies on: every wager on it belongs to an account,
/// and no account has more at stake on it than it records.
proof fn lemma_settlement_ready(s: LedgerState, community: Seq<char>, bet: Seq<char>)
    requires
        s.wf(),
    ensures
        forall|k: int|
            0 <= k < s.wagers.len() && Scope::of_bet(community, bet).covers(
                #[trigger] s.wagers[k],
            ) ==> has_account(s.accounts, community, s.wagers[k].member),
        forall|i: int|
            0 <= i < s.accounts.len() && (#[trigger] s.accounts[i]).community == community
                ==> stake_in_bet(s.wagers, community, bet, s.accounts[i].member)
                <= s.accounts[i].staked,
{
    assert forall|k: int|
        0 <= k < s.wagers.len() && Scope::of_bet(community, bet).covers(
            #[trigger] s.wagers[k],
        ) implies has_account(s.accounts, community, s.wagers[k].member) by {
        assert(s.lawful_wager(s.wagers[k]));
    }
    assert forall|i: int|
        0 <= i < s.accounts.len() && (#[trigger] s.accounts[i]).community
            == community implies stake_in_bet(s.wagers, community, bet, s.accounts[i].member)
        <= s.accounts[i].staked by {
        let m = s.accounts[i].member;
        lemma_sum_narrow(
            s.wagers,
            Scope::of_bet(community, bet).for_member(m),
            Scope::of_member(community, m),
            Measure::Stake,
        );
    }
}

} // verus!
