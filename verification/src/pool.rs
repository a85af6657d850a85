//! The pool as its callers use it: the ledger together with the settings it
//! is run with.

use crate::ledger::Ledger;
use crate::model::LedgerState;
use crate::rules::{
    bet_of_option_outcome, close_bet_fault, close_bet_next, close_bet_updates,
    create_account_fault, create_account_next, grant_income_fault, grant_income_next,
    grant_income_updates, place_wager_fault, place_wager_next, place_wager_update, reset_all_fault,
    reset_all_next, tally,
};
use crate::types::{tally_records, update_records, AccountUpdate, LedgerError, OptionTally};
use vstd::prelude::*;

verus! {

/// The settings of a pool.
#[derive(Debug, Clone, PartialEq, Eq)]
pub struct Config {
    /// What a new account can spend, and what a reset sets accounts back to.
    pub starting_balance: u64,
    /// What every account is granted at each round of income.
    pub income: u64,
    /// The stakes that members can choose from.
    pub bet_amounts: Vec<u64>,
    /// The name of the currency.
    pub currency: String,
}

/// A ledger run with fixed settings.
pub struct Pool {
    pub ledger: Ledger,
    pub config: Config,
}

impl Pool {
    /// An empty pool with the given settings.
    pub fn new(config: Config) -> (pool: Pool)
        ensures
            pool.config == config,
            pool.ledger@ == LedgerState::empty(),
            pool.ledger@.wf(),
    {
        Pool { ledger: Ledger::new(), config }
    }

    /// Opens an account with the starting balance of the settings.
    pub fn open_account(&mut self, community: &str, member: &str) -> (res: Result<(), LedgerError>)
        requires
            old(self).ledger@.wf(),
        ensures
            final(self).config == old(self).config,
            final(self).ledger@.wf(),
            match create_account_fault(
                old(self).ledger@,
                community@,
                member@,
                old(self).config.starting_balance as nat,
            ) {
                Some(fault) => res matches Err(e) && e@ == fault && final(self).ledger@ == old(
                    self,
                ).ledger@,
                None => res is Ok && final(self).ledger@ == create_account_next(
                    old(self).ledger@,
                    community@,
                    member@,
                    old(self).config.starting_balance as nat,
                ),
            },
    {
        self.ledger.create_account(community, member, self.config.starting_balance)
    }

    /// Grants every account the income of the settings.
    pub fn pay_income(&mut self) -> (res: Result<Vec<AccountUpdate>, LedgerError>)
        requires
            old(self).ledger@.wf(),
        ensures
            final(self).config == old(self).config,
            final(self).ledger@.wf(),
            match grant_income_fault(old(self).ledger@, old(self).config.income as nat) {
                Some(fault) => res matches Err(e) && e@ == fault && final(self).ledger@ == old(
                    self,
                ).ledger@,
                None => res matches Ok(updates) && update_records(updates@) == grant_income_updates(
                    old(self).ledger@,
                    old(self).config.income as nat,
                ) && final(self).ledger@ == grant_income_next(
                    old(self).ledger@,
                    old(self).config.income as nat,
                ),
            },
    {
        self.ledger.grant_income(self.config.income)
    }

    /// Resets a community to the starting balance of the settings.
    pub fn reset(&mut self, community: &str) -> (res: Result<(), LedgerError>)
        requires
            old(self).ledger@.wf(),
        ensures
            final(self).config == old(self).config,
            final(self).ledger@.wf(),
            match reset_all_fault(
                old(self).ledger@,
                community@,
                old(self).config.starting_balance as nat,
            ) {
                Some(fault) => res matches Err(e) && e@ == fault && final(self).ledger@ == old(
                    self,
                ).ledger@,
                None => res is Ok && final(self).ledger@ == reset_all_next(
                    old(self).ledger@,
                    community@,
                    old(self).config.starting_balance as nat,
                ),
            },
    {
        self.ledger.reset_all(community, self.config.starting_balance)
    }

    /// Stakes `amount` on an option, on the bet that the option belongs to.
    ///
    /// Refused with `NotFound` where no bet of the community has the option,
    /// and otherwise as `Ledger::place_wager` is.
    pub fn stake_on_option(&mut self, community: &str, option_id: &str, member: &str, amount: u64) -> (res:
        Result<(AccountUpdate, Vec<OptionTally>), LedgerError>)
        requires
            old(self).ledger@.wf(),
            amount > 0,
        ensures
            final(self).config == old(self).config,
            final(self).ledger@.wf(),
            match bet_of_option_outcome(old(self).ledger@, community@, option_id@) {
                Err(fault) => res matches Err(e) && e@ == fault && final(self).ledger@ == old(
                    self,
                ).ledger@,
                Ok(bet) => match place_wager_fault(
                    old(self).ledger@,
                    community@,
                    bet,
                    option_id@,
                    member@,
                    amount as nat,
                ) {
                    Some(fault) => res matches Err(e) && e@ == fault && final(self).ledger@
                        == old(self).ledger@,
                    None => res matches Ok(done) && done.0@ == place_wager_update(
                        old(self).ledger@,
                        community@,
                        member@,
                        amount as nat,
                    ) && tally_records(done.1@) == tally(final(self).ledger@, community@, bet)
                        && final(self).ledger@ == place_wager_next(
                        old(self).ledger@,
                        community@,
                        bet,
                        option_id@,
                        member@,
                        amount as nat,
                    ),
                },
            },
    {
        match self.ledger.bet_of_option(community, option_id) {
            Ok(bet) => self.ledger.place_wager(community, bet.as_str(), option_id, member, amount),
            Err(e) => Err(e),
        }
    }

    /// Closes, on the given option, the bet that the option belongs to.
    ///
    /// Refused with `NotFound` where no bet of the community has the option,
    /// and otherwise as `Ledger::close_bet` is.
    pub fn declare_winner(&mut self, community: &str, option_id: &str) -> (res: Result<
        Vec<AccountUpdate>,
        LedgerError,
    >)
        requires
            old(self).ledger@.wf(),
        ensures
            final(self).config == old(self).config,
            final(self).ledger@.wf(),
            match bet_of_option_outcome(old(self).ledger@, community@, option_id@) {
                Err(fault) => res matches Err(e) && e@ == fault && final(self).ledger@ == old(
                    self,
                ).ledger@,
                Ok(bet) => match close_bet_fault(old(self).ledger@, community@, bet, option_id@) {
                    Some(fault) => res matches Err(e) && e@ == fault && final(self).ledger@
                        == old(self).ledger@,
                    None => res matches Ok(updates) && update_records(updates@)
                        == close_bet_updates(old(self).ledger@, community@, bet, option_id@)
                        && final(self).ledger@ == close_bet_next(
                        old(self).ledger@,
                        community@,
                        bet,
                        option_id@,
                    ),
                },
            },
    {
        match self.ledger.bet_of_option(community, option_id) {
            Ok(bet) => self.ledger.close_bet(community, bet.as_str(), option_id),
            Err(e) => Err(e),
        }
    }
}

} // verus!
