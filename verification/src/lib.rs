//! A group wagering pool: member accounts per community, bets on mutually
//! exclusive outcomes, and parimutuel payouts.
//!
//! `model` and `rules` say in mathematical terms what a pool is and what
//! each operation does to it; `ledger` and `pool` are the operations
//! themselves, proved against them; `laws` states what holds over any
//! sequence of operations. `accounts`, `wagers` and `payout` are the parts the
//! ledger is made of, `audit` checks records read back from storage, and
//! `board` and `buttons` serve the chat front end.

pub mod accounts;
pub mod audit;
pub mod board;
pub mod bounds;
pub mod buttons;
pub mod laws;
pub mod ledger;
pub mod lookup;
pub mod model;
pub mod payout;
pub mod pool;
pub mod preserve;
pub mod rules;
pub mod sums;
pub mod types;
pub mod wagers;
