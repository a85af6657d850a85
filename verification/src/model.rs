//! The mathematical model of the wagering pool: plain records, the sums that
//! contracts speak of, and the invariant that every reachable state satisfies.

use vstd::prelude::*;

verus! {

/// Where a bet stands in its lifecycle.
#[derive(Clone, Copy, PartialEq, Eq, Structural, Debug)]
pub enum BetStatus {
    Open,
    Locked,
    Aborted,
    Closed,
}

impl BetStatus {
    /// A bet holds stakes exactly while it is open or locked.
    pub open spec fn is_active(self) -> bool {
        self == BetStatus::Open || self == BetStatus::Locked
    }
}

/// One member's account in one community.
pub struct AccountRecord {
    pub community: Seq<char>,
    pub member: Seq<char>,
    pub balance: nat,
    pub staked: nat,
}

/// One bet with its selectable outcomes, in the order they were registered.
pub struct BetRecord {
    pub community: Seq<char>,
    pub id: Seq<char>,
    pub status: BetStatus,
    pub options: Seq<Seq<char>>,
}

/// The stake one member holds on one option of one bet.
pub struct WagerRecord {
    pub community: Seq<char>,
    pub bet: Seq<char>,
    pub member: Seq<char>,
    pub option: Seq<char>,
    pub amount: nat,
}

/// The whole pool: every account, bet and wager, each in order of creation.
pub struct LedgerState {
    pub accounts: Seq<AccountRecord>,
    pub bets: Seq<BetRecord>,
    pub wagers: Seq<WagerRecord>,
}

/// A selection of wagers: all those of one community, narrowed by bet,
/// option and member where these are given.
pub struct Scope {
    pub community: Seq<char>,
    pub bet: Option<Seq<char>>,
    pub option: Option<Seq<char>>,
    pub member: Option<Seq<char>>,
}

impl Scope {
    /// Whether the wager lies in the selection.
    pub open spec fn covers(self, w: WagerRecord) -> bool {
        &&& w.community == self.community
        &&& (self.bet matches Some(b) ==> w.bet == b)
        &&& (self.option matches Some(o) ==> w.option == o)
        &&& (self.member matches Some(m) ==> w.member == m)
    }

    /// Every wager of one member in one community.
    pub open spec fn of_member(community: Seq<char>, member: Seq<char>) -> Scope {
        Scope { community, bet: None, option: None, member: Some(member) }
    }

    /// Every wager on one bet.
    pub open spec fn of_bet(community: Seq<char>, bet: Seq<char>) -> Scope {
        Scope { community, bet: Some(bet), option: None, member: None }
    }

    /// Every wager on one option of one bet.
    pub open spec fn of_option(community: Seq<char>, bet: Seq<char>, option: Seq<char>) -> Scope {
        Scope { community, bet: Some(bet), option: Some(option), member: None }
    }

    /// Every wager of one community.
    pub open spec fn of_community(community: Seq<char>) -> Scope {
        Scope { community, bet: None, option: None, member: None }
    }

    /// The same selection, narrowed to one member.
    pub open spec fn for_member(self, member: Seq<char>) -> Scope {
        Scope { member: Some(member), ..self }
    }
}

/// What is added up over a selection of wagers: the stakes themselves, or the
/// credit each stake earns from a pot shared among the winning stakes.
pub enum Measure {
    Stake,
    Payout { pot: nat, winning: nat },
}

/// The parimutuel share of `pot` earned by `stake` out of `winning` staked on
/// the winning option, rounded down. Nothing is earned when nobody backed the
/// winner.
pub open spec fn payout(stake: nat, pot: nat, winning: nat) -> nat {
    if winning == 0 {
        0
    } else {
        (stake * pot / winning) as nat
    }
}

/// What one wager counts for under a measure.
pub open spec fn weigh(measure: Measure, w: WagerRecord) -> nat {
    match measure {
        Measure::Stake => w.amount,
        Measure::Payout { pot, winning } => payout(w.amount, pot, winning),
    }
}

/// The sum of `measure` over the wagers of `ws` that `scope` covers.
pub open spec fn wager_sum(ws: Seq<WagerRecord>, scope: Scope, measure: Measure) -> nat
    decreases ws.len(),
{
    if ws.len() == 0 {
        0
    } else {
        wager_sum(ws.drop_last(), scope, measure) + if scope.covers(ws.last()) {
            weigh(measure, ws.last())
        } else {
            0
        }
    }
}

/// Everything `member` has at stake in `community`, over all bets.
pub open spec fn staked_by(ws: Seq<WagerRecord>, community: Seq<char>, member: Seq<char>) -> nat {
    wager_sum(ws, Scope::of_member(community, member), Measure::Stake)
}

/// The pot of a bet: every stake on any of its options.
pub open spec fn pot(ws: Seq<WagerRecord>, community: Seq<char>, bet: Seq<char>) -> nat {
    wager_sum(ws, Scope::of_bet(community, bet), Measure::Stake)
}

/// The amount riding on one option of a bet.
pub open spec fn backing(
    ws: Seq<WagerRecord>,
    community: Seq<char>,
    bet: Seq<char>,
    option: Seq<char>,
) -> nat {
    wager_sum(ws, Scope::of_option(community, bet, option), Measure::Stake)
}

/// What `member` has at stake on one bet.
pub open spec fn stake_in_bet(
    ws: Seq<WagerRecord>,
    community: Seq<char>,
    bet: Seq<char>,
    member: Seq<char>,
) -> nat {
    wager_sum(ws, Scope::of_bet(community, bet).for_member(member), Measure::Stake)
}

/// How the pot of a bet is shared once `option` has won.
pub open spec fn share_of(
    ws: Seq<WagerRecord>,
    community: Seq<char>,
    bet: Seq<char>,
    option: Seq<char>,
) -> Measure {
    Measure::Payout {
        pot: pot(ws, community, bet),
        winning: backing(ws, community, bet, option),
    }
}

/// What `member` is credited when `option` wins the bet.
pub open spec fn winnings(
    ws: Seq<WagerRecord>,
    community: Seq<char>,
    bet: Seq<char>,
    option: Seq<char>,
    member: Seq<char>,
) -> nat {
    wager_sum(
        ws,
        Scope::of_option(community, bet, option).for_member(member),
        share_of(ws, community, bet, option),
    )
}

/// Everything credited to the winners when `option` wins the bet.
pub open spec fn paid_out(
    ws: Seq<WagerRecord>,
    community: Seq<char>,
    bet: Seq<char>,
    option: Seq<char>,
) -> nat {
    wager_sum(ws, Scope::of_option(community, bet, option), share_of(ws, community, bet, option))
}

/// The currency of a community: spendable balances plus stakes, over all of
/// its accounts.
pub open spec fn community_funds(accounts: Seq<AccountRecord>, community: Seq<char>) -> nat
    decreases accounts.len(),
{
    if accounts.len() == 0 {
        0
    } else {
        community_funds(accounts.drop_last(), community) + if accounts.last().community
            == community {
            accounts.last().balance + accounts.last().staked
        } else {
            0
        }
    }
}

/// Whether the account at `i` is that of `member` in `community`.
pub open spec fn is_account_at(
    accounts: Seq<AccountRecord>,
    i: int,
    community: Seq<char>,
    member: Seq<char>,
) -> bool {
    &&& 0 <= i < accounts.len()
    &&& accounts[i].community == community
    &&& accounts[i].member == member
}

/// Whether `member` has an account in `community`.
pub open spec fn has_account(
    accounts: Seq<AccountRecord>,
    community: Seq<char>,
    member: Seq<char>,
) -> bool {
    exists|i: int| is_account_at(accounts, i, community, member)
}

/// Where the account of `member` in `community` stands.
pub open spec fn account_pos(
    accounts: Seq<AccountRecord>,
    community: Seq<char>,
    member: Seq<char>,
) -> int {
    choose|i: int| is_account_at(accounts, i, community, member)
}

/// The account of `member` in `community`.
pub open spec fn account_of(
    accounts: Seq<AccountRecord>,
    community: Seq<char>,
    member: Seq<char>,
) -> AccountRecord {
    accounts[account_pos(accounts, community, member)]
}

/// Whether the bet at `j` is the bet `bet` of `community`.
pub open spec fn is_bet_at(bets: Seq<BetRecord>, j: int, community: Seq<char>, bet: Seq<char>) -> bool {
    &&& 0 <= j < bets.len()
    &&& bets[j].community == community
    &&& bets[j].id == bet
}

/// Whether `community` has a bet `bet`.
pub open spec fn has_bet(bets: Seq<BetRecord>, community: Seq<char>, bet: Seq<char>) -> bool {
    exists|j: int| is_bet_at(bets, j, community, bet)
}

/// Where the bet `bet` of `community` stands.
pub open spec fn bet_pos(bets: Seq<BetRecord>, community: Seq<char>, bet: Seq<char>) -> int {
    choose|j: int| is_bet_at(bets, j, community, bet)
}

/// The bet `bet` of `community`.
pub open spec fn bet_of(bets: Seq<BetRecord>, community: Seq<char>, bet: Seq<char>) -> BetRecord {
    bets[bet_pos(bets, community, bet)]
}

/// The status of a bet, or `None` where no such bet was registered.
pub open spec fn status_of(bets: Seq<BetRecord>, community: Seq<char>, bet: Seq<char>) -> Option<
    BetStatus,
> {
    if has_bet(bets, community, bet) {
        Some(bet_of(bets, community, bet).status)
    } else {
        None
    }
}

/// Whether the wager at `k` is that of `member` on the bet.
pub open spec fn is_wager_at(
    ws: Seq<WagerRecord>,
    k: int,
    community: Seq<char>,
    bet: Seq<char>,
    member: Seq<char>,
) -> bool {
    &&& 0 <= k < ws.len()
    &&& ws[k].community == community
    &&& ws[k].bet == bet
    &&& ws[k].member == member
}

/// Whether `member` holds a wager on the bet.
pub open spec fn has_wager(
    ws: Seq<WagerRecord>,
    community: Seq<char>,
    bet: Seq<char>,
    member: Seq<char>,
) -> bool {
    exists|k: int| is_wager_at(ws, k, community, bet, member)
}

/// Where the wager of `member` on the bet stands.
pub open spec fn wager_pos(
    ws: Seq<WagerRecord>,
    community: Seq<char>,
    bet: Seq<char>,
    member: Seq<char>,
) -> int {
    choose|k: int| is_wager_at(ws, k, community, bet, member)
}

/// The wager of `member` on the bet.
pub open spec fn wager_of(
    ws: Seq<WagerRecord>,
    community: Seq<char>,
    bet: Seq<char>,
    member: Seq<char>,
) -> WagerRecord {
    ws[wager_pos(ws, community, bet, member)]
}

/// No two accounts share a community and a member.
pub open spec fn distinct_accounts(accounts: Seq<AccountRecord>) -> bool {
    forall|i: int, j: int|
        0 <= i < j < accounts.len() ==> !(#[trigger] accounts[i].community
            == #[trigger] accounts[j].community && accounts[i].member == accounts[j].member)
}

/// No two bets share a community and an identifier.
pub open spec fn distinct_bets(bets: Seq<BetRecord>) -> bool {
    forall|i: int, j: int|
        0 <= i < j < bets.len() ==> !(#[trigger] bets[i].community == #[trigger] bets[j].community
            && bets[i].id == bets[j].id)
}

/// No member holds two wagers on one bet.
pub open spec fn distinct_wagers(ws: Seq<WagerRecord>) -> bool {
    forall|i: int, j: int|
        0 <= i < j < ws.len() ==> !(#[trigger] ws[i].community == #[trigger] ws[j].community
            && ws[i].bet == ws[j].bet && ws[i].member == ws[j].member)
}

impl LedgerState {
    /// A wager is lawful where its stake is positive, its member has an
    /// account, and it rides on an option of a bet that is open or locked.
    pub open spec fn lawful_wager(self, w: WagerRecord) -> bool {
        &&& w.amount > 0
        &&& has_account(self.accounts, w.community, w.member)
        &&& has_bet(self.bets, w.community, w.bet)
        &&& bet_of(self.bets, w.community, w.bet).status.is_active()
        &&& bet_of(self.bets, w.community, w.bet).options.contains(w.option)
    }

    /// The invariant of the pool. Keys are unique, options of a bet are
    /// pairwise different, every wager is lawful, every account's `staked`
    /// is the sum of its member's wagers, and no community holds more
    /// currency than a `u64` can count.
    pub open spec fn wf(self) -> bool {
        &&& distinct_accounts(self.accounts)
        &&& distinct_bets(self.bets)
        &&& distinct_wagers(self.wagers)
        &&& forall|j: int|
            0 <= j < self.bets.len() ==> (#[trigger] self.bets[j]).options.no_duplicates()
        &&& forall|k: int| 0 <= k < self.wagers.len() ==> self.lawful_wager(#[trigger] self.wagers[k])
        &&& forall|i: int|
            0 <= i < self.accounts.len() ==> (#[trigger] self.accounts[i]).staked == staked_by(
                self.wagers,
                self.accounts[i].community,
                self.accounts[i].member,
            )
        &&& forall|c: Seq<char>| #[trigger] community_funds(self.accounts, c) <= u64::MAX
    }

    /// The pool with no account, no bet and no wager.
    pub open spec fn empty() -> LedgerState {
        LedgerState { accounts: Seq::empty(), bets: Seq::empty(), wagers: Seq::empty() }
    }
}

} // verus!
