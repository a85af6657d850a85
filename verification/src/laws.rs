//! What holds of the pool over any sequence of operations.

use crate::lookup::{lemma_accounts_keep_keys, lemma_bet_at, lemma_bets_keep_keys, lemma_wager_at};
use crate::model::{
    account_of, account_pos, backing, bet_pos, community_funds, has_account, has_bet, has_wager,
    is_account_at, is_bet_at, is_wager_at, paid_out, pot, share_of, stake_in_bet, status_of,
    wager_of, wager_pos, wager_sum, winnings, AccountRecord, BetStatus, LedgerState, Measure,
    Scope, WagerRecord,
};
use crate::preserve::{
    abort_bet_accounts, abort_bet_keeps_wf, close_bet_accounts, close_bet_keeps_wf,
    create_account_keeps_wf, grant_income_keeps_wf, lock_bet_keeps_wf, place_wager_accounts,
    place_wager_keeps_wf, register_bet_keeps_wf, reset_all_keeps_wf,
};
use crate::rules::{
    abort_bet_fault, abort_bet_next, abort_bet_updates, accounts_in, close_bet_fault,
    close_bet_next, close_bet_updates, create_account_fault, create_account_next, credit_entries,
    grant_income_fault, grant_income_next, lock_bet_fault, lock_bet_next, place_wager_fault,
    place_wager_next, register_bet_fault, register_bet_next, reset_all_fault, reset_all_next,
    total_diff, with_credits, with_income, within, without, Fault,
};
use crate::sums::{
    lemma_paid_within_pot, lemma_remainder_is_small, lemma_sum_none, lemma_sum_single,
    lemma_within_elements, lemma_without_elements,
};
use vstd::prelude::*;

verus! {

/// One operation that changes the pool, with its arguments.
pub enum Step {
    CreateAccount { community: Seq<char>, member: Seq<char>, starting_balance: nat },
    GrantIncome { amount: nat },
    ResetAll { community: Seq<char>, starting_balance: nat },
    RegisterBet { community: Seq<char>, bet: Seq<char>, options: Seq<Seq<char>> },
    LockBet { community: Seq<char>, bet: Seq<char> },
    PlaceWager {
        community: Seq<char>,
        bet: Seq<char>,
        option: Seq<char>,
        member: Seq<char>,
        amount: nat,
    },
    AbortBet { community: Seq<char>, bet: Seq<char> },
    CloseBet { community: Seq<char>, bet: Seq<char>, option: Seq<char> },
}

impl Step {
    /// An operation may be asked for with any arguments but a wager of
    /// nothing.
    pub open spec fn admitted(self) -> bool {
        match self {
            Step::PlaceWager { amount, .. } => amount > 0,
            _ => true,
        }
    }

    /// Why the pool refuses the operation in state `s`, if it does.
    pub open spec fn fault(self, s: LedgerState) -> Option<Fault> {
        match self {
            Step::CreateAccount { community, member, starting_balance } => create_account_fault(
                s,
                community,
                member,
                starting_balance,
            ),
            Step::GrantIncome { amount } => grant_income_fault(s, amount),
            Step::ResetAll { community, starting_balance } => reset_all_fault(
                s,
                community,
                starting_balance,
            ),
            Step::RegisterBet { community, bet, options } => register_bet_fault(s, community, bet),
            Step::LockBet { community, bet } => lock_bet_fault(s, community, bet),
            Step::PlaceWager { community, bet, option, member, amount } => place_wager_fault(
                s,
                community,
                bet,
                option,
                member,
                amount,
            ),
            Step::AbortBet { community, bet } => abort_bet_fault(s, community, bet),
            Step::CloseBet { community, bet, option } => close_bet_fault(s, community, bet, option),
        }
    }

    /// The state that the operation leaves: `s` itself where it is refused.
    pub open spec fn apply(self, s: LedgerState) -> LedgerState {
        if self.fault(s) is Some {
            s
        } else {
            match self {
                Step::CreateAccount { community, member, starting_balance } => create_account_next(
                    s,
                    community,
                    member,
                    starting_balance,
                ),
                Step::GrantIncome { amount } => grant_income_next(s, amount),
                Step::ResetAll { community, starting_balance } => reset_all_next(
                    s,
                    community,
                    starting_balance,
                ),
                Step::RegisterBet { community, bet, options } => register_bet_next(
                    s,
                    community,
                    bet,
                    options,
                ),
                Step::LockBet { community, bet } => lock_bet_next(s, community, bet),
                Step::PlaceWager { community, bet, option, member, amount } => place_wager_next(
                    s,
                    community,
                    bet,
                    option,
                    member,
                    amount,
                ),
                Step::AbortBet { community, bet } => abort_bet_next(s, community, bet),
                Step::CloseBet { community, bet, option } => close_bet_next(
                    s,
                    community,
                    bet,
                    option,
                ),
            }
        }
    }

    /// Whether the operation is one of those that set balances from outside:
    /// opening an account, granting income, resetting a community.
    pub open spec fn sets_balances(self) -> bool {
        self is CreateAccount || self is GrantIncome || self is ResetAll
    }

    /// What the operation takes out of the funds of community `of` for good:
    /// on closing a bet, the part of its pot that is credited to nobody.
    pub open spec fn loss(self, s: LedgerState, of: Seq<char>) -> nat {
        match self {
            Step::CloseBet { community, bet, option } => if community == of && self.fault(s)
                is None {
                (pot(s.wagers, community, bet) - paid_out(s.wagers, community, bet, option)) as nat
            } else {
                0
            },
            _ => 0,
        }
    }
}

/// The state after a sequence of operations, each applied to what the one
/// before it left.
pub open spec fn run(s: LedgerState, steps: Seq<Step>) -> LedgerState
    decreases steps.len(),
{
    if steps.len() == 0 {
        s
    } else {
        steps.last().apply(run(s, steps.drop_last()))
    }
}

/// What a sequence of operations takes out of the funds of community `of`
/// for good.
pub open spec fn losses(s: LedgerState, steps: Seq<Step>, of: Seq<char>) -> nat
    decreases steps.len(),
{
    if steps.len() == 0 {
        0
    } else {
        losses(s, steps.drop_last(), of) + steps.last().loss(run(s, steps.drop_last()), of)
    }
}

/// Every operation keeps the invariant of the pool, whether it takes effect
/// or is refused.
pub proof fn step_keeps_wf(s: LedgerState, op: Step)
    requires
        s.wf(),
        op.admitted(),
    ensures
        op.apply(s).wf(),
{
    if op.fault(s) is None {
        match op {
            Step::CreateAccount { community, member, starting_balance } => {
                create_account_keeps_wf(s, community, member, starting_balance);
            },
            Step::GrantIncome { amount } => {
                grant_income_keeps_wf(s, amount);
            },
            Step::ResetAll { community, starting_balance } => {
                reset_all_keeps_wf(s, community, starting_balance);
            },
            Step::RegisterBet { community, bet, options } => {
                register_bet_keeps_wf(s, community, bet, options);
            },
            Step::LockBet { community, bet } => {
                lock_bet_keeps_wf(s, community, bet);
            },
            Step::PlaceWager { community, bet, option, member, amount } => {
                place_wager_keeps_wf(s, community, bet, option, member, amount);
            },
            Step::AbortBet { community, bet } => {
                abort_bet_keeps_wf(s, community, bet);
            },
            Step::CloseBet { community, bet, option } => {
                close_bet_keeps_wf(s, community, bet, option);
            },
        }
    }
}

/// Every sequence of operations keeps the invariant of the pool.
pub proof fn run_keeps_wf(s: LedgerState, steps: Seq<Step>)
    requires
        s.wf(),
        forall|i: int| 0 <= i < steps.len() ==> (#[trigger] steps[i]).admitted(),
    ensures
        run(s, steps).wf(),
    decreases steps.len(),
{
    if steps.len() > 0 {
        let init = steps.drop_last();
        assert forall|i: int| 0 <= i < init.len() implies (#[trigger] init[i]).admitted() by {
            assert(init[i] == steps[i]);
        }
        run_keeps_wf(s, init);
        assert(steps[steps.len() - 1].admitted());
        step_keeps_wf(run(s, init), steps.last());
    }
}

/// Conservation, one operation at a time. An operation that sets no balance
/// from outside leaves the funds of every community as they were, but for
/// what closing a bet takes out for good.
pub proof fn step_conserves(s: LedgerState, op: Step, of: Seq<char>)
    requires
        s.wf(),
        op.admitted(),
        !op.sets_balances(),
    ensures
        community_funds(op.apply(s).accounts, of) + op.loss(s, of) == community_funds(
            s.accounts,
            of,
        ),
{
    if op.fault(s) is None {
        match op {
            Step::PlaceWager { community, bet, option, member, amount } => {
                place_wager_accounts(s, community, bet, option, member, amount, of);
            },
            Step::AbortBet { community, bet } => {
                abort_bet_accounts(s, community, bet, of);
            },
            Step::CloseBet { community, bet, option } => {
                close_bet_accounts(s, community, bet, option);
                lemma_paid_within_pot(s.wagers, community, bet, option);
            },
            _ => {},
        }
    }
}

/// Conservation. Over any sequence of wagers, locks, aborts, closes and new
/// bets, the balances and stakes of a community add up to what they were at
/// the start less what closing bets took out for good.
pub proof fn run_conserves(s: LedgerState, steps: Seq<Step>, of: Seq<char>)
    requires
        s.wf(),
        forall|i: int|
            0 <= i < steps.len() ==> (#[trigger] steps[i]).admitted() && !steps[i].sets_balances(),
    ensures
        community_funds(run(s, steps).accounts, of) + losses(s, steps, of) == community_funds(
            s.accounts,
            of,
        ),
    decreases steps.len(),
{
    if steps.len() > 0 {
        let init = steps.drop_last();
        assert forall|i: int| 0 <= i < init.len() implies (#[trigger] init[i]).admitted()
            && !init[i].sets_balances() by {
            assert(init[i] == steps[i]);
        }
        run_conserves(s, init, of);
        run_keeps_wf(s, init);
        assert(steps[steps.len() - 1].admitted());
        step_conserves(run(s, init), steps.last(), of);
    }
}

/// Where no bet is closed, nothing is lost: placing wagers and aborting bets
/// leave the funds of every community exactly as they were.
pub proof fn run_without_close_loses_nothing(s: LedgerState, steps: Seq<Step>, of: Seq<char>)
    requires
        forall|i: int| 0 <= i < steps.len() ==> !((#[trigger] steps[i]) is CloseBet),
    ensures
        losses(s, steps, of) == 0,
    decreases steps.len(),
{
    if steps.len() > 0 {
        let init = steps.drop_last();
        assert forall|i: int| 0 <= i < init.len() implies !((#[trigger] init[i]) is CloseBet) by {
            assert(init[i] == steps[i]);
        }
        run_without_close_loses_nothing(s, init, of);
        assert(!(steps[steps.len() - 1] is CloseBet));
    }
}

/// What closing a bet takes out for good is never more than its pot; it is
/// the whole pot where nobody backed the winner, and nothing is credited
/// then.
pub proof fn close_loses_forfeit_or_remainder(
    s: LedgerState,
    community: Seq<char>,
    bet: Seq<char>,
    option: Seq<char>,
)
    ensures
        paid_out(s.wagers, community, bet, option) <= pot(s.wagers, community, bet),
        backing(s.wagers, community, bet, option) == 0 ==> paid_out(
            s.wagers,
            community,
            bet,
            option,
        ) == 0,
{
    lemma_paid_within_pot(s.wagers, community, bet, option);
}

/// Where somebody backed the winner, what closing the bet takes out for
/// good is only what rounding leaves over: less than one unit of currency
/// for each winning wager.
pub proof fn close_loses_less_than_a_unit_per_winner(
    s: LedgerState,
    community: Seq<char>,
    bet: Seq<char>,
    option: Seq<char>,
)
    requires
        backing(s.wagers, community, bet, option) > 0,
    ensures
        pot(s.wagers, community, bet) - paid_out(s.wagers, community, bet, option)
            < close_bet_updates(s, community, bet, option).len(),
{
    lemma_remainder_is_small(s.wagers, community, bet, option);
}

/// What closing a bet does to each account of its community: every stake
/// of its member on the bet is released, and what the member's wager on the
/// winning option earns is added to the balance. Accounts of other
/// communities stay as they are.
pub proof fn close_credits_winnings(
    s: LedgerState,
    community: Seq<char>,
    bet: Seq<char>,
    option: Seq<char>,
    i: int,
)
    requires
        0 <= i < s.accounts.len(),
    ensures
        close_bet_next(s, community, bet, option).accounts.len() == s.accounts.len(),
        s.accounts[i].community != community ==> close_bet_next(
            s,
            community,
            bet,
            option,
        ).accounts[i] == s.accounts[i],
        s.accounts[i].community == community ==> close_bet_next(
            s,
            community,
            bet,
            option,
        ).accounts[i] == (AccountRecord {
            balance: s.accounts[i].balance + winnings(
                s.wagers,
                community,
                bet,
                option,
                s.accounts[i].member,
            ),
            staked: (s.accounts[i].staked - stake_in_bet(
                s.wagers,
                community,
                bet,
                s.accounts[i].member,
            )) as nat,
            ..s.accounts[i]
        }),
{
}

/// The changes that a list of credits reports add up to what the credited
/// selection earns.
pub proof fn lemma_total_credits(
    accounts: Seq<AccountRecord>,
    ws: Seq<WagerRecord>,
    scope: Scope,
    community: Seq<char>,
    measure: Measure,
)
    ensures
        total_diff(credit_entries(accounts, within(ws, scope), community, measure)) == wager_sum(
            ws,
            scope,
            measure,
        ),
    decreases ws.len(),
{
    if ws.len() > 0 {
        let init = ws.drop_last();
        lemma_total_credits(accounts, init, scope, community, measure);
        if scope.covers(ws.last()) {
            let all = credit_entries(accounts, within(ws, scope), community, measure);
            let before = credit_entries(accounts, within(init, scope), community, measure);
            assert(all.drop_last() =~= before);
        }
    }
}

/// The entries that `abort_bet` returns add up to the pot of the bet, and
/// those that `close_bet` returns to what the winners are credited.
pub proof fn updates_add_up(s: LedgerState, community: Seq<char>, bet: Seq<char>, option: Seq<char>)
    ensures
        total_diff(abort_bet_updates(s, community, bet)) == pot(s.wagers, community, bet),
        total_diff(close_bet_updates(s, community, bet, option)) == paid_out(
            s.wagers,
            community,
            bet,
            option,
        ),
{
    lemma_total_credits(
        s.accounts,
        s.wagers,
        Scope::of_bet(community, bet),
        community,
        Measure::Stake,
    );
    lemma_total_credits(
        s.accounts,
        s.wagers,
        Scope::of_option(community, bet, option),
        community,
        share_of(s.wagers, community, bet, option),
    );
}

/// Single choice. In a pool that satisfies the invariant a member holds at
/// most one wager on a bet.
pub proof fn at_most_one_wager(
    s: LedgerState,
    community: Seq<char>,
    bet: Seq<char>,
    member: Seq<char>,
    k1: int,
    k2: int,
)
    requires
        s.wf(),
        is_wager_at(s.wagers, k1, community, bet, member),
        is_wager_at(s.wagers, k2, community, bet, member),
    ensures
        k1 == k2,
{
    lemma_wager_at(s.wagers, k1, community, bet, member);
    lemma_wager_at(s.wagers, k2, community, bet, member);
}

/// Single choice. After a wager that was accepted the member holds exactly
/// one wager on the bet, and it is on the option just backed.
pub proof fn wager_is_on_option_backed(
    s: LedgerState,
    community: Seq<char>,
    bet: Seq<char>,
    option: Seq<char>,
    member: Seq<char>,
    amount: nat,
)
    requires
        s.wf(),
        amount > 0,
        place_wager_fault(s, community, bet, option, member, amount) is None,
    ensures
        has_wager(
            place_wager_next(s, community, bet, option, member, amount).wagers,
            community,
            bet,
            member,
        ),
        wager_of(
            place_wager_next(s, community, bet, option, member, amount).wagers,
            community,
            bet,
            member,
        ).option == option,
        forall|k1: int, k2: int|
            is_wager_at(
                place_wager_next(s, community, bet, option, member, amount).wagers,
                k1,
                community,
                bet,
                member,
            ) && is_wager_at(
                place_wager_next(s, community, bet, option, member, amount).wagers,
                k2,
                community,
                bet,
                member,
            ) ==> k1 == k2,
{
    let t = place_wager_next(s, community, bet, option, member, amount);
    place_wager_keeps_wf(s, community, bet, option, member, amount);
    let k = if has_wager(s.wagers, community, bet, member) {
        wager_pos(s.wagers, community, bet, member)
    } else {
        s.wagers.len() as int
    };
    if has_wager(s.wagers, community, bet, member) {
        assert(is_wager_at(s.wagers, k, community, bet, member));
    }
    assert(is_wager_at(t.wagers, k, community, bet, member));
    lemma_wager_at(t.wagers, k, community, bet, member);
    assert forall|k1: int, k2: int|
        is_wager_at(t.wagers, k1, community, bet, member) && is_wager_at(
            t.wagers,
            k2,
            community,
            bet,
            member,
        ) implies k1 == k2 by {
        at_most_one_wager(t, community, bet, member, k1, k2);
    }
}

/// Whether a bet may pass from one status to another: from open to locked,
/// from locked to closed, from open or locked to aborted, and from not
/// being there to open.
pub open spec fn lawful_move(before: Option<BetStatus>, after: Option<BetStatus>) -> bool {
    ||| before == after
    ||| before is None && after == Some(BetStatus::Open)
    ||| before == Some(BetStatus::Open) && after == Some(BetStatus::Locked)
    ||| before == Some(BetStatus::Locked) && after == Some(BetStatus::Closed)
    ||| before == Some(BetStatus::Open) && after == Some(BetStatus::Aborted)
    ||| before == Some(BetStatus::Locked) && after == Some(BetStatus::Aborted)
}

/// State-machine soundness. No operation moves a bet but along the lawful
/// transitions; in particular a bet that is aborted or closed stays so.
pub proof fn step_moves_lawfully(s: LedgerState, op: Step, community: Seq<char>, bet: Seq<char>)
    requires
        s.wf(),
        op.admitted(),
    ensures
        lawful_move(
            status_of(s.bets, community, bet),
            status_of(op.apply(s).bets, community, bet),
        ),
{
    let t = op.apply(s);
    step_keeps_wf(s, op);
    if op.fault(s) is None {
        match op {
            Step::RegisterBet { community: c, bet: b, options } => {
                let n = s.bets.len() as int;
                if has_bet(s.bets, community, bet) {
                    let p = bet_pos(s.bets, community, bet);
                    assert(is_bet_at(s.bets, p, community, bet));
                    assert(t.bets[p] == s.bets[p]);
                    assert(is_bet_at(t.bets, p, community, bet));
                    lemma_bet_at(t.bets, p, community, bet);
                } else if has_bet(t.bets, community, bet) {
                    let p = bet_pos(t.bets, community, bet);
                    assert(is_bet_at(t.bets, p, community, bet));
                    if p < n {
                        assert(t.bets[p] == s.bets[p]);
                        assert(is_bet_at(s.bets, p, community, bet));
                    }
                }
            },
            Step::LockBet { community: c, bet: b } => {
                lemma_bets_keep_keys(s.bets, t.bets, community, bet);
                if has_bet(s.bets, community, bet) {
                    assert(is_bet_at(s.bets, bet_pos(s.bets, community, bet), community, bet));
                }
            },
            Step::AbortBet { community: c, bet: b } => {
                lemma_bets_keep_keys(s.bets, t.bets, community, bet);
                if has_bet(s.bets, community, bet) {
                    assert(is_bet_at(s.bets, bet_pos(s.bets, community, bet), community, bet));
                }
            },
            Step::CloseBet { community: c, bet: b, option } => {
                lemma_bets_keep_keys(s.bets, t.bets, community, bet);
                if has_bet(s.bets, community, bet) {
                    assert(is_bet_at(s.bets, bet_pos(s.bets, community, bet), community, bet));
                }
            },
            Step::ResetAll { community: c, starting_balance } => {
                lemma_bets_keep_keys(s.bets, t.bets, community, bet);
                if has_bet(s.bets, community, bet) {
                    assert(is_bet_at(s.bets, bet_pos(s.bets, community, bet), community, bet));
                }
            },
            _ => {},
        }
    }
}

/// State-machine soundness. Locking is refused with `InvalidState` unless
/// the bet is open, closing unless it is locked, aborting unless it is open
/// or locked; and these are the only bets on which they are refused so.
pub proof fn transitions_need_their_status(
    s: LedgerState,
    community: Seq<char>,
    bet: Seq<char>,
    option: Seq<char>,
)
    ensures
        lock_bet_fault(s, community, bet) == Some(Fault::InvalidState) <==> status_of(
            s.bets,
            community,
            bet,
        ) != Some(BetStatus::Open),
        close_bet_fault(s, community, bet, option) == Some(Fault::InvalidState) <==> status_of(
            s.bets,
            community,
            bet,
        ) != Some(BetStatus::Locked),
        abort_bet_fault(s, community, bet) == Some(Fault::InvalidState) <==> status_of(
            s.bets,
            community,
            bet,
        ) != Some(BetStatus::Open) && status_of(s.bets, community, bet) != Some(
            BetStatus::Locked,
        ),
        status_of(s.bets, community, bet) != Some(BetStatus::Open) ==> lock_bet_fault(
            s,
            community,
            bet,
        ) is Some,
{
}

/// Terminal states. Once a bet is closed, closing it again (on any option),
/// locking it, aborting it or wagering on it is refused with
/// `InvalidState`, and the pool stays as the first close left it.
pub proof fn closed_bet_stays_closed(
    s: LedgerState,
    community: Seq<char>,
    bet: Seq<char>,
    option: Seq<char>,
    again: Step,
)
    requires
        s.wf(),
        close_bet_fault(s, community, bet, option) is None,
        match again {
            Step::CloseBet { community: c, bet: b, .. } => c == community && b == bet,
            Step::LockBet { community: c, bet: b } => c == community && b == bet,
            Step::AbortBet { community: c, bet: b } => c == community && b == bet,
            Step::PlaceWager { community: c, bet: b, .. } => c == community && b == bet,
            _ => false,
        },
    ensures
        status_of(close_bet_next(s, community, bet, option).bets, community, bet) == Some(
            BetStatus::Closed,
        ),
        again.fault(close_bet_next(s, community, bet, option)) == Some(Fault::InvalidState),
        again.apply(close_bet_next(s, community, bet, option)) == close_bet_next(
            s,
            community,
            bet,
            option,
        ),
{
    let t = close_bet_next(s, community, bet, option);
    lemma_bets_keep_keys(s.bets, t.bets, community, bet);
    assert(is_bet_at(s.bets, bet_pos(s.bets, community, bet), community, bet));
}

/// Terminal states. Once a bet is aborted, closing it, locking it, aborting
/// it again or wagering on it is refused with `InvalidState`, and the pool
/// stays as the abort left it. The bet holds no wager any more.
pub proof fn aborted_bet_stays_aborted(
    s: LedgerState,
    community: Seq<char>,
    bet: Seq<char>,
    again: Step,
)
    requires
        s.wf(),
        abort_bet_fault(s, community, bet) is None,
        match again {
            Step::CloseBet { community: c, bet: b, .. } => c == community && b == bet,
            Step::LockBet { community: c, bet: b } => c == community && b == bet,
            Step::AbortBet { community: c, bet: b } => c == community && b == bet,
            Step::PlaceWager { community: c, bet: b, .. } => c == community && b == bet,
            _ => false,
        },
    ensures
        status_of(abort_bet_next(s, community, bet).bets, community, bet) == Some(
            BetStatus::Aborted,
        ),
        again.fault(abort_bet_next(s, community, bet)) == Some(Fault::InvalidState),
        again.apply(abort_bet_next(s, community, bet)) == abort_bet_next(s, community, bet),
        pot(abort_bet_next(s, community, bet).wagers, community, bet) == 0,
{
    let t = abort_bet_next(s, community, bet);
    lemma_bets_keep_keys(s.bets, t.bets, community, bet);
    assert(is_bet_at(s.bets, bet_pos(s.bets, community, bet), community, bet));
    lemma_without_elements(s.wagers, Scope::of_bet(community, bet));
    lemma_sum_none(t.wagers, Scope::of_bet(community, bet), Measure::Stake);
}

/// Every entry that `abort_bet` or `close_bet` returns reports the balance
/// that its member's account has afterwards.
pub proof fn credits_report_new_balances(
    s: LedgerState,
    community: Seq<char>,
    bet: Seq<char>,
    option: Seq<char>,
    k: int,
)
    requires
        s.wf(),
    ensures
        0 <= k < abort_bet_updates(s, community, bet).len() ==> abort_bet_updates(
            s,
            community,
            bet,
        )[k].balance == account_of(
            abort_bet_next(s, community, bet).accounts,
            community,
            abort_bet_updates(s, community, bet)[k].member,
        ).balance,
        0 <= k < close_bet_updates(s, community, bet, option).len() ==> close_bet_updates(
            s,
            community,
            bet,
            option,
        )[k].balance == account_of(
            close_bet_next(s, community, bet, option).accounts,
            community,
            close_bet_updates(s, community, bet, option)[k].member,
        ).balance,
{
    lemma_credit_reports(
        s,
        community,
        bet,
        Scope::of_bet(community, bet),
        Measure::Stake,
        k,
    );
    lemma_credit_reports(
        s,
        community,
        bet,
        Scope::of_option(community, bet, option),
        share_of(s.wagers, community, bet, option),
        k,
    );
}

proof fn lemma_credit_reports(
    s: LedgerState,
    community: Seq<char>,
    bet: Seq<char>,
    credited: Scope,
    measure: Measure,
    k: int,
)
    requires
        s.wf(),
        credited.community == community,
        credited.bet == Some(bet),
        credited.member is None,
    ensures
        0 <= k < within(s.wagers, credited).len() ==> credit_entries(
            s.accounts,
            within(s.wagers, credited),
            community,
            measure,
        )[k].balance == account_of(
            with_credits(s.accounts, s.wagers, community, bet, credited, measure),
            community,
            within(s.wagers, credited)[k].member,
        ).balance,
{
    let sel = within(s.wagers, credited);
    if 0 <= k < sel.len() {
        let after = with_credits(
            s.accounts,
            s.wagers,
            community,
            bet,
            credited,
            measure,
        );
        lemma_within_elements(s.wagers, credited);
        let w = sel[k];
        assert(credited.covers(w) && s.wagers.contains(w));
        let q = choose|q: int| 0 <= q < s.wagers.len() && s.wagers[q] == w;
        assert(s.lawful_wager(s.wagers[q]));
        let m = w.member;
        let i = account_pos(s.accounts, community, m);
        assert(is_account_at(s.accounts, i, community, m));
        lemma_accounts_keep_keys(s.accounts, after, community, m);
        let mine = credited.for_member(m);
        assert forall|j: int| 0 <= j < s.wagers.len() && j != q implies !mine.covers(
            #[trigger] s.wagers[j],
        ) by {
            if mine.covers(s.wagers[j]) {
                assert(s.wagers[j].community == s.wagers[q].community);
            }
        }
        lemma_sum_single(s.wagers, q, mine, measure);
    }
}

/// Terminal states. Whatever is done to the pool, a bet that is aborted or
/// closed stays what it is.
pub proof fn terminal_status_is_final(
    s: LedgerState,
    steps: Seq<Step>,
    community: Seq<char>,
    bet: Seq<char>,
)
    requires
        s.wf(),
        forall|i: int| 0 <= i < steps.len() ==> (#[trigger] steps[i]).admitted(),
        status_of(s.bets, community, bet) == Some(BetStatus::Aborted) || status_of(
            s.bets,
            community,
            bet,
        ) == Some(BetStatus::Closed),
    ensures
        status_of(run(s, steps).bets, community, bet) == status_of(s.bets, community, bet),
    decreases steps.len(),
{
    if steps.len() > 0 {
        let init = steps.drop_last();
        assert forall|i: int| 0 <= i < init.len() implies (#[trigger] init[i]).admitted() by {
            assert(init[i] == steps[i]);
        }
        terminal_status_is_final(s, init, community, bet);
        run_keeps_wf(s, init);
        assert(steps[steps.len() - 1].admitted());
        step_moves_lawfully(run(s, init), steps.last(), community, bet);
    }
}

/// Single choice. No operation moves a wager to another option: where a
/// member holds a wager on a bet before and after an operation, it is on the
/// same option.
pub proof fn wager_keeps_its_option(
    s: LedgerState,
    op: Step,
    community: Seq<char>,
    bet: Seq<char>,
    member: Seq<char>,
)
    requires
        s.wf(),
        op.admitted(),
        has_wager(s.wagers, community, bet, member),
        has_wager(op.apply(s).wagers, community, bet, member),
    ensures
        wager_of(op.apply(s).wagers, community, bet, member).option == wager_of(
            s.wagers,
            community,
            bet,
            member,
        ).option,
{
    let t = op.apply(s);
    step_keeps_wf(s, op);
    let k = wager_pos(s.wagers, community, bet, member);
    let q = wager_pos(t.wagers, community, bet, member);
    assert(is_wager_at(s.wagers, k, community, bet, member));
    assert(is_wager_at(t.wagers, q, community, bet, member));
    if op.fault(s) is None {
        match op {
            Step::PlaceWager { community: c, bet: b, option, member: m, amount } => {
                if has_wager(s.wagers, c, b, m) {
                    assert(is_wager_at(t.wagers, k, community, bet, member));
                    lemma_wager_at(t.wagers, k, community, bet, member);
                    if c == community && b == bet && m == member {
                        assert(t.wagers[k].option == s.wagers[k].option);
                    }
                } else {
                    assert(t.wagers[k] == s.wagers[k]);
                    assert(is_wager_at(t.wagers, k, community, bet, member));
                    lemma_wager_at(t.wagers, k, community, bet, member);
                }
            },
            Step::AbortBet { community: c, bet: b } => {
                lemma_kept_wager(s, Scope::of_bet(c, b), community, bet, member);
            },
            Step::CloseBet { community: c, bet: b, option } => {
                lemma_kept_wager(s, Scope::of_bet(c, b), community, bet, member);
            },
            Step::ResetAll { community: c, starting_balance } => {
                lemma_kept_wager(s, Scope::of_community(c), community, bet, member);
            },
            _ => {},
        }
    }
}

/// A wager that is still there after others were removed is the wager it
/// was.
proof fn lemma_kept_wager(
    s: LedgerState,
    gone: Scope,
    community: Seq<char>,
    bet: Seq<char>,
    member: Seq<char>,
)
    requires
        s.wf(),
        has_wager(s.wagers, community, bet, member),
        has_wager(without(s.wagers, gone), community, bet, member),
    ensures
        wager_of(without(s.wagers, gone), community, bet, member) == wager_of(
            s.wagers,
            community,
            bet,
            member,
        ),
{
    let rest = without(s.wagers, gone);
    let q = wager_pos(rest, community, bet, member);
    assert(is_wager_at(rest, q, community, bet, member));
    lemma_without_elements(s.wagers, gone);
    assert(s.wagers.contains(rest[q]));
    let p = choose|p: int| 0 <= p < s.wagers.len() && s.wagers[p] == rest[q];
    assert(is_wager_at(s.wagers, p, community, bet, member));
    lemma_wager_at(s.wagers, p, community, bet, member);
}

/// Accounts and bets are kept for good: no operation removes an account or a
/// bet.
pub proof fn nothing_is_deleted(s: LedgerState, op: Step, community: Seq<char>, name: Seq<char>)
    ensures
        has_account(s.accounts, community, name) ==> has_account(
            op.apply(s).accounts,
            community,
            name,
        ),
        has_bet(s.bets, community, name) ==> has_bet(op.apply(s).bets, community, name),
{
    let t = op.apply(s);
    if has_account(s.accounts, community, name) {
        let i = account_pos(s.accounts, community, name);
        assert(is_account_at(s.accounts, i, community, name));
        assert(t.accounts[i].community == s.accounts[i].community);
        assert(t.accounts[i].member == s.accounts[i].member);
        assert(is_account_at(t.accounts, i, community, name));
    }
    if has_bet(s.bets, community, name) {
        let j = bet_pos(s.bets, community, name);
        assert(is_bet_at(s.bets, j, community, name));
        assert(t.bets[j].community == s.bets[j].community);
        assert(t.bets[j].id == s.bets[j].id);
        assert(is_bet_at(t.bets, j, community, name));
    }
}

/// Income is new currency: a grant raises the funds of a community by the
/// amount for each of its accounts.
pub proof fn income_raises_funds(accounts: Seq<AccountRecord>, amount: nat, of: Seq<char>)
    ensures
        community_funds(with_income(accounts, amount), of) == community_funds(accounts, of)
            + amount * accounts_in(accounts, of).len(),
    decreases accounts.len(),
{
    if accounts.len() > 0 {
        let init = accounts.drop_last();
        income_raises_funds(init, amount, of);
        assert(with_income(accounts, amount).drop_last() =~= with_income(init, amount));
        let n = accounts_in(init, of).len();
        if accounts.last().community == of {
            assert(amount * (n + 1) == amount * n + amount) by (nonlinear_arith);
        }
    } else {
        assert(amount * 0 == 0) by (nonlinear_arith);
    }
}

} // verus!
