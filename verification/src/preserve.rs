//! Every operation of the pool keeps its invariant.

use crate::lookup::{
    lemma_account_at, lemma_accounts_keep_keys, lemma_bet_at, lemma_bets_keep_keys,
    lemma_first_occurrences, lemma_wager_at,
};
use crate::model::{
    account_pos, bet_pos, community_funds, distinct_accounts, distinct_bets, distinct_wagers,
    has_account, has_bet, has_wager, is_account_at, is_bet_at, is_wager_at, paid_out, pot,
    share_of, stake_in_bet, staked_by, wager_pos, AccountRecord, LedgerState, Measure, Scope,
    WagerRecord,
};
use crate::rules::{
    abort_bet_fault, abort_bet_next, close_bet_fault, close_bet_next, create_account_fault,
    create_account_next, grant_income_fault, grant_income_next, lock_bet_fault, lock_bet_next,
    place_wager_fault, place_wager_next, register_bet_fault, register_bet_next, reset_all_fault,
    reset_all_next, with_payouts, without,
};
use crate::sums::{
    lemma_funds_pointwise, lemma_funds_push, lemma_paid_within_pot, lemma_spread_total,
    lemma_sum_apart, lemma_sum_none, lemma_sum_push, lemma_sum_split, lemma_sum_update,
    lemma_without_distinct, lemma_without_elements, spread,
};
use vstd::prelude::*;

verus! {

/// A new account keeps the invariant.
pub proof fn create_account_keeps_wf(
    s: LedgerState,
    community: Seq<char>,
    member: Seq<char>,
    starting_balance: nat,
)
    requires
        s.wf(),
        create_account_fault(s, community, member, starting_balance) is None,
    ensures
        create_account_next(s, community, member, starting_balance).wf(),
{
    let t = create_account_next(s, community, member, starting_balance);
    let a = AccountRecord { community, member, balance: starting_balance, staked: 0 };
    let n = s.accounts.len() as int;
    assert forall|i: int, j: int| 0 <= i < j < t.accounts.len() implies !(
    #[trigger] t.accounts[i].community == #[trigger] t.accounts[j].community
        && t.accounts[i].member == t.accounts[j].member) by {
        assert(t.accounts[i] == s.accounts[i]);
        if j < n {
            assert(t.accounts[j] == s.accounts[j]);
            assert(!(s.accounts[i].community == s.accounts[j].community && s.accounts[i].member
                == s.accounts[j].member));
        } else {
            assert(!is_account_at(s.accounts, i, community, member));
        }
    }
    assert forall|k: int| 0 <= k < t.wagers.len() implies t.lawful_wager(#[trigger] t.wagers[k]) by {
        let w = s.wagers[k];
        assert(s.lawful_wager(w));
        let p = account_pos(s.accounts, w.community, w.member);
        assert(is_account_at(s.accounts, p, w.community, w.member));
        assert(t.accounts[p] == s.accounts[p]);
        assert(is_account_at(t.accounts, p, w.community, w.member));
    }
    assert forall|i: int| 0 <= i < t.accounts.len() implies (#[trigger] t.accounts[i]).staked
        == staked_by(t.wagers, t.accounts[i].community, t.accounts[i].member) by {
        if i < n {
            assert(t.accounts[i] == s.accounts[i]);
        } else {
            let scope = Scope::of_member(community, member);
            assert forall|k: int| 0 <= k < s.wagers.len() implies !scope.covers(
                #[trigger] s.wagers[k],
            ) by {
                assert(s.lawful_wager(s.wagers[k]));
            }
            lemma_sum_none(s.wagers, scope, Measure::Stake);
        }
    }
    assert forall|c: Seq<char>| #[trigger] community_funds(t.accounts, c) <= u64::MAX by {
        lemma_funds_push(s.accounts, a, c);
    }
}

/// An income grant that fits keeps the invariant.
pub proof fn grant_income_keeps_wf(s: LedgerState, amount: nat)
    requires
        s.wf(),
        grant_income_fault(s, amount) is None,
    ensures
        grant_income_next(s, amount).wf(),
{
    let t = grant_income_next(s, amount);
    lemma_accounts_keep_keys(s.accounts, t.accounts, Seq::empty(), Seq::empty());
    assert forall|k: int| 0 <= k < t.wagers.len() implies t.lawful_wager(#[trigger] t.wagers[k]) by {
        let w = s.wagers[k];
        assert(s.lawful_wager(w));
        lemma_accounts_keep_keys(s.accounts, t.accounts, w.community, w.member);
    }
    assert forall|i: int| 0 <= i < t.accounts.len() implies (#[trigger] t.accounts[i]).staked
        == staked_by(t.wagers, t.accounts[i].community, t.accounts[i].member) by {
        assert(s.accounts[i].staked == staked_by(
            s.wagers,
            s.accounts[i].community,
            s.accounts[i].member,
        ));
    }
}

/// A reset that fits keeps the invariant: the bets it aborts hold no stakes
/// any more, and the accounts it sets back record none.
pub proof fn reset_all_keeps_wf(s: LedgerState, community: Seq<char>, starting_balance: nat)
    requires
        s.wf(),
        reset_all_fault(s, community, starting_balance) is None,
    ensures
        reset_all_next(s, community, starting_balance).wf(),
{
    let t = reset_all_next(s, community, starting_balance);
    let gone = Scope::of_community(community);
    lemma_accounts_keep_keys(s.accounts, t.accounts, Seq::empty(), Seq::empty());
    lemma_bets_keep_keys(s.bets, t.bets, Seq::empty(), Seq::empty());
    lemma_without_distinct(s.wagers, gone);
    lemma_without_elements(s.wagers, gone);
    assert forall|j: int| 0 <= j < t.bets.len() implies (#[trigger] t.bets[j]).options.no_duplicates() by {
        assert(s.bets[j].options.no_duplicates());
    }
    assert forall|k: int| 0 <= k < t.wagers.len() implies t.lawful_wager(#[trigger] t.wagers[k]) by {
        let w = t.wagers[k];
        assert(!gone.covers(w) && s.wagers.contains(w));
        let q = choose|q: int| 0 <= q < s.wagers.len() && s.wagers[q] == w;
        assert(s.lawful_wager(s.wagers[q]));
        lemma_accounts_keep_keys(s.accounts, t.accounts, w.community, w.member);
        lemma_bets_keep_keys(s.bets, t.bets, w.community, w.bet);
        let p = bet_pos(s.bets, w.community, w.bet);
        assert(is_bet_at(s.bets, p, w.community, w.bet));
        assert(t.bets[p] == s.bets[p]);
    }
    assert forall|i: int| 0 <= i < t.accounts.len() implies (#[trigger] t.accounts[i]).staked
        == staked_by(t.wagers, t.accounts[i].community, t.accounts[i].member) by {
        let a = s.accounts[i];
        let scope = Scope::of_member(a.community, a.member);
        assert(a.staked == staked_by(s.wagers, a.community, a.member));
        if a.community == community {
            assert forall|k: int| 0 <= k < t.wagers.len() implies !scope.covers(
                #[trigger] t.wagers[k],
            ) by {
                assert(!gone.covers(t.wagers[k]));
            }
            lemma_sum_none(t.wagers, scope, Measure::Stake);
        } else {
            lemma_sum_apart(s.wagers, scope, gone, Measure::Stake);
        }
    }
    assert forall|c: Seq<char>| #[trigger] community_funds(t.accounts, c) <= u64::MAX by {
        if c != community {
            lemma_funds_pointwise(s.accounts, t.accounts, c);
            assert(community_funds(s.accounts, c) <= u64::MAX);
        }
    }
}

/// A new bet keeps the invariant.
pub proof fn register_bet_keeps_wf(
    s: LedgerState,
    community: Seq<char>,
    bet: Seq<char>,
    options: Seq<Seq<char>>,
)
    requires
        s.wf(),
        register_bet_fault(s, community, bet) is None,
    ensures
        register_bet_next(s, community, bet, options).wf(),
{
    let t = register_bet_next(s, community, bet, options);
    let n = s.bets.len() as int;
    assert forall|i: int, j: int| 0 <= i < j < t.bets.len() implies !(#[trigger] t.bets[i].community
        == #[trigger] t.bets[j].community && t.bets[i].id == t.bets[j].id) by {
        assert(t.bets[i] == s.bets[i]);
        if j < n {
            assert(t.bets[j] == s.bets[j]);
            assert(!(s.bets[i].community == s.bets[j].community && s.bets[i].id == s.bets[j].id));
        } else {
            assert(!is_bet_at(s.bets, i, community, bet));
        }
    }
    assert forall|j: int| 0 <= j < t.bets.len() implies (#[trigger] t.bets[j]).options.no_duplicates() by {
        if j < n {
            assert(t.bets[j] == s.bets[j]);
        } else {
            lemma_first_occurrences(options);
        }
    }
    assert forall|k: int| 0 <= k < t.wagers.len() implies t.lawful_wager(#[trigger] t.wagers[k]) by {
        let w = s.wagers[k];
        assert(s.lawful_wager(w));
        let p = bet_pos(s.bets, w.community, w.bet);
        assert(is_bet_at(s.bets, p, w.community, w.bet));
        assert(t.bets[p] == s.bets[p]);
        assert(is_bet_at(t.bets, p, w.community, w.bet));
        lemma_bet_at(t.bets, p, w.community, w.bet);
    }
}

/// Locking, aborting or closing one bet leaves every wager on another bet
/// lawful.
proof fn lemma_status_change(
    s: LedgerState,
    t: LedgerState,
    community: Seq<char>,
    bet: Seq<char>,
    w: WagerRecord,
)
    requires
        s.wf(),
        s.lawful_wager(w),
        t.bets.len() == s.bets.len(),
        forall|j: int|
            0 <= j < s.bets.len() ==> (#[trigger] t.bets[j]).community == s.bets[j].community
                && t.bets[j].id == s.bets[j].id && t.bets[j].options == s.bets[j].options && (!(
            s.bets[j].community == community && s.bets[j].id == bet) ==> t.bets[j].status
                == s.bets[j].status),
        t.accounts.len() == s.accounts.len(),
        forall|i: int|
            0 <= i < s.accounts.len() ==> (#[trigger] t.accounts[i]).community
                == s.accounts[i].community && t.accounts[i].member == s.accounts[i].member,
        !(w.community == community && w.bet == bet) || (has_bet(t.bets, community, bet)
            && t.bets[bet_pos(t.bets, community, bet)].status.is_active()),
    ensures
        t.lawful_wager(w),
{
    lemma_accounts_keep_keys(s.accounts, t.accounts, w.community, w.member);
    lemma_bets_keep_keys(s.bets, t.bets, w.community, w.bet);
    let p = bet_pos(s.bets, w.community, w.bet);
    assert(is_bet_at(s.bets, p, w.community, w.bet));
    assert(t.bets[p].options == s.bets[p].options);
}

/// Locking an open bet keeps the invariant.
pub proof fn lock_bet_keeps_wf(s: LedgerState, community: Seq<char>, bet: Seq<char>)
    requires
        s.wf(),
        lock_bet_fault(s, community, bet) is None,
    ensures
        lock_bet_next(s, community, bet).wf(),
{
    let t = lock_bet_next(s, community, bet);
    lemma_bets_keep_keys(s.bets, t.bets, community, bet);
    let p = bet_pos(s.bets, community, bet);
    assert(is_bet_at(s.bets, p, community, bet));
    assert forall|j: int| 0 <= j < t.bets.len() implies (#[trigger] t.bets[j]).options.no_duplicates() by {
        assert(s.bets[j].options.no_duplicates());
    }
    assert forall|k: int| 0 <= k < t.wagers.len() implies t.lawful_wager(#[trigger] t.wagers[k]) by {
        assert(s.lawful_wager(s.wagers[k]));
        lemma_status_change(s, t, community, bet, s.wagers[k]);
    }
}

/// A wager that is accepted keeps the invariant.
pub proof fn place_wager_keeps_wf(
    s: LedgerState,
    community: Seq<char>,
    bet: Seq<char>,
    option: Seq<char>,
    member: Seq<char>,
    amount: nat,
)
    requires
        s.wf(),
        amount > 0,
        place_wager_fault(s, community, bet, option, member, amount) is None,
    ensures
        place_wager_next(s, community, bet, option, member, amount).wf(),
{
    let t = place_wager_next(s, community, bet, option, member, amount);
    let ai = account_pos(s.accounts, community, member);
    assert(is_account_at(s.accounts, ai, community, member));
    lemma_accounts_keep_keys(s.accounts, t.accounts, community, member);
    assert forall|i: int| 0 <= i < s.accounts.len() && i != ai implies t.accounts[i]
        == #[trigger] s.accounts[i] by {
        if is_account_at(s.accounts, i, community, member) {
            lemma_account_at(s.accounts, i, community, member);
        }
    }
    if has_wager(s.wagers, community, bet, member) {
        let k = wager_pos(s.wagers, community, bet, member);
        assert(is_wager_at(s.wagers, k, community, bet, member));
        let raised = WagerRecord { amount: s.wagers[k].amount + amount, ..s.wagers[k] };
        assert forall|q: int| 0 <= q < s.wagers.len() && q != k implies t.wagers[q]
            == #[trigger] s.wagers[q] by {
            if is_wager_at(s.wagers, q, community, bet, member) {
                lemma_wager_at(s.wagers, q, community, bet, member);
            }
        }
        assert(t.wagers =~= s.wagers.update(k, raised));
        assert forall|i: int, j: int| 0 <= i < j < t.wagers.len() implies !(
        #[trigger] t.wagers[i].community == #[trigger] t.wagers[j].community && t.wagers[i].bet
            == t.wagers[j].bet && t.wagers[i].member == t.wagers[j].member) by {
            assert(!(s.wagers[i].community == s.wagers[j].community && s.wagers[i].bet
                == s.wagers[j].bet && s.wagers[i].member == s.wagers[j].member));
        }
        assert forall|q: int| 0 <= q < t.wagers.len() implies t.lawful_wager(
            #[trigger] t.wagers[q],
        ) by {
            let w = s.wagers[q];
            assert(s.lawful_wager(w));
            lemma_accounts_keep_keys(s.accounts, t.accounts, w.community, w.member);
        }
        assert forall|i: int| 0 <= i < t.accounts.len() implies (#[trigger] t.accounts[i]).staked
            == staked_by(t.wagers, t.accounts[i].community, t.accounts[i].member) by {
            let a = s.accounts[i];
            assert(a.staked == staked_by(s.wagers, a.community, a.member));
            lemma_sum_update(
                s.wagers,
                k,
                raised,
                Scope::of_member(a.community, a.member),
                Measure::Stake,
            );
        }
    } else {
        let w = WagerRecord { community, bet, member, option, amount };
        let n = s.wagers.len() as int;
        assert forall|i: int, j: int| 0 <= i < j < t.wagers.len() implies !(
        #[trigger] t.wagers[i].community == #[trigger] t.wagers[j].community && t.wagers[i].bet
            == t.wagers[j].bet && t.wagers[i].member == t.wagers[j].member) by {
            assert(t.wagers[i] == s.wagers[i]);
            if j < n {
                assert(t.wagers[j] == s.wagers[j]);
                assert(!(s.wagers[i].community == s.wagers[j].community && s.wagers[i].bet
                    == s.wagers[j].bet && s.wagers[i].member == s.wagers[j].member));
            } else {
                assert(!is_wager_at(s.wagers, i, community, bet, member));
            }
        }
        assert forall|q: int| 0 <= q < t.wagers.len() implies t.lawful_wager(
            #[trigger] t.wagers[q],
        ) by {
            if q < n {
                let old_w = s.wagers[q];
                assert(s.lawful_wager(old_w));
                lemma_accounts_keep_keys(s.accounts, t.accounts, old_w.community, old_w.member);
            }
        }
        assert forall|i: int| 0 <= i < t.accounts.len() implies (#[trigger] t.accounts[i]).staked
            == staked_by(t.wagers, t.accounts[i].community, t.accounts[i].member) by {
            let a = s.accounts[i];
            assert(a.staked == staked_by(s.wagers, a.community, a.member));
            lemma_sum_push(s.wagers, w, Scope::of_member(a.community, a.member), Measure::Stake);
        }
    }
    assert forall|c: Seq<char>| #[trigger] community_funds(t.accounts, c) <= u64::MAX by {
        lemma_funds_pointwise(s.accounts, t.accounts, c);
        assert(community_funds(s.accounts, c) <= u64::MAX);
    }
}

/// Once the stakes on one bet are gone, what remains is lawful and every
/// account that gave its stake up records what its member still has at
/// stake.
proof fn lemma_bet_settled(s: LedgerState, t: LedgerState, community: Seq<char>, bet: Seq<char>)
    requires
        s.wf(),
        t.wagers == without(s.wagers, Scope::of_bet(community, bet)),
        t.bets.len() == s.bets.len(),
        forall|j: int|
            0 <= j < s.bets.len() ==> (#[trigger] t.bets[j]).community == s.bets[j].community
                && t.bets[j].id == s.bets[j].id && t.bets[j].options == s.bets[j].options && (!(
            s.bets[j].community == community && s.bets[j].id == bet) ==> t.bets[j].status
                == s.bets[j].status),
        t.accounts.len() == s.accounts.len(),
        forall|i: int|
            0 <= i < s.accounts.len() ==> (#[trigger] t.accounts[i]).community
                == s.accounts[i].community && t.accounts[i].member == s.accounts[i].member
                && t.accounts[i].staked == if s.accounts[i].community == community {
                (s.accounts[i].staked - stake_in_bet(
                    s.wagers,
                    community,
                    bet,
                    s.accounts[i].member,
                )) as nat
            } else {
                s.accounts[i].staked
            },
    ensures
        distinct_accounts(t.accounts),
        distinct_bets(t.bets),
        distinct_wagers(t.wagers),
        forall|j: int| 0 <= j < t.bets.len() ==> (#[trigger] t.bets[j]).options.no_duplicates(),
        forall|k: int| 0 <= k < t.wagers.len() ==> t.lawful_wager(#[trigger] t.wagers[k]),
        forall|i: int|
            0 <= i < t.accounts.len() ==> (#[trigger] t.accounts[i]).staked == staked_by(
                t.wagers,
                t.accounts[i].community,
                t.accounts[i].member,
            ),
        forall|i: int|
            0 <= i < s.accounts.len() && (#[trigger] s.accounts[i]).community == community
                ==> stake_in_bet(s.wagers, community, bet, s.accounts[i].member)
                <= s.accounts[i].staked,
{
    let gone = Scope::of_bet(community, bet);
    lemma_accounts_keep_keys(s.accounts, t.accounts, Seq::empty(), Seq::empty());
    lemma_bets_keep_keys(s.bets, t.bets, Seq::empty(), Seq::empty());
    lemma_without_distinct(s.wagers, gone);
    lemma_without_elements(s.wagers, gone);
    assert forall|j: int| 0 <= j < t.bets.len() implies (#[trigger] t.bets[j]).options.no_duplicates() by {
        assert(s.bets[j].options.no_duplicates());
    }
    assert forall|k: int| 0 <= k < t.wagers.len() implies t.lawful_wager(#[trigger] t.wagers[k]) by {
        let w = t.wagers[k];
        assert(!gone.covers(w) && s.wagers.contains(w));
        let q = choose|q: int| 0 <= q < s.wagers.len() && s.wagers[q] == w;
        assert(s.lawful_wager(s.wagers[q]));
        lemma_status_change(s, t, community, bet, w);
    }
    assert forall|i: int| 0 <= i < s.accounts.len() implies (#[trigger] t.accounts[i]).staked
        == staked_by(t.wagers, t.accounts[i].community, t.accounts[i].member) && (
    s.accounts[i].community == community ==> stake_in_bet(
        s.wagers,
        community,
        bet,
        s.accounts[i].member,
    ) <= s.accounts[i].staked) by {
        let a = s.accounts[i];
        let scope = Scope::of_member(a.community, a.member);
        assert(a.staked == staked_by(s.wagers, a.community, a.member));
        if a.community == community {
            lemma_sum_split(s.wagers, scope, gone, gone.for_member(a.member), Measure::Stake);
        } else {
            lemma_sum_apart(s.wagers, scope, gone, Measure::Stake);
        }
    }
    assert forall|i: int|
        0 <= i < s.accounts.len() && (#[trigger] s.accounts[i]).community
            == community implies stake_in_bet(s.wagers, community, bet, s.accounts[i].member)
        <= s.accounts[i].staked by {
        assert(t.accounts[i].community == community);
    }
}

/// Aborting a bet that is open or locked keeps the invariant.
pub proof fn abort_bet_keeps_wf(s: LedgerState, community: Seq<char>, bet: Seq<char>)
    requires
        s.wf(),
        abort_bet_fault(s, community, bet) is None,
    ensures
        abort_bet_next(s, community, bet).wf(),
{
    let t = abort_bet_next(s, community, bet);
    lemma_bet_settled(s, t, community, bet);
    assert forall|c: Seq<char>| #[trigger] community_funds(t.accounts, c) <= u64::MAX by {
        lemma_funds_pointwise(s.accounts, t.accounts, c);
        assert(community_funds(s.accounts, c) <= u64::MAX);
    }
}

/// What paying the winners does to the funds of the bet's community: the
/// stakes of all accounts on the bet leave, the credits of all accounts
/// arrive.
pub proof fn lemma_funds_after_payouts(
    accounts: Seq<AccountRecord>,
    ws: Seq<WagerRecord>,
    community: Seq<char>,
    bet: Seq<char>,
    option: Seq<char>,
)
    requires
        forall|i: int|
            0 <= i < accounts.len() && (#[trigger] accounts[i]).community == community
                ==> stake_in_bet(ws, community, bet, accounts[i].member) <= accounts[i].staked,
    ensures
        community_funds(with_payouts(accounts, ws, community, bet, option), community) + spread(
            accounts,
            ws,
            Scope::of_bet(community, bet),
            Measure::Stake,
        ) == community_funds(accounts, community) + spread(
            accounts,
            ws,
            Scope::of_option(community, bet, option),
            share_of(ws, community, bet, option),
        ),
    decreases accounts.len(),
{
    if accounts.len() > 0 {
        let init = accounts.drop_last();
        let n = accounts.len() - 1;
        assert forall|i: int| 0 <= i < init.len() && (#[trigger] init[i]).community
            == community implies stake_in_bet(ws, community, bet, init[i].member)
            <= init[i].staked by {
            assert(init[i] == accounts[i]);
        }
        lemma_funds_after_payouts(init, ws, community, bet, option);
        let paid = with_payouts(accounts, ws, community, bet, option);
        assert(paid.drop_last() =~= with_payouts(init, ws, community, bet, option));
        assert(accounts[n].community == community ==> stake_in_bet(
            ws,
            community,
            bet,
            accounts[n].member,
        ) <= accounts[n].staked);
        assert(paid.last() == paid[n]);
    }
}

/// Closing a locked bet takes its pot out of the community's funds and puts
/// the winners' credits in.
pub proof fn close_bet_accounts(
    s: LedgerState,
    community: Seq<char>,
    bet: Seq<char>,
    option: Seq<char>,
)
    requires
        s.wf(),
        close_bet_fault(s, community, bet, option) is None,
    ensures
        community_funds(close_bet_next(s, community, bet, option).accounts, community) + pot(
            s.wagers,
            community,
            bet,
        ) == community_funds(s.accounts, community) + paid_out(s.wagers, community, bet, option),
        forall|c: Seq<char>|
            c != community ==> #[trigger] community_funds(
                close_bet_next(s, community, bet, option).accounts,
                c,
            ) == community_funds(s.accounts, c),
{
    let t = close_bet_next(s, community, bet, option);
    lemma_bet_settled(s, t, community, bet);
    lemma_funds_after_payouts(s.accounts, s.wagers, community, bet, option);
    assert forall|k: int|
        0 <= k < s.wagers.len() && Scope::of_bet(community, bet).covers(
            #[trigger] s.wagers[k],
        ) implies has_account(s.accounts, community, s.wagers[k].member) by {
        assert(s.lawful_wager(s.wagers[k]));
    }
    lemma_spread_total(s.accounts, s.wagers, Scope::of_bet(community, bet), Measure::Stake);
    lemma_spread_total(
        s.accounts,
        s.wagers,
        Scope::of_option(community, bet, option),
        share_of(s.wagers, community, bet, option),
    );
    assert forall|c: Seq<char>| c != community implies #[trigger] community_funds(t.accounts, c)
        == community_funds(s.accounts, c) by {
        lemma_funds_pointwise(s.accounts, t.accounts, c);
    }
}

/// Closing a locked bet on one of its options keeps the invariant.
pub proof fn close_bet_keeps_wf(
    s: LedgerState,
    community: Seq<char>,
    bet: Seq<char>,
    option: Seq<char>,
)
    requires
        s.wf(),
        close_bet_fault(s, community, bet, option) is None,
    ensures
        close_bet_next(s, community, bet, option).wf(),
{
    let t = close_bet_next(s, community, bet, option);
    lemma_bet_settled(s, t, community, bet);
    close_bet_accounts(s, community, bet, option);
    lemma_paid_within_pot(s.wagers, community, bet, option);
    assert forall|c: Seq<char>| #[trigger] community_funds(t.accounts, c) <= u64::MAX by {
        assert(community_funds(s.accounts, c) <= u64::MAX);
    }
}

/// Placing a wager moves currency inside one account: no community holds
/// more or less after it.
pub proof fn place_wager_accounts(
    s: LedgerState,
    community: Seq<char>,
    bet: Seq<char>,
    option: Seq<char>,
    member: Seq<char>,
    amount: nat,
    of: Seq<char>,
)
    requires
        s.wf(),
        place_wager_fault(s, community, bet, option, member, amount) is None,
    ensures
        community_funds(
            place_wager_next(s, community, bet, option, member, amount).accounts,
            of,
        ) == community_funds(s.accounts, of),
{
    let t = place_wager_next(s, community, bet, option, member, amount);
    let ai = account_pos(s.accounts, community, member);
    assert(is_account_at(s.accounts, ai, community, member));
    assert forall|i: int| 0 <= i < s.accounts.len() implies (#[trigger] t.accounts[i]).community
        == s.accounts[i].community && (s.accounts[i].community == of ==> t.accounts[i].balance
        + t.accounts[i].staked == s.accounts[i].balance + s.accounts[i].staked) by {
        if is_account_at(s.accounts, i, community, member) {
            lemma_account_at(s.accounts, i, community, member);
        }
    }
    lemma_funds_pointwise(s.accounts, t.accounts, of);
}

/// Aborting a bet hands each stake back to the account it came from: no
/// community holds more or less after it.
pub proof fn abort_bet_accounts(s: LedgerState, community: Seq<char>, bet: Seq<char>, of: Seq<char>)
    requires
        s.wf(),
        abort_bet_fault(s, community, bet) is None,
    ensures
        community_funds(abort_bet_next(s, community, bet).accounts, of) == community_funds(
            s.accounts,
            of,
        ),
{
    let t = abort_bet_next(s, community, bet);
    lemma_bet_settled(s, t, community, bet);
    lemma_funds_pointwise(s.accounts, t.accounts, of);
}

} // verus!
