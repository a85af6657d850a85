//! What the invariant says of the size of the numbers in a pool.

use crate::model::{community_funds, has_account, wager_sum, LedgerState, Measure, Scope};
use crate::sums::{
    lemma_funds_bound, lemma_spread_total, lemma_staked_is_spread, lemma_staked_within_funds,
    lemma_sum_element, lemma_sum_narrow,
};
use vstd::prelude::*;

verus! {

/// The stakes of any selection are part of the funds of its community.
pub proof fn lemma_stakes_fit(s: LedgerState, scope: Scope)
    requires
        s.wf(),
    ensures
        wager_sum(s.wagers, scope, Measure::Stake) <= community_funds(s.accounts, scope.community),
        community_funds(s.accounts, scope.community) <= u64::MAX,
{
    let all = Scope::of_community(scope.community);
    lemma_sum_narrow(s.wagers, scope, all, Measure::Stake);
    assert forall|k: int| 0 <= k < s.wagers.len() && all.covers(#[trigger] s.wagers[k]) implies has_account(
        s.accounts,
        all.community,
        s.wagers[k].member,
    ) by {
        assert(s.lawful_wager(s.wagers[k]));
    }
    lemma_spread_total(s.accounts, s.wagers, all, Measure::Stake);
    lemma_staked_is_spread(s.accounts, s.wagers, scope.community);
    lemma_staked_within_funds(s.accounts, scope.community);
}

/// Every selection of stakes can be counted.
pub proof fn lemma_all_stakes_fit(s: LedgerState)
    requires
        s.wf(),
    ensures
        forall|scope: Scope| #[trigger] wager_sum(s.wagers, scope, Measure::Stake) <= u64::MAX,
{
    assert forall|scope: Scope| #[trigger]
        wager_sum(s.wagers, scope, Measure::Stake) <= u64::MAX by {
        lemma_stakes_fit(s, scope);
    }
}

/// What an account holds, spendable and staked together, can be counted.
pub proof fn lemma_accounts_fit(s: LedgerState)
    requires
        s.wf(),
    ensures
        forall|i: int|
            0 <= i < s.accounts.len() ==> (#[trigger] s.accounts[i]).balance + s.accounts[i].staked
                <= u64::MAX,
{
    assert forall|i: int| 0 <= i < s.accounts.len() implies (#[trigger] s.accounts[i]).balance
        + s.accounts[i].staked <= u64::MAX by {
        lemma_funds_bound(s.accounts, i);
        assert(community_funds(s.accounts, s.accounts[i].community) <= u64::MAX);
    }
}

/// Every stake can be counted.
pub proof fn lemma_wagers_fit(s: LedgerState)
    requires
        s.wf(),
    ensures
        forall|k: int| 0 <= k < s.wagers.len() ==> (#[trigger] s.wagers[k]).amount <= u64::MAX,
{
    assert forall|k: int| 0 <= k < s.wagers.len() implies (#[trigger] s.wagers[k]).amount
        <= u64::MAX by {
        let scope = Scope::of_community(s.wagers[k].community);
        lemma_sum_element(s.wagers, k, scope, Measure::Stake);
        lemma_stakes_fit(s, scope);
    }
}

} // verus!
