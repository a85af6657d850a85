//! Facts about the sums that the model is stated in.

use crate::model::{
    backing, community_funds, distinct_accounts, distinct_wagers, has_account, is_account_at,
    paid_out, payout, pot, staked_by, wager_sum, weigh, AccountRecord, Measure, Scope, WagerRecord,
};
use crate::rules::{within, without};
use vstd::prelude::*;

verus! {

// ------------------------------------------------------- sums over wagers

/// Taking one more wager into a prefix adds its weight where it is covered.
pub proof fn lemma_sum_step(ws: Seq<WagerRecord>, k: int, scope: Scope, measure: Measure)
    requires
        0 <= k < ws.len(),
    ensures
        wager_sum(ws.take(k + 1), scope, measure) == wager_sum(ws.take(k), scope, measure) + if scope.covers(
            ws[k],
        ) {
            weigh(measure, ws[k])
        } else {
            0
        },
{
    assert(ws.take(k + 1).drop_last() =~= ws.take(k));
}

/// One more wager adds its weight where it is covered.
pub proof fn lemma_sum_push(ws: Seq<WagerRecord>, w: WagerRecord, scope: Scope, measure: Measure)
    ensures
        wager_sum(ws.push(w), scope, measure) == wager_sum(ws, scope, measure) + if scope.covers(w) {
            weigh(measure, w)
        } else {
            0
        },
{
    assert(ws.push(w).drop_last() =~= ws);
}

/// A prefix never sums to more than the whole.
pub proof fn lemma_sum_prefix(ws: Seq<WagerRecord>, k: int, scope: Scope, measure: Measure)
    requires
        0 <= k <= ws.len(),
    ensures
        wager_sum(ws.take(k), scope, measure) <= wager_sum(ws, scope, measure),
    decreases ws.len(),
{
    if k < ws.len() {
        lemma_sum_prefix(ws.drop_last(), k, scope, measure);
        assert(ws.drop_last().take(k) =~= ws.take(k));
    } else {
        assert(ws.take(k) =~= ws);
    }
}

/// A narrower selection never sums to more than a wider one.
pub proof fn lemma_sum_narrow(ws: Seq<WagerRecord>, narrow: Scope, wide: Scope, measure: Measure)
    requires
        forall|w: WagerRecord| #[trigger] narrow.covers(w) ==> wide.covers(w),
    ensures
        wager_sum(ws, narrow, measure) <= wager_sum(ws, wide, measure),
    decreases ws.len(),
{
    if ws.len() > 0 {
        lemma_sum_narrow(ws.drop_last(), narrow, wide, measure);
    }
}

/// No covered wager weighs more than the sum it is part of.
pub proof fn lemma_sum_element(ws: Seq<WagerRecord>, k: int, scope: Scope, measure: Measure)
    requires
        0 <= k < ws.len(),
        scope.covers(ws[k]),
    ensures
        weigh(measure, ws[k]) <= wager_sum(ws, scope, measure),
    decreases ws.len(),
{
    if k < ws.len() - 1 {
        assert(ws.drop_last()[k] == ws[k]);
        lemma_sum_element(ws.drop_last(), k, scope, measure);
    }
}

/// A selection that covers no wager sums to nothing.
pub proof fn lemma_sum_none(ws: Seq<WagerRecord>, scope: Scope, measure: Measure)
    requires
        forall|k: int| 0 <= k < ws.len() ==> !scope.covers(#[trigger] ws[k]),
    ensures
        wager_sum(ws, scope, measure) == 0,
    decreases ws.len(),
{
    if ws.len() > 0 {
        assert(!scope.covers(ws[ws.len() - 1]));
        assert forall|k: int| 0 <= k < ws.drop_last().len() implies !scope.covers(
            #[trigger] ws.drop_last()[k],
        ) by {
            assert(ws.drop_last()[k] == ws[k]);
        }
        lemma_sum_none(ws.drop_last(), scope, measure);
    }
}

/// A selection that covers one wager only sums to that wager's weight.
pub proof fn lemma_sum_single(ws: Seq<WagerRecord>, k: int, scope: Scope, measure: Measure)
    requires
        0 <= k < ws.len(),
        scope.covers(ws[k]),
        forall|j: int| 0 <= j < ws.len() && j != k ==> !scope.covers(#[trigger] ws[j]),
    ensures
        wager_sum(ws, scope, measure) == weigh(measure, ws[k]),
    decreases ws.len(),
{
    let init = ws.drop_last();
    assert forall|j: int| 0 <= j < init.len() && j != k implies !scope.covers(#[trigger] init[j]) by {
        assert(init[j] == ws[j]);
    }
    if k == ws.len() - 1 {
        lemma_sum_none(init, scope, measure);
    } else {
        assert(!scope.covers(ws[ws.len() - 1]));
        assert(init[k] == ws[k]);
        lemma_sum_single(init, k, scope, measure);
    }
}

/// Every wager beyond a selection is a wager of the whole and lies outside
/// the selection.
pub proof fn lemma_without_elements(ws: Seq<WagerRecord>, drop: Scope)
    ensures
        without(ws, drop).len() <= ws.len(),
        forall|j: int|
            0 <= j < without(ws, drop).len() ==> !drop.covers(#[trigger] without(ws, drop)[j])
                && ws.contains(without(ws, drop)[j]),
        forall|k: int|
            0 <= k < ws.len() && !drop.covers(ws[k]) ==> without(ws, drop).contains(#[trigger] ws[k]),
    decreases ws.len(),
{
    if ws.len() > 0 {
        let init = ws.drop_last();
        let last = ws.last();
        lemma_without_elements(init, drop);
        let rest = without(ws, drop);
        assert forall|j: int| 0 <= j < rest.len() implies !drop.covers(#[trigger] rest[j])
            && ws.contains(rest[j]) by {
            if j < without(init, drop).len() {
                let x = without(init, drop)[j];
                assert(rest[j] == x);
                assert(init.contains(x));
                let i = choose|i: int| 0 <= i < init.len() && init[i] == x;
                assert(ws[i] == x);
            } else {
                assert(rest[j] == last);
                assert(ws[ws.len() - 1] == last);
            }
        }
        assert forall|k: int| 0 <= k < ws.len() && !drop.covers(ws[k]) implies rest.contains(
            #[trigger] ws[k],
        ) by {
            if k < init.len() {
                assert(init[k] == ws[k]);
                assert(without(init, drop).contains(init[k]));
                let j = choose|j: int|
                    0 <= j < without(init, drop).len() && without(init, drop)[j] == init[k];
                assert(rest[j] == ws[k]);
            } else {
                assert(rest[rest.len() - 1] == ws[k]);
            }
        }
    }
}

/// Every wager of a selection is a wager of the whole that the selection
/// covers.
pub proof fn lemma_within_elements(ws: Seq<WagerRecord>, scope: Scope)
    ensures
        within(ws, scope).len() <= ws.len(),
        forall|j: int|
            0 <= j < within(ws, scope).len() ==> scope.covers(#[trigger] within(ws, scope)[j])
                && ws.contains(within(ws, scope)[j]),
    decreases ws.len(),
{
    if ws.len() > 0 {
        let init = ws.drop_last();
        let last = ws.last();
        lemma_within_elements(init, scope);
        let sel = within(ws, scope);
        assert forall|j: int| 0 <= j < sel.len() implies scope.covers(#[trigger] sel[j])
            && ws.contains(sel[j]) by {
            if j < within(init, scope).len() {
                let x = within(init, scope)[j];
                assert(sel[j] == x);
                assert(init.contains(x));
                let i = choose|i: int| 0 <= i < init.len() && init[i] == x;
                assert(ws[i] == x);
            } else {
                assert(sel[j] == last);
                assert(ws[ws.len() - 1] == last);
            }
        }
    }
}

/// Taking one more wager into a prefix puts it into the selection or into
/// what is beyond it.
pub proof fn lemma_within_step(ws: Seq<WagerRecord>, k: int, scope: Scope)
    requires
        0 <= k < ws.len(),
    ensures
        within(ws.take(k + 1), scope) == if scope.covers(ws[k]) {
            within(ws.take(k), scope).push(ws[k])
        } else {
            within(ws.take(k), scope)
        },
        without(ws.take(k + 1), scope) == if scope.covers(ws[k]) {
            without(ws.take(k), scope)
        } else {
            without(ws.take(k), scope).push(ws[k])
        },
{
    assert(ws.take(k + 1).drop_last() =~= ws.take(k));
}

/// Removing the wagers of one selection keeps those that remain pairwise
/// different.
pub proof fn lemma_without_distinct(ws: Seq<WagerRecord>, drop: Scope)
    requires
        distinct_wagers(ws),
    ensures
        distinct_wagers(without(ws, drop)),
    decreases ws.len(),
{
    if ws.len() > 0 {
        let init = ws.drop_last();
        let last = ws.last();
        assert(distinct_wagers(init)) by {
            assert forall|i: int, j: int| 0 <= i < j < init.len() implies !(#[trigger] init[i].community
                == #[trigger] init[j].community && init[i].bet == init[j].bet && init[i].member
                == init[j].member) by {
                assert(init[i] == ws[i] && init[j] == ws[j]);
                assert(!(ws[i].community == ws[j].community && ws[i].bet == ws[j].bet
                    && ws[i].member == ws[j].member));
            }
        }
        lemma_without_distinct(init, drop);
        lemma_without_elements(init, drop);
        let rest = without(ws, drop);
        let before = without(init, drop);
        assert forall|i: int, j: int| 0 <= i < j < rest.len() implies !(#[trigger] rest[i].community
            == #[trigger] rest[j].community && rest[i].bet == rest[j].bet && rest[i].member
            == rest[j].member) by {
            if j < before.len() {
                assert(rest[i] == before[i] && rest[j] == before[j]);
                assert(!(before[i].community == before[j].community && before[i].bet
                    == before[j].bet && before[i].member == before[j].member));
            } else {
                assert(rest[j] == last);
                assert(rest[i] == before[i]);
                assert(init.contains(before[i]));
                let p = choose|p: int| 0 <= p < init.len() && init[p] == before[i];
                assert(ws[p] == before[i]);
                assert(ws[ws.len() - 1] == last);
                assert(!(ws[p].community == ws[ws.len() - 1].community && ws[p].bet == ws[ws.len()
                    - 1].bet && ws[p].member == ws[ws.len() - 1].member));
            }
        }
    }
}

/// A sum splits into what remains after a removal and what was removed.
pub proof fn lemma_sum_split(
    ws: Seq<WagerRecord>,
    scope: Scope,
    drop: Scope,
    both: Scope,
    measure: Measure,
)
    requires
        forall|w: WagerRecord| #[trigger] both.covers(w) <==> scope.covers(w) && drop.covers(w),
    ensures
        wager_sum(ws, scope, measure) == wager_sum(without(ws, drop), scope, measure) + wager_sum(
            ws,
            both,
            measure,
        ),
    decreases ws.len(),
{
    if ws.len() > 0 {
        let init = ws.drop_last();
        let last = ws.last();
        lemma_sum_split(init, scope, drop, both, measure);
        assert(both.covers(last) <==> scope.covers(last) && drop.covers(last));
        if !drop.covers(last) {
            lemma_sum_push(without(init, drop), last, scope, measure);
        }
    }
}

/// Removing wagers that a selection does not cover leaves its sum alone.
pub proof fn lemma_sum_apart(ws: Seq<WagerRecord>, scope: Scope, drop: Scope, measure: Measure)
    requires
        forall|k: int|
            0 <= k < ws.len() ==> !(scope.covers(#[trigger] ws[k]) && drop.covers(ws[k])),
    ensures
        wager_sum(without(ws, drop), scope, measure) == wager_sum(ws, scope, measure),
    decreases ws.len(),
{
    if ws.len() > 0 {
        let init = ws.drop_last();
        let last = ws.last();
        assert forall|k: int| 0 <= k < init.len() implies !(scope.covers(#[trigger] init[k])
            && drop.covers(init[k])) by {
            assert(init[k] == ws[k]);
        }
        lemma_sum_apart(init, scope, drop, measure);
        assert(ws[ws.len() - 1] == last);
        if !drop.covers(last) {
            lemma_sum_push(without(init, drop), last, scope, measure);
        }
    }
}

/// Replacing one wager changes a sum by the difference of the two weights.
pub proof fn lemma_sum_update(
    ws: Seq<WagerRecord>,
    k: int,
    w: WagerRecord,
    scope: Scope,
    measure: Measure,
)
    requires
        0 <= k < ws.len(),
    ensures
        wager_sum(ws.update(k, w), scope, measure) + (if scope.covers(ws[k]) {
            weigh(measure, ws[k])
        } else {
            0
        }) == wager_sum(ws, scope, measure) + (if scope.covers(w) {
            weigh(measure, w)
        } else {
            0
        }),
    decreases ws.len(),
{
    let init = ws.drop_last();
    if k == ws.len() - 1 {
        assert(ws.update(k, w).drop_last() =~= init);
    } else {
        lemma_sum_update(init, k, w, scope, measure);
        assert(ws.update(k, w).drop_last() =~= init.update(k, w));
    }
}

/// Rounded-down shares, taken together, claim no more of the pot than the
/// stakes they are computed from.
pub proof fn lemma_payout_sum(ws: Seq<WagerRecord>, scope: Scope, pot: nat, winning: nat)
    requires
        winning > 0,
    ensures
        wager_sum(ws, scope, Measure::Payout { pot, winning }) * winning <= wager_sum(
            ws,
            scope,
            Measure::Stake,
        ) * pot,
    decreases ws.len(),
{
    if ws.len() > 0 {
        let init = ws.drop_last();
        lemma_payout_sum(init, scope, pot, winning);
        let p = wager_sum(init, scope, Measure::Payout { pot, winning });
        let s = wager_sum(init, scope, Measure::Stake);
        let a = ws.last().amount;
        let q = payout(a, pot, winning);
        let x = (a * pot) as int;
        let d = winning as int;
        assert(q * winning <= a * pot) by {
            vstd::arithmetic::div_mod::lemma_fundamental_div_mod(x, d);
            vstd::arithmetic::div_mod::lemma_mod_bound(x, d);
            vstd::arithmetic::div_mod::lemma_div_pos_is_pos(x, d);
            assert(q == x / d);
            assert(d * (x / d) == (x / d) * d) by (nonlinear_arith);
        }
        assert(wager_sum(ws, scope, Measure::Stake) == s + if scope.covers(ws.last()) {
            a
        } else {
            0
        });
        assert(wager_sum(ws, scope, Measure::Payout { pot, winning }) == p + if scope.covers(
            ws.last(),
        ) {
            q
        } else {
            0
        });
        let total_p = wager_sum(ws, scope, Measure::Payout { pot, winning });
        let total_s = wager_sum(ws, scope, Measure::Stake);
        if scope.covers(ws.last()) {
            assert(total_p * winning <= total_s * pot) by (nonlinear_arith)
                requires
                    total_p == p + q,
                    total_s == s + a,
                    p * winning <= s * pot,
                    q * winning <= a * pot,
            ;
        }
    } else {
        let total_p = wager_sum(ws, scope, Measure::Payout { pot, winning });
        let total_s = wager_sum(ws, scope, Measure::Stake);
        assert(total_p * winning <= total_s * pot) by (nonlinear_arith)
            requires
                total_p == 0,
                total_s == 0,
        ;
    }
}

/// Rounding down costs each covered stake less than one unit of currency:
/// the stakes' claim on the pot exceeds their shares by less than `winning`
/// for each of them.
pub proof fn lemma_payout_remainder(ws: Seq<WagerRecord>, scope: Scope, pot: nat, winning: nat)
    requires
        winning > 0,
    ensures
        wager_sum(ws, scope, Measure::Stake) * pot <= wager_sum(
            ws,
            scope,
            Measure::Payout { pot, winning },
        ) * winning + within(ws, scope).len() * (winning - 1),
        within(ws, scope).len() == 0 ==> wager_sum(ws, scope, Measure::Stake) == 0,
    decreases ws.len(),
{
    let total_p = wager_sum(ws, scope, Measure::Payout { pot, winning });
    let total_s = wager_sum(ws, scope, Measure::Stake);
    let count = within(ws, scope).len();
    if ws.len() > 0 {
        let init = ws.drop_last();
        lemma_payout_remainder(init, scope, pot, winning);
        let p = wager_sum(init, scope, Measure::Payout { pot, winning });
        let s = wager_sum(init, scope, Measure::Stake);
        let n = within(init, scope).len();
        let a = ws.last().amount;
        let q = payout(a, pot, winning);
        let x = (a * pot) as int;
        let d = winning as int;
        assert(a * pot <= q * winning + (winning - 1)) by {
            vstd::arithmetic::div_mod::lemma_fundamental_div_mod(x, d);
            vstd::arithmetic::div_mod::lemma_mod_bound(x, d);
            vstd::arithmetic::div_mod::lemma_div_pos_is_pos(x, d);
            assert(q == x / d);
            assert(d * (x / d) == (x / d) * d) by (nonlinear_arith);
        }
        if scope.covers(ws.last()) {
            assert(total_s * pot <= total_p * winning + count * (winning - 1)) by (nonlinear_arith)
                requires
                    total_p == p + q,
                    total_s == s + a,
                    count == n + 1,
                    s * pot <= p * winning + n * (winning - 1),
                    a * pot <= q * winning + (winning - 1),
            ;
        }
    } else {
        assert(total_s * pot <= total_p * winning + count * (winning - 1)) by (nonlinear_arith)
            requires
                total_p == 0,
                total_s == 0,
                count == 0,
        ;
    }
}

/// Where something was staked on the winner, what rounding leaves of the pot
/// is less than one unit of currency for each winning wager.
pub proof fn lemma_remainder_is_small(
    ws: Seq<WagerRecord>,
    community: Seq<char>,
    bet: Seq<char>,
    option: Seq<char>,
)
    requires
        backing(ws, community, bet, option) > 0,
    ensures
        pot(ws, community, bet) - paid_out(ws, community, bet, option) < within(
            ws,
            Scope::of_option(community, bet, option),
        ).len(),
{
    let scope = Scope::of_option(community, bet, option);
    let total = pot(ws, community, bet);
    let winning = backing(ws, community, bet, option);
    let paid = paid_out(ws, community, bet, option);
    let count = within(ws, scope).len();
    lemma_payout_remainder(ws, scope, total, winning);
    lemma_paid_within_pot(ws, community, bet, option);
    assert(total - paid < count) by (nonlinear_arith)
        requires
            winning * total <= paid * winning + count * (winning - 1),
            winning > 0,
            count > 0,
            paid <= total,
    ;
}

/// With nothing staked on the winner nothing is paid.
pub proof fn lemma_payout_none(ws: Seq<WagerRecord>, scope: Scope, pot: nat)
    ensures
        wager_sum(ws, scope, Measure::Payout { pot, winning: 0 }) == 0,
    decreases ws.len(),
{
    if ws.len() > 0 {
        lemma_payout_none(ws.drop_last(), scope, pot);
    }
}

/// The winners of a bet are never credited more than its pot.
pub proof fn lemma_paid_within_pot(
    ws: Seq<WagerRecord>,
    community: Seq<char>,
    bet: Seq<char>,
    option: Seq<char>,
)
    ensures
        paid_out(ws, community, bet, option) <= pot(ws, community, bet),
        backing(ws, community, bet, option) == 0 ==> paid_out(ws, community, bet, option) == 0,
        backing(ws, community, bet, option) <= pot(ws, community, bet),
{
    let scope = Scope::of_option(community, bet, option);
    let total = pot(ws, community, bet);
    let winning = backing(ws, community, bet, option);
    let paid = paid_out(ws, community, bet, option);
    lemma_sum_narrow(ws, scope, Scope::of_bet(community, bet), Measure::Stake);
    if winning == 0 {
        lemma_payout_none(ws, scope, total);
    } else {
        lemma_payout_sum(ws, scope, total, winning);
        assert(paid * winning <= winning * total);
        assert(paid <= total) by (nonlinear_arith)
            requires
                paid * winning <= winning * total,
                winning > 0,
        ;
    }
}

// ----------------------------------------------------- sums over accounts

/// Taking one more account into a prefix adds what it holds where it is of
/// the community.
pub proof fn lemma_funds_step(accounts: Seq<AccountRecord>, k: int, community: Seq<char>)
    requires
        0 <= k < accounts.len(),
    ensures
        community_funds(accounts.take(k + 1), community) == community_funds(
            accounts.take(k),
            community,
        ) + if accounts[k].community == community {
            accounts[k].balance + accounts[k].staked
        } else {
            0
        },
{
    assert(accounts.take(k + 1).drop_last() =~= accounts.take(k));
}

/// One more account adds what it holds where it is of the community.
pub proof fn lemma_funds_push(accounts: Seq<AccountRecord>, a: AccountRecord, community: Seq<char>)
    ensures
        community_funds(accounts.push(a), community) == community_funds(accounts, community)
            + if a.community == community {
            a.balance + a.staked
        } else {
            0
        },
{
    assert(accounts.push(a).drop_last() =~= accounts);
}

/// A prefix of the accounts never holds more than all of them.
pub proof fn lemma_funds_prefix(accounts: Seq<AccountRecord>, k: int, community: Seq<char>)
    requires
        0 <= k <= accounts.len(),
    ensures
        community_funds(accounts.take(k), community) <= community_funds(accounts, community),
    decreases accounts.len(),
{
    if k < accounts.len() {
        lemma_funds_prefix(accounts.drop_last(), k, community);
        assert(accounts.drop_last().take(k) =~= accounts.take(k));
    } else {
        assert(accounts.take(k) =~= accounts);
    }
}

/// No account holds more than its community does.
pub proof fn lemma_funds_bound(accounts: Seq<AccountRecord>, i: int)
    requires
        0 <= i < accounts.len(),
    ensures
        accounts[i].balance + accounts[i].staked <= community_funds(accounts, accounts[i].community),
    decreases accounts.len(),
{
    if i < accounts.len() - 1 {
        lemma_funds_bound(accounts.drop_last(), i);
    }
}

/// A community with no account holds nothing.
pub proof fn lemma_funds_none(accounts: Seq<AccountRecord>, community: Seq<char>)
    requires
        forall|i: int| 0 <= i < accounts.len() ==> (#[trigger] accounts[i]).community != community,
    ensures
        community_funds(accounts, community) == 0,
    decreases accounts.len(),
{
    if accounts.len() > 0 {
        assert(accounts[accounts.len() - 1].community != community);
        assert forall|i: int| 0 <= i < accounts.drop_last().len() implies (
        #[trigger] accounts.drop_last()[i]).community != community by {
            assert(accounts.drop_last()[i] == accounts[i]);
        }
        lemma_funds_none(accounts.drop_last(), community);
    }
}

/// Where every account of a community keeps what it holds in total, so does
/// the community.
pub proof fn lemma_funds_pointwise(
    before: Seq<AccountRecord>,
    after: Seq<AccountRecord>,
    community: Seq<char>,
)
    requires
        before.len() == after.len(),
        forall|i: int|
            0 <= i < before.len() ==> (#[trigger] after[i]).community == before[i].community && (
            before[i].community == community ==> after[i].balance + after[i].staked
                == before[i].balance + before[i].staked),
    ensures
        community_funds(after, community) == community_funds(before, community),
    decreases before.len(),
{
    if before.len() > 0 {
        let n = before.len() - 1;
        assert(after[n].community == before[n].community);
        assert forall|i: int| 0 <= i < n implies (#[trigger] after.drop_last()[i]).community
            == before.drop_last()[i].community && (before.drop_last()[i].community == community
            ==> after.drop_last()[i].balance + after.drop_last()[i].staked
            == before.drop_last()[i].balance + before.drop_last()[i].staked) by {
            assert(after.drop_last()[i] == after[i]);
            assert(before.drop_last()[i] == before[i]);
        }
        lemma_funds_pointwise(before.drop_last(), after.drop_last(), community);
    }
}

/// The sum, over the accounts of the selection's community, of what the
/// selection holds for each account's member.
pub open spec fn spread(
    accounts: Seq<AccountRecord>,
    ws: Seq<WagerRecord>,
    scope: Scope,
    measure: Measure,
) -> nat
    decreases accounts.len(),
{
    if accounts.len() == 0 {
        0
    } else {
        spread(accounts.drop_last(), ws, scope, measure) + if accounts.last().community
            == scope.community {
            wager_sum(ws, scope.for_member(accounts.last().member), measure)
        } else {
            0
        }
    }
}

proof fn lemma_distinct_init(accounts: Seq<AccountRecord>)
    requires
        distinct_accounts(accounts),
        accounts.len() > 0,
    ensures
        distinct_accounts(accounts.drop_last()),
        forall|i: int|
            0 <= i < accounts.len() - 1 ==> !(#[trigger] accounts[i].community
                == accounts.last().community && accounts[i].member == accounts.last().member),
{
    let init = accounts.drop_last();
    let n = accounts.len() - 1;
    assert forall|i: int, j: int| 0 <= i < j < init.len() implies !(#[trigger] init[i].community
        == #[trigger] init[j].community && init[i].member == init[j].member) by {
        assert(init[i] == accounts[i] && init[j] == accounts[j]);
        assert(!(accounts[i].community == accounts[j].community && accounts[i].member
            == accounts[j].member));
    }
    assert forall|i: int| 0 <= i < n implies !(#[trigger] accounts[i].community
        == accounts.last().community && accounts[i].member == accounts.last().member) by {
        assert(!(accounts[i].community == accounts[n].community && accounts[i].member
            == accounts[n].member));
    }
}

proof fn lemma_spread_push(
    accounts: Seq<AccountRecord>,
    ws: Seq<WagerRecord>,
    w: WagerRecord,
    scope: Scope,
    measure: Measure,
)
    requires
        distinct_accounts(accounts),
        scope.member is None,
    ensures
        spread(accounts, ws.push(w), scope, measure) == spread(accounts, ws, scope, measure)
            + if scope.covers(w) && has_account(accounts, scope.community, w.member) {
            weigh(measure, w)
        } else {
            0
        },
    decreases accounts.len(),
{
    if accounts.len() > 0 {
        let init = accounts.drop_last();
        let last = accounts.last();
        let n = accounts.len() - 1;
        lemma_distinct_init(accounts);
        lemma_spread_push(init, ws, w, scope, measure);
        lemma_sum_push(ws, w, scope.for_member(last.member), measure);
        let hit_last = last.community == scope.community && last.member == w.member;
        if has_account(init, scope.community, w.member) {
            let i = choose|i: int| is_account_at(init, i, scope.community, w.member);
            assert(init[i] == accounts[i]);
            assert(is_account_at(accounts, i, scope.community, w.member));
            assert(!hit_last);
        } else if hit_last {
            assert(is_account_at(accounts, n, scope.community, w.member));
        } else {
            if has_account(accounts, scope.community, w.member) {
                let i = choose|i: int| is_account_at(accounts, i, scope.community, w.member);
                assert(i < n);
                assert(init[i] == accounts[i]);
                assert(is_account_at(init, i, scope.community, w.member));
            }
        }
    } else {
        assert(!has_account(accounts, scope.community, w.member));
    }
}

proof fn lemma_spread_empty(accounts: Seq<AccountRecord>, scope: Scope, measure: Measure)
    ensures
        spread(accounts, Seq::<WagerRecord>::empty(), scope, measure) == 0,
    decreases accounts.len(),
{
    if accounts.len() > 0 {
        lemma_spread_empty(accounts.drop_last(), scope, measure);
    }
}

/// Where every covered wager belongs to an account, what a selection holds
/// is what it holds for the members of all accounts together.
pub proof fn lemma_spread_total(
    accounts: Seq<AccountRecord>,
    ws: Seq<WagerRecord>,
    scope: Scope,
    measure: Measure,
)
    requires
        distinct_accounts(accounts),
        scope.member is None,
        forall|k: int|
            0 <= k < ws.len() && scope.covers(#[trigger] ws[k]) ==> has_account(
                accounts,
                scope.community,
                ws[k].member,
            ),
    ensures
        spread(accounts, ws, scope, measure) == wager_sum(ws, scope, measure),
    decreases ws.len(),
{
    if ws.len() == 0 {
        assert(ws =~= Seq::<WagerRecord>::empty());
        lemma_spread_empty(accounts, scope, measure);
    } else {
        let init = ws.drop_last();
        let last = ws.last();
        assert forall|k: int| 0 <= k < init.len() && scope.covers(#[trigger] init[k]) implies has_account(
            accounts,
            scope.community,
            init[k].member,
        ) by {
            assert(init[k] == ws[k]);
        }
        lemma_spread_total(accounts, init, scope, measure);
        lemma_spread_push(accounts, init, last, scope, measure);
        assert(init.push(last) =~= ws);
        assert(ws[ws.len() - 1] == last);
    }
}

/// The stakes that the accounts of a community record, taken together.
pub open spec fn community_staked(accounts: Seq<AccountRecord>, community: Seq<char>) -> nat
    decreases accounts.len(),
{
    if accounts.len() == 0 {
        0
    } else {
        community_staked(accounts.drop_last(), community) + if accounts.last().community
            == community {
            accounts.last().staked
        } else {
            0
        }
    }
}

/// What a community has at stake is part of its funds.
pub proof fn lemma_staked_within_funds(accounts: Seq<AccountRecord>, community: Seq<char>)
    ensures
        community_staked(accounts, community) <= community_funds(accounts, community),
    decreases accounts.len(),
{
    if accounts.len() > 0 {
        lemma_staked_within_funds(accounts.drop_last(), community);
    }
}

/// Where each account records what its member has at stake, the accounts of
/// a community record together what the members of all accounts have at
/// stake there.
pub proof fn lemma_staked_is_spread(
    accounts: Seq<AccountRecord>,
    ws: Seq<WagerRecord>,
    community: Seq<char>,
)
    requires
        forall|i: int|
            0 <= i < accounts.len() ==> (#[trigger] accounts[i]).staked == staked_by(
                ws,
                accounts[i].community,
                accounts[i].member,
            ),
    ensures
        community_staked(accounts, community) == spread(
            accounts,
            ws,
            Scope::of_community(community),
            Measure::Stake,
        ),
    decreases accounts.len(),
{
    if accounts.len() > 0 {
        let init = accounts.drop_last();
        let n = accounts.len() - 1;
        assert forall|i: int| 0 <= i < init.len() implies (#[trigger] init[i]).staked == staked_by(
            ws,
            init[i].community,
            init[i].member,
        ) by {
            assert(init[i] == accounts[i]);
        }
        lemma_staked_is_spread(init, ws, community);
        assert(accounts[n].staked == staked_by(ws, accounts[n].community, accounts[n].member));
        assert(Scope::of_community(community).for_member(accounts[n].member) == Scope::of_member(
            community,
            accounts[n].member,
        ));
    }
}

} // verus!
