//! Facts about finding accounts, bets and wagers by their keys.

use crate::model::{
    account_pos, bet_pos, distinct_accounts, distinct_bets, distinct_wagers, has_account, has_bet,
    has_wager, is_account_at, is_bet_at, is_wager_at, wager_pos, AccountRecord, BetRecord,
    WagerRecord,
};
use crate::rules::first_occurrences;
use vstd::prelude::*;

verus! {

/// Among accounts with unique keys, the account found at `i` is the account
/// of its key.
pub proof fn lemma_account_at(
    accounts: Seq<AccountRecord>,
    i: int,
    community: Seq<char>,
    member: Seq<char>,
)
    requires
        distinct_accounts(accounts),
        is_account_at(accounts, i, community, member),
    ensures
        has_account(accounts, community, member),
        account_pos(accounts, community, member) == i,
{
    let p = account_pos(accounts, community, member);
    assert(is_account_at(accounts, p, community, member));
    if p != i {
        assert(accounts[p].community == accounts[i].community);
    }
}

/// Among bets with unique keys, the bet found at `j` is the bet of its key.
pub proof fn lemma_bet_at(bets: Seq<BetRecord>, j: int, community: Seq<char>, bet: Seq<char>)
    requires
        distinct_bets(bets),
        is_bet_at(bets, j, community, bet),
    ensures
        has_bet(bets, community, bet),
        bet_pos(bets, community, bet) == j,
{
    let p = bet_pos(bets, community, bet);
    assert(is_bet_at(bets, p, community, bet));
    if p != j {
        assert(bets[p].community == bets[j].community);
    }
}

/// Among wagers with unique keys, the wager found at `k` is the wager of its key.
pub proof fn lemma_wager_at(
    ws: Seq<WagerRecord>,
    k: int,
    community: Seq<char>,
    bet: Seq<char>,
    member: Seq<char>,
)
    requires
        distinct_wagers(ws),
        is_wager_at(ws, k, community, bet, member),
    ensures
        has_wager(ws, community, bet, member),
        wager_pos(ws, community, bet, member) == k,
{
    let p = wager_pos(ws, community, bet, member);
    assert(is_wager_at(ws, p, community, bet, member));
    if p != k {
        assert(ws[p].community == ws[k].community);
    }
}

/// Accounts that keep their keys keep their places.
pub proof fn lemma_accounts_keep_keys(
    before: Seq<AccountRecord>,
    after: Seq<AccountRecord>,
    community: Seq<char>,
    member: Seq<char>,
)
    requires
        before.len() == after.len(),
        forall|i: int|
            0 <= i < before.len() ==> (#[trigger] after[i]).community == before[i].community
                && after[i].member == before[i].member,
    ensures
        has_account(after, community, member) == has_account(before, community, member),
        distinct_accounts(before) ==> distinct_accounts(after),
        distinct_accounts(before) && has_account(before, community, member) ==> account_pos(
            after,
            community,
            member,
        ) == account_pos(before, community, member),
{
    if has_account(before, community, member) {
        let p = account_pos(before, community, member);
        assert(after[p].community == before[p].community);
        assert(is_account_at(after, p, community, member));
    }
    if has_account(after, community, member) {
        let p = account_pos(after, community, member);
        assert(after[p].community == before[p].community);
        assert(is_account_at(before, p, community, member));
    }
    if distinct_accounts(before) {
        assert forall|i: int, j: int| 0 <= i < j < after.len() implies !(
        #[trigger] after[i].community == #[trigger] after[j].community && after[i].member
            == after[j].member) by {
            assert(after[i].community == before[i].community);
            assert(after[j].community == before[j].community);
            assert(!(before[i].community == before[j].community && before[i].member
                == before[j].member));
        }
        if has_account(before, community, member) {
            let p = account_pos(before, community, member);
            lemma_account_at(after, p, community, member);
        }
    }
}

/// Bets that keep their keys keep their places.
pub proof fn lemma_bets_keep_keys(
    before: Seq<BetRecord>,
    after: Seq<BetRecord>,
    community: Seq<char>,
    bet: Seq<char>,
)
    requires
        before.len() == after.len(),
        forall|j: int|
            0 <= j < before.len() ==> (#[trigger] after[j]).community == before[j].community
                && after[j].id == before[j].id,
    ensures
        has_bet(after, community, bet) == has_bet(before, community, bet),
        distinct_bets(before) ==> distinct_bets(after),
        distinct_bets(before) && has_bet(before, community, bet) ==> bet_pos(after, community, bet)
            == bet_pos(before, community, bet),
{
    if has_bet(before, community, bet) {
        let p = bet_pos(before, community, bet);
        assert(after[p].community == before[p].community);
        assert(is_bet_at(after, p, community, bet));
    }
    if has_bet(after, community, bet) {
        let p = bet_pos(after, community, bet);
        assert(after[p].community == before[p].community);
        assert(is_bet_at(before, p, community, bet));
    }
    if distinct_bets(before) {
        assert forall|i: int, j: int| 0 <= i < j < after.len() implies !(
        #[trigger] after[i].community == #[trigger] after[j].community && after[i].id
            == after[j].id) by {
            assert(after[i].community == before[i].community);
            assert(after[j].community == before[j].community);
            assert(!(before[i].community == before[j].community && before[i].id == before[j].id));
        }
        if has_bet(before, community, bet) {
            let p = bet_pos(before, community, bet);
            lemma_bet_at(after, p, community, bet);
        }
    }
}

/// Keeping first occurrences keeps every name, once.
pub proof fn lemma_first_occurrences(names: Seq<Seq<char>>)
    ensures
        first_occurrences(names).no_duplicates(),
        first_occurrences(names).len() <= names.len(),
        forall|x: Seq<char>| first_occurrences(names).contains(x) <==> names.contains(x),
        names.no_duplicates() ==> first_occurrences(names) == names,
    decreases names.len(),
{
    if names.len() > 0 {
        let init = names.drop_last();
        let last = names.last();
        lemma_first_occurrences(init);
        let kept = first_occurrences(init);
        let all = first_occurrences(names);
        assert forall|x: Seq<char>| all.contains(x) <==> names.contains(x) by {
            if all.contains(x) {
                let i = choose|i: int| 0 <= i < all.len() && all[i] == x;
                if i < kept.len() {
                    assert(kept[i] == x);
                    assert(kept.contains(x));
                    assert(init.contains(x));
                    let p = choose|p: int| 0 <= p < init.len() && init[p] == x;
                    assert(names[p] == x);
                } else {
                    assert(names[names.len() - 1] == x);
                }
            }
            if names.contains(x) {
                let p = choose|p: int| 0 <= p < names.len() && names[p] == x;
                if p < init.len() {
                    assert(init[p] == x);
                    assert(init.contains(x));
                    assert(kept.contains(x));
                    let i = choose|i: int| 0 <= i < kept.len() && kept[i] == x;
                    assert(all[i] == x);
                } else if kept.contains(last) {
                } else {
                    assert(all[all.len() - 1] == x);
                }
            }
        }
        if names.no_duplicates() {
            assert(init.no_duplicates());
            assert(!init.contains(last)) by {
                if init.contains(last) {
                    let p = choose|p: int| 0 <= p < init.len() && init[p] == last;
                    assert(names[p] == names[names.len() - 1]);
                }
            }
            assert(all =~= names);
        }
    }
}

} // verus!
