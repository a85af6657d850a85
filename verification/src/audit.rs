//! Whether accounts, bets and wagers read back from storage are a state of
//! the pool: the invariant, checked on plain records.

use crate::accounts::{find_account, income_fits};
use crate::lookup::lemma_bet_at;
use crate::model::{
    distinct_accounts, distinct_bets, distinct_wagers, is_account_at, is_bet_at, is_wager_at,
    staked_by, wager_sum, BetStatus, LedgerState, Measure, Scope,
};
use crate::rules::with_income;
use crate::sums::{lemma_sum_prefix, lemma_sum_step};
use crate::types::{
    account_records, bet_records, copy_names, holds_name, names, wager_records, Account, Bet,
    Wager,
};
use crate::wagers::{copy_wager, find_bet, find_wager};
use vstd::prelude::*;

verus! {

/// What was stored of a pool: its accounts, bets and wagers as plain
/// records.
#[derive(Debug, Clone, PartialEq, Eq)]
pub struct Snapshot {
    pub accounts: Vec<Account>,
    pub bets: Vec<Bet>,
    pub wagers: Vec<Wager>,
}

impl View for Snapshot {
    type V = LedgerState;

    open spec fn view(&self) -> LedgerState {
        LedgerState {
            accounts: account_records(self.accounts@),
            bets: bet_records(self.bets@),
            wagers: wager_records(self.wagers@),
        }
    }
}

/// Whether no two accounts share a community and a member.
pub fn accounts_are_distinct(accounts: &Vec<Account>) -> (ok: bool)
    ensures
        ok == distinct_accounts(account_records(accounts@)),
{
    let ghost records = account_records(accounts@);
    let mut i: usize = 0;
    while i < accounts.len()
        invariant
            i <= accounts.len(),
            records == account_records(accounts@),
            forall|a: int, b: int|
                0 <= a < b < i ==> !(#[trigger] records[a].community
                    == #[trigger] records[b].community && records[a].member == records[b].member),
        decreases accounts.len() - i,
    {
        let first = find_account(accounts, &accounts[i].community, &accounts[i].member);
        proof {
            assert(is_account_at(records, i as int, records[i as int].community, records[i as int].member));
        }
        match first {
            Some(p) => {
                if p != i {
                    proof {
                        assert(p < i);
                        assert(records[p as int].community == records[i as int].community);
                    }
                    return false;
                }
                proof {
                    assert forall|a: int, b: int| 0 <= a < b < i + 1 implies !(
                    #[trigger] records[a].community == #[trigger] records[b].community
                        && records[a].member == records[b].member) by {
                        if b == i {
                            assert(!is_account_at(
                                records,
                                a,
                                records[i as int].community,
                                records[i as int].member,
                            ));
                        }
                    }
                }
            },
            None => {
                return false;
            },
        }
        i += 1;
    }
    true
}

/// Whether no two bets share a community and an identifier.
pub fn bets_are_distinct(bets: &Vec<Bet>) -> (ok: bool)
    ensures
        ok == distinct_bets(bet_records(bets@)),
{
    let ghost records = bet_records(bets@);
    let mut i: usize = 0;
    while i < bets.len()
        invariant
            i <= bets.len(),
            records == bet_records(bets@),
            forall|a: int, b: int|
                0 <= a < b < i ==> !(#[trigger] records[a].community
                    == #[trigger] records[b].community && records[a].id == records[b].id),
        decreases bets.len() - i,
    {
        let first = find_bet(bets, &bets[i].community, &bets[i].id);
        proof {
            assert(is_bet_at(records, i as int, records[i as int].community, records[i as int].id));
        }
        match first {
            Some(p) => {
                if p != i {
                    proof {
                        assert(p < i);
                        assert(records[p as int].community == records[i as int].community);
                    }
                    return false;
                }
                proof {
                    assert forall|a: int, b: int| 0 <= a < b < i + 1 implies !(
                    #[trigger] records[a].community == #[trigger] records[b].community
                        && records[a].id == records[b].id) by {
                        if b == i {
                            assert(!is_bet_at(
                                records,
                                a,
                                records[i as int].community,
                                records[i as int].id,
                            ));
                        }
                    }
                }
            },
            None => {
                return false;
            },
        }
        i += 1;
    }
    true
}

/// Whether no member holds two wagers on one bet.
pub fn wagers_are_distinct(wagers: &Vec<Wager>) -> (ok: bool)
    ensures
        ok == distinct_wagers(wager_records(wagers@)),
{
    let ghost records = wager_records(wagers@);
    let mut i: usize = 0;
    while i < wagers.len()
        invariant
            i <= wagers.len(),
            records == wager_records(wagers@),
            forall|a: int, b: int|
                0 <= a < b < i ==> !(#[trigger] records[a].community
                    == #[trigger] records[b].community && records[a].bet == records[b].bet
                    && records[a].member == records[b].member),
        decreases wagers.len() - i,
    {
        let first = find_wager(wagers, &wagers[i].community, &wagers[i].bet, &wagers[i].member);
        proof {
            assert(is_wager_at(
                records,
                i as int,
                records[i as int].community,
                records[i as int].bet,
                records[i as int].member,
            ));
        }
        match first {
            Some(p) => {
                if p != i {
                    proof {
                        assert(p < i);
                        assert(records[p as int].community == records[i as int].community);
                    }
                    return false;
                }
                proof {
                    assert forall|a: int, b: int| 0 <= a < b < i + 1 implies !(
                    #[trigger] records[a].community == #[trigger] records[b].community
                        && records[a].bet == records[b].bet && records[a].member
                        == records[b].member) by {
                        if b == i {
                            assert(!is_wager_at(
                                records,
                                a,
                                records[i as int].community,
                                records[i as int].bet,
                                records[i as int].member,
                            ));
                        }
                    }
                }
            },
            None => {
                return false;
            },
        }
        i += 1;
    }
    true
}

/// Whether no name stands twice in the list.
pub fn names_are_distinct(list: &Vec<String>) -> (ok: bool)
    ensures
        ok == names(list@).no_duplicates(),
{
    let ghost all = names(list@);
    let mut seen: Vec<String> = Vec::new();
    let mut i: usize = 0;
    assert(names(seen@) =~= all.take(0));
    while i < list.len()
        invariant
            i <= list.len(),
            all == names(list@),
            names(seen@) == all.take(i as int),
            all.take(i as int).no_duplicates(),
        decreases list.len() - i,
    {
        if holds_name(&seen, &list[i]) {
            proof {
                let p = choose|p: int| 0 <= p < i && all.take(i as int)[p] == all[i as int];
                assert(all[p] == all[i as int]);
            }
            return false;
        }
        let ghost before = names(seen@);
        seen.push(list[i].clone());
        proof {
            assert(names(seen@) =~= before.push(all[i as int]));
            assert(all.take(i + 1) =~= all.take(i as int).push(all[i as int]));
            let next = all.take(i + 1);
            let prev = all.take(i as int);
            assert forall|a: int, b: int|
                0 <= a < next.len() && 0 <= b < next.len() && a != b implies #[trigger] next[a]
                != #[trigger] next[b] by {
                if a < i && b < i {
                    assert(prev[a] != prev[b]);
                } else if a < i {
                    assert(prev[a] == all[a]);
                } else {
                    assert(prev[b] == all[b]);
                }
            }
        }
        i += 1;
    }
    proof {
        assert(all.take(i as int) =~= all);
    }
    true
}

/// Whether the options of every bet are pairwise different.
pub fn options_are_distinct(bets: &Vec<Bet>) -> (ok: bool)
    ensures
        ok == forall|j: int|
            0 <= j < bets.len() ==> (#[trigger] bet_records(bets@)[j]).options.no_duplicates(),
{
    let mut j: usize = 0;
    while j < bets.len()
        invariant
            j <= bets.len(),
            forall|i: int| 0 <= i < j ==> (#[trigger] bet_records(bets@)[i]).options.no_duplicates(),
        decreases bets.len() - j,
    {
        if !names_are_distinct(&bets[j].options) {
            proof {
                assert(!bet_records(bets@)[j as int].options.no_duplicates());
            }
            return false;
        }
        j += 1;
    }
    true
}

/// Whether every wager has a positive stake, the account of its member, and
/// an open or locked bet with its option.
fn wagers_are_lawful(snapshot: &Snapshot) -> (ok: bool)
    requires
        distinct_bets(snapshot@.bets),
    ensures
        ok == forall|k: int|
            0 <= k < snapshot@.wagers.len() ==> snapshot@.lawful_wager(#[trigger] snapshot@.wagers[k]),
{
    let ghost s = snapshot@;
    let mut k: usize = 0;
    while k < snapshot.wagers.len()
        invariant
            k <= snapshot.wagers.len(),
            s == snapshot@,
            distinct_bets(s.bets),
            forall|q: int| 0 <= q < k ==> s.lawful_wager(#[trigger] s.wagers[q]),
        decreases snapshot.wagers.len() - k,
    {
        let w = &snapshot.wagers[k];
        proof {
            assert(s.wagers[k as int] == w@);
        }
        if w.amount == 0 {
            return false;
        }
        if find_account(&snapshot.accounts, &w.community, &w.member).is_none() {
            return false;
        }
        match find_bet(&snapshot.bets, &w.community, &w.bet) {
            Some(j) => {
                proof {
                    lemma_bet_at(s.bets, j as int, w.community@, w.bet@);
                }
                let active = match snapshot.bets[j].status {
                    BetStatus::Open => true,
                    BetStatus::Locked => true,
                    _ => false,
                };
                if !active || !holds_name(&snapshot.bets[j].options, &w.option) {
                    return false;
                }
            },
            None => {
                return false;
            },
        }
        k += 1;
    }
    true
}

/// Whether the stakes of the selection add up to `expected`.
fn stakes_are(wagers: &Vec<Wager>, community: &String, member: &String, expected: u64) -> (ok: bool)
    ensures
        ok == (staked_by(wager_records(wagers@), community@, member@) == expected),
{
    let ghost ws = wager_records(wagers@);
    let ghost scope = Scope::of_member(community@, member@);
    let mut total: u64 = 0;
    let mut k: usize = 0;
    while k < wagers.len()
        invariant
            k <= wagers.len(),
            ws == wager_records(wagers@),
            scope == Scope::of_member(community@, member@),
            total == wager_sum(ws.take(k as int), scope, Measure::Stake),
        decreases wagers.len() - k,
    {
        proof {
            lemma_sum_step(ws, k as int, scope, Measure::Stake);
            lemma_sum_prefix(ws, k + 1, scope, Measure::Stake);
        }
        if wagers[k].community == *community && wagers[k].member == *member {
            if wagers[k].amount > u64::MAX - total {
                return false;
            }
            total = total + wagers[k].amount;
        }
        k += 1;
    }
    proof {
        assert(ws.take(k as int) =~= ws);
    }
    total == expected
}

/// Whether every account records what its member has at stake.
pub fn stakes_are_recorded(snapshot: &Snapshot) -> (ok: bool)
    ensures
        ok == forall|i: int|
            0 <= i < snapshot@.accounts.len() ==> (#[trigger] snapshot@.accounts[i]).staked
                == staked_by(
                snapshot@.wagers,
                snapshot@.accounts[i].community,
                snapshot@.accounts[i].member,
            ),
{
    let ghost s = snapshot@;
    let mut i: usize = 0;
    while i < snapshot.accounts.len()
        invariant
            i <= snapshot.accounts.len(),
            s == snapshot@,
            forall|j: int|
                0 <= j < i ==> (#[trigger] s.accounts[j]).staked == staked_by(
                    s.wagers,
                    s.accounts[j].community,
                    s.accounts[j].member,
                ),
        decreases snapshot.accounts.len() - i,
    {
        let a = &snapshot.accounts[i];
        if !stakes_are(&snapshot.wagers, &a.community, &a.member, a.staked) {
            proof {
                assert(s.accounts[i as int].staked != staked_by(
                    s.wagers,
                    s.accounts[i as int].community,
                    s.accounts[i as int].member,
                ));
            }
            return false;
        }
        i += 1;
    }
    true
}

/// Whether the records are a state of the pool: whether they satisfy its
/// invariant.
pub fn is_sound(snapshot: &Snapshot) -> (ok: bool)
    ensures
        ok == snapshot@.wf(),
{
    if !accounts_are_distinct(&snapshot.accounts) {
        return false;
    }
    if !bets_are_distinct(&snapshot.bets) {
        return false;
    }
    if !wagers_are_distinct(&snapshot.wagers) {
        return false;
    }
    if !options_are_distinct(&snapshot.bets) {
        return false;
    }
    if !wagers_are_lawful(snapshot) {
        return false;
    }
    if !stakes_are_recorded(snapshot) {
        return false;
    }
    proof {
        assert(with_income(snapshot@.accounts, 0) =~= snapshot@.accounts);
    }
    income_fits(&snapshot.accounts, 0)
}

/// A copy of the accounts.
pub fn copy_accounts(accounts: &Vec<Account>) -> (copy: Vec<Account>)
    ensures
        account_records(copy@) == account_records(accounts@),
{
    let mut copy: Vec<Account> = Vec::new();
    let mut i: usize = 0;
    while i < accounts.len()
        invariant
            i <= accounts.len(),
            copy.len() == i,
            forall|j: int| 0 <= j < i ==> (#[trigger] copy[j])@ == accounts[j]@,
        decreases accounts.len() - i,
    {
        copy.push(
            Account {
                community: accounts[i].community.clone(),
                member: accounts[i].member.clone(),
                balance: accounts[i].balance,
                staked: accounts[i].staked,
            },
        );
        i += 1;
    }
    assert(account_records(copy@) =~= account_records(accounts@));
    copy
}

/// A copy of the bets.
pub fn copy_bets(bets: &Vec<Bet>) -> (copy: Vec<Bet>)
    ensures
        bet_records(copy@) == bet_records(bets@),
{
    let mut copy: Vec<Bet> = Vec::new();
    let mut i: usize = 0;
    while i < bets.len()
        invariant
            i <= bets.len(),
            copy.len() == i,
            forall|j: int| 0 <= j < i ==> (#[trigger] copy[j])@ == bets[j]@,
        decreases bets.len() - i,
    {
        copy.push(
            Bet {
                community: bets[i].community.clone(),
                id: bets[i].id.clone(),
                status: bets[i].status,
                options: copy_names(&bets[i].options),
            },
        );
        i += 1;
    }
    assert(bet_records(copy@) =~= bet_records(bets@));
    copy
}

/// A copy of the wagers.
pub fn copy_wagers(wagers: &Vec<Wager>) -> (copy: Vec<Wager>)
    ensures
        wager_records(copy@) == wager_records(wagers@),
{
    let mut copy: Vec<Wager> = Vec::new();
    let mut i: usize = 0;
    while i < wagers.len()
        invariant
            i <= wagers.len(),
            copy.len() == i,
            forall|j: int| 0 <= j < i ==> (#[trigger] copy[j])@ == wagers[j]@,
        decreases wagers.len() - i,
    {
        copy.push(copy_wager(&wagers[i]));
        i += 1;
    }
    assert(wager_records(copy@) =~= wager_records(wagers@));
    copy
}

} // verus!
