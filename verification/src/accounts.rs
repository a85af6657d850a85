//! The account store: one record per member and community.

use crate::model::{community_funds, has_account, is_account_at};
use crate::rules::{accounts_in, income_entries, with_income, with_reset};
use crate::sums::{lemma_funds_none, lemma_funds_prefix, lemma_funds_step};
use crate::types::{account_records, update_records, Account, AccountUpdate};
use vstd::prelude::*;

verus! {

/// The place of the account of `member` in `community`, if there is one.
pub fn find_account(accounts: &Vec<Account>, community: &String, member: &String) -> (found:
    Option<usize>)
    ensures
        match found {
            Some(i) => is_account_at(account_records(accounts@), i as int, community@, member@)
                && forall|j: int|
                0 <= j < i ==> !is_account_at(account_records(accounts@), j, community@, member@),
            None => !has_account(account_records(accounts@), community@, member@),
        },
{
    let mut i: usize = 0;
    while i < accounts.len()
        invariant
            i <= accounts.len(),
            forall|j: int|
                0 <= j < i ==> !is_account_at(account_records(accounts@), j, community@, member@),
        decreases accounts.len() - i,
    {
        if accounts[i].community == *community && accounts[i].member == *member {
            return Some(i);
        }
        i += 1;
    }
    None
}

/// The accounts of `community`, in order.
pub fn accounts_of(accounts: &Vec<Account>, community: &String) -> (list: Vec<Account>)
    ensures
        account_records(list@) == accounts_in(account_records(accounts@), community@),
{
    let ghost records = account_records(accounts@);
    let mut list: Vec<Account> = Vec::new();
    let mut i: usize = 0;
    assert(records.take(0) =~= Seq::empty());
    assert(account_records(list@) =~= Seq::empty());
    while i < accounts.len()
        invariant
            i <= accounts.len(),
            records == account_records(accounts@),
            account_records(list@) == accounts_in(records.take(i as int), community@),
        decreases accounts.len() - i,
    {
        proof {
            assert(records.take(i + 1).drop_last() =~= records.take(i as int));
            assert(records.take(i + 1).last() == accounts[i as int]@);
        }
        if accounts[i].community == *community {
            let ghost before = account_records(list@);
            list.push(
                Account {
                    community: accounts[i].community.clone(),
                    member: accounts[i].member.clone(),
                    balance: accounts[i].balance,
                    staked: accounts[i].staked,
                },
            );
            proof {
                assert(account_records(list@) =~= before.push(accounts[i as int]@));
            }
        }
        i += 1;
    }
    proof {
        assert(records.take(i as int) =~= records);
    }
    list
}

/// The currency that the accounts of `community` hold.
pub(crate) fn community_total(accounts: &Vec<Account>, community: &String) -> (total: u64)
    requires
        community_funds(account_records(accounts@), community@) <= u64::MAX,
    ensures
        total == community_funds(account_records(accounts@), community@),
{
    let ghost records = account_records(accounts@);
    let mut total: u64 = 0;
    let mut i: usize = 0;
    while i < accounts.len()
        invariant
            i <= accounts.len(),
            records == account_records(accounts@),
            total == community_funds(records.take(i as int), community@),
            community_funds(records, community@) <= u64::MAX,
        decreases accounts.len() - i,
    {
        proof {
            lemma_funds_step(records, i as int, community@);
            lemma_funds_prefix(records, i + 1, community@);
        }
        if accounts[i].community == *community {
            total = total + accounts[i].balance + accounts[i].staked;
        }
        i += 1;
    }
    proof {
        assert(records.take(i as int) =~= records);
    }
    total
}

/// Whether `community` could still count its currency if every one of its
/// accounts held `grant` more, or held `level` in place of what it holds
/// where `level` is given.
fn fits_with(accounts: &Vec<Account>, community: &String, grant: u64, level: Option<u64>) -> (fits:
    bool)
    ensures
        level is None ==> fits == (community_funds(
            with_income(account_records(accounts@), grant as nat),
            community@,
        ) <= u64::MAX),
        level matches Some(start) ==> fits == (community_funds(
            with_reset(account_records(accounts@), community@, start as nat),
            community@,
        ) <= u64::MAX),
{
    let ghost records = account_records(accounts@);
    let ghost target = match level {
        Some(start) => with_reset(records, community@, start as nat),
        None => with_income(records, grant as nat),
    };
    let mut total: u64 = 0;
    let mut i: usize = 0;
    while i < accounts.len()
        invariant
            i <= accounts.len(),
            records == account_records(accounts@),
            target == match level {
                Some(start) => with_reset(records, community@, start as nat),
                None => with_income(records, grant as nat),
            },
            total == community_funds(target.take(i as int), community@),
        decreases accounts.len() - i,
    {
        proof {
            lemma_funds_step(target, i as int, community@);
            lemma_funds_prefix(target, i + 1, community@);
        }
        if accounts[i].community == *community {
            let held: u128 = match level {
                Some(start) => start as u128,
                None => accounts[i].balance as u128 + accounts[i].staked as u128 + grant as u128,
            };
            if total as u128 + held > u64::MAX as u128 {
                return false;
            }
            total = total + held as u64;
        }
        i += 1;
    }
    proof {
        assert(target.take(i as int) =~= target);
    }
    true
}

/// Whether every community could still count its currency if every account
/// held `grant` more.
pub fn income_fits(accounts: &Vec<Account>, grant: u64) -> (fits: bool)
    ensures
        fits == forall|c: Seq<char>| #[trigger]
            community_funds(with_income(account_records(accounts@), grant as nat), c) <= u64::MAX,
{
    let ghost records = account_records(accounts@);
    let ghost target = with_income(records, grant as nat);
    let mut i: usize = 0;
    while i < accounts.len()
        invariant
            i <= accounts.len(),
            records == account_records(accounts@),
            target == with_income(records, grant as nat),
            forall|j: int|
                0 <= j < i ==> community_funds(target, (#[trigger] records[j]).community)
                    <= u64::MAX,
        decreases accounts.len() - i,
    {
        if !fits_with(accounts, &accounts[i].community, grant, None) {
            return false;
        }
        i += 1;
    }
    proof {
        assert forall|c: Seq<char>| #[trigger] community_funds(target, c) <= u64::MAX by {
            if exists|j: int| 0 <= j < records.len() && (#[trigger] records[j]).community == c {
                let j = choose|j: int| 0 <= j < records.len() && (#[trigger] records[j]).community == c;
                assert(community_funds(target, records[j].community) <= u64::MAX);
            } else {
                assert forall|j: int| 0 <= j < target.len() implies (#[trigger] target[j]).community
                    != c by {
                    assert(records[j].community != c);
                }
                lemma_funds_none(target, c);
            }
        }
    }
    true
}

/// Whether `community` could count its currency if each of its accounts held
/// `starting_balance` and nothing else.
pub fn reset_fits(accounts: &Vec<Account>, community: &String, starting_balance: u64) -> (fits:
    bool)
    ensures
        fits == (community_funds(
            with_reset(account_records(accounts@), community@, starting_balance as nat),
            community@,
        ) <= u64::MAX),
{
    fits_with(accounts, community, 0, Some(starting_balance))
}

/// Adds `grant` to the balance of every account and reports each change.
pub(crate) fn credit_all(accounts: &mut Vec<Account>, grant: u64) -> (updates: Vec<AccountUpdate>)
    requires
        forall|i: int| 0 <= i < old(accounts).len() ==> old(accounts)[i].balance + grant <= u64::MAX,
    ensures
        account_records(final(accounts)@) == with_income(
            account_records(old(accounts)@),
            grant as nat,
        ),
        update_records(updates@) == income_entries(account_records(old(accounts)@), grant as nat),
{
    let ghost before = account_records(accounts@);
    let mut updates: Vec<AccountUpdate> = Vec::new();
    let mut i: usize = 0;
    while i < accounts.len()
        invariant
            i <= accounts.len(),
            accounts.len() == before.len(),
            updates.len() == i,
            forall|j: int| 0 <= j < before.len() ==> before[j].balance + grant <= u64::MAX,
            forall|j: int|
                0 <= j < i ==> (#[trigger] accounts[j])@ == with_income(before, grant as nat)[j],
            forall|j: int| i <= j < before.len() ==> (#[trigger] accounts[j])@ == before[j],
            forall|j: int|
                0 <= j < i ==> (#[trigger] updates[j])@ == income_entries(before, grant as nat)[j],
        decreases accounts.len() - i,
    {
        accounts[i].balance = accounts[i].balance + grant;
        updates.push(
            AccountUpdate {
                community: accounts[i].community.clone(),
                member: accounts[i].member.clone(),
                diff: grant as i128,
                balance: accounts[i].balance,
            },
        );
        i += 1;
    }
    proof {
        assert(account_records(accounts@) =~= with_income(before, grant as nat));
        assert(update_records(updates@) =~= income_entries(before, grant as nat));
    }
    updates
}

/// Sets every account of `community` back to `starting_balance`, with
/// nothing at stake.
pub fn reset_accounts(accounts: &mut Vec<Account>, community: &String, starting_balance: u64)
    ensures
        account_records(final(accounts)@) == with_reset(
            account_records(old(accounts)@),
            community@,
            starting_balance as nat,
        ),
{
    let ghost before = account_records(accounts@);
    let ghost target = with_reset(before, community@, starting_balance as nat);
    let mut i: usize = 0;
    while i < accounts.len()
        invariant
            i <= accounts.len(),
            accounts.len() == before.len(),
            target == with_reset(before, community@, starting_balance as nat),
            forall|j: int| 0 <= j < i ==> (#[trigger] accounts[j])@ == target[j],
            forall|j: int| i <= j < before.len() ==> (#[trigger] accounts[j])@ == before[j],
        decreases accounts.len() - i,
    {
        if accounts[i].community == *community {
            accounts[i].balance = starting_balance;
            accounts[i].staked = 0;
        }
        i += 1;
    }
    proof {
        assert(account_records(accounts@) =~= target);
    }
}

} // verus!
