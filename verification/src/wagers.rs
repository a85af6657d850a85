//! The wager ledger: bets, their options, and the stakes riding on them.

use crate::accounts::find_account;
use crate::lookup::{lemma_account_at, lemma_accounts_keep_keys, lemma_bet_at, lemma_wager_at};
use crate::model::{
    account_of, distinct_accounts, distinct_bets, distinct_wagers, has_account, has_bet, has_wager,
    is_account_at, is_bet_at, is_wager_at, stake_in_bet, wager_sum, weigh, AccountRecord,
    BetStatus, Measure, Scope, WagerRecord,
};
use crate::payout::payout_share;
use crate::rules::{
    credit_entries, first_occurrences, tally_entries, with_all_aborted, with_credits, with_status,
    with_wager_raised, within, without,
};
use crate::sums::{lemma_sum_none, lemma_sum_prefix, lemma_sum_step, lemma_within_step};
use crate::types::{
    account_records, bet_records, holds_name, names, tally_records, update_records, wager_records,
    Account, AccountUpdate, Bet, OptionTally, Wager,
};
use vstd::prelude::*;

verus! {

/// The place of the bet `bet` of `community`, if there is one.
pub fn find_bet(bets: &Vec<Bet>, community: &String, bet: &String) -> (found: Option<usize>)
    ensures
        match found {
            Some(j) => is_bet_at(bet_records(bets@), j as int, community@, bet@) && forall|i: int|
                0 <= i < j ==> !is_bet_at(bet_records(bets@), i, community@, bet@),
            None => !has_bet(bet_records(bets@), community@, bet@),
        },
{
    let mut j: usize = 0;
    while j < bets.len()
        invariant
            j <= bets.len(),
            forall|i: int| 0 <= i < j ==> !is_bet_at(bet_records(bets@), i, community@, bet@),
        decreases bets.len() - j,
    {
        if bets[j].community == *community && bets[j].id == *bet {
            return Some(j);
        }
        j += 1;
    }
    None
}

/// The place of the wager of `member` on the bet, if there is one.
pub fn find_wager(wagers: &Vec<Wager>, community: &String, bet: &String, member: &String) -> (found:
    Option<usize>)
    ensures
        match found {
            Some(k) => is_wager_at(wager_records(wagers@), k as int, community@, bet@, member@)
                && forall|i: int|
                0 <= i < k ==> !is_wager_at(wager_records(wagers@), i, community@, bet@, member@),
            None => !has_wager(wager_records(wagers@), community@, bet@, member@),
        },
{
    let mut k: usize = 0;
    while k < wagers.len()
        invariant
            k <= wagers.len(),
            forall|i: int|
                0 <= i < k ==> !is_wager_at(wager_records(wagers@), i, community@, bet@, member@),
        decreases wagers.len() - k,
    {
        if wagers[k].community == *community && wagers[k].bet == *bet && wagers[k].member
            == *member {
            return Some(k);
        }
        k += 1;
    }
    None
}

/// Each name of `list` once, in the order of its first occurrence.
pub fn distinct_names(list: &Vec<String>) -> (kept: Vec<String>)
    ensures
        names(kept@) == first_occurrences(names(list@)),
{
    let mut kept: Vec<String> = Vec::new();
    let mut i: usize = 0;
    assert(names(list@).take(0) =~= Seq::<Seq<char>>::empty());
    assert(names(kept@) =~= Seq::<Seq<char>>::empty());
    while i < list.len()
        invariant
            i <= list.len(),
            names(kept@) == first_occurrences(names(list@).take(i as int)),
        decreases list.len() - i,
    {
        proof {
            assert(names(list@).take(i + 1).drop_last() =~= names(list@).take(i as int));
            assert(names(list@).take(i + 1).last() == list[i as int]@);
        }
        if !holds_name(&kept, &list[i]) {
            let ghost before = names(kept@);
            kept.push(list[i].clone());
            proof {
                assert(names(kept@) =~= before.push(list[i as int]@));
            }
        }
        i += 1;
    }
    proof {
        assert(names(list@).take(i as int) =~= names(list@));
    }
    kept
}

/// The name behind an optional reference.
pub open spec fn named(name: Option<&String>) -> Option<Seq<char>> {
    match name {
        Some(n) => Some(n@),
        None => None,
    }
}

/// The selection of the wagers of `community`, narrowed by bet and option
/// where these are given.
pub open spec fn scope_of(community: Seq<char>, bet: Option<&String>, option: Option<&String>) -> Scope {
    Scope { community, bet: named(bet), option: named(option), member: None }
}

/// Whether the wager lies in the selection.
pub fn in_scope(w: &Wager, community: &String, bet: Option<&String>, option: Option<&String>) -> (covered:
    bool)
    ensures
        covered == scope_of(community@, bet, option).covers(w@),
{
    if w.community != *community {
        return false;
    }
    let bet_fits = match bet {
        Some(b) => w.bet == *b,
        None => true,
    };
    let option_fits = match option {
        Some(o) => w.option == *o,
        None => true,
    };
    bet_fits && option_fits
}

/// A copy of a wager.
pub fn copy_wager(w: &Wager) -> (copy: Wager)
    ensures
        copy@ == w@,
{
    Wager {
        community: w.community.clone(),
        bet: w.bet.clone(),
        member: w.member.clone(),
        option: w.option.clone(),
        amount: w.amount,
    }
}

/// The stakes of a selection, added up.
pub(crate) fn staked_on(
    wagers: &Vec<Wager>,
    community: &String,
    bet: Option<&String>,
    option: Option<&String>,
) -> (total: u64)
    requires
        wager_sum(wager_records(wagers@), scope_of(community@, bet, option), Measure::Stake)
            <= u64::MAX,
    ensures
        total == wager_sum(
            wager_records(wagers@),
            scope_of(community@, bet, option),
            Measure::Stake,
        ),
{
    let ghost ws = wager_records(wagers@);
    let ghost scope = scope_of(community@, bet, option);
    let mut total: u64 = 0;
    let mut k: usize = 0;
    while k < wagers.len()
        invariant
            k <= wagers.len(),
            ws == wager_records(wagers@),
            scope == scope_of(community@, bet, option),
            total == wager_sum(ws.take(k as int), scope, Measure::Stake),
            wager_sum(ws, scope, Measure::Stake) <= u64::MAX,
        decreases wagers.len() - k,
    {
        proof {
            lemma_sum_step(ws, k as int, scope, Measure::Stake);
            lemma_sum_prefix(ws, k + 1, scope, Measure::Stake);
        }
        if in_scope(&wagers[k], community, bet, option) {
            total = total + wagers[k].amount;
        }
        k += 1;
    }
    proof {
        assert(ws.take(k as int) =~= ws);
    }
    total
}

/// The stake on each of `options`, in their order.
pub(crate) fn tally_of(wagers: &Vec<Wager>, community: &String, bet: &String, options: &Vec<String>) -> (tally:
    Vec<OptionTally>)
    requires
        forall|scope: Scope| #[trigger]
            wager_sum(wager_records(wagers@), scope, Measure::Stake) <= u64::MAX,
    ensures
        tally_records(tally@) == tally_entries(
            wager_records(wagers@),
            community@,
            bet@,
            names(options@),
        ),
{
    let ghost ws = wager_records(wagers@);
    let mut tally: Vec<OptionTally> = Vec::new();
    let mut i: usize = 0;
    while i < options.len()
        invariant
            i <= options.len(),
            tally.len() == i,
            ws == wager_records(wagers@),
            forall|scope: Scope| #[trigger] wager_sum(ws, scope, Measure::Stake) <= u64::MAX,
            forall|j: int|
                0 <= j < i ==> (#[trigger] tally[j])@ == tally_entries(
                    ws,
                    community@,
                    bet@,
                    names(options@),
                )[j],
        decreases options.len() - i,
    {
        let staked = staked_on(wagers, community, Some(bet), Some(&options[i]));
        tally.push(OptionTally { option: options[i].clone(), staked });
        i += 1;
    }
    proof {
        assert(tally_records(tally@) =~= tally_entries(ws, community@, bet@, names(options@)));
    }
    tally
}

/// Adds `amount` to the wager of `member` on the bet, or records a new wager
/// on `option` where the member has none.
pub(crate) fn raise_wager(
    wagers: &mut Vec<Wager>,
    community: String,
    bet: String,
    option: String,
    member: String,
    amount: u64,
)
    requires
        distinct_wagers(wager_records(old(wagers)@)),
        forall|k: int|
            is_wager_at(wager_records(old(wagers)@), k, community@, bet@, member@) ==> old(
                wagers,
            )[k].amount + amount <= u64::MAX,
    ensures
        wager_records(final(wagers)@) == with_wager_raised(
            wager_records(old(wagers)@),
            community@,
            bet@,
            option@,
            member@,
            amount as nat,
        ),
{
    let ghost before = wager_records(wagers@);
    let ghost target = with_wager_raised(
        before,
        community@,
        bet@,
        option@,
        member@,
        amount as nat,
    );
    match find_wager(wagers, &community, &bet, &member) {
        Some(k) => {
            wagers[k].amount = wagers[k].amount + amount;
            proof {
                assert forall|q: int| 0 <= q < before.len() implies wager_records(wagers@)[q]
                    == target[q] by {
                    if q != k && is_wager_at(before, q, community@, bet@, member@) {
                        lemma_wager_at(before, q, community@, bet@, member@);
                        lemma_wager_at(before, k as int, community@, bet@, member@);
                    }
                }
                assert(wager_records(wagers@) =~= target);
            }
        },
        None => {
            wagers.push(Wager { community, bet, member, option, amount });
            proof {
                assert(wager_records(wagers@) =~= target);
            }
        },
    }
}

/// Aborts every bet of `community` that is open or locked.
pub fn abort_active(bets: &mut Vec<Bet>, community: &String)
    ensures
        bet_records(final(bets)@) == with_all_aborted(bet_records(old(bets)@), community@),
{
    let ghost before = bet_records(bets@);
    let ghost target = with_all_aborted(before, community@);
    let mut j: usize = 0;
    while j < bets.len()
        invariant
            j <= bets.len(),
            bets.len() == before.len(),
            target == with_all_aborted(before, community@),
            forall|i: int| 0 <= i < j ==> (#[trigger] bets[i])@ == target[i],
            forall|i: int| j <= i < before.len() ==> (#[trigger] bets[i])@ == before[i],
        decreases bets.len() - j,
    {
        if bets[j].community == *community {
            match bets[j].status {
                BetStatus::Open => {
                    bets[j].status = BetStatus::Aborted;
                },
                BetStatus::Locked => {
                    bets[j].status = BetStatus::Aborted;
                },
                _ => {},
            }
        }
        j += 1;
    }
    proof {
        assert(bet_records(bets@) =~= target);
    }
}

/// The wagers outside a selection, in order.
pub fn wagers_outside(wagers: &Vec<Wager>, community: &String, bet: Option<&String>) -> (kept: Vec<
    Wager,
>)
    ensures
        wager_records(kept@) == without(wager_records(wagers@), scope_of(community@, bet, None)),
{
    let ghost ws = wager_records(wagers@);
    let ghost scope = scope_of(community@, bet, None);
    let mut kept: Vec<Wager> = Vec::new();
    let mut k: usize = 0;
    assert(ws.take(0) =~= Seq::empty());
    assert(wager_records(kept@) =~= Seq::empty());
    while k < wagers.len()
        invariant
            k <= wagers.len(),
            ws == wager_records(wagers@),
            scope == scope_of(community@, bet, None),
            wager_records(kept@) == without(ws.take(k as int), scope),
        decreases wagers.len() - k,
    {
        proof {
            lemma_within_step(ws, k as int, scope);
        }
        if !in_scope(&wagers[k], community, bet, None) {
            let ghost before = wager_records(kept@);
            kept.push(copy_wager(&wagers[k]));
            proof {
                assert(wager_records(kept@) =~= before.push(ws[k as int]));
            }
        }
        k += 1;
    }
    proof {
        assert(ws.take(k as int) =~= ws);
    }
    kept
}

/// Gives the bet at `j` a new status.
pub(crate) fn set_status(bets: &mut Vec<Bet>, j: usize, status: BetStatus)
    requires
        distinct_bets(bet_records(old(bets)@)),
        j < old(bets).len(),
    ensures
        bet_records(final(bets)@) == with_status(
            bet_records(old(bets)@),
            old(bets)[j as int].community@,
            old(bets)[j as int].id@,
            status,
        ),
{
    let ghost before = bet_records(bets@);
    let ghost community = bets[j as int].community@;
    let ghost id = bets[j as int].id@;
    bets[j].status = status;
    proof {
        let target = with_status(before, community, id, status);
        assert forall|i: int| 0 <= i < before.len() implies bet_records(bets@)[i] == target[i] by {
            if i != j && is_bet_at(before, i, community, id) {
                lemma_bet_at(before, i, community, id);
                lemma_bet_at(before, j as int, community, id);
            }
        }
        assert(bet_records(bets@) =~= target);
    }
}

/// What is credited when a bet is settled: every stake in full where the bet
/// is aborted, a share of `pot` to the stakes on the winner where it is
/// closed.
pub open spec fn credit_measure(winner: Option<&String>, pot: u64, winning: u64) -> Measure {
    match winner {
        Some(_) => Measure::Payout { pot: pot as nat, winning: winning as nat },
        None => Measure::Stake,
    }
}

/// What taking one more wager into account does to the accounts while a bet
/// is settled.
proof fn lemma_credit_step(
    accounts: Seq<AccountRecord>,
    ws: Seq<WagerRecord>,
    k: int,
    i: int,
    community: Seq<char>,
    bet: Seq<char>,
    credited: Scope,
    measure: Measure,
)
    requires
        distinct_accounts(accounts),
        distinct_wagers(ws),
        0 <= k < ws.len(),
        credited.community == community,
        credited.bet == Some(bet),
        credited.member is None,
        Scope::of_bet(community, bet).covers(ws[k]) ==> is_account_at(
            accounts,
            i,
            community,
            ws[k].member,
        ),
        forall|j: int|
            0 <= j < accounts.len() && (#[trigger] accounts[j]).community == community
                ==> stake_in_bet(ws, community, bet, accounts[j].member) <= accounts[j].staked,
    ensures
        ({
            let before = with_credits(accounts, ws.take(k), community, bet, credited, measure);
            let after = with_credits(accounts, ws.take(k + 1), community, bet, credited, measure);
            let full = with_credits(accounts, ws, community, bet, credited, measure);
            if Scope::of_bet(community, bet).covers(ws[k]) {
                &&& before[i].staked >= ws[k].amount
                &&& after[i].balance <= full[i].balance
                &&& credited.covers(ws[k]) ==> before[i].balance == accounts[i].balance && account_of(
                    accounts,
                    community,
                    ws[k].member,
                ) == accounts[i]
                &&& after == before.update(
                    i,
                    AccountRecord {
                        balance: before[i].balance + if credited.covers(ws[k]) {
                            weigh(measure, ws[k])
                        } else {
                            0
                        },
                        staked: (before[i].staked - ws[k].amount) as nat,
                        ..before[i]
                    },
                )
            } else {
                after == before
            }
        }),
{
    let on_bet = Scope::of_bet(community, bet);
    let before = with_credits(accounts, ws.take(k), community, bet, credited, measure);
    let after = with_credits(accounts, ws.take(k + 1), community, bet, credited, measure);
    let w = ws[k];
    assert forall|j: int| 0 <= j < accounts.len() implies #[trigger] after[j] == if on_bet.covers(w)
        && j == i {
        AccountRecord {
            balance: before[i].balance + if credited.covers(w) {
                weigh(measure, w)
            } else {
                0
            },
            staked: (before[i].staked - w.amount) as nat,
            ..before[i]
        }
    } else {
        before[j]
    } by {
        let m = accounts[j].member;
        lemma_sum_step(ws, k, credited.for_member(m), measure);
        lemma_sum_step(ws, k, on_bet.for_member(m), Measure::Stake);
        lemma_sum_prefix(ws, k + 1, on_bet.for_member(m), Measure::Stake);
        if accounts[j].community == community && on_bet.covers(w) && m == w.member {
            lemma_account_at(accounts, j, community, m);
            lemma_account_at(accounts, i, community, m);
        }
    }
    if on_bet.covers(w) {
        let m = w.member;
        lemma_account_at(accounts, i, community, m);
        lemma_sum_step(ws, k, on_bet.for_member(m), Measure::Stake);
        lemma_sum_prefix(ws, k + 1, on_bet.for_member(m), Measure::Stake);
        lemma_sum_prefix(ws, k + 1, credited.for_member(m), measure);
        if credited.covers(w) {
            let mine = credited.for_member(m);
            assert forall|q: int| 0 <= q < ws.take(k).len() implies !mine.covers(
                #[trigger] ws.take(k)[q],
            ) by {
                assert(ws.take(k)[q] == ws[q]);
                if mine.covers(ws[q]) {
                    assert(ws[q].community == ws[k].community);
                }
            }
            lemma_sum_none(ws.take(k), mine, measure);
        }
        assert(after =~= before.update(i, after[i]));
    } else {
        assert(after =~= before);
    }
}

/// Settles a bet on the accounts: every stake on it is released, and the
/// stakes that are credited (all of them where `winner` is `None`, those on
/// `winner` otherwise) are paid into their members' balances.
///
/// Returns the wagers that remain and one entry for each credit, in the
/// order of the wagers.
pub(crate) fn settle(
    accounts: &mut Vec<Account>,
    wagers: &Vec<Wager>,
    community: &String,
    bet: &String,
    winner: Option<&String>,
    pot: u64,
    winning: u64,
) -> (out: (Vec<Wager>, Vec<AccountUpdate>))
    requires
        distinct_accounts(account_records(old(accounts)@)),
        distinct_wagers(wager_records(wagers@)),
        forall|k: int|
            0 <= k < wagers.len() && Scope::of_bet(community@, bet@).covers(
                #[trigger] wager_records(wagers@)[k],
            ) ==> has_account(account_records(old(accounts)@), community@, wagers[k].member@),
        forall|i: int|
            0 <= i < old(accounts).len() && (#[trigger] account_records(
                old(accounts)@,
            )[i]).community == community@ ==> stake_in_bet(
                wager_records(wagers@),
                community@,
                bet@,
                old(accounts)[i].member@,
            ) <= old(accounts)[i].staked,
        forall|i: int|
            0 <= i < old(accounts).len() ==> (#[trigger] with_credits(
                account_records(old(accounts)@),
                wager_records(wagers@),
                community@,
                bet@,
                scope_of(community@, Some(bet), winner),
                credit_measure(winner, pot, winning),
            )[i]).balance <= u64::MAX,
        winner is Some ==> forall|k: int|
            0 <= k < wagers.len() && scope_of(community@, Some(bet), winner).covers(
                #[trigger] wager_records(wagers@)[k],
            ) ==> wagers[k].amount <= winning,
    ensures
        account_records(final(accounts)@) == with_credits(
            account_records(old(accounts)@),
            wager_records(wagers@),
            community@,
            bet@,
            scope_of(community@, Some(bet), winner),
            credit_measure(winner, pot, winning),
        ),
        wager_records(out.0@) == without(wager_records(wagers@), Scope::of_bet(community@, bet@)),
        update_records(out.1@) == credit_entries(
            account_records(old(accounts)@),
            within(wager_records(wagers@), scope_of(community@, Some(bet), winner)),
            community@,
            credit_measure(winner, pot, winning),
        ),
{
    let ghost start = account_records(accounts@);
    let ghost ws = wager_records(wagers@);
    let ghost on_bet = Scope::of_bet(community@, bet@);
    let ghost credited = scope_of(community@, Some(bet), winner);
    let ghost measure = credit_measure(winner, pot, winning);
    let mut kept: Vec<Wager> = Vec::new();
    let mut updates: Vec<AccountUpdate> = Vec::new();
    let mut k: usize = 0;
    proof {
        assert(ws.take(0) =~= Seq::empty());
        assert(wager_records(kept@) =~= Seq::empty());
        assert(update_records(updates@) =~= credit_entries(
            start,
            within(ws.take(0), credited),
            community@,
            measure,
        ));
        assert forall|i: int| 0 <= i < start.len() implies start[i] == #[trigger] with_credits(
            start,
            ws.take(0),
            community@,
            bet@,
            credited,
            measure,
        )[i] by {}
        assert(account_records(accounts@) =~= with_credits(
            start,
            ws.take(0),
            community@,
            bet@,
            credited,
            measure,
        ));
    }
    while k < wagers.len()
        invariant
            k <= wagers.len(),
            ws == wager_records(wagers@),
            on_bet == Scope::of_bet(community@, bet@),
            credited == scope_of(community@, Some(bet), winner),
            measure == credit_measure(winner, pot, winning),
            accounts.len() == start.len(),
            distinct_accounts(start),
            distinct_wagers(ws),
            forall|q: int|
                0 <= q < ws.len() && on_bet.covers(#[trigger] ws[q]) ==> has_account(
                    start,
                    community@,
                    ws[q].member,
                ),
            forall|i: int|
                0 <= i < start.len() && (#[trigger] start[i]).community == community@
                    ==> stake_in_bet(ws, community@, bet@, start[i].member) <= start[i].staked,
            forall|i: int|
                0 <= i < start.len() ==> (#[trigger] with_credits(
                    start,
                    ws,
                    community@,
                    bet@,
                    credited,
                    measure,
                )[i]).balance <= u64::MAX,
            winner is Some ==> forall|q: int|
                0 <= q < ws.len() && credited.covers(#[trigger] ws[q]) ==> ws[q].amount <= winning,
            account_records(accounts@) == with_credits(
                start,
                ws.take(k as int),
                community@,
                bet@,
                credited,
                measure,
            ),
            wager_records(kept@) == without(ws.take(k as int), on_bet),
            update_records(updates@) == credit_entries(
                start,
                within(ws.take(k as int), credited),
                community@,
                measure,
            ),
        decreases wagers.len() - k,
    {
        let w = &wagers[k];
        let ghost before = account_records(accounts@);
        proof {
            lemma_within_step(ws, k as int, on_bet);
            lemma_within_step(ws, k as int, credited);
            assert(ws[k as int] == w@);
        }
        if in_scope(w, community, Some(bet), None) {
            proof {
                lemma_accounts_keep_keys(start, before, community@, w.member@);
            }
            if let Some(i) = find_account(accounts, community, &w.member) {
                let amount = w.amount;
                proof {
                    assert(accounts[i as int]@.community == start[i as int].community);
                    assert(is_account_at(start, i as int, community@, w.member@));
                    lemma_credit_step(start, ws, k as int, i as int, community@, bet@, credited, measure);
                    assert(with_credits(start, ws, community@, bet@, credited, measure)[i as int].balance
                        <= u64::MAX);
                }
                let credit: Option<u64> = match winner {
                    None => Some(amount),
                    Some(o) => if w.option == *o {
                        Some(payout_share(amount, pot, winning))
                    } else {
                        None
                    },
                };
                accounts[i].staked = accounts[i].staked - amount;
                if let Some(paid) = credit {
                    accounts[i].balance = accounts[i].balance + paid;
                    let ghost listed = update_records(updates@);
                    updates.push(
                        AccountUpdate {
                            community: community.clone(),
                            member: w.member.clone(),
                            diff: paid as i128,
                            balance: accounts[i].balance,
                        },
                    );
                    proof {
                        assert(update_records(updates@) =~= listed.push(updates[updates.len() - 1]@));
                        assert(update_records(updates@) =~= credit_entries(
                            start,
                            within(ws.take(k + 1), credited),
                            community@,
                            measure,
                        ));
                    }
                }
                proof {
                    assert(account_records(accounts@) =~= with_credits(
                        start,
                        ws.take(k + 1),
                        community@,
                        bet@,
                        credited,
                        measure,
                    ));
                }
            }
        } else {
            let ghost held = wager_records(kept@);
            kept.push(copy_wager(w));
            proof {
                lemma_credit_step(start, ws, k as int, 0, community@, bet@, credited, measure);
                assert(wager_records(kept@) =~= held.push(ws[k as int]));
            }
        }
        k += 1;
    }
    proof {
        assert(ws.take(k as int) =~= ws);
    }
    (kept, updates)
}

} // verus!
