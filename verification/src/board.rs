//! The leaderboard of a community: its accounts ranked by what they are
//! worth, and the text that shows the leaders.

use crate::model::AccountRecord;
use crate::types::{account_records, names, Account};
use itertools::Itertools;
use vstd::prelude::*;
use vstd::string::*;

verus! {

/// What an account is worth: what it can spend and what it has at stake.
pub open spec fn worth(a: AccountRecord) -> nat {
    a.balance + a.staked
}

/// Whether `a` ranks strictly above `b`: it is worth more, or as much with
/// more of it to spend.
pub open spec fn outranks(a: AccountRecord, b: AccountRecord) -> bool {
    worth(a) > worth(b) || (worth(a) == worth(b) && a.balance > b.balance)
}

/// How many accounts at the head of `ranked` rank strictly above `a`.
pub open spec fn lead(ranked: Seq<AccountRecord>, a: AccountRecord) -> nat
    decreases ranked.len(),
{
    if ranked.len() == 0 || !outranks(ranked[0], a) {
        0
    } else {
        1 + lead(ranked.skip(1), a)
    }
}

/// The ranking of `accounts`: each account in turn is put behind those that
/// rank strictly above it, and so ahead of those of equal rank that came
/// before it.
pub open spec fn ranking(accounts: Seq<AccountRecord>) -> Seq<AccountRecord>
    decreases accounts.len(),
{
    if accounts.len() == 0 {
        accounts
    } else {
        let ranked = ranking(accounts.drop_last());
        ranked.insert(lead(ranked, accounts.last()) as int, accounts.last())
    }
}

/// The first `count` accounts of the ranking, or all of them where there are
/// fewer.
pub open spec fn leaders(accounts: Seq<AccountRecord>, count: nat) -> Seq<AccountRecord> {
    if count <= ranking(accounts).len() {
        ranking(accounts).take(count as int)
    } else {
        ranking(accounts)
    }
}

/// The character that writes one decimal digit.
pub open spec fn digit_char(d: nat) -> char {
    if d == 0 {
        '0'
    } else if d == 1 {
        '1'
    } else if d == 2 {
        '2'
    } else if d == 3 {
        '3'
    } else if d == 4 {
        '4'
    } else if d == 5 {
        '5'
    } else if d == 6 {
        '6'
    } else if d == 7 {
        '7'
    } else if d == 8 {
        '8'
    } else {
        '9'
    }
}

/// A number in decimal digits, without sign or leading zeros.
pub open spec fn decimal_text(n: nat) -> Seq<char>
    decreases n,
{
    if n < 10 {
        seq![digit_char(n)]
    } else {
        decimal_text(n / 10).push(digit_char(n % 10))
    }
}

/// The parts one after another, with `sep` between each two.
pub open spec fn joined(parts: Seq<Seq<char>>, sep: Seq<char>) -> Seq<char>
    decreases parts.len(),
{
    if parts.len() == 0 {
        Seq::empty()
    } else if parts.len() == 1 {
        parts[0]
    } else {
        joined(parts.drop_last(), sep) + sep + parts.last()
    }
}

/// The line of one account on the leaderboard.
pub open spec fn line_text(a: AccountRecord) -> Seq<char> {
    decimal_text(a.balance) + "  ("@ + decimal_text(a.staked) + ")   <@"@ + a.member + ">"@
}

/// The lines of the accounts shown, in their order.
pub open spec fn board_lines(shown: Seq<AccountRecord>) -> Seq<Seq<char>> {
    Seq::new(shown.len(), |i: int| line_text(shown[i]))
}

/// The leaderboard: a heading, the lines of the ten leaders, and a mark that
/// the list goes on.
pub open spec fn board_text(accounts: Seq<AccountRecord>, currency: Seq<char>) -> Seq<char> {
    currency + "  ("@ + currency + " in bet)   user\n"@ + joined(
        board_lines(leaders(accounts, 10)),
        "\n"@,
    ) + "\n..."@
}

/// Formats a number through `std`'s `Display` for `u64`, which writes it in
/// decimal digits without sign or leading zeros. Trusted.
#[verifier::external_body]
fn decimal(n: u64) -> (text: String)
    ensures
        text@ == decimal_text(n as nat),
{
    format!("{}", n)
}

/// Joins the lines through `itertools::Itertools::join`, which writes the
/// first item and then, for every further item, the separator and the item.
/// Trusted.
#[verifier::external_body]
fn join_lines(lines: &Vec<String>, sep: &str) -> (text: String)
    ensures
        text@ == joined(names(lines@), sep@),
{
    lines.iter().join(sep)
}

/// Whether `a` ranks strictly above `b`.
pub fn ranks_above(a: &Account, b: &Account) -> (above: bool)
    ensures
        above == outranks(a@, b@),
{
    let worth_a: u128 = a.balance as u128 + a.staked as u128;
    let worth_b: u128 = b.balance as u128 + b.staked as u128;
    worth_a > worth_b || (worth_a == worth_b && a.balance > b.balance)
}

/// The accounts in the order of their rank, highest first.
pub fn rank(accounts: &Vec<Account>) -> (ranked: Vec<Account>)
    ensures
        account_records(ranked@) == ranking(account_records(accounts@)),
{
    let ghost records = account_records(accounts@);
    let mut ranked: Vec<Account> = Vec::new();
    let mut i: usize = 0;
    assert(records.take(0) =~= Seq::empty());
    assert(account_records(ranked@) =~= Seq::empty());
    while i < accounts.len()
        invariant
            i <= accounts.len(),
            records == account_records(accounts@),
            account_records(ranked@) == ranking(records.take(i as int)),
        decreases accounts.len() - i,
    {
        let a = Account {
            community: accounts[i].community.clone(),
            member: accounts[i].member.clone(),
            balance: accounts[i].balance,
            staked: accounts[i].staked,
        };
        let ghost before = account_records(ranked@);
        let mut p: usize = 0;
        assert(before.skip(0) =~= before);
        while p < ranked.len() && ranks_above(&ranked[p], &a)
            invariant
                p <= ranked.len(),
                before == account_records(ranked@),
                lead(before, a@) == p + lead(before.skip(p as int), a@),
            decreases ranked.len() - p,
        {
            proof {
                assert(before.skip(p as int)[0] == ranked[p as int]@);
                assert(before.skip(p as int).skip(1) =~= before.skip(p + 1));
            }
            p += 1;
        }
        proof {
            if p < ranked.len() {
                assert(before.skip(p as int)[0] == ranked[p as int]@);
            }
            assert(records.take(i + 1).drop_last() =~= records.take(i as int));
            assert(records.take(i + 1).last() == a@);
        }
        ranked.insert(p, a);
        proof {
            assert(account_records(ranked@) =~= before.insert(p as int, a@));
        }
        i += 1;
    }
    proof {
        assert(records.take(i as int) =~= records);
    }
    ranked
}

/// The `count` highest-ranking accounts, highest first.
pub fn leaders_of(accounts: &Vec<Account>, count: usize) -> (shown: Vec<Account>)
    ensures
        account_records(shown@) == leaders(account_records(accounts@), count as nat),
{
    let mut ranked = rank(accounts);
    let ghost all = account_records(ranked@);
    ranked.truncate(count);
    proof {
        if count <= all.len() {
            assert(account_records(ranked@) =~= all.take(count as int));
        }
    }
    ranked
}

/// The line of one account on the leaderboard.
pub fn line_of(a: &Account) -> (line: String)
    ensures
        line@ == line_text(a@),
{
    let mut line = decimal(a.balance);
    line.append("  (");
    line.append(decimal(a.staked).as_str());
    line.append(")   <@");
    line.append(a.member.as_str());
    line.append(">");
    line
}

/// The leaderboard of the given accounts, with `currency` as the name of
/// what they hold.
pub fn leaderboard_text(accounts: &Vec<Account>, currency: &str) -> (text: String)
    ensures
        text@ == board_text(account_records(accounts@), currency@),
{
    let shown = leaders_of(accounts, 10);
    let mut lines: Vec<String> = Vec::new();
    let mut i: usize = 0;
    while i < shown.len()
        invariant
            i <= shown.len(),
            lines.len() == i,
            forall|j: int| 0 <= j < i ==> (#[trigger] lines[j])@ == line_text(shown[j]@),
        decreases shown.len() - i,
    {
        lines.push(line_of(&shown[i]));
        i += 1;
    }
    proof {
        assert(names(lines@) =~= board_lines(account_records(shown@)));
    }
    let mut text = String::from_str(currency);
    text.append("  (");
    text.append(currency);
    text.append(" in bet)   user\n");
    text.append(join_lines(&lines, "\n").as_str());
    text.append("\n...");
    text
}

/// The ranking holds every account that was ranked, each as often as it was
/// given.
pub proof fn ranking_keeps_accounts(accounts: Seq<AccountRecord>)
    ensures
        ranking(accounts).len() == accounts.len(),
        ranking(accounts).to_multiset() == accounts.to_multiset(),
    decreases accounts.len(),
{
    broadcast use vstd::seq_lib::to_multiset_insert, vstd::seq_lib::to_multiset_build;

    if accounts.len() > 0 {
        let init = accounts.drop_last();
        ranking_keeps_accounts(init);
        lemma_lead_bounds(ranking(init), accounts.last());
        assert(init.push(accounts.last()) =~= accounts);
    } else {
        assert(ranking(accounts) =~= accounts);
    }
}

/// The accounts ahead of where `a` is put rank strictly above it, and the
/// one behind, if there is one, does not.
proof fn lemma_lead_bounds(ranked: Seq<AccountRecord>, a: AccountRecord)
    ensures
        lead(ranked, a) <= ranked.len(),
        forall|q: int| 0 <= q < lead(ranked, a) ==> outranks(#[trigger] ranked[q], a),
        lead(ranked, a) < ranked.len() ==> !outranks(ranked[lead(ranked, a) as int], a),
    decreases ranked.len(),
{
    if ranked.len() > 0 && outranks(ranked[0], a) {
        let rest = ranked.skip(1);
        lemma_lead_bounds(rest, a);
        assert forall|q: int| 0 <= q < lead(ranked, a) implies outranks(#[trigger] ranked[q], a) by {
            if q > 0 {
                assert(rest[q - 1] == ranked[q]);
            }
        }
        if lead(ranked, a) < ranked.len() {
            assert(rest[lead(rest, a) as int] == ranked[lead(ranked, a) as int]);
        }
    }
}

/// In the ranking no account stands behind one that it ranks strictly above.
pub proof fn ranking_is_ordered(accounts: Seq<AccountRecord>, i: int, j: int)
    requires
        0 <= i < j < accounts.len(),
    ensures
        ranking(accounts).len() == accounts.len(),
        !outranks(ranking(accounts)[j], ranking(accounts)[i]),
    decreases accounts.len(),
{
    let init = accounts.drop_last();
    let a = accounts.last();
    let ranked = ranking(init);
    let p = lead(ranked, a) as int;
    ranking_keeps_accounts(accounts);
    ranking_keeps_accounts(init);
    lemma_lead_bounds(ranked, a);
    let all = ranking(accounts);
    assert(all == ranked.insert(p, a));
    if j < p {
        ranking_is_ordered(init, i, j);
    } else if j == p {
        assert(outranks(ranked[i], a));
    } else if i == p {
        // all[j] is ranked[j - 1], which stands at or behind ranked[p]
        assert(all[j] == ranked[j - 1]);
        if j - 1 > p {
            ranking_is_ordered(init, p, j - 1);
        }
    } else if i < p {
        assert(all[j] == ranked[j - 1]);
        assert(all[i] == ranked[i]);
        ranking_is_ordered(init, i, j - 1);
    } else {
        assert(all[j] == ranked[j - 1]);
        assert(all[i] == ranked[i - 1]);
        ranking_is_ordered(init, i - 1, j - 1);
    }
}

/// Of two accounts of equal rank the one given later stands first, and the
/// account given last stands ahead of every account it does not rank below.
pub proof fn latest_of_equal_rank_leads(accounts: Seq<AccountRecord>, q: int)
    requires
        accounts.len() > 0,
        0 <= q < ranking(accounts.drop_last()).len(),
    ensures
        q < lead(ranking(accounts.drop_last()), accounts.last()) ==> outranks(
            ranking(accounts.drop_last())[q],
            accounts.last(),
        ),
        q >= lead(ranking(accounts.drop_last()), accounts.last()) ==> !outranks(
            ranking(accounts.drop_last())[q],
            accounts.last(),
        ),
{
    let ranked = ranking(accounts.drop_last());
    let a = accounts.last();
    let p = lead(ranked, a) as int;
    lemma_lead_bounds(ranked, a);
    ranking_keeps_accounts(accounts.drop_last());
    if q > p {
        ranking_is_ordered(accounts.drop_last(), p, q);
    }
}

} // verus!
