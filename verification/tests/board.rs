use wager_ledger::board::{leaderboard_text, leaders_of, line_of, rank, ranks_above};
use wager_ledger::ledger::Ledger;
use wager_ledger::types::{total_change, Account, AccountUpdate};

fn account(member: &str, balance: u64, staked: u64) -> Account {
    Account { community: "g".to_string(), member: member.to_string(), balance, staked }
}

fn members(list: &[Account]) -> Vec<String> {
    list.iter().map(|a| a.member.clone()).collect()
}

#[test]
fn rank_orders_by_worth_then_balance() {
    let accounts = vec![
        account("a", 10, 0),
        account("b", 50, 0),
        account("c", 5, 45),
        account("d", 0, 100),
        account("e", 49, 1),
    ];
    let ranked = rank(&accounts);
    assert_eq!(members(&ranked), vec!["d", "b", "e", "c", "a"]);
    assert_eq!(ranked[0], account("d", 0, 100));
}

#[test]
fn rank_puts_the_later_of_equals_first() {
    let accounts = vec![account("a", 10, 5), account("b", 10, 5), account("c", 10, 5)];
    assert_eq!(members(&rank(&accounts)), vec!["c", "b", "a"]);
    // as sorting by the pair and reversing does
    let mut sorted = accounts.clone();
    sorted.sort_by_key(|acc| (acc.balance + acc.staked, acc.balance));
    sorted.reverse();
    assert_eq!(rank(&accounts), sorted);
}

#[test]
fn rank_agrees_with_sorting_and_reversing() {
    let mut accounts = Vec::new();
    let mut seed: u64 = 12345;
    for i in 0..60 {
        seed = seed.wrapping_mul(6364136223846793005).wrapping_add(1442695040888963407);
        let balance = (seed >> 33) % 7;
        let staked = (seed >> 13) % 5;
        accounts.push(account(&format!("m{}", i), balance, staked));
    }
    let mut sorted = accounts.clone();
    sorted.sort_by_key(|acc| (acc.balance + acc.staked, acc.balance));
    sorted.reverse();
    assert_eq!(rank(&accounts), sorted);
    assert_eq!(leaders_of(&accounts, 10), sorted[..10].to_vec());
}

#[test]
fn rank_of_nothing_is_nothing() {
    assert_eq!(rank(&vec![]), vec![]);
    assert_eq!(leaders_of(&vec![], 10), vec![]);
}

#[test]
fn rank_does_not_overflow() {
    let accounts = vec![account("a", u64::MAX, 0), account("b", u64::MAX, u64::MAX)];
    assert_eq!(members(&rank(&accounts)), vec!["b", "a"]);
    assert!(ranks_above(&accounts[1], &accounts[0]));
    assert!(!ranks_above(&accounts[0], &accounts[1]));
    assert!(!ranks_above(&accounts[0], &accounts[0]));
}

#[test]
fn leaders_are_the_first_of_the_ranking() {
    let accounts: Vec<Account> = (0..15).map(|i| account(&format!("m{}", i), i, 0)).collect();
    let shown = leaders_of(&accounts, 10);
    assert_eq!(shown.len(), 10);
    assert_eq!(shown[0].member, "m14");
    assert_eq!(shown[9].member, "m5");
    assert_eq!(leaders_of(&accounts, 20).len(), 15);
    assert_eq!(leaders_of(&accounts, 0), vec![]);
}

#[test]
fn line_shows_balance_stake_and_member() {
    assert_eq!(line_of(&account("42", 70, 30)), "70  (30)   <@42>");
    assert_eq!(line_of(&account("7", 0, 0)), "0  (0)   <@7>");
    assert_eq!(
        line_of(&account("x", u64::MAX, 1000)),
        "18446744073709551615  (1000)   <@x>"
    );
}

#[test]
fn leaderboard_text_is_heading_lines_and_mark() {
    let accounts = vec![account("1", 10, 0), account("2", 70, 30), account("3", 0, 55)];
    assert_eq!(
        leaderboard_text(&accounts, "coins"),
        "coins  (coins in bet)   user\n70  (30)   <@2>\n0  (55)   <@3>\n10  (0)   <@1>\n..."
    );
    assert_eq!(leaderboard_text(&vec![], "c"), "c  (c in bet)   user\n\n...");
    assert_eq!(
        leaderboard_text(&vec![account("9", 1, 2)], "$"),
        "$  ($ in bet)   user\n1  (2)   <@9>\n..."
    );
}

#[test]
fn leaderboard_text_shows_ten_lines_at_most() {
    let accounts: Vec<Account> = (0..12).map(|i| account(&format!("{}", i), i, 0)).collect();
    let text = leaderboard_text(&accounts, "c");
    assert_eq!(text.lines().count(), 12);
    assert!(text.starts_with("c  (c in bet)   user\n11  (0)   <@11>\n10  (0)   <@10>\n"));
    assert!(text.ends_with("\n2  (0)   <@2>\n..."));
}

#[test]
fn leaderboard_of_a_ledger() {
    let mut ledger = Ledger::new();
    ledger.create_account("g", "1", 100).unwrap();
    ledger.create_account("g", "2", 100).unwrap();
    ledger.create_account("h", "3", 500).unwrap();
    ledger.register_bet("g", "b", &vec!["o".to_string()]).unwrap();
    ledger.place_wager("g", "b", "o", "1", 40).unwrap();
    // equal worth: the one with more to spend leads
    assert_eq!(
        leaderboard_text(&ledger.list_accounts("g"), "coins"),
        "coins  (coins in bet)   user\n100  (0)   <@2>\n60  (40)   <@1>\n..."
    );
}

fn change(diff: i128) -> AccountUpdate {
    AccountUpdate { community: "g".to_string(), member: "m".to_string(), diff, balance: 0 }
}

#[test]
fn total_change_adds_the_diffs() {
    assert_eq!(total_change(&vec![]), Some(0));
    assert_eq!(total_change(&vec![change(21), change(63)]), Some(84));
    assert_eq!(total_change(&vec![change(-30), change(10)]), Some(-20));
    assert_eq!(total_change(&vec![change(i128::MAX), change(1)]), None);
    // the sum is taken from the left: a prefix that cannot be counted ends it
    assert_eq!(total_change(&vec![change(i128::MAX), change(1), change(-5)]), None);
    assert_eq!(total_change(&vec![change(i128::MIN), change(-1)]), None);
    assert_eq!(total_change(&vec![change(i128::MAX), change(-1), change(1)]), Some(i128::MAX));
}

#[test]
fn total_change_of_a_payout_is_what_was_paid() {
    let mut ledger = Ledger::new();
    for m in ["a", "b", "c"] {
        ledger.create_account("g", m, 100).unwrap();
    }
    ledger.register_bet("g", "b", &vec!["x".to_string(), "y".to_string()]).unwrap();
    ledger.place_wager("g", "b", "x", "a", 10).unwrap();
    ledger.place_wager("g", "b", "y", "b", 45).unwrap();
    ledger.place_wager("g", "b", "x", "c", 30).unwrap();
    ledger.lock_bet("g", "b").unwrap();
    let paid = ledger.close_bet("g", "b", "x").unwrap();
    assert_eq!(total_change(&paid), Some(84));
}
