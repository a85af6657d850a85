use wager_ledger::ledger::Ledger;
use wager_ledger::model::BetStatus;
use wager_ledger::payout::payout_share;
use wager_ledger::types::{Account, AccountUpdate, LedgerError, OptionTally};

fn names(list: &[&str]) -> Vec<String> {
    list.iter().map(|s| s.to_string()).collect()
}

fn update(community: &str, member: &str, diff: i128, balance: u64) -> AccountUpdate {
    AccountUpdate { community: community.to_string(), member: member.to_string(), diff, balance }
}

fn account(community: &str, member: &str, balance: u64, staked: u64) -> Account {
    Account { community: community.to_string(), member: member.to_string(), balance, staked }
}

fn tally(option: &str, staked: u64) -> OptionTally {
    OptionTally { option: option.to_string(), staked }
}

/// A pool with one community "g", members with 100 each, and one open bet
/// "bet1" on "optA" and "optB".
fn pool(members: &[&str]) -> Ledger {
    let mut ledger = Ledger::new();
    for m in members {
        assert_eq!(ledger.create_account("g", m, 100), Ok(()));
    }
    assert_eq!(ledger.register_bet("g", "bet1", &names(&["optA", "optB"])), Ok(()));
    ledger
}

fn funds(ledger: &Ledger, community: &str) -> u128 {
    ledger
        .list_accounts(community)
        .iter()
        .map(|a| a.balance as u128 + a.staked as u128)
        .sum()
}

#[test]
fn scenario_a_second_option_is_refused() {
    let mut ledger = pool(&["ann"]);
    let (change, stakes) = ledger.place_wager("g", "bet1", "optA", "ann", 30).unwrap();
    assert_eq!(change, update("g", "ann", -30, 70));
    assert_eq!(stakes, vec![tally("optA", 30), tally("optB", 0)]);
    assert_eq!(ledger.account("g", "ann"), Ok(account("g", "ann", 70, 30)));
    assert_eq!(
        ledger.place_wager("g", "bet1", "optB", "ann", 10),
        Err(LedgerError::MultipleOptions(names(&["optA"])))
    );
    assert_eq!(ledger.balance("g", "ann"), Ok(70));
    assert_eq!(ledger.account("g", "ann"), Ok(account("g", "ann", 70, 30)));
}

#[test]
fn scenario_b_winner_takes_the_pot() {
    let mut ledger = pool(&["ann", "bob"]);
    ledger.place_wager("g", "bet1", "optA", "ann", 40).unwrap();
    ledger.place_wager("g", "bet1", "optB", "bob", 60).unwrap();
    assert_eq!(ledger.lock_bet("g", "bet1"), Ok(()));
    let paid = ledger.close_bet("g", "bet1", "optA").unwrap();
    assert_eq!(paid, vec![update("g", "ann", 100, 160)]);
    assert_eq!(ledger.account("g", "ann"), Ok(account("g", "ann", 160, 0)));
    assert_eq!(ledger.account("g", "bob"), Ok(account("g", "bob", 40, 0)));
    assert_eq!(ledger.bet_status("g", "bet1"), Some(BetStatus::Closed));
}

#[test]
fn scenario_c_wager_beyond_balance_is_refused() {
    let mut ledger = pool(&["ann"]);
    assert_eq!(
        ledger.place_wager("g", "bet1", "optA", "ann", 101),
        Err(LedgerError::InsufficientFunds)
    );
    assert_eq!(ledger.account("g", "ann"), Ok(account("g", "ann", 100, 0)));
    ledger.place_wager("g", "bet1", "optA", "ann", 100).unwrap();
    assert_eq!(
        ledger.place_wager("g", "bet1", "optA", "ann", 1),
        Err(LedgerError::InsufficientFunds)
    );
    assert_eq!(ledger.account("g", "ann"), Ok(account("g", "ann", 0, 100)));
}

#[test]
fn scenario_d_abort_of_locked_bet_refunds_all() {
    let mut ledger = pool(&["ann", "bob", "cid"]);
    ledger.place_wager("g", "bet1", "optA", "ann", 10).unwrap();
    ledger.place_wager("g", "bet1", "optB", "bob", 20).unwrap();
    ledger.place_wager("g", "bet1", "optA", "cid", 30).unwrap();
    assert_eq!(ledger.lock_bet("g", "bet1"), Ok(()));
    let refunds = ledger.abort_bet("g", "bet1").unwrap();
    assert_eq!(
        refunds,
        vec![update("g", "ann", 10, 100), update("g", "bob", 20, 100), update("g", "cid", 30, 100)]
    );
    for m in ["ann", "bob", "cid"] {
        assert_eq!(ledger.account("g", m), Ok(account("g", m, 100, 0)));
    }
    assert_eq!(ledger.bet_status("g", "bet1"), Some(BetStatus::Aborted));
    assert_eq!(ledger.close_bet("g", "bet1", "optA"), Err(LedgerError::InvalidState));
    // the wagers are gone: a second abort has nothing to refund and is refused
    assert_eq!(ledger.abort_bet("g", "bet1"), Err(LedgerError::InvalidState));
    for m in ["ann", "bob", "cid"] {
        assert_eq!(ledger.account("g", m), Ok(account("g", m, 100, 0)));
    }
}

#[test]
fn wagers_and_aborts_conserve_funds() {
    let mut ledger = pool(&["ann", "bob", "cid"]);
    let start = funds(&ledger, "g");
    assert_eq!(start, 300);
    ledger.place_wager("g", "bet1", "optA", "ann", 17).unwrap();
    assert_eq!(funds(&ledger, "g"), start);
    ledger.place_wager("g", "bet1", "optB", "bob", 100).unwrap();
    assert_eq!(funds(&ledger, "g"), start);
    ledger.place_wager("g", "bet1", "optA", "ann", 3).unwrap();
    assert_eq!(funds(&ledger, "g"), start);
    assert!(ledger.place_wager("g", "bet1", "optB", "ann", 3).is_err());
    assert_eq!(funds(&ledger, "g"), start);
    ledger.abort_bet("g", "bet1").unwrap();
    assert_eq!(funds(&ledger, "g"), start);
}

#[test]
fn close_loses_only_the_rounding_remainder() {
    let mut ledger = pool(&["ann", "bob", "cid", "dan"]);
    ledger.place_wager("g", "bet1", "optA", "ann", 1).unwrap();
    ledger.place_wager("g", "bet1", "optA", "bob", 1).unwrap();
    ledger.place_wager("g", "bet1", "optA", "cid", 1).unwrap();
    ledger.place_wager("g", "bet1", "optB", "dan", 1).unwrap();
    ledger.lock_bet("g", "bet1").unwrap();
    let start = funds(&ledger, "g");
    let paid = ledger.close_bet("g", "bet1", "optA").unwrap();
    // pot 4, winning 3: each winner gets floor(1 * 4 / 3) = 1
    assert_eq!(
        paid,
        vec![update("g", "ann", 1, 100), update("g", "bob", 1, 100), update("g", "cid", 1, 100)]
    );
    assert_eq!(ledger.account("g", "dan"), Ok(account("g", "dan", 99, 0)));
    assert_eq!(funds(&ledger, "g"), start - 1);
}

#[test]
fn close_without_backers_forfeits_the_pot() {
    let mut ledger = pool(&["ann", "bob"]);
    ledger.place_wager("g", "bet1", "optB", "ann", 25).unwrap();
    ledger.place_wager("g", "bet1", "optB", "bob", 50).unwrap();
    ledger.lock_bet("g", "bet1").unwrap();
    let start = funds(&ledger, "g");
    assert_eq!(ledger.close_bet("g", "bet1", "optA"), Ok(vec![]));
    assert_eq!(ledger.account("g", "ann"), Ok(account("g", "ann", 75, 0)));
    assert_eq!(ledger.account("g", "bob"), Ok(account("g", "bob", 50, 0)));
    assert_eq!(funds(&ledger, "g"), start - 75);
}

#[test]
fn winners_share_in_proportion() {
    let mut ledger = pool(&["ann", "bob", "cid"]);
    ledger.place_wager("g", "bet1", "optA", "ann", 10).unwrap();
    ledger.place_wager("g", "bet1", "optB", "bob", 45).unwrap();
    ledger.place_wager("g", "bet1", "optA", "cid", 30).unwrap();
    ledger.lock_bet("g", "bet1").unwrap();
    let paid = ledger.close_bet("g", "bet1", "optA").unwrap();
    // pot 85, winning 40: 10 * 85 / 40 = 21, 30 * 85 / 40 = 63
    assert_eq!(paid, vec![update("g", "ann", 21, 111), update("g", "cid", 63, 133)]);
    assert_eq!(ledger.account("g", "bob"), Ok(account("g", "bob", 55, 0)));
}

#[test]
fn payout_share_values() {
    assert_eq!(payout_share(40, 100, 40), 100);
    assert_eq!(payout_share(1, 4, 3), 1);
    assert_eq!(payout_share(10, 85, 40), 21);
    assert_eq!(payout_share(30, 85, 40), 63);
    assert_eq!(payout_share(0, 10, 0), 0);
    assert_eq!(payout_share(0, 10, 5), 0);
    assert_eq!(payout_share(u64::MAX, u64::MAX, u64::MAX), u64::MAX);
    assert_eq!(payout_share(1, u64::MAX, 2), u64::MAX / 2);
}

#[test]
fn single_choice_keeps_one_wager() {
    let mut ledger = pool(&["ann"]);
    let (_, t1) = ledger.place_wager("g", "bet1", "optB", "ann", 5).unwrap();
    assert_eq!(t1, vec![tally("optA", 0), tally("optB", 5)]);
    let (change, t2) = ledger.place_wager("g", "bet1", "optB", "ann", 7).unwrap();
    assert_eq!(change, update("g", "ann", -7, 88));
    assert_eq!(t2, vec![tally("optA", 0), tally("optB", 12)]);
    assert_eq!(
        ledger.place_wager("g", "bet1", "optA", "ann", 1),
        Err(LedgerError::MultipleOptions(names(&["optB"])))
    );
    // one wager only: the abort refunds one entry with the whole stake
    assert_eq!(ledger.abort_bet("g", "bet1"), Ok(vec![update("g", "ann", 12, 100)]));
}

#[test]
fn lock_needs_an_open_bet() {
    let mut ledger = pool(&["ann"]);
    assert_eq!(ledger.lock_bet("g", "nope"), Err(LedgerError::InvalidState));
    assert_eq!(ledger.lock_bet("h", "bet1"), Err(LedgerError::InvalidState));
    assert_eq!(ledger.lock_bet("g", "bet1"), Ok(()));
    assert_eq!(ledger.bet_status("g", "bet1"), Some(BetStatus::Locked));
    assert_eq!(ledger.lock_bet("g", "bet1"), Err(LedgerError::InvalidState));
    ledger.close_bet("g", "bet1", "optA").unwrap();
    assert_eq!(ledger.lock_bet("g", "bet1"), Err(LedgerError::InvalidState));
}

#[test]
fn close_needs_a_locked_bet() {
    let mut ledger = pool(&["ann"]);
    assert_eq!(ledger.close_bet("g", "bet1", "optA"), Err(LedgerError::InvalidState));
    assert_eq!(ledger.close_bet("g", "nope", "optA"), Err(LedgerError::InvalidState));
    assert_eq!(ledger.bet_status("g", "bet1"), Some(BetStatus::Open));
    ledger.lock_bet("g", "bet1").unwrap();
    assert_eq!(ledger.close_bet("g", "bet1", "optC"), Err(LedgerError::UnknownOption));
    assert_eq!(ledger.bet_status("g", "bet1"), Some(BetStatus::Locked));
    assert_eq!(ledger.close_bet("g", "bet1", "optB"), Ok(vec![]));
}

#[test]
fn abort_is_refused_on_terminal_bets() {
    let mut ledger = pool(&["ann"]);
    assert_eq!(ledger.abort_bet("g", "nope"), Err(LedgerError::InvalidState));
    assert_eq!(ledger.abort_bet("g", "bet1"), Ok(vec![]));
    assert_eq!(ledger.abort_bet("g", "bet1"), Err(LedgerError::InvalidState));
    ledger.register_bet("g", "bet2", &names(&["x"])).unwrap();
    ledger.lock_bet("g", "bet2").unwrap();
    ledger.close_bet("g", "bet2", "x").unwrap();
    assert_eq!(ledger.abort_bet("g", "bet2"), Err(LedgerError::InvalidState));
    assert_eq!(ledger.bet_status("g", "bet2"), Some(BetStatus::Closed));
}

#[test]
fn close_twice_pays_once() {
    let mut ledger = pool(&["ann", "bob"]);
    ledger.place_wager("g", "bet1", "optA", "ann", 40).unwrap();
    ledger.place_wager("g", "bet1", "optB", "bob", 60).unwrap();
    ledger.lock_bet("g", "bet1").unwrap();
    assert!(ledger.close_bet("g", "bet1", "optA").is_ok());
    let after = ledger.list_accounts("g");
    assert_eq!(ledger.close_bet("g", "bet1", "optA"), Err(LedgerError::InvalidState));
    assert_eq!(ledger.close_bet("g", "bet1", "optB"), Err(LedgerError::InvalidState));
    assert_eq!(ledger.list_accounts("g"), after);
}

#[test]
fn wagers_need_an_open_bet() {
    let mut ledger = pool(&["ann"]);
    assert_eq!(
        ledger.place_wager("g", "nope", "optA", "ann", 1),
        Err(LedgerError::InvalidState)
    );
    ledger.lock_bet("g", "bet1").unwrap();
    assert_eq!(
        ledger.place_wager("g", "bet1", "optA", "ann", 1),
        Err(LedgerError::InvalidState)
    );
    assert_eq!(ledger.account("g", "ann"), Ok(account("g", "ann", 100, 0)));
}

#[test]
fn wager_checks_come_in_order() {
    let mut ledger = pool(&["ann"]);
    // unknown option before unknown member
    assert_eq!(
        ledger.place_wager("g", "bet1", "optC", "zed", 1),
        Err(LedgerError::UnknownOption)
    );
    assert_eq!(ledger.place_wager("g", "bet1", "optA", "zed", 1), Err(LedgerError::NotFound));
    // an account of another community does not count
    ledger.create_account("h", "zed", 10).unwrap();
    assert_eq!(ledger.place_wager("g", "bet1", "optA", "zed", 1), Err(LedgerError::NotFound));
    // another option before the funds
    ledger.place_wager("g", "bet1", "optA", "ann", 100).unwrap();
    assert_eq!(
        ledger.place_wager("g", "bet1", "optB", "ann", 1),
        Err(LedgerError::MultipleOptions(names(&["optA"])))
    );
}

#[test]
fn accounts_are_created_once() {
    let mut ledger = Ledger::new();
    assert_eq!(ledger.balance("g", "ann"), Err(LedgerError::NotFound));
    assert_eq!(ledger.account("g", "ann"), Err(LedgerError::NotFound));
    assert_eq!(ledger.create_account("g", "ann", 100), Ok(()));
    assert_eq!(ledger.create_account("g", "ann", 5), Err(LedgerError::AlreadyExists));
    assert_eq!(ledger.balance("g", "ann"), Ok(100));
    assert_eq!(ledger.create_account("h", "ann", 7), Ok(()));
    assert_eq!(ledger.balance("h", "ann"), Ok(7));
    assert_eq!(ledger.balance("g", "ann"), Ok(100));
}

#[test]
fn accounts_are_listed_by_community() {
    let mut ledger = Ledger::new();
    ledger.create_account("g", "ann", 1).unwrap();
    ledger.create_account("h", "bob", 2).unwrap();
    ledger.create_account("g", "cid", 3).unwrap();
    assert_eq!(
        ledger.list_accounts("g"),
        vec![account("g", "ann", 1, 0), account("g", "cid", 3, 0)]
    );
    assert_eq!(ledger.list_accounts("h"), vec![account("h", "bob", 2, 0)]);
    assert_eq!(ledger.list_accounts("x"), vec![]);
}

#[test]
fn a_community_holds_no_more_than_can_be_counted() {
    let mut ledger = Ledger::new();
    assert_eq!(ledger.create_account("g", "ann", u64::MAX - 10), Ok(()));
    assert_eq!(ledger.create_account("g", "bob", 11), Err(LedgerError::CapacityExceeded));
    assert_eq!(ledger.balance("g", "bob"), Err(LedgerError::NotFound));
    assert_eq!(ledger.create_account("g", "bob", 10), Ok(()));
    // another community counts for itself
    assert_eq!(ledger.create_account("h", "ann", u64::MAX), Ok(()));
    assert_eq!(ledger.grant_income(1), Err(LedgerError::CapacityExceeded));
    assert_eq!(ledger.balance("g", "bob"), Ok(10));
    assert_eq!(ledger.grant_income(0), Ok(vec![
        update("g", "ann", 0, u64::MAX - 10),
        update("g", "bob", 0, 10),
        update("h", "ann", 0, u64::MAX),
    ]));
    assert_eq!(ledger.reset_all("g", u64::MAX / 2 + 1), Err(LedgerError::CapacityExceeded));
    assert_eq!(ledger.balance("g", "bob"), Ok(10));
    assert_eq!(ledger.reset_all("g", u64::MAX / 2), Ok(()));
    assert_eq!(ledger.balance("g", "bob"), Ok(u64::MAX / 2));
}

#[test]
fn income_reaches_every_account() {
    let mut ledger = pool(&["ann", "bob"]);
    ledger.create_account("h", "cid", 1).unwrap();
    ledger.place_wager("g", "bet1", "optA", "ann", 30).unwrap();
    let updates = ledger.grant_income(25).unwrap();
    assert_eq!(
        updates,
        vec![update("g", "ann", 25, 95), update("g", "bob", 25, 125), update("h", "cid", 25, 26)]
    );
    assert_eq!(ledger.account("g", "ann"), Ok(account("g", "ann", 95, 30)));
    assert_eq!(ledger.account("h", "cid"), Ok(account("h", "cid", 26, 0)));
}

#[test]
fn reset_aborts_active_bets_of_the_community() {
    let mut ledger = pool(&["ann", "bob"]);
    ledger.create_account("h", "ann", 50).unwrap();
    ledger.register_bet("h", "bet1", &names(&["optA"])).unwrap();
    ledger.register_bet("g", "done", &names(&["x"])).unwrap();
    ledger.lock_bet("g", "done").unwrap();
    ledger.close_bet("g", "done", "x").unwrap();
    ledger.register_bet("g", "locked", &names(&["y"])).unwrap();
    ledger.place_wager("g", "locked", "y", "bob", 5).unwrap();
    ledger.lock_bet("g", "locked").unwrap();
    ledger.place_wager("g", "bet1", "optA", "ann", 30).unwrap();
    ledger.place_wager("h", "bet1", "optA", "ann", 20).unwrap();
    assert_eq!(ledger.reset_all("g", 10), Ok(()));
    assert_eq!(
        ledger.list_accounts("g"),
        vec![account("g", "ann", 10, 0), account("g", "bob", 10, 0)]
    );
    assert_eq!(ledger.bet_status("g", "bet1"), Some(BetStatus::Aborted));
    assert_eq!(ledger.bet_status("g", "locked"), Some(BetStatus::Aborted));
    assert_eq!(ledger.bet_status("g", "done"), Some(BetStatus::Closed));
    // the other community is untouched
    assert_eq!(ledger.account("h", "ann"), Ok(account("h", "ann", 30, 20)));
    assert_eq!(ledger.bet_status("h", "bet1"), Some(BetStatus::Open));
    assert_eq!(ledger.abort_bet("h", "bet1"), Ok(vec![update("h", "ann", 20, 50)]));
    // nothing is left to refund in the community that was reset
    assert_eq!(ledger.abort_bet("g", "bet1"), Err(LedgerError::InvalidState));
}

#[test]
fn bets_are_registered_once_with_distinct_options() {
    let mut ledger = Ledger::new();
    assert_eq!(ledger.options_of_bet("g", "b"), Err(LedgerError::NotFound));
    assert_eq!(ledger.bet_status("g", "b"), None);
    assert_eq!(ledger.register_bet("g", "b", &names(&["o1", "o2", "o1", "o3", "o2"])), Ok(()));
    assert_eq!(ledger.options_of_bet("g", "b"), Ok(names(&["o1", "o2", "o3"])));
    assert_eq!(ledger.bet_status("g", "b"), Some(BetStatus::Open));
    assert_eq!(ledger.register_bet("g", "b", &names(&["z"])), Err(LedgerError::AlreadyExists));
    assert_eq!(ledger.options_of_bet("g", "b"), Ok(names(&["o1", "o2", "o3"])));
    assert_eq!(ledger.register_bet("h", "b", &names(&[])), Ok(()));
    assert_eq!(ledger.options_of_bet("h", "b"), Ok(names(&[])));
}

#[test]
fn options_lead_back_to_their_bet() {
    let mut ledger = Ledger::new();
    ledger.register_bet("g", "b1", &names(&["o1", "o2"])).unwrap();
    ledger.register_bet("g", "b2", &names(&["o3", "o2"])).unwrap();
    ledger.register_bet("h", "b3", &names(&["o4"])).unwrap();
    assert_eq!(ledger.bet_of_option("g", "o1"), Ok("b1".to_string()));
    assert_eq!(ledger.bet_of_option("g", "o3"), Ok("b2".to_string()));
    // the first registered bet that has the option
    assert_eq!(ledger.bet_of_option("g", "o2"), Ok("b1".to_string()));
    assert_eq!(ledger.bet_of_option("g", "o4"), Err(LedgerError::NotFound));
    assert_eq!(ledger.bet_of_option("h", "o4"), Ok("b3".to_string()));
    assert_eq!(ledger.bet_of_option("g", "b1"), Err(LedgerError::NotFound));
}

#[test]
fn stakes_on_several_bets_add_up() {
    let mut ledger = pool(&["ann"]);
    ledger.register_bet("g", "bet2", &names(&["optA"])).unwrap();
    ledger.place_wager("g", "bet1", "optA", "ann", 10).unwrap();
    let (_, stakes) = ledger.place_wager("g", "bet2", "optA", "ann", 20).unwrap();
    assert_eq!(stakes, vec![tally("optA", 20)]);
    assert_eq!(ledger.account("g", "ann"), Ok(account("g", "ann", 70, 30)));
    ledger.abort_bet("g", "bet1").unwrap();
    assert_eq!(ledger.account("g", "ann"), Ok(account("g", "ann", 80, 20)));
    ledger.lock_bet("g", "bet2").unwrap();
    assert_eq!(ledger.close_bet("g", "bet2", "optA"), Ok(vec![update("g", "ann", 20, 100)]));
    assert_eq!(ledger.account("g", "ann"), Ok(account("g", "ann", 100, 0)));
}
