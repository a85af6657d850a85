use wager_ledger::audit::{
    accounts_are_distinct, bets_are_distinct, is_sound, names_are_distinct, options_are_distinct,
    stakes_are_recorded, wagers_are_distinct, Snapshot,
};
use wager_ledger::ledger::Ledger;
use wager_ledger::model::BetStatus;
use wager_ledger::types::{Account, Bet, LedgerError, Wager};

fn account(community: &str, member: &str, balance: u64, staked: u64) -> Account {
    Account { community: community.to_string(), member: member.to_string(), balance, staked }
}

fn bet(community: &str, id: &str, status: BetStatus, options: &[&str]) -> Bet {
    Bet {
        community: community.to_string(),
        id: id.to_string(),
        status,
        options: options.iter().map(|o| o.to_string()).collect(),
    }
}

fn wager(community: &str, bet: &str, member: &str, option: &str, amount: u64) -> Wager {
    Wager {
        community: community.to_string(),
        bet: bet.to_string(),
        member: member.to_string(),
        option: option.to_string(),
        amount,
    }
}

fn sound() -> Snapshot {
    Snapshot {
        accounts: vec![account("g", "ann", 70, 30), account("g", "bob", 100, 0), account("h", "ann", 5, 0)],
        bets: vec![
            bet("g", "b1", BetStatus::Open, &["x", "y"]),
            bet("g", "b2", BetStatus::Locked, &["z"]),
            bet("g", "b3", BetStatus::Closed, &["x"]),
            bet("h", "b1", BetStatus::Aborted, &[]),
        ],
        wagers: vec![wager("g", "b1", "ann", "y", 10), wager("g", "b2", "ann", "z", 20)],
    }
}

#[test]
fn a_pool_is_restored_from_its_snapshot() {
    let mut ledger = Ledger::new();
    ledger.create_account("g", "ann", 100).unwrap();
    ledger.create_account("g", "bob", 100).unwrap();
    ledger.register_bet("g", "b1", &vec!["x".to_string(), "y".to_string()]).unwrap();
    ledger.place_wager("g", "b1", "x", "ann", 30).unwrap();
    ledger.lock_bet("g", "b1").unwrap();
    let stored = ledger.snapshot();
    assert_eq!(stored.accounts, vec![account("g", "ann", 70, 30), account("g", "bob", 100, 0)]);
    assert_eq!(stored.bets, vec![bet("g", "b1", BetStatus::Locked, &["x", "y"])]);
    assert_eq!(stored.wagers, vec![wager("g", "b1", "ann", "x", 30)]);
    let mut back = match Ledger::restore(stored.clone()) {
        Ok(back) => back,
        Err(e) => panic!("{:?}", e),
    };
    assert_eq!(back.snapshot(), stored);
    assert_eq!(back.close_bet("g", "b1", "x").unwrap().len(), 1);
    assert_eq!(back.balance("g", "ann"), Ok(100));
}

#[test]
fn an_empty_snapshot_is_an_empty_pool() {
    let empty = Snapshot { accounts: vec![], bets: vec![], wagers: vec![] };
    assert!(is_sound(&empty));
    assert_eq!(Ledger::new().snapshot(), empty);
    assert!(Ledger::restore(empty).is_ok());
}

#[test]
fn sound_records_are_accepted() {
    assert!(is_sound(&sound()));
    assert!(Ledger::restore(sound()).is_ok());
}

fn refused(snapshot: Snapshot) {
    assert!(!is_sound(&snapshot));
    assert!(matches!(Ledger::restore(snapshot), Err(LedgerError::StorageError)));
}

#[test]
fn an_account_that_is_there_twice_is_refused() {
    let mut s = sound();
    s.accounts.push(account("g", "bob", 1, 0));
    assert!(!accounts_are_distinct(&s.accounts));
    refused(s);
    assert!(accounts_are_distinct(&sound().accounts));
}

#[test]
fn a_bet_that_is_there_twice_is_refused() {
    let mut s = sound();
    s.bets.push(bet("g", "b3", BetStatus::Open, &["q"]));
    assert!(!bets_are_distinct(&s.bets));
    refused(s);
    assert!(bets_are_distinct(&sound().bets));
}

#[test]
fn a_second_wager_of_a_member_on_a_bet_is_refused() {
    let mut s = sound();
    s.wagers.push(wager("g", "b1", "ann", "x", 0));
    assert!(!wagers_are_distinct(&s.wagers));
    refused(s);
    assert!(wagers_are_distinct(&sound().wagers));
}

#[test]
fn an_option_that_is_there_twice_is_refused() {
    let mut s = sound();
    s.bets[3].options = vec!["o".to_string(), "p".to_string(), "o".to_string()];
    assert!(!options_are_distinct(&s.bets));
    assert!(!names_are_distinct(&s.bets[3].options));
    refused(s);
    assert!(options_are_distinct(&sound().bets));
    assert!(names_are_distinct(&vec![]));
    assert!(names_are_distinct(&vec!["a".to_string(), "b".to_string()]));
}

#[test]
fn unlawful_wagers_are_refused() {
    // a stake of nothing
    let mut s = sound();
    s.wagers[0].amount = 0;
    s.accounts[0].staked = 20;
    s.accounts[0].balance = 80;
    refused(s);
    // a member without an account
    let mut s = sound();
    s.wagers.push(wager("g", "b1", "zed", "x", 1));
    refused(s);
    // a bet that was never registered
    let mut s = sound();
    s.wagers[0].bet = "b9".to_string();
    refused(s);
    // a bet that is closed
    let mut s = sound();
    s.wagers[0].bet = "b3".to_string();
    s.wagers[0].option = "x".to_string();
    refused(s);
    // a bet that is aborted
    let mut s = sound();
    s.bets[0].status = BetStatus::Aborted;
    refused(s);
    // an option that is none of the bet's
    let mut s = sound();
    s.wagers[0].option = "z".to_string();
    refused(s);
}

#[test]
fn stakes_that_are_not_recorded_are_refused() {
    let mut s = sound();
    s.accounts[0].staked = 29;
    assert!(!stakes_are_recorded(&s));
    refused(s);
    let mut s = sound();
    s.accounts[1].staked = 1;
    assert!(!stakes_are_recorded(&s));
    refused(s);
    // stakes beyond what can be counted
    let mut s = sound();
    s.wagers[0].amount = u64::MAX;
    s.wagers[1].amount = u64::MAX;
    s.accounts[0].staked = u64::MAX;
    assert!(!stakes_are_recorded(&s));
    refused(s);
    assert!(stakes_are_recorded(&sound()));
}

#[test]
fn funds_beyond_what_can_be_counted_are_refused() {
    let mut s = sound();
    s.accounts[1].balance = u64::MAX - 99;
    refused(s);
    let mut s = sound();
    s.accounts[1].balance = u64::MAX - 100;
    assert!(is_sound(&s));
    // another community counts for itself
    let mut s = sound();
    s.accounts[2].balance = u64::MAX;
    assert!(is_sound(&s));
}
