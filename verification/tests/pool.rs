use wager_ledger::model::BetStatus;
use wager_ledger::pool::{Config, Pool};
use wager_ledger::types::{Account, AccountUpdate, LedgerError, OptionTally};

fn config() -> Config {
    Config {
        starting_balance: 100,
        income: 10,
        bet_amounts: vec![1, 5, 20],
        currency: "coins".to_string(),
    }
}

fn update(member: &str, diff: i128, balance: u64) -> AccountUpdate {
    AccountUpdate { community: "g".to_string(), member: member.to_string(), diff, balance }
}

fn names(list: &[&str]) -> Vec<String> {
    list.iter().map(|s| s.to_string()).collect()
}

#[test]
fn pool_opens_accounts_with_the_starting_balance() {
    let mut pool = Pool::new(config());
    assert_eq!(pool.open_account("g", "ann"), Ok(()));
    assert_eq!(pool.open_account("g", "ann"), Err(LedgerError::AlreadyExists));
    assert_eq!(pool.ledger.balance("g", "ann"), Ok(100));
    assert_eq!(pool.config, config());
}

#[test]
fn pool_pays_the_income_of_its_settings() {
    let mut pool = Pool::new(config());
    pool.open_account("g", "ann").unwrap();
    pool.open_account("g", "bob").unwrap();
    assert_eq!(pool.pay_income(), Ok(vec![update("ann", 10, 110), update("bob", 10, 110)]));
    assert_eq!(pool.pay_income(), Ok(vec![update("ann", 10, 120), update("bob", 10, 120)]));
}

#[test]
fn pool_resets_to_the_starting_balance() {
    let mut pool = Pool::new(config());
    pool.open_account("g", "ann").unwrap();
    pool.ledger.register_bet("g", "b", &names(&["x"])).unwrap();
    pool.stake_on_option("g", "x", "ann", 20).unwrap();
    pool.pay_income().unwrap();
    assert_eq!(pool.reset("g"), Ok(()));
    assert_eq!(
        pool.ledger.account("g", "ann"),
        Ok(Account { community: "g".to_string(), member: "ann".to_string(), balance: 100, staked: 0 })
    );
    assert_eq!(pool.ledger.bet_status("g", "b"), Some(BetStatus::Aborted));
}

#[test]
fn pool_finds_the_bet_of_the_option_staked_on() {
    let mut pool = Pool::new(config());
    pool.open_account("g", "ann").unwrap();
    pool.ledger.register_bet("g", "b1", &names(&["x", "y"])).unwrap();
    pool.ledger.register_bet("g", "b2", &names(&["z"])).unwrap();
    assert_eq!(pool.stake_on_option("g", "nope", "ann", 5), Err(LedgerError::NotFound));
    let (change, stakes) = pool.stake_on_option("g", "y", "ann", 5).unwrap();
    assert_eq!(change, update("ann", -5, 95));
    assert_eq!(
        stakes,
        vec![
            OptionTally { option: "x".to_string(), staked: 0 },
            OptionTally { option: "y".to_string(), staked: 5 }
        ]
    );
    assert_eq!(
        pool.stake_on_option("g", "x", "ann", 5),
        Err(LedgerError::MultipleOptions(names(&["y"])))
    );
    let (_, stakes) = pool.stake_on_option("g", "z", "ann", 1).unwrap();
    assert_eq!(stakes, vec![OptionTally { option: "z".to_string(), staked: 1 }]);
}

#[test]
fn pool_closes_the_bet_of_the_winning_option() {
    let mut pool = Pool::new(config());
    pool.open_account("g", "ann").unwrap();
    pool.open_account("g", "bob").unwrap();
    pool.ledger.register_bet("g", "b1", &names(&["x", "y"])).unwrap();
    pool.stake_on_option("g", "x", "ann", 40).unwrap();
    pool.stake_on_option("g", "y", "bob", 60).unwrap();
    assert_eq!(pool.declare_winner("g", "nope"), Err(LedgerError::NotFound));
    assert_eq!(pool.declare_winner("g", "x"), Err(LedgerError::InvalidState));
    pool.ledger.lock_bet("g", "b1").unwrap();
    assert_eq!(pool.declare_winner("g", "x"), Ok(vec![update("ann", 100, 160)]));
    assert_eq!(pool.declare_winner("g", "x"), Err(LedgerError::InvalidState));
    assert_eq!(pool.ledger.balance("g", "bob"), Ok(40));
}
