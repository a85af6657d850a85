use wager_ledger::buttons::{decide, needs_admin, needs_owner, parse_index, read_button, Button, Command};

#[test]
fn parse_index_reads_decimal_digits() {
    assert_eq!(parse_index("0"), Some(0));
    assert_eq!(parse_index("7"), Some(7));
    assert_eq!(parse_index("42"), Some(42));
    assert_eq!(parse_index("007"), Some(7));
    assert_eq!(parse_index("+3"), Some(3));
    assert_eq!(parse_index("18446744073709551615"), "18446744073709551615".parse::<usize>().ok());
}

#[test]
fn parse_index_refuses_what_is_no_index() {
    assert_eq!(parse_index(""), None);
    assert_eq!(parse_index("+"), None);
    assert_eq!(parse_index("-1"), None);
    assert_eq!(parse_index("++1"), None);
    assert_eq!(parse_index("1+"), None);
    assert_eq!(parse_index(" 1"), None);
    assert_eq!(parse_index("1 "), None);
    assert_eq!(parse_index("1_000"), None);
    assert_eq!(parse_index("12a"), None);
    assert_eq!(parse_index("lock"), None);
    assert_eq!(parse_index("٣"), None);
    assert_eq!(parse_index("18446744073709551616"), None);
    assert_eq!(parse_index("99999999999999999999999999"), None);
}

#[test]
fn parse_index_agrees_with_std() {
    for text in ["0", "10", "+10", "0010", "", "+", "-", "-0", "a", "1a", "4294967295",
        "4294967296", "18446744073709551615", "18446744073709551616", "184467440737095516150"]
    {
        assert_eq!(parse_index(text), text.parse::<usize>().ok(), "{}", text);
    }
}

#[test]
fn read_button_names() {
    assert_eq!(read_button("0"), Button::Stake(0));
    assert_eq!(read_button("12"), Button::Stake(12));
    assert_eq!(read_button("cancel"), Button::Cancel);
    assert_eq!(read_button("reset"), Button::Reset);
    assert_eq!(read_button("lock"), Button::Lock);
    assert_eq!(read_button("abort"), Button::Abort);
    assert_eq!(read_button("win"), Button::Win);
    assert_eq!(read_button(""), Button::Other);
    assert_eq!(read_button("Lock"), Button::Other);
    assert_eq!(read_button("lock "), Button::Other);
    assert_eq!(read_button("-1"), Button::Other);
}

#[test]
fn anyone_may_stake_a_preset() {
    let presets = vec![1, 10, 0, 100];
    for (admin, owner) in [(false, false), (true, false), (false, true), (true, true)] {
        assert_eq!(decide(Button::Stake(0), &presets, admin, owner), Command::Stake { amount: 1 });
        assert_eq!(decide(Button::Stake(3), &presets, admin, owner), Command::Stake { amount: 100 });
        // a preset of nothing, and no preset at all
        assert_eq!(decide(Button::Stake(2), &presets, admin, owner), Command::Nothing);
        assert_eq!(decide(Button::Stake(4), &presets, admin, owner), Command::Nothing);
        assert_eq!(decide(Button::Other, &presets, admin, owner), Command::Nothing);
    }
    assert_eq!(decide(Button::Stake(0), &vec![], true, true), Command::Nothing);
}

#[test]
fn resets_are_for_administrators() {
    let presets = vec![5];
    assert_eq!(decide(Button::Reset, &presets, true, false), Command::ResetAll);
    assert_eq!(decide(Button::Cancel, &presets, true, false), Command::CancelReset);
    assert_eq!(decide(Button::Reset, &presets, false, true), Command::Nothing);
    assert_eq!(decide(Button::Cancel, &presets, false, true), Command::Nothing);
    assert!(needs_admin(Button::Reset));
    assert!(needs_admin(Button::Cancel));
    assert!(!needs_admin(Button::Lock));
    assert!(!needs_admin(Button::Stake(0)));
    assert!(!needs_admin(Button::Other));
}

#[test]
fn bets_are_for_their_owner() {
    let presets = vec![5];
    assert_eq!(decide(Button::Lock, &presets, false, true), Command::Lock);
    assert_eq!(decide(Button::Abort, &presets, false, true), Command::Abort);
    assert_eq!(decide(Button::Win, &presets, false, true), Command::Close);
    assert_eq!(decide(Button::Lock, &presets, true, false), Command::Nothing);
    assert_eq!(decide(Button::Abort, &presets, true, false), Command::Nothing);
    assert_eq!(decide(Button::Win, &presets, true, false), Command::Nothing);
    assert!(needs_owner(Button::Lock));
    assert!(needs_owner(Button::Abort));
    assert!(needs_owner(Button::Win));
    assert!(!needs_owner(Button::Reset));
    assert!(!needs_owner(Button::Stake(1)));
}
