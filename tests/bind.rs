use launch_indexer::bind::{check_inviter_code, plan_binding, InviterCode, INVITE_POINTS};
use launch_indexer::invite::is_valid_invite_code;
use launch_indexer::tables::Account;

fn account(address: &str, code: &str) -> Account {
    Account { address: address.to_string(), invite_code: code.to_string(), inviter: None, create_time: 1, point: 0 }
}

#[test]
fn inviter_codes_are_sorted() {
    assert!(matches!(check_inviter_code(&None), InviterCode::NotGiven));
    assert!(matches!(check_inviter_code(&Some(String::new())), InviterCode::NotGiven));
    assert!(matches!(check_inviter_code(&Some("abc".to_string())), InviterCode::Malformed));
    match check_inviter_code(&Some("AB12CD".to_string())) {
        InviterCode::Lookup(c) => assert_eq!(c, "AB12CD"),
        _ => panic!("expected a lookup"),
    }
}

#[test]
fn existing_account_keeps_its_code() {
    let plan = plan_binding(&"Sol1".to_string(), [1u8; 32], &Some(account("Sol1", "XYZ123")), &None, 5);
    assert!(plan.new_account.is_none());
    assert!(plan.inviter.is_none());
    assert_eq!(plan.invite_code, "XYZ123");
}

#[test]
fn new_account_with_inviter_gets_points() {
    let inviter = account("Inviter", "INV000");
    let plan = plan_binding(&"Sol2".to_string(), [2u8; 32], &None, &Some(inviter), 77);
    let a = plan.new_account.unwrap();
    assert_eq!(a.address, "Sol2");
    assert_eq!(a.inviter.as_deref(), Some("Inviter"));
    assert_eq!(a.point, INVITE_POINTS);
    assert_eq!(a.create_time, 77);
    assert_eq!(plan.inviter.as_deref(), Some("Inviter"));
    assert_eq!(plan.invite_code, a.invite_code);
    assert!(is_valid_invite_code(&plan.invite_code));
}

#[test]
fn new_account_without_inviter() {
    let plan = plan_binding(&"Sol3".to_string(), [3u8; 32], &None, &None, 9);
    let a = plan.new_account.unwrap();
    assert_eq!(a.point, 0);
    assert!(a.inviter.is_none());
    assert!(plan.inviter.is_none());
}
