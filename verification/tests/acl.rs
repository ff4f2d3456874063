use nomad_rs::acl::{Capability, Policy, Token};
use nomad_rs::strmap::StrMap;

fn policy() -> Policy {
    let mut rules = StrMap::new();
    rules.insert("namespace:default".to_owned(), Capability::Write);
    Policy { name: "dev".to_owned(), rules }
}

fn token() -> Token {
    Token { accessor: "acc-1".to_owned(), secret: "sec-1".to_owned(), policies: vec!["dev".to_owned()], management: false }
}

fn management() -> Token {
    Token { accessor: "acc-0".to_owned(), secret: "sec-0".to_owned(), policies: vec![], management: true }
}

#[test]
fn valid_token_passes() {
    assert!(token().validate().is_ok());
}

#[test]
fn non_management_without_policies_errors() {
    let mut t = token();
    t.policies.clear();
    assert!(t.validate().is_err());
}

#[test]
fn management_token_allows_anything() {
    assert!(management().allows("namespace:prod", Capability::Write, &[]));
}

#[test]
fn policy_grants_write() {
    assert!(token().allows("namespace:default", Capability::Write, &[policy()]));
}

#[test]
fn missing_grant_denies() {
    assert!(!token().allows("namespace:other", Capability::Write, &[policy()]));
}

#[test]
fn write_grant_covers_read_but_read_does_not_cover_write() {
    assert!(token().allows("namespace:default", Capability::Read, &[policy()]));
    let mut rules = StrMap::new();
    rules.insert("namespace:default".to_owned(), Capability::Read);
    let reader = Policy { name: "dev".to_owned(), rules };
    assert!(!token().allows("namespace:default", Capability::Write, &[reader]));
}

#[test]
fn policy_not_attached_to_token_grants_nothing() {
    let mut p = policy();
    p.name = "ops".to_owned();
    assert!(!token().allows("namespace:default", Capability::Write, &[p]));
}

#[test]
fn later_deny_overrides_earlier_grant() {
    let mut rules = StrMap::new();
    rules.insert("namespace:default".to_owned(), Capability::Deny);
    let blocker = Policy { name: "ops".to_owned(), rules };
    let mut t = token();
    t.policies.push("ops".to_owned());
    assert!(!t.allows("namespace:default", Capability::Write, &[policy(), blocker.clone()]));
    assert!(!t.allows("namespace:default", Capability::Read, &[blocker, policy()]));
}
