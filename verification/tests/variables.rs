use nomad_rs::strmap::StrMap;
use nomad_rs::variables::{Keyring, Variable, STUB_KEY_BYTE};

fn variable() -> Variable {
    let mut items = StrMap::new();
    items.insert("password".to_owned(), "s3cret".to_owned());
    Variable { namespace: "default".to_owned(), path: "nomad/jobs/redis".to_owned(), items }
}

#[test]
fn valid_variable_passes() {
    assert!(variable().validate().is_ok());
}

#[test]
fn rejects_empty_path() {
    let mut v = variable();
    v.path = String::new();
    assert!(v.validate().is_err());
}

#[test]
fn rejects_no_items() {
    let mut v = variable();
    v.items = StrMap::new();
    assert!(v.validate().is_err());
}

#[test]
fn encrypt_then_decrypt_round_trips() {
    let keyring = Keyring;
    let sealed = keyring.encrypt(b"hello").unwrap();
    assert_eq!(keyring.decrypt(&sealed).unwrap(), b"hello");
}

#[test]
fn sealing_changes_every_byte_with_the_key() {
    let sealed = Keyring.encrypt(&[0, 1, 0xff]).unwrap();
    assert_eq!(sealed, vec![STUB_KEY_BYTE, 1 ^ STUB_KEY_BYTE, 0xff ^ STUB_KEY_BYTE]);
}
