use nomad_rs::id::{EvalId, JobId};

#[test]
fn eq_against_str_literal() {
    assert_eq!(EvalId::from_str("e1").as_str(), "e1");
    assert!(JobId::from_str("").is_empty());
    assert_eq!(JobId::new("a1".to_owned()), JobId::from_str("a1"));
    assert_ne!(JobId::from_str("a1"), JobId::from_str("a2"));
}
