use nomad_rs::dispatch::{DispatchRequest, ParameterizedJob, PayloadMode};
use nomad_rs::strmap::StrMap;

fn template() -> ParameterizedJob {
    ParameterizedJob { meta_required: vec!["region".to_owned()], meta_optional: vec!["note".to_owned()], payload: PayloadMode::Forbidden }
}

fn request() -> DispatchRequest {
    let mut meta = StrMap::new();
    meta.insert("region".to_owned(), "eu".to_owned());
    DispatchRequest { meta, payload: None }
}

#[test]
fn valid_dispatch_passes() {
    assert!(template().validate_dispatch(&request()).is_ok());
}

#[test]
fn missing_required_meta_errors() {
    let mut r = request();
    r.meta = StrMap::new();
    assert!(template().validate_dispatch(&r).is_err());
}

#[test]
fn forbidden_payload_errors() {
    let mut r = request();
    r.payload = Some(vec![1, 2, 3]);
    assert!(template().validate_dispatch(&r).is_err());
}

#[test]
fn undeclared_meta_key_errors_with_its_name() {
    let mut r = request();
    r.meta.insert("color".to_owned(), "red".to_owned());
    assert_eq!(
        template().validate_dispatch(&r).unwrap_err().message(),
        "config error: dispatch meta key 'color' is not declared in the parameterized job"
    );
}

#[test]
fn missing_required_meta_names_the_key() {
    let r = DispatchRequest { meta: StrMap::new(), payload: None };
    assert_eq!(template().validate_dispatch(&r).unwrap_err().message(), "config error: dispatch missing required meta key 'region'");
}

#[test]
fn required_payload_must_be_present() {
    let mut t = template();
    t.payload = PayloadMode::Required;
    assert!(t.validate_dispatch(&request()).is_err());
    let mut r = request();
    r.payload = Some(vec![7]);
    assert!(t.validate_dispatch(&r).is_ok());
}
