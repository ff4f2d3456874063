use nomad_rs::error::Error;
use nomad_rs::tls::{existence_verdict, validate_path, TlsConfig};

#[test]
fn test_tls_config_validate_empty_paths() {
    let cfg = TlsConfig::new(String::new(), "key.pem".to_owned(), "ca.pem".to_owned());
    assert!(cfg.validate().is_err());
}

#[test]
fn test_tls_config_new_and_validate() {
    let cfg = TlsConfig::new("cert.pem".to_owned(), "key.pem".to_owned(), "ca.pem".to_owned());
    assert_eq!(cfg.cert_path, "cert.pem");
    assert_eq!(cfg.key_path, "key.pem");
    assert_eq!(cfg.ca_path, "ca.pem");
    assert!(cfg.validate().is_err());
}

#[test]
fn test_validate_path_empty() {
    assert!(validate_path("", "test").is_err());
}

#[test]
fn test_validate_path_not_found() {
    assert!(validate_path("/nonexistent/cert.pem", "test").is_err());
}

#[test]
fn blank_path_message_names_the_option() {
    assert_eq!(validate_path("  ", "cert_path").unwrap_err().message(), "validation error: cert_path must not be empty");
}

#[test]
fn verdict_follows_the_probe() {
    assert!(existence_verdict("/a", "ca_path", Ok(true)).is_ok());
    match existence_verdict("/a", "ca_path", Ok(false)) {
        Err(Error::Io(e)) => {
            assert_eq!(e.kind(), std::io::ErrorKind::NotFound);
            assert_eq!(e.to_string(), "ca_path file not found: /a");
        },
        other => panic!("expected an io error, got {other:?}"),
    }
    let io = std::io::Error::new(std::io::ErrorKind::PermissionDenied, "denied");
    assert!(matches!(existence_verdict("/a", "ca_path", Err(io)), Err(Error::Io(_))));
}

#[test]
fn existing_file_passes() {
    assert!(validate_path("/", "root").is_ok());
}

#[test]
fn blank_key_or_ca_path_fails() {
    let cfg = TlsConfig::new("/".to_owned(), " ".to_owned(), "/".to_owned());
    assert_eq!(cfg.validate().unwrap_err().message(), "validation error: key_path must not be empty");
    let cfg = TlsConfig::new("/".to_owned(), "/".to_owned(), String::new());
    assert_eq!(cfg.validate().unwrap_err().message(), "validation error: ca_path must not be empty");
}
