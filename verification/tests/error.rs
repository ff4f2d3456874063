use nomad_rs::error::{Error, Result};

#[test]
fn test_error_display_io() {
    let err = Error::Io(std::io::Error::new(std::io::ErrorKind::NotFound, "file not found"));
    assert!(err.message().contains("io error"));
    assert!(err.message().contains("file not found"));
}

#[test]
fn test_error_display_config() {
    let err = Error::Config("invalid port range".to_owned());
    assert_eq!(err.message(), "config error: invalid port range");
}

#[test]
fn test_error_display_runtime() {
    let err = Error::Runtime("raft leader election failed".to_owned());
    assert_eq!(err.message(), "runtime error: raft leader election failed");
}

#[test]
fn test_error_display_serialize() {
    let inner = serde_json::from_str::<String>("not valid json").unwrap_err();
    let err = Error::Serialize(inner.to_string());
    assert!(err.message().contains("serialisation error"));
}

#[test]
fn test_error_display_validation() {
    let err = Error::Validation("job name cannot be empty".to_owned());
    assert_eq!(err.message(), "validation error: job name cannot be empty");
}

#[test]
fn test_error_io_from() {
    let io_err = std::io::Error::new(std::io::ErrorKind::PermissionDenied, "permission denied");
    let err: Error = io_err.into();
    assert!(matches!(err, Error::Io(_)));
}

#[test]
fn test_error_debug() {
    let err = Error::Runtime("test".to_owned());
    let debug = format!("{err:?}");
    assert!(debug.contains("Runtime"));
}

#[test]
fn test_error_send() {
    fn assert_send<T: Send>() {}
    assert_send::<Error>();
}

#[test]
fn test_result_type() {
    let ok: Result<i32> = Ok(42);
    assert_eq!(ok.unwrap(), 42);

    let err: Result<i32> = Err(Error::Runtime("fail".to_owned()));
    assert!(err.is_err());
}
