use nomad_rs::config::{Config, LogLevel};

#[test]
fn test_log_level_as_str() {
    assert_eq!(LogLevel::Error.as_str(), "error");
    assert_eq!(LogLevel::Warn.as_str(), "warn");
    assert_eq!(LogLevel::Info.as_str(), "info");
    assert_eq!(LogLevel::Debug.as_str(), "debug");
    assert_eq!(LogLevel::Trace.as_str(), "trace");
}

#[test]
fn test_log_level_display() {
    assert_eq!(LogLevel::Error.as_str(), "error");
    assert_eq!(LogLevel::Trace.as_str(), "trace");
}

#[test]
fn test_log_level_from_str_exact() {
    assert_eq!(LogLevel::parse("error"), Some(LogLevel::Error));
    assert_eq!(LogLevel::parse("warn"), Some(LogLevel::Warn));
    assert_eq!(LogLevel::parse("info"), Some(LogLevel::Info));
    assert_eq!(LogLevel::parse("debug"), Some(LogLevel::Debug));
    assert_eq!(LogLevel::parse("trace"), Some(LogLevel::Trace));
}

#[test]
fn test_log_level_from_str_case_insensitive() {
    assert_eq!(LogLevel::parse("ERROR"), Some(LogLevel::Error));
    assert_eq!(LogLevel::parse("Info"), Some(LogLevel::Info));
}

#[test]
fn test_log_level_from_str_variant() {
    assert_eq!(LogLevel::parse("warning"), Some(LogLevel::Warn));
}

#[test]
fn test_log_level_from_str_invalid() {
    assert_eq!(LogLevel::parse("invalid"), None);
    assert_eq!(LogLevel::parse(""), None);
}

#[test]
fn test_config_default() {
    let config = Config::default();
    assert_eq!(config.data_dir, "/opt/nomad/data");
    assert_eq!(config.log_dir, "/opt/nomad/log");
    assert_eq!(config.log_level, LogLevel::Info);
    assert_eq!(config.bind_addr, "0.0.0.0:4646");
    assert_eq!(config.datacenter, "dc1");
    assert_eq!(config.region, "global");
    assert!(!config.node_name.is_empty());
    assert!(config.config_file.is_none());
}

#[test]
fn test_config_equality() {
    let a = Config { node_name: "test-node".to_owned(), ..Config::default() };
    let b = Config { node_name: "test-node".to_owned(), ..Config::default() };
    assert_eq!(a, b);

    let c = Config { node_name: "other-node".to_owned(), ..Config::default() };
    assert_ne!(a, c);
}

#[test]
fn test_log_level_from_str_unknown() {
    assert!(LogLevel::parse("verbose").is_none());
    assert!(LogLevel::parse("silent").is_none());
}

#[test]
fn test_config_validate_ok() {
    let config = Config::default();
    assert!(config.validate().is_ok());
}

#[test]
fn test_config_validate_empty_bind_addr() {
    let config = Config { bind_addr: "".to_owned(), ..Config::default() };
    assert!(config.validate().is_err());
}

#[test]
fn test_config_validate_empty_data_dir() {
    let config = Config { data_dir: String::new(), ..Config::default() };
    assert!(config.validate().is_err());
}

#[test]
fn test_config_merge_cli() {
    let base = Config::default();
    let merged = base.merge_cli(
        Some("/cli/data".to_owned()),
        None,
        Some(LogLevel::Trace),
        None,
        Some("cli-node".to_owned()),
        Some("cli-region".to_owned()),
    );
    assert_eq!(merged.data_dir, "/cli/data");
    assert_eq!(merged.log_level, LogLevel::Trace);
    assert_eq!(merged.node_name, "cli-node");
    assert_eq!(merged.region, "cli-region");
    assert_eq!(merged.bind_addr, "0.0.0.0:4646");
}

#[test]
fn test_filter_directive() {
    assert_eq!(LogLevel::Error.filter_directive(), "error");
    assert_eq!(LogLevel::Trace.filter_directive(), "trace");
}

#[test]
fn for_host_names_the_node_after_the_host() {
    let c = Config::for_host("box-7".to_owned());
    assert_eq!(c.node_name, "box-7");
    assert_eq!(c.datacenter, "dc1");
}

#[test]
fn env_values_override_and_bad_level_is_ignored() {
    let c = Config::default().merge_env_values(
        Some("/env/data".to_owned()),
        None,
        Some("bogus".to_owned()),
        None,
        Some("east".to_owned()),
        None,
        None,
    );
    assert_eq!(c.data_dir, "/env/data");
    assert_eq!(c.log_level, LogLevel::Info);
    assert_eq!(c.datacenter, "east");
    let c = c.merge_env_values(None, None, Some("DEBUG".to_owned()), None, None, None, None);
    assert_eq!(c.log_level, LogLevel::Debug);
}

#[test]
fn cloned_config_is_equal() {
    let a = Config { config_file: Some("/etc/nomad.toml".to_owned()), ..Config::default() };
    assert_eq!(a.clone(), a);
}

#[test]
fn every_level_name_parses_back() {
    for l in [LogLevel::Error, LogLevel::Warn, LogLevel::Info, LogLevel::Debug, LogLevel::Trace] {
        assert_eq!(LogLevel::parse(l.as_str()), Some(l));
    }
}
