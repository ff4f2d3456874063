use nomad_rs::cli::{parse, validate_subcommand};

#[test]
fn parses_job_command() {
    let argv = vec!["job".to_owned(), "status".to_owned(), "redis".to_owned()];
    let parsed = parse(&argv).unwrap();
    assert_eq!(parsed.name, "job");
    assert_eq!(parsed.args, vec!["status".to_owned(), "redis".to_owned()]);
}

#[test]
fn parses_node_command() {
    let argv = vec!["node".to_owned(), "status".to_owned()];
    let parsed = parse(&argv).unwrap();
    assert_eq!(parsed.name, "node");
    assert_eq!(parsed.args, vec!["status".to_owned()]);
}

#[test]
fn parses_server_command() {
    let argv = vec!["server".to_owned(), "members".to_owned()];
    let parsed = parse(&argv).unwrap();
    assert_eq!(parsed.name, "server");
    assert_eq!(parsed.args, vec!["members".to_owned()]);
}

#[test]
fn parses_alloc_command() {
    let argv = vec!["alloc".to_owned(), "status".to_owned(), "abc123".to_owned()];
    let parsed = parse(&argv).unwrap();
    assert_eq!(parsed.name, "alloc");
    assert_eq!(parsed.args, vec!["status".to_owned(), "abc123".to_owned()]);
}

#[test]
fn parses_monitor_command() {
    let argv = vec!["monitor".to_owned()];
    let parsed = parse(&argv).unwrap();
    assert_eq!(parsed.name, "monitor");
    assert!(parsed.args.is_empty());
}

#[test]
fn empty_argv_errors() {
    assert!(parse(&[]).is_err());
}

#[test]
fn unknown_command_errors() {
    let argv = vec!["unknown".to_owned()];
    assert!(parse(&argv).is_err());
}

#[test]
fn validate_job_subcommands() {
    assert!(validate_subcommand("job", "run").is_ok());
    assert!(validate_subcommand("job", "stop").is_ok());
    assert!(validate_subcommand("job", "status").is_ok());
    assert!(validate_subcommand("job", "inspect").is_ok());
    assert!(validate_subcommand("job", "unknown").is_err());
}

#[test]
fn validate_node_subcommands() {
    assert!(validate_subcommand("node", "status").is_ok());
    assert!(validate_subcommand("node", "drain").is_ok());
    assert!(validate_subcommand("node", "eligibility").is_ok());
    assert!(validate_subcommand("node", "unknown").is_err());
}

#[test]
fn validate_server_subcommands() {
    assert!(validate_subcommand("server", "members").is_ok());
    assert!(validate_subcommand("server", "force-leave").is_ok());
    assert!(validate_subcommand("server", "join").is_ok());
    assert!(validate_subcommand("server", "unknown").is_err());
}

#[test]
fn validate_alloc_subcommands() {
    assert!(validate_subcommand("alloc", "status").is_ok());
    assert!(validate_subcommand("alloc", "logs").is_ok());
    assert!(validate_subcommand("alloc", "exec").is_ok());
    assert!(validate_subcommand("alloc", "unknown").is_err());
}

#[test]
fn validate_monitor_always_ok() {
    assert!(validate_subcommand("monitor", "").is_ok());
}

#[test]
fn agent_and_status_commands_are_known() {
    let argv = vec!["agent".to_owned()];
    assert!(parse(&argv).is_ok());
    assert_eq!(parse(&argv).unwrap().name, "agent");

    let argv = vec!["status".to_owned()];
    assert!(parse(&argv).is_ok());
    assert_eq!(parse(&argv).unwrap().name, "status");
}

#[test]
fn parses_command_and_args() {
    let argv = vec!["job".to_owned(), "status".to_owned(), "redis".to_owned()];
    let parsed = parse(&argv).unwrap();
    assert_eq!(parsed.name, "job");
    assert_eq!(parsed.args, vec!["status".to_owned(), "redis".to_owned()]);
}

#[test]
fn unknown_command_error_names_it() {
    let argv = vec!["frobnicate".to_owned()];
    assert_eq!(parse(&argv).unwrap_err().message(), "config error: unknown command 'frobnicate'");
    assert_eq!(parse(&[]).unwrap_err().message(), "config error: empty argv: no command provided");
}

#[test]
fn unknown_subcommand_error_names_both() {
    assert_eq!(validate_subcommand("job", "nope").unwrap_err().message(), "config error: unknown job subcommand 'nope'");
}
