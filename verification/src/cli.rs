//! Command-line command parsing.
//!
//! Parses an argv slice into a command name and its arguments, and checks
//! subcommands against the known ones.
use crate::error::{Error, Result};
use crate::text::{concat3, str_eq, views};
use vstd::prelude::*;

verus! {

/// A parsed command-line invocation.
#[derive(Debug, Clone, PartialEq, Eq)]
pub struct ParsedCommand {
    /// Command name, e.g. `"job"` or `"node"`.
    pub name: String,
    /// Remaining positional arguments after the command name.
    pub args: Vec<String>,
}

/// The commands the tool knows.
pub open spec fn known_command(s: Seq<char>) -> bool {
    s == "job"@ || s == "node"@ || s == "server"@ || s == "alloc"@ || s == "monitor"@ || s == "agent"@ || s == "status"@
}

/// Whether `s` is a command the tool knows.
fn is_known_command(s: &str) -> (r: bool)
    ensures
        r == known_command(s@),
{
    str_eq(s, "job") || str_eq(s, "node") || str_eq(s, "server") || str_eq(s, "alloc") || str_eq(s, "monitor")
        || str_eq(s, "agent") || str_eq(s, "status")
}

/// Parse an argv slice (without the program name) into a
/// [`ParsedCommand`]: the first word is the command, the rest its arguments.
///
/// # Errors
///
/// Returns [`Error::Config`] if `args` is empty or the command is unknown.
pub fn parse(args: &[String]) -> (r: Result<ParsedCommand>)
    ensures
        args@.len() == 0 ==> (r matches Err(e) && e.is_config("empty argv: no command provided"@)),
        args@.len() > 0 && known_command(args@[0]@) ==> (r matches Ok(p) && p.name@ == args@[0]@ && views(p.args@)
            == views(args@).drop_first()),
        args@.len() > 0 && !known_command(args@[0]@) ==> (r matches Err(e) && e.is_config(
            "unknown command '"@ + args@[0]@ + "'"@,
        )),
{
    if args.len() == 0 {
        return Err(Error::Config("empty argv: no command provided".to_string()));
    }
    let first = &args[0];
    if !is_known_command(first.as_str()) {
        return Err(Error::Config(concat3("unknown command '", first.as_str(), "'")));
    }
    let mut rest: Vec<String> = Vec::new();
    let mut i: usize = 1;
    while i < args.len()
        invariant
            1 <= i <= args@.len(),
            views(rest@) == views(args@).subrange(1, i as int),
        decreases args@.len() - i,
    {
        let a = args[i].clone();
        let ghost before = rest@;
        rest.push(a);
        assert(views(rest@) =~= views(before).push(a@));
        assert(views(args@).subrange(1, i + 1) =~= views(args@).subrange(1, i as int).push(args@[i as int]@));
        i = i + 1;
    }
    assert(views(args@).subrange(1, i as int) =~= views(args@).drop_first());
    Ok(ParsedCommand { name: first.clone(), args: rest })
}

/// The subcommands a command accepts (`None` for an unknown command).
pub open spec fn subcommand_known(name: Seq<char>, sub: Seq<char>) -> Option<bool> {
    if name == "job"@ {
        Some(sub == "run"@ || sub == "stop"@ || sub == "status"@ || sub == "inspect"@ || sub == ""@)
    } else if name == "node"@ {
        Some(sub == "status"@ || sub == "drain"@ || sub == "eligibility"@ || sub == ""@)
    } else if name == "server"@ {
        Some(sub == "members"@ || sub == "force-leave"@ || sub == "join"@ || sub == ""@)
    } else if name == "alloc"@ {
        Some(sub == "status"@ || sub == "logs"@ || sub == "exec"@ || sub == ""@)
    } else if name == "monitor"@ || name == "agent"@ || name == "status"@ {
        Some(true)
    } else {
        None
    }
}

/// Validate a subcommand for a command. `monitor`, `agent` and `status`
/// take any subcommand; the empty subcommand is accepted everywhere.
///
/// # Errors
///
/// Returns [`Error::Config`] for an unknown subcommand or command.
pub fn validate_subcommand(name: &str, sub: &str) -> (r: Result<()>)
    ensures
        match subcommand_known(name@, sub@) {
            Some(true) => r is Ok,
            Some(false) => r matches Err(e) && e.is_config("unknown "@ + name@ + " subcommand '"@ + sub@ + "'"@),
            None => r matches Err(e) && e.is_config("unknown command '"@ + name@ + "'"@),
        },
{
    let known = if str_eq(name, "job") {
        str_eq(sub, "run") || str_eq(sub, "stop") || str_eq(sub, "status") || str_eq(sub, "inspect") || str_eq(sub, "")
    } else if str_eq(name, "node") {
        str_eq(sub, "status") || str_eq(sub, "drain") || str_eq(sub, "eligibility") || str_eq(sub, "")
    } else if str_eq(name, "server") {
        str_eq(sub, "members") || str_eq(sub, "force-leave") || str_eq(sub, "join") || str_eq(sub, "")
    } else if str_eq(name, "alloc") {
        str_eq(sub, "status") || str_eq(sub, "logs") || str_eq(sub, "exec") || str_eq(sub, "")
    } else if str_eq(name, "monitor") || str_eq(name, "agent") || str_eq(name, "status") {
        true
    } else {
        return Err(Error::Config(concat3("unknown command '", name, "'")));
    };
    if known {
        Ok(())
    } else {
        let mut msg = String::from_str("unknown ");
        msg.append(name);
        msg.append(" subcommand '");
        msg.append(sub);
        msg.append("'");
        Err(Error::Config(msg))
    }
}

} // verus!
