//! Agent configuration: log levels, defaults, overrides and validation.
//!
//! Configuration is layered: defaults, then a configuration file, then
//! environment overrides, then command-line flags. Reading the file and the
//! environment is the binary's job; this module holds the values and the
//! rules for combining and checking them.
use crate::error::{Error, Result};
use crate::text::{is_blank, is_blank_spec};
use vstd::prelude::*;

verus! {

/// Log verbosity level.
#[derive(Debug, Clone, Copy, PartialEq, Eq, Structural)]
pub enum LogLevel {
    /// Error-level messages only.
    Error,
    /// Warning-level and above.
    Warn,
    /// Informational messages and above.
    Info,
    /// Debug messages and above.
    Debug,
    /// Trace-level messages (most verbose).
    Trace,
}

/// The name of a level.
pub open spec fn level_name(l: LogLevel) -> Seq<char> {
    match l {
        LogLevel::Error => "error"@,
        LogLevel::Warn => "warn"@,
        LogLevel::Info => "info"@,
        LogLevel::Debug => "debug"@,
        LogLevel::Trace => "trace"@,
    }
}

/// ASCII upper-case letters mapped to lower case; other characters kept.
pub open spec fn ascii_lower(c: char) -> char {
    if 'A' <= c && c <= 'Z' {
        ((c as u32) + 32) as char
    } else {
        c
    }
}

/// `c` in upper case when it is an ASCII letter.
pub open spec fn ascii_upper(c: char) -> char {
    if 'a' <= c && c <= 'z' {
        ((c as u32) - 32) as char
    } else {
        c
    }
}

/// A string with its ASCII letters in upper case.
pub open spec fn uppered(s: Seq<char>) -> Seq<char> {
    s.map_values(|c: char| ascii_upper(c))
}

/// A string with its ASCII letters in lower case.
pub open spec fn lowered(s: Seq<char>) -> Seq<char> {
    s.map_values(|c: char| ascii_lower(c))
}

/// The level a lower-case name denotes (`warning` is accepted for `warn`).
pub open spec fn level_named(s: Seq<char>) -> Option<LogLevel> {
    if s == "error"@ {
        Some(LogLevel::Error)
    } else if s == "warn"@ || s == "warning"@ {
        Some(LogLevel::Warn)
    } else if s == "info"@ {
        Some(LogLevel::Info)
    } else if s == "debug"@ {
        Some(LogLevel::Debug)
    } else if s == "trace"@ {
        Some(LogLevel::Trace)
    } else {
        None
    }
}

fn lower_char(c: char) -> (r: char)
    ensures
        r == ascii_lower(c),
{
    if 'A' <= c && c <= 'Z' {
        ((c as u8) + 32) as char
    } else {
        c
    }
}

/// Whether `s`, with its ASCII letters lowered, is `word`.
fn equals_folded(s: &str, word: &str) -> (r: bool)
    ensures
        r == (lowered(s@) == word@),
{
    let n = s.unicode_len();
    if n != word.unicode_len() {
        assert(lowered(s@).len() != word@.len());
        return false;
    }
    let mut i: usize = 0;
    while i < n
        invariant
            n == s@.len(),
            n == word@.len(),
            i <= n,
            forall|j: int| 0 <= j < i ==> ascii_lower(#[trigger] s@[j]) == word@[j],
        decreases n - i,
    {
        if lower_char(s.get_char(i)) != word.get_char(i) {
            assert(lowered(s@)[i as int] != word@[i as int]);
            return false;
        }
        i = i + 1;
    }
    assert(lowered(s@) =~= word@);
    true
}

impl LogLevel {
    /// The level's name.
    pub fn as_str(&self) -> (r: &'static str)
        ensures
            r@ == level_name(*self),
    {
        match self {
            LogLevel::Error => "error",
            LogLevel::Warn => "warn",
            LogLevel::Info => "info",
            LogLevel::Debug => "debug",
            LogLevel::Trace => "trace",
        }
    }

    /// Parse a level from its name, ignoring ASCII case; `warning` is
    /// accepted for `warn`. Returns `None` for anything else.
    pub fn parse(s: &str) -> (r: Option<LogLevel>)
        ensures
            r == level_named(lowered(s@)),
    {
        if equals_folded(s, "error") {
            Some(LogLevel::Error)
        } else if equals_folded(s, "warn") || equals_folded(s, "warning") {
            Some(LogLevel::Warn)
        } else if equals_folded(s, "info") {
            Some(LogLevel::Info)
        } else if equals_folded(s, "debug") {
            Some(LogLevel::Debug)
        } else if equals_folded(s, "trace") {
            Some(LogLevel::Trace)
        } else {
            None
        }
    }

    /// The log-filter directive for this level: its name.
    pub fn filter_directive(&self) -> (r: &'static str)
        ensures
            r@ == level_name(*self),
    {
        self.as_str()
    }
}

/// A level's name parses back to that level.
pub proof fn law_level_name_roundtrip(l: LogLevel)
    ensures
        level_named(lowered(level_name(l))) == Some(l),
{
    reveal_strlit("error");
    reveal_strlit("warn");
    reveal_strlit("warning");
    reveal_strlit("info");
    reveal_strlit("debug");
    reveal_strlit("trace");
    let n = level_name(l);
    assert(lowered(n) =~= n);
    assert("warn"@.len() != "warning"@.len());
    assert("error"@[0] != "warn"@[0] && "error"@[0] != "info"@[0] && "error"@[0] != "debug"@[0] && "error"@[0] != "trace"@[0]);
    assert("warn"@[0] != "info"@[0] && "warn"@[0] != "debug"@[0] && "warn"@[0] != "trace"@[0]);
    assert("info"@[0] != "debug"@[0] && "info"@[0] != "trace"@[0] && "debug"@[0] != "trace"@[0]);
    assert("warning"@.len() != "error"@.len() && "warning"@.len() != "debug"@.len());
}

/// Case does not matter: a level's name in upper case parses to that level,
/// and so does every spelling that differs from the name only in ASCII case.
pub proof fn law_level_name_any_case(l: LogLevel, s: Seq<char>)
    ensures
        lowered(s) == level_name(l) ==> level_named(lowered(s)) == Some(l),
        level_named(lowered(uppered(level_name(l)))) == Some(l),
{
    law_level_name_roundtrip(l);
    let n = level_name(l);
    reveal_strlit("error");
    reveal_strlit("warn");
    reveal_strlit("info");
    reveal_strlit("debug");
    reveal_strlit("trace");
    assert(lowered(n) =~= n);
    assert forall|i: int| 0 <= i < n.len() implies ascii_lower(ascii_upper(#[trigger] n[i])) == n[i] by {
        let c = n[i];
        assert('a' <= c && c <= 'z');
        let u = ((c as u32) - 32) as char;
        assert(u as u32 == (c as u32) - 32);
        assert('A' <= u && u <= 'Z');
        assert(((u as u32) + 32) as char == c);
    }
    assert(lowered(uppered(n)) =~= n);
}

/// Top-level configuration for an agent (client, server, or both).
#[derive(Debug, PartialEq, Eq)]
pub struct Config {
    /// Directory for persistent data.
    pub data_dir: String,
    /// Directory for logs.
    pub log_dir: String,
    /// Log verbosity level.
    pub log_level: LogLevel,
    /// The network address to bind to.
    pub bind_addr: String,
    /// The datacenter this node belongs to.
    pub datacenter: String,
    /// The node name (the host's name by default).
    pub node_name: String,
    /// The region this node belongs to.
    pub region: String,
    /// Path of the configuration file the values came from, if any.
    pub config_file: Option<String>,
}

/// The default configuration for a host called `host`.
pub open spec fn defaults_for(host: Seq<char>, c: Config) -> bool {
    &&& c.data_dir@ == "/opt/nomad/data"@
    &&& c.log_dir@ == "/opt/nomad/log"@
    &&& c.log_level == LogLevel::Info
    &&& c.bind_addr@ == "0.0.0.0:4646"@
    &&& c.datacenter@ == "dc1"@
    &&& c.node_name@ == host
    &&& c.region@ == "global"@
    &&& c.config_file is None
}

impl Clone for Config {
    fn clone(&self) -> (r: Self)
        ensures
            r == *self,
    {
        Config {
            data_dir: self.data_dir.clone(),
            log_dir: self.log_dir.clone(),
            log_level: self.log_level,
            bind_addr: self.bind_addr.clone(),
            datacenter: self.datacenter.clone(),
            node_name: self.node_name.clone(),
            region: self.region.clone(),
            config_file: match &self.config_file {
                Some(f) => Some(f.clone()),
                None => None,
            },
        }
    }
}

impl Config {
    /// The default configuration on a host named `hostname`.
    pub fn for_host(hostname: String) -> (r: Config)
        ensures
            defaults_for(hostname@, r),
    {
        Config {
            data_dir: "/opt/nomad/data".to_string(),
            log_dir: "/opt/nomad/log".to_string(),
            log_level: LogLevel::Info,
            bind_addr: "0.0.0.0:4646".to_string(),
            datacenter: "dc1".to_string(),
            node_name: hostname,
            region: "global".to_string(),
            config_file: None,
        }
    }

    /// Apply environment overrides, given the values of `NOMAD_DATA_DIR`,
    /// `NOMAD_LOG_DIR`, `NOMAD_LOG_LEVEL`, `NOMAD_BIND_ADDR`,
    /// `NOMAD_DATACENTER`, `NOMAD_NODE_NAME` and `NOMAD_REGION` (`None` when
    /// unset). A log level that does not parse is ignored.
    pub fn merge_env_values(
        self,
        data_dir: Option<String>,
        log_dir: Option<String>,
        log_level: Option<String>,
        bind_addr: Option<String>,
        datacenter: Option<String>,
        node_name: Option<String>,
        region: Option<String>,
    ) -> (r: Config)
        ensures
            r.data_dir == (match data_dir { Some(v) => v, None => self.data_dir }),
            r.log_dir == (match log_dir { Some(v) => v, None => self.log_dir }),
            r.log_level == (match log_level {
                Some(v) => match level_named(lowered(v@)) {
                    Some(l) => l,
                    None => self.log_level,
                },
                None => self.log_level,
            }),
            r.bind_addr == (match bind_addr { Some(v) => v, None => self.bind_addr }),
            r.datacenter == (match datacenter { Some(v) => v, None => self.datacenter }),
            r.node_name == (match node_name { Some(v) => v, None => self.node_name }),
            r.region == (match region { Some(v) => v, None => self.region }),
            r.config_file == self.config_file,
    {
        let level = match log_level {
            Some(v) => match LogLevel::parse(v.as_str()) {
                Some(l) => l,
                None => self.log_level,
            },
            None => self.log_level,
        };
        Config {
            data_dir: match data_dir {
                Some(v) => v,
                None => self.data_dir,
            },
            log_dir: match log_dir {
                Some(v) => v,
                None => self.log_dir,
            },
            log_level: level,
            bind_addr: match bind_addr {
                Some(v) => v,
                None => self.bind_addr,
            },
            datacenter: match datacenter {
                Some(v) => v,
                None => self.datacenter,
            },
            node_name: match node_name {
                Some(v) => v,
                None => self.node_name,
            },
            region: match region {
                Some(v) => v,
                None => self.region,
            },
            config_file: self.config_file,
        }
    }

    /// Merge command-line flag overrides: each field is replaced only when
    /// its flag is given.
    pub fn merge_cli(
        self,
        data_dir: Option<String>,
        log_dir: Option<String>,
        log_level: Option<LogLevel>,
        bind_addr: Option<String>,
        node_name: Option<String>,
        region: Option<String>,
    ) -> (r: Config)
        ensures
            r.data_dir == (match data_dir { Some(v) => v, None => self.data_dir }),
            r.log_dir == (match log_dir { Some(v) => v, None => self.log_dir }),
            r.log_level == (match log_level { Some(v) => v, None => self.log_level }),
            r.bind_addr == (match bind_addr { Some(v) => v, None => self.bind_addr }),
            r.node_name == (match node_name { Some(v) => v, None => self.node_name }),
            r.region == (match region { Some(v) => v, None => self.region }),
            r.datacenter == self.datacenter,
            r.config_file == self.config_file,
    {
        Config {
            data_dir: match data_dir {
                Some(v) => v,
                None => self.data_dir,
            },
            log_dir: match log_dir {
                Some(v) => v,
                None => self.log_dir,
            },
            log_level: match log_level {
                Some(v) => v,
                None => self.log_level,
            },
            bind_addr: match bind_addr {
                Some(v) => v,
                None => self.bind_addr,
            },
            node_name: match node_name {
                Some(v) => v,
                None => self.node_name,
            },
            region: match region {
                Some(v) => v,
                None => self.region,
            },
            datacenter: self.datacenter,
            config_file: self.config_file,
        }
    }

    /// Validate the config.
    ///
    /// # Errors
    ///
    /// Returns [`Error::Validation`] if `bind_addr` is empty or only
    /// whitespace, or `data_dir` is empty.
    pub fn validate(&self) -> (r: Result<()>)
        ensures
            is_blank_spec(self.bind_addr@) ==> (r matches Err(e) && e.is_validation("bind_addr must not be empty"@)),
            !is_blank_spec(self.bind_addr@) && self.data_dir@.len() == 0 ==> (r matches Err(e) && e.is_validation(
                "data_dir must not be empty"@,
            )),
            !is_blank_spec(self.bind_addr@) && self.data_dir@.len() > 0 ==> r is Ok,
    {
        if is_blank(self.bind_addr.as_str()) {
            return Err(Error::Validation("bind_addr must not be empty".to_string()));
        }
        if self.data_dir.as_str().is_empty() {
            return Err(Error::Validation("data_dir must not be empty".to_string()));
        }
        Ok(())
    }
}

impl Default for Config {
    /// The defaults on a host whose name is not known: `localhost`.
    fn default() -> (r: Config)
        ensures
            defaults_for("localhost"@, r),
    {
        Config::for_host("localhost".to_string())
    }
}

} // verus!
