//! Task drivers: the execution backends' decisions.
//!
//! A driver starts, stops and inspects a task on the local node. What is
//! decided from a task's configuration (the command line an `exec` or
//! `raw_exec` driver runs, the `docker run` arguments) and from the
//! container runtime's answers (the state a `docker inspect` reports) is
//! here; spawning processes and running the container CLI is the binary's.
use crate::error::{Error, Result};
use crate::jobspec::{ConfigScalar, ConfigValue, Task};
use crate::strmap::lookup;
use crate::text::{concat, str_eq, trim, trimmed};
use vstd::prelude::*;

verus! {

/// Runtime state of a task as reported by its driver.
#[derive(Debug, Clone, Copy, PartialEq, Eq, Structural)]
pub enum TaskState {
    /// Accepted by the driver but not yet running.
    Pending,
    /// Currently executing.
    Running,
    /// Finished cleanly (exit code 0).
    Exited,
    /// Finished unsuccessfully (non-zero exit or killed by signal).
    Failed,
    /// State could not be determined.
    Unknown,
}

/// What a driver can do, used for feasibility and fingerprinting.
#[derive(Debug, Clone, Copy, PartialEq, Eq, Structural)]
pub struct DriverCapabilities {
    /// Runs from a packaged image rather than a host binary.
    pub image_based: bool,
    /// Provides process and filesystem isolation.
    pub isolated: bool,
}

/// A handle to a task started by a driver.
#[derive(Debug, Clone)]
pub struct TaskHandle {
    /// Driver-scoped identifier for the running task.
    pub id: String,
    /// Last observed state.
    pub state: TaskState,
}

/// The string under `key` in a task's configuration, if it is a string.
pub open spec fn config_str(t: Task, key: Seq<char>) -> Option<Seq<char>> {
    match lookup(t.config.pairs(), key) {
        Some(ConfigValue::Str(s)) => Some(s@),
        _ => None,
    }
}

/// Whether every array item is a string.
pub open spec fn all_strings(items: Seq<ConfigScalar>) -> bool {
    forall|i: int| 0 <= i < items.len() ==> (#[trigger] items[i]) is Str
}

/// The strings of an array whose items are all strings.
pub open spec fn string_items(items: Seq<ConfigScalar>) -> Seq<Seq<char>> {
    items.map_values(|x: ConfigScalar| match x {
        ConfigScalar::Str(s) => s@,
        _ => Seq::empty(),
    })
}

/// The program and arguments an `exec`-style driver named `driver` runs for
/// a task: its `command` string and its optional `args` array of strings;
/// or why it cannot.
pub open spec fn exec_line(t: Task, driver: Seq<char>) -> core::result::Result<(Seq<char>, Seq<Seq<char>>), Seq<char>> {
    match config_str(t, "command"@) {
        None => Err(driver + " driver: missing `command` in task config"@),
        Some(c) => match lookup(t.config.pairs(), "args"@) {
            None => Ok((c, Seq::empty())),
            Some(ConfigValue::Array(items)) => if all_strings(items@) {
                Ok((c, string_items(items@)))
            } else {
                Err(driver + " driver: `args` entries must be strings"@)
            },
            Some(_) => Err(driver + " driver: `args` must be an array"@),
        },
    }
}

/// The `docker` arguments that start a task: `run --rm -d`, then
/// `--entrypoint` and the `command` string when there is one, then the
/// `args` strings when `args` is an array, then the `image`; or why it
/// cannot start.
pub open spec fn docker_line(t: Task) -> core::result::Result<Seq<Seq<char>>, Seq<char>> {
    match config_str(t, "image"@) {
        None => Err("docker driver: missing `image` in task config"@),
        Some(image) => {
            let base = seq!["run"@, "--rm"@, "-d"@] + match config_str(t, "command"@) {
                Some(c) => seq!["--entrypoint"@, c],
                None => Seq::empty(),
            };
            match lookup(t.config.pairs(), "args"@) {
                Some(ConfigValue::Array(items)) => if all_strings(items@) {
                    Ok(base + string_items(items@) + seq![image])
                } else {
                    Err("docker driver: `args` entries must be strings"@)
                },
                _ => Ok(base + seq![image]),
            }
        },
    }
}

/// The strings of the array items, when they all are strings.
fn strings_of(items: &Vec<ConfigScalar>) -> (r: Option<Vec<String>>)
    ensures
        match r {
            Some(v) => all_strings(items@) && crate::text::views(v@) == string_items(items@),
            None => !all_strings(items@),
        },
{
    let mut out: Vec<String> = Vec::new();
    let mut i: usize = 0;
    while i < items.len()
        invariant
            i <= items@.len(),
            forall|j: int| 0 <= j < i ==> (#[trigger] items@[j]) is Str,
            out@.len() == i,
            forall|j: int| 0 <= j < i ==> (#[trigger] out@[j])@ == string_items(items@)[j],
        decreases items@.len() - i,
    {
        match &items[i] {
            ConfigScalar::Str(s) => {
                out.push(s.clone());
            },
            _ => {
                return None;
            },
        }
        i = i + 1;
    }
    assert(crate::text::views(out@) =~= string_items(items@));
    Some(out)
}

/// The string under `key`, if it is a string.
fn config_string(task: &Task, key: &str) -> (r: Option<String>)
    ensures
        match r {
            Some(s) => config_str(*task, key@) == Some(s@),
            None => config_str(*task, key@) is None,
        },
{
    match task.config.get(key) {
        Some(v) => match v.as_str() {
            Some(s) => Some(s.to_string()),
            None => None,
        },
        None => None,
    }
}

/// The program and arguments an `exec`-style driver named `driver` runs for
/// `task`.
///
/// # Errors
///
/// Returns [`Error::Runtime`] when `command` is missing or not a string,
/// `args` is not an array, or an `args` entry is not a string.
pub fn exec_invocation(task: &Task, driver: &str) -> (r: Result<(String, Vec<String>)>)
    ensures
        match exec_line(*task, driver@) {
            Ok(line) => r matches Ok(p) && p.0@ == line.0 && crate::text::views(p.1@) == line.1,
            Err(msg) => r matches Err(e) && e.is_runtime(msg),
        },
{
    let command = match config_string(task, "command") {
        Some(c) => c,
        None => {
            return Err(Error::Runtime(concat(driver, " driver: missing `command` in task config")));
        },
    };
    match task.config.get("args") {
        None => {
            let v: Vec<String> = Vec::new();
            assert(crate::text::views(v@) =~= Seq::<Seq<char>>::empty());
            Ok((command, v))
        },
        Some(ConfigValue::Array(items)) => match strings_of(items) {
            Some(args) => Ok((command, args)),
            None => Err(Error::Runtime(concat(driver, " driver: `args` entries must be strings"))),
        },
        Some(_) => Err(Error::Runtime(concat(driver, " driver: `args` must be an array"))),
    }
}

/// The docker driver: runs a task as a container.
#[derive(Debug, Default)]
pub struct DockerDriver;

impl DockerDriver {
    /// Stable driver name.
    pub fn name(&self) -> (r: &'static str)
        ensures
            r@ == "docker"@,
    {
        "docker"
    }

    /// Containers run from images, isolated.
    pub fn capabilities(&self) -> (r: DriverCapabilities)
        ensures
            r.image_based && r.isolated,
    {
        DriverCapabilities { image_based: true, isolated: true }
    }

    /// The `docker` arguments that start `task`.
    ///
    /// # Errors
    ///
    /// Returns [`Error::Runtime`] when `image` is missing or not a string,
    /// or an `args` entry is not a string.
    pub fn run_args(&self, task: &Task) -> (r: Result<Vec<String>>)
        ensures
            match docker_line(*task) {
                Ok(line) => r matches Ok(v) && crate::text::views(v@) == line,
                Err(msg) => r matches Err(e) && e.is_runtime(msg),
            },
    {
        let image = match config_string(task, "image") {
            Some(i) => i,
            None => {
                return Err(Error::Runtime("docker driver: missing `image` in task config".to_string()));
            },
        };
        let mut out: Vec<String> = Vec::new();
        out.push("run".to_string());
        out.push("--rm".to_string());
        out.push("-d".to_string());
        match config_string(task, "command") {
            Some(c) => {
                out.push("--entrypoint".to_string());
                out.push(c);
            },
            None => {},
        }
        let ghost base = crate::text::views(out@);
        assert(out@.len() == base.len());
        match task.config.get("args") {
            Some(ConfigValue::Array(items)) => match strings_of(items) {
                Some(args) => {
                    let mut i: usize = 0;
                    while i < args.len()
                        invariant
                            i <= args@.len(),
                            out@.len() == base.len() + i,
                            forall|j: int| 0 <= j < base.len() ==> (#[trigger] out@[j])@ == base[j],
                            forall|j: int| 0 <= j < i ==> (#[trigger] out@[base.len() + j])@ == args@[j]@,
                        decreases args@.len() - i,
                    {
                        out.push(args[i].clone());
                        i = i + 1;
                    }
                    assert forall|k: int| base.len() <= k < out@.len() implies (#[trigger] out@[k])@ == args@[k - base.len()]@ by {
                        let j = k - base.len();
                        assert(out@[base.len() + j]@ == args@[j]@);
                    }
                    assert(crate::text::views(out@) =~= base + crate::text::views(args@));
                },
                None => {
                    return Err(Error::Runtime("docker driver: `args` entries must be strings".to_string()));
                },
            },
            _ => {},
        }
        let ghost mid = crate::text::views(out@);
        out.push(image);
        assert(crate::text::views(out@) =~= mid.push(image@));
        proof {
            reveal_strlit("run");
            reveal_strlit("--rm");
            reveal_strlit("-d");
            reveal_strlit("--entrypoint");
        }
        assert(crate::text::views(out@) == docker_line(*task)->Ok_0);
        Ok(out)
    }
}

/// What a `docker inspect` of the container's status says.
#[derive(Debug, Clone, Copy, PartialEq, Eq, Structural)]
pub enum InspectStep {
    /// The state is known.
    Known(TaskState),
    /// The container finished; its exit code decides between exited and
    /// failed.
    CheckExitCode,
}

/// The state a `docker inspect` of the status reports: a failed inspect
/// means the container is gone (exited); `running` is running; `exited`
/// or `dead` needs the exit code; anything else is unknown.
pub open spec fn inspect_step(ok: bool, out: Seq<char>) -> InspectStep {
    if !ok {
        InspectStep::Known(TaskState::Exited)
    } else if trimmed(out) == "running"@ {
        InspectStep::Known(TaskState::Running)
    } else if trimmed(out) == "exited"@ || trimmed(out) == "dead"@ {
        InspectStep::CheckExitCode
    } else {
        InspectStep::Known(TaskState::Unknown)
    }
}

/// Read a status inspect: whether it succeeded and what it printed.
pub fn docker_status_step(ok: bool, stdout: &str) -> (r: InspectStep)
    ensures
        r == inspect_step(ok, stdout@),
{
    if !ok {
        return InspectStep::Known(TaskState::Exited);
    }
    let s = trim(stdout);
    if str_eq(s, "running") {
        InspectStep::Known(TaskState::Running)
    } else if str_eq(s, "exited") || str_eq(s, "dead") {
        InspectStep::CheckExitCode
    } else {
        InspectStep::Known(TaskState::Unknown)
    }
}

/// Read an exit-code inspect: exited for a successful inspect printing
/// `0`, failed otherwise.
pub fn docker_exit_state(ok: bool, stdout: &str) -> (r: TaskState)
    ensures
        r == if ok && trimmed(stdout@) == "0"@ { TaskState::Exited } else { TaskState::Failed },
{
    if ok && str_eq(trim(stdout), "0") {
        TaskState::Exited
    } else {
        TaskState::Failed
    }
}

/// The container id `docker run -d` printed.
///
/// # Errors
///
/// Returns [`Error::Runtime`] when it printed nothing but whitespace.
pub fn docker_container_id(stdout: &str) -> (r: Result<String>)
    ensures
        trimmed(stdout@).len() == 0 ==> (r matches Err(e) && e.is_runtime("docker run produced no container id"@)),
        trimmed(stdout@).len() > 0 ==> (r matches Ok(id) && id@ == trimmed(stdout@)),
{
    let id = trim(stdout);
    if id.unicode_len() == 0 {
        return Err(Error::Runtime("docker run produced no container id".to_string()));
    }
    Ok(id.to_string())
}

/// The state of a process that has exited, by whether it succeeded.
pub fn process_exit_state(success: bool) -> (r: TaskState)
    ensures
        r == if success { TaskState::Exited } else { TaskState::Failed },
{
    if success {
        TaskState::Exited
    } else {
        TaskState::Failed
    }
}

} // verus!
