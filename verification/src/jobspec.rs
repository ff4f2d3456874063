//! Job specification types and their validation.
use crate::constraint::{Affinity, Constraint, Spread};
use crate::error::{Error, Result};
use crate::strmap::StrMap;
use crate::text::{concat, dec_int, i64_to_string};
use vstd::prelude::*;

verus! {

/// Default job priority.
pub const JOB_DEFAULT_PRIORITY: i32 = 50;

/// Minimum allowed job priority.
pub const JOB_MIN_PRIORITY: i32 = 1;

/// Maximum allowed job priority.
pub const JOB_MAX_PRIORITY: i32 = 100;

/// An element of an array in a driver configuration value.
#[derive(Debug, Clone)]
pub enum ConfigScalar {
    /// JSON `null`.
    Null,
    /// A boolean.
    Bool(bool),
    /// A number, kept in its JSON text form.
    Number(String),
    /// A string.
    Str(String),
    /// A nested array or object, kept as its JSON text.
    Nested(String),
}

/// A driver configuration value, shaped like a JSON value.
#[derive(Debug, Clone)]
pub enum ConfigValue {
    /// JSON `null`.
    Null,
    /// A boolean.
    Bool(bool),
    /// A number, kept in its JSON text form.
    Number(String),
    /// A string.
    Str(String),
    /// An array.
    Array(Vec<ConfigScalar>),
    /// An object, kept as its JSON text.
    Object(String),
}

impl ConfigValue {
    /// The string this value holds, if it is a string.
    pub fn as_str(&self) -> (r: Option<&str>)
        ensures
            match self {
                ConfigValue::Str(s) => r matches Some(x) && x@ == s@,
                _ => r is None,
            },
    {
        match self {
            ConfigValue::Str(s) => Some(s.as_str()),
            _ => None,
        }
    }
}

/// Resource requirements for a task.
#[derive(Debug, Clone, Copy, PartialEq, Eq, Structural)]
pub struct Resources {
    /// CPU MHz required.
    pub cpu_mhz: i32,
    /// Memory in MB.
    pub memory_mb: i32,
    /// Network bandwidth in Mbps.
    pub network_mbps: i32,
}

impl Default for Resources {
    fn default() -> (r: Self)
        ensures
            r == (Resources { cpu_mhz: 100, memory_mb: 256, network_mbps: 0 }),
    {
        Resources { cpu_mhz: 100, memory_mb: 256, network_mbps: 0 }
    }
}

/// A single unit of work within a task group.
#[derive(Debug, Clone)]
pub struct Task {
    /// Task name.
    pub name: String,
    /// The driver to use (e.g., `"docker"`, `"exec"`, `"raw_exec"`).
    pub driver: String,
    /// Driver-specific configuration.
    pub config: StrMap<ConfigValue>,
    /// Resource requirements.
    pub resources: Resources,
}

/// A task group is a set of tasks that must be co-located on the same node.
#[derive(Debug, Clone)]
pub struct TaskGroup {
    /// Group name.
    pub name: String,
    /// Number of instances of this group to run.
    pub count: i32,
    /// Individual tasks within the group.
    pub tasks: Vec<Task>,
    /// Hard placement rules every chosen node must satisfy.
    pub constraints: Vec<Constraint>,
    /// Soft placement preferences that nudge ranking.
    pub affinities: Vec<Affinity>,
    /// Spread targets across attribute values.
    pub spreads: Vec<Spread>,
}

/// A job is a set of task groups that run on the cluster.
#[derive(Debug, Clone)]
pub struct Job {
    /// Human-readable job name.
    pub name: String,
    /// Arbitrary metadata key-value pairs.
    pub meta: StrMap<String>,
    /// The datacenters where this job can run.
    pub datacenters: Vec<String>,
    /// The task groups that comprise this job.
    pub task_groups: Vec<TaskGroup>,
    /// Job priority (higher = more important).
    pub priority: i32,
}

impl Default for Job {
    fn default() -> (r: Self)
        ensures
            r.name@.len() == 0,
            r.meta.pairs().len() == 0,
            r.datacenters@.len() == 1,
            r.datacenters@[0]@ == "dc1"@,
            r.task_groups@.len() == 0,
            r.priority == JOB_DEFAULT_PRIORITY,
    {
        let mut datacenters = Vec::new();
        datacenters.push(String::from_str("dc1"));
        Job { name: String::new(), meta: StrMap::new(), datacenters, task_groups: Vec::new(), priority: JOB_DEFAULT_PRIORITY }
    }
}

/// `prefix` followed by the decimal value and a closing parenthesis.
fn with_value(prefix: &str, v: i32) -> (r: String)
    ensures
        r@ == prefix@ + dec_int(v as int) + ")"@,
{
    let mut s = String::from_str(prefix);
    let d = i64_to_string(v as i64);
    s.append(d.as_str());
    s.append(")");
    s
}

/// The first problem with a set of resources, if any.
pub open spec fn resources_problem(r: Resources) -> Option<Seq<char>> {
    if r.cpu_mhz < 0 {
        Some("cpu_mhz cannot be negative ("@ + dec_int(r.cpu_mhz as int) + ")"@)
    } else if r.memory_mb < 0 {
        Some("memory_mb cannot be negative ("@ + dec_int(r.memory_mb as int) + ")"@)
    } else if r.network_mbps < 0 {
        Some("network_mbps cannot be negative ("@ + dec_int(r.network_mbps as int) + ")"@)
    } else {
        None
    }
}

impl Resources {
    /// Validate that resource values are non-negative (zero is allowed).
    ///
    /// # Errors
    ///
    /// Returns `Validation` if any resource value is negative.
    pub fn validate(&self) -> (r: Result<()>)
        ensures
            match resources_problem(*self) {
                None => r is Ok,
                Some(m) => r matches Err(e) && e.is_validation(m),
            },
    {
        if self.cpu_mhz < 0 {
            return Err(Error::Validation(with_value("cpu_mhz cannot be negative (", self.cpu_mhz)));
        }
        if self.memory_mb < 0 {
            return Err(Error::Validation(with_value("memory_mb cannot be negative (", self.memory_mb)));
        }
        if self.network_mbps < 0 {
            return Err(Error::Validation(with_value("network_mbps cannot be negative (", self.network_mbps)));
        }
        Ok(())
    }
}

/// The first problem with a task, if any.
pub open spec fn task_problem(t: Task) -> Option<Seq<char>> {
    if t.name@.len() == 0 {
        Some("task name cannot be empty"@)
    } else if t.driver@.len() == 0 {
        Some("task '"@ + t.name@ + "' driver cannot be empty"@)
    } else {
        resources_problem(t.resources)
    }
}

impl Task {
    /// Validate the task definition.
    ///
    /// # Errors
    ///
    /// Returns `Validation` if the task name is empty, the driver is missing,
    /// or the resources are invalid.
    pub fn validate(&self) -> (r: Result<()>)
        ensures
            match task_problem(*self) {
                None => r is Ok,
                Some(m) => r matches Err(e) && e.is_validation(m),
            },
    {
        proof {
            reveal_strlit("task name cannot be empty");
            reveal_strlit("task '");
            reveal_strlit("' driver cannot be empty");
        }
        if self.name.as_str().is_empty() {
            return Err(Error::Validation(String::from_str("task name cannot be empty")));
        }
        if self.driver.as_str().is_empty() {
            let mut m = concat("task '", self.name.as_str());
            m.append("' driver cannot be empty");
            return Err(Error::Validation(m));
        }
        self.resources.validate()
    }
}

/// Whether the task at `k` repeats the name of an earlier task.
pub open spec fn repeats_earlier_name(ts: Seq<Task>, k: int) -> bool {
    exists|j: int| 0 <= j < k && (#[trigger] ts[j]).name@ == ts[k].name@
}

/// The first problem among the tasks from position `k` on, checking each for a
/// repeated name and then for its own validity.
pub open spec fn tasks_problem(ts: Seq<Task>, group: Seq<char>, k: int) -> Option<Seq<char>>
    decreases ts.len() - k,
{
    if k < 0 || k >= ts.len() {
        None
    } else if repeats_earlier_name(ts, k) {
        Some("duplicate task name '"@ + ts[k].name@ + "' in task group '"@ + group + "'"@)
    } else if task_problem(ts[k]) is Some {
        task_problem(ts[k])
    } else {
        tasks_problem(ts, group, k + 1)
    }
}

/// The first problem with a task group, if any.
pub open spec fn group_problem(g: TaskGroup) -> Option<Seq<char>> {
    if g.name@.len() == 0 {
        Some("task group name cannot be empty"@)
    } else if g.count < 0 {
        Some("task group '"@ + g.name@ + "' count cannot be negative ("@ + dec_int(g.count as int) + ")"@)
    } else if g.tasks@.len() == 0 {
        Some("task group '"@ + g.name@ + "' has no tasks"@)
    } else {
        tasks_problem(g.tasks@, g.name@, 0)
    }
}

impl TaskGroup {
    /// Validate the task group.
    ///
    /// # Errors
    ///
    /// Returns `Validation` if the group name is empty, count is negative,
    /// the task list is empty, tasks have duplicate names, or a task is invalid.
    pub fn validate(&self) -> (r: Result<()>)
        ensures
            match group_problem(*self) {
                None => r is Ok,
                Some(m) => r matches Err(e) && e.is_validation(m),
            },
    {
        proof {
            reveal_strlit("task group name cannot be empty");
            reveal_strlit("task group '");
            reveal_strlit("' count cannot be negative (");
            reveal_strlit("' has no tasks");
        }
        if self.name.as_str().is_empty() {
            return Err(Error::Validation(String::from_str("task group name cannot be empty")));
        }
        if self.count < 0 {
            let head = concat("task group '", self.name.as_str());
            let mut m = concat(head.as_str(), "' count cannot be negative (");
            let d = i64_to_string(self.count as i64);
            m.append(d.as_str());
            m.append(")");
            return Err(Error::Validation(m));
        }
        if self.tasks.len() == 0 {
            let mut m = concat("task group '", self.name.as_str());
            m.append("' has no tasks");
            return Err(Error::Validation(m));
        }
        let ghost ts = self.tasks@;
        let mut i: usize = 0;
        while i < self.tasks.len()
            invariant
                ts == self.tasks@,
                i <= ts.len(),
                self.name@.len() != 0,
                self.count >= 0,
                ts.len() != 0,
                tasks_problem(ts, self.name@, 0) == tasks_problem(ts, self.name@, i as int),
            decreases ts.len() - i,
        {
            let mut j: usize = 0;
            while j < i
                invariant
                    ts == self.tasks@,
                    i < ts.len(),
                    j <= i,
                    self.name@.len() != 0,
                    self.count >= 0,
                    ts.len() != 0,
                    tasks_problem(ts, self.name@, 0) == tasks_problem(ts, self.name@, i as int),
                    forall|x: int| 0 <= x < j ==> (#[trigger] ts[x]).name@ != ts[i as int].name@,
                decreases i - j,
            {
                if crate::text::str_eq(self.tasks[j].name.as_str(), self.tasks[i].name.as_str()) {
                    proof {
                        assert(repeats_earlier_name(ts, i as int)) by {
                            assert(ts[j as int].name@ == ts[i as int].name@);
                        }
                        reveal_strlit("duplicate task name '");
                        reveal_strlit("' in task group '");
                        reveal_strlit("'");
                    }
                    let mut m = concat("duplicate task name '", self.tasks[i].name.as_str());
                    m.append("' in task group '");
                    m.append(self.name.as_str());
                    m.append("'");
                    return Err(Error::Validation(m));
                }
                j = j + 1;
            }
            assert(!repeats_earlier_name(ts, i as int));
            match self.tasks[i].validate() {
                Ok(()) => {},
                Err(e) => {
                    return Err(e);
                },
            }
            i = i + 1;
        }
        Ok(())
    }
}

/// Whether `p` is within the allowed job priority range.
pub open spec fn priority_in_range(p: int) -> bool {
    JOB_MIN_PRIORITY <= p && p <= JOB_MAX_PRIORITY
}

/// The first problem among the groups from position `k` on.
pub open spec fn groups_problem(gs: Seq<TaskGroup>, k: int) -> Option<Seq<char>>
    decreases gs.len() - k,
{
    if k < 0 || k >= gs.len() {
        None
    } else if group_problem(gs[k]) is Some {
        group_problem(gs[k])
    } else {
        groups_problem(gs, k + 1)
    }
}

/// The first problem with a job, if any.
pub open spec fn job_problem(j: Job) -> Option<Seq<char>> {
    if j.name@.len() == 0 {
        Some("job name cannot be empty"@)
    } else if !priority_in_range(j.priority as int) {
        Some("priority "@ + dec_int(j.priority as int) + " out of range [1, 100]"@)
    } else if j.datacenters@.len() == 0 {
        Some("at least one datacenter is required"@)
    } else if exists|i: int| 0 <= i < j.datacenters@.len() && (#[trigger] j.datacenters@[i])@.len() == 0 {
        Some("datacenter names cannot be empty"@)
    } else {
        groups_problem(j.task_groups@, 0)
    }
}

/// A job is only as valid as its task groups: a job with valid fields of its
/// own is invalid exactly when one of its groups is, and a job that
/// validates has only groups that validate. Likewise a group that validates
/// has only tasks that validate.
pub proof fn law_job_needs_valid_groups(j: Job, g: TaskGroup)
    ensures
        job_problem(j) is None ==> forall|k: int| 0 <= k < j.task_groups@.len() ==> group_problem(
            #[trigger] j.task_groups@[k],
        ) is None,
        (exists|k: int| 0 <= k < j.task_groups@.len() && group_problem(#[trigger] j.task_groups@[k]) is Some) ==> job_problem(
            j,
        ) is Some,
        group_problem(g) is None ==> g.tasks@.len() > 0 && forall|k: int| 0 <= k < g.tasks@.len() ==> task_problem(
            #[trigger] g.tasks@[k],
        ) is None,
        (exists|k: int| 0 <= k < g.tasks@.len() && task_problem(#[trigger] g.tasks@[k]) is Some) ==> group_problem(g) is Some,
{
    lemma_groups_problem(j.task_groups@, 0);
    lemma_tasks_problem(g.tasks@, g.name@, 0);
}

/// [`groups_problem`] from `k` is `None` exactly when every group from `k`
/// on validates.
proof fn lemma_groups_problem(gs: Seq<TaskGroup>, k: int)
    requires
        0 <= k,
    ensures
        groups_problem(gs, k) is None <==> forall|i: int| k <= i < gs.len() ==> group_problem(#[trigger] gs[i]) is None,
    decreases gs.len() - k,
{
    if k < gs.len() {
        lemma_groups_problem(gs, k + 1);
    }
}

/// [`tasks_problem`] from `k` is `None` only when every task from `k` on
/// validates.
proof fn lemma_tasks_problem(ts: Seq<Task>, group: Seq<char>, k: int)
    requires
        0 <= k,
    ensures
        tasks_problem(ts, group, k) is None ==> forall|i: int| k <= i < ts.len() ==> task_problem(#[trigger] ts[i]) is None,
    decreases ts.len() - k,
{
    if k < ts.len() {
        lemma_tasks_problem(ts, group, k + 1);
    }
}

impl Job {
    /// Validate the job definition.
    ///
    /// # Errors
    ///
    /// Returns `Validation` if the job name is empty, the priority is out of
    /// range, there is no datacenter or an empty one, or a task group is
    /// invalid.
    pub fn validate(&self) -> (r: Result<()>)
        ensures
            match job_problem(*self) {
                None => r is Ok,
                Some(m) => r matches Err(e) && e.is_validation(m),
            },
    {
        proof {
            reveal_strlit("job name cannot be empty");
            reveal_strlit("priority ");
            reveal_strlit(" out of range [1, 100]");
            reveal_strlit("at least one datacenter is required");
            reveal_strlit("datacenter names cannot be empty");
        }
        if self.name.as_str().is_empty() {
            return Err(Error::Validation(String::from_str("job name cannot be empty")));
        }
        if !(JOB_MIN_PRIORITY <= self.priority && self.priority <= JOB_MAX_PRIORITY) {
            let mut m = String::from_str("priority ");
            let d = i64_to_string(self.priority as i64);
            m.append(d.as_str());
            m.append(" out of range [1, 100]");
            return Err(Error::Validation(m));
        }
        if self.datacenters.len() == 0 {
            return Err(Error::Validation(String::from_str("at least one datacenter is required")));
        }
        let mut i: usize = 0;
        while i < self.datacenters.len()
            invariant
                i <= self.datacenters@.len(),
                forall|k: int| 0 <= k < i ==> (#[trigger] self.datacenters@[k])@.len() != 0,
                self.name@.len() != 0,
                priority_in_range(self.priority as int),
                self.datacenters@.len() != 0,
            decreases self.datacenters@.len() - i,
        {
            if self.datacenters[i].as_str().is_empty() {
                proof {
                    reveal_strlit("datacenter names cannot be empty");
                }
                return Err(Error::Validation(String::from_str("datacenter names cannot be empty")));
            }
            i = i + 1;
        }
        let mut g: usize = 0;
        while g < self.task_groups.len()
            invariant
                g <= self.task_groups@.len(),
                forall|k: int| 0 <= k < self.datacenters@.len() ==> (#[trigger] self.datacenters@[k])@.len() != 0,
                self.name@.len() != 0,
                priority_in_range(self.priority as int),
                self.datacenters@.len() != 0,
                groups_problem(self.task_groups@, 0) == groups_problem(self.task_groups@, g as int),
            decreases self.task_groups@.len() - g,
        {
            match self.task_groups[g].validate() {
                Ok(()) => {},
                Err(e) => {
                    return Err(e);
                },
            }
            g = g + 1;
        }
        Ok(())
    }
}

} // verus!
