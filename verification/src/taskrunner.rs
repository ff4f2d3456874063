//! Task runner: drives a single task through its lifecycle.
//!
//! Owns one task and its driver choice, records what the driver reports,
//! and applies the restart policy when the task exits. Talking to the driver
//! is the binary's: it starts, inspects and stops the task and hands the
//! outcome to the runner.
use crate::driver::{TaskHandle, TaskState};
use crate::error::{Error, Result};
use crate::jobspec::Task;
use crate::reschedule::{RestartMode, RestartPolicy};
use crate::text::{concat3, str_eq};
use vstd::prelude::*;

verus! {

/// The execution backends a task can name.
#[derive(Debug, Clone, Copy, PartialEq, Eq, Structural)]
pub enum DriverKind {
    /// Child process.
    Exec,
    /// Child process without isolation.
    RawExec,
    /// Container.
    Docker,
}

/// The backend a driver name selects.
pub open spec fn driver_named(name: Seq<char>) -> Option<DriverKind> {
    if name == "exec"@ {
        Some(DriverKind::Exec)
    } else if name == "raw_exec"@ {
        Some(DriverKind::RawExec)
    } else if name == "docker"@ {
        Some(DriverKind::Docker)
    } else {
        None
    }
}

/// Select a driver backend by name.
///
/// # Errors
///
/// Returns [`Error::Runtime`] when `name` is not a known driver.
pub fn select_driver(name: &str) -> (r: Result<DriverKind>)
    ensures
        match driver_named(name@) {
            Some(k) => r == Ok::<DriverKind, Error>(k),
            None => r matches Err(e) && e.is_runtime("unsupported task driver '"@ + name@ + "'"@),
        },
{
    if str_eq(name, "exec") {
        Ok(DriverKind::Exec)
    } else if str_eq(name, "raw_exec") {
        Ok(DriverKind::RawExec)
    } else if str_eq(name, "docker") {
        Ok(DriverKind::Docker)
    } else {
        Err(Error::Runtime(concat3("unsupported task driver '", name, "'")))
    }
}

/// Whether a task state is terminal (exited or failed).
pub open spec fn finished(s: TaskState) -> bool {
    s == TaskState::Exited || s == TaskState::Failed
}

/// Drives one task's lifecycle on a node.
#[derive(Debug)]
pub struct TaskRunner {
    /// The task being run.
    task: Task,
    /// The execution backend.
    driver: DriverKind,
    /// Handle to the running task, once started.
    handle: Option<TaskHandle>,
    /// Current driver-reported state of the task.
    state: TaskState,
    /// How many times the task has been restarted.
    restart_count: u32,
    /// Governs in-place restarts on failure.
    restart_policy: RestartPolicy,
}

impl TaskRunner {
    /// The task.
    pub closed spec fn spec_task(&self) -> Task {
        self.task
    }

    /// The backend.
    pub closed spec fn spec_driver(&self) -> DriverKind {
        self.driver
    }

    /// The handle, once started.
    pub closed spec fn spec_handle(&self) -> Option<TaskHandle> {
        self.handle
    }

    /// The recorded state.
    pub closed spec fn spec_state(&self) -> TaskState {
        self.state
    }

    /// Restarts so far.
    pub closed spec fn spec_restarts(&self) -> u32 {
        self.restart_count
    }

    /// The restart policy.
    pub closed spec fn spec_policy(&self) -> RestartPolicy {
        self.restart_policy
    }

    /// A runner for `task`, pending, with the default restart policy (two
    /// attempts in 30 minutes, 15 s apart, then fail the allocation).
    ///
    /// # Errors
    ///
    /// Returns [`Error::Runtime`] when the task names an unknown driver.
    pub fn new(task: Task) -> (r: Result<TaskRunner>)
        ensures
            match driver_named(task.driver@) {
                Some(k) => r matches Ok(t) && t.spec_task() == task && t.spec_driver() == k && t.spec_handle() is None
                    && t.spec_state() == TaskState::Pending && t.spec_restarts() == 0 && t.spec_policy() == (RestartPolicy {
                    attempts: 2,
                    interval_secs: 1800,
                    delay_secs: 15,
                    mode: RestartMode::Fail,
                }),
                None => r matches Err(e) && e.is_runtime("unsupported task driver '"@ + task.driver@ + "'"@),
            },
    {
        let driver = match select_driver(task.driver.as_str()) {
            Ok(d) => d,
            Err(e) => {
                return Err(e);
            },
        };
        Ok(TaskRunner {
            task,
            driver,
            handle: None,
            state: TaskState::Pending,
            restart_count: 0,
            restart_policy: RestartPolicy { attempts: 2, interval_secs: 1800, delay_secs: 15, mode: RestartMode::Fail },
        })
    }

    /// Override the restart policy.
    pub fn with_restart_policy(self, policy: RestartPolicy) -> (r: TaskRunner)
        ensures
            r.spec_policy() == policy,
            r.spec_task() == self.spec_task(),
            r.spec_driver() == self.spec_driver(),
            r.spec_handle() == self.spec_handle(),
            r.spec_state() == self.spec_state(),
            r.spec_restarts() == self.spec_restarts(),
    {
        TaskRunner { restart_policy: policy, ..self }
    }

    /// The task.
    pub fn task(&self) -> (r: &Task)
        ensures
            *r == self.spec_task(),
    {
        &self.task
    }

    /// The backend.
    pub fn driver(&self) -> (r: DriverKind)
        ensures
            r == self.spec_driver(),
    {
        self.driver
    }

    /// The handle of the running task, once started.
    pub fn handle(&self) -> (r: Option<&TaskHandle>)
        ensures
            match self.spec_handle() {
                Some(h) => r == Some(&h),
                None => r is None,
            },
    {
        match &self.handle {
            Some(h) => Some(h),
            None => None,
        }
    }

    /// Current driver-reported state of the task.
    pub fn state(&self) -> (r: TaskState)
        ensures
            r == self.spec_state(),
    {
        self.state
    }

    /// How many times the task has been restarted.
    pub fn restart_count(&self) -> (r: u32)
        ensures
            r == self.spec_restarts(),
    {
        self.restart_count
    }

    /// Check that the task may be started: it must not have been already.
    ///
    /// # Errors
    ///
    /// Returns [`Error::Runtime`] when the task already has a handle.
    pub fn check_start(&self) -> (r: Result<()>)
        ensures
            self.spec_handle() is None ==> r is Ok,
            self.spec_handle() is Some ==> (r matches Err(e) && e.is_runtime(
                "task '"@ + self.spec_task().name@ + "' already started"@,
            )),
    {
        if self.handle.is_some() {
            return Err(Error::Runtime(concat3("task '", self.task.name.as_str(), "' already started")));
        }
        Ok(())
    }

    /// Record that the driver started the task: its handle and state.
    pub fn started(&mut self, handle: TaskHandle)
        ensures
            final(self).spec_state() == handle.state,
            final(self).spec_handle() == Some(handle),
            final(self).spec_task() == old(self).spec_task(),
            final(self).spec_driver() == old(self).spec_driver(),
            final(self).spec_restarts() == old(self).spec_restarts(),
            final(self).spec_policy() == old(self).spec_policy(),
    {
        self.state = handle.state;
        self.handle = Some(handle);
    }

    /// Whether a poll should ask the driver: a terminal state is sticky (a
    /// reaped process would be reported as exited and downgrade a recorded
    /// failure), and an unstarted task has nothing to inspect.
    pub fn should_inspect(&self) -> (r: bool)
        ensures
            r == (!finished(self.spec_state()) && self.spec_handle() is Some),
    {
        match self.state {
            TaskState::Exited | TaskState::Failed => false,
            _ => self.handle.is_some(),
        }
    }

    /// Record what an inspect reported.
    pub fn inspected(&mut self, state: TaskState)
        ensures
            final(self).spec_state() == state,
            final(self).spec_handle() == old(self).spec_handle(),
            final(self).spec_task() == old(self).spec_task(),
            final(self).spec_driver() == old(self).spec_driver(),
            final(self).spec_restarts() == old(self).spec_restarts(),
            final(self).spec_policy() == old(self).spec_policy(),
    {
        self.state = state;
    }

    /// Record that the task was stopped: it is exited.
    pub fn stopped(&mut self)
        ensures
            final(self).spec_state() == TaskState::Exited,
            final(self).spec_handle() == old(self).spec_handle(),
            final(self).spec_task() == old(self).spec_task(),
            final(self).spec_driver() == old(self).spec_driver(),
            final(self).spec_restarts() == old(self).spec_restarts(),
            final(self).spec_policy() == old(self).spec_policy(),
    {
        self.state = TaskState::Exited;
    }

    /// Handle the task's exit (`success`: it exited zero); returns whether
    /// it will be restarted. A clean exit is terminal. A failure restarts,
    /// counting the restart and dropping the dead handle, while under the
    /// policy's attempts; after that the task is failed.
    pub fn handle_exit(&mut self, success: bool) -> (r: bool)
        ensures
            success ==> !r && final(self).spec_state() == TaskState::Exited && final(self).spec_restarts()
                == old(self).spec_restarts() && final(self).spec_handle() == old(self).spec_handle(),
            !success && old(self).spec_restarts() < old(self).spec_policy().attempts ==> r && final(self).spec_state()
                == TaskState::Pending && final(self).spec_restarts() == old(self).spec_restarts() + 1
                && final(self).spec_handle() is None,
            !success && old(self).spec_restarts() >= old(self).spec_policy().attempts ==> !r && final(self).spec_state()
                == TaskState::Failed && final(self).spec_restarts() == old(self).spec_restarts()
                && final(self).spec_handle() == old(self).spec_handle(),
            final(self).spec_task() == old(self).spec_task(),
            final(self).spec_driver() == old(self).spec_driver(),
            final(self).spec_policy() == old(self).spec_policy(),
    {
        if success {
            self.state = TaskState::Exited;
            return false;
        }
        if self.restart_count < self.restart_policy.attempts {
            self.restart_count = self.restart_count + 1;
            self.state = TaskState::Pending;
            self.handle = None;
            true
        } else {
            self.state = TaskState::Failed;
            false
        }
    }
}

/// A task never restarts more often than its policy allows: starting from a
/// count within the policy, any exit leaves the count within it.
pub proof fn law_restarts_bounded(before: u32, attempts: u32, success: bool, after: u32)
    requires
        before <= attempts,
        success ==> after == before,
        !success && before < attempts ==> after == before + 1,
        !success && before >= attempts ==> after == before,
    ensures
        after <= attempts,
{
}

} // verus!
