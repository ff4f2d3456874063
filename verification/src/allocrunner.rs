//! Alloc runner: drives all tasks of one allocation.
//!
//! Owns an allocation and one task runner per task of its group, and
//! records the allocation's client status as it is run and torn down.
use crate::allocs::{Allocation, ClientStatus};
use crate::driver::TaskState;
use crate::error::Result;
use crate::jobspec::Task;
use crate::taskrunner::{driver_named, TaskRunner};
use vstd::prelude::*;

verus! {

/// Drives one allocation's tasks on a node.
#[derive(Debug)]
pub struct AllocRunner {
    /// The allocation being run.
    alloc: Allocation,
    /// One runner per task in the allocation's group.
    runners: Vec<TaskRunner>,
}

impl AllocRunner {
    /// The allocation.
    pub closed spec fn spec_alloc(&self) -> Allocation {
        self.alloc
    }

    /// The task runners.
    pub closed spec fn spec_runners(&self) -> Seq<TaskRunner> {
        self.runners@
    }

    /// A runner for `alloc` driving `tasks`, one pending task runner each, in
    /// order.
    ///
    /// # Errors
    ///
    /// Returns the error of the first task that names an unknown driver.
    pub fn new(alloc: Allocation, tasks: Vec<Task>) -> (r: Result<AllocRunner>)
        ensures
            (forall|i: int| 0 <= i < tasks@.len() ==> driver_named((#[trigger] tasks@[i]).driver@) is Some) ==> (r matches Ok(
                a,
            ) && a.spec_alloc() == alloc && a.spec_runners().len() == tasks@.len() && forall|i: int|
                0 <= i < tasks@.len() ==> (#[trigger] a.spec_runners()[i]).spec_task() == tasks@[i]
                    && a.spec_runners()[i].spec_state() == TaskState::Pending),
            r is Err ==> exists|i: int| 0 <= i < tasks@.len() && driver_named((#[trigger] tasks@[i]).driver@) is None,
    {
        let ghost all = tasks@;
        let mut rest = tasks;
        let mut runners: Vec<TaskRunner> = Vec::new();
        while rest.len() > 0
            invariant
                all == tasks@,
                all == runners@.map_values(|t: TaskRunner| t.spec_task()) + rest@,
                forall|i: int| 0 <= i < runners@.len() ==> (#[trigger] runners@[i]).spec_state() == TaskState::Pending,
            decreases rest@.len(),
        {
            let ghost k = runners@.len();
            let t = rest.remove(0);
            assert(all[k as int] == t);
            match TaskRunner::new(t) {
                Ok(runner) => {
                    let ghost before = runners@;
                    runners.push(runner);
                    assert(runners@.map_values(|t: TaskRunner| t.spec_task()) =~= before.map_values(|t: TaskRunner| t.spec_task()).push(all[k as int]));
                },
                Err(e) => {
                    assert(driver_named(all[k as int].driver@) is None);
                    return Err(e);
                },
            }
        }
        assert(runners@.map_values(|t: TaskRunner| t.spec_task()) =~= all);
        assert forall|i: int| 0 <= i < all.len() implies (#[trigger] runners@[i]).spec_task() == all[i] by {
            assert(runners@.map_values(|t: TaskRunner| t.spec_task())[i] == all[i]);
        }
        Ok(AllocRunner { alloc, runners })
    }

    /// The allocation's recorded client status.
    pub fn status(&self) -> (r: ClientStatus)
        ensures
            r == self.spec_alloc().client_status,
    {
        self.alloc.client_status
    }

    /// The task runners, in task order.
    pub fn runners(&self) -> (r: &Vec<TaskRunner>)
        ensures
            r@ == self.spec_runners(),
    {
        &self.runners
    }

    /// The task runners, for the binary to drive.
    pub fn runners_mut(&mut self) -> (r: &mut Vec<TaskRunner>)
        ensures
            r@ == old(self).spec_runners(),
            final(self).spec_runners() == final(r)@,
            final(self).spec_alloc() == old(self).spec_alloc(),
    {
        &mut self.runners
    }

    /// Record that every task was started: the allocation is running.
    pub fn mark_running(&mut self)
        ensures
            final(self).spec_alloc() == (Allocation { client_status: ClientStatus::Running, ..old(self).spec_alloc() }),
            final(self).spec_runners() == old(self).spec_runners(),
    {
        self.alloc.client_status = ClientStatus::Running;
    }

    /// Record that every task was stopped: the allocation is complete.
    pub fn mark_complete(&mut self)
        ensures
            final(self).spec_alloc() == (Allocation { client_status: ClientStatus::Complete, ..old(self).spec_alloc() }),
            final(self).spec_runners() == old(self).spec_runners(),
    {
        self.alloc.client_status = ClientStatus::Complete;
    }
}

} // verus!
