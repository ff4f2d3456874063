//! In-memory cluster state store.
//!
//! The authoritative store the servers keep in sync via consensus: jobs keyed
//! by name, nodes, allocations and evaluations keyed by id. Every mutation is
//! described by [`step`] on the store's abstract model, which is also what the
//! replicated state machine applies.
use crate::allocs::{alloc_problem, Allocation};
use crate::error::{Error, Result};
use crate::eval::{eval_problem, Evaluation};
use crate::jobspec::{job_problem, resources_problem, Job};
use crate::node::{node_problem, Node};
use crate::strmap::{
    has_key, keyed_by, keys_unique, lemma_keyed_lookup, lemma_keyed_upsert, lemma_keyed_without, lemma_upsert, lemma_without,
    lookup, upsert, values, without, Pairs, StrMap,
};
use crate::text::concat;
use vstd::prelude::*;

verus! {

/// A committed state-change command — the payload of a log entry.
#[derive(Debug, Clone)]
pub enum Command {
    /// Register or update a job.
    UpsertJob(Job),
    /// Deregister the job with the given name.
    DeregisterJob(String),
    /// Register or update a node.
    UpsertNode(Node),
    /// Insert or update an allocation.
    UpsertAlloc(Allocation),
    /// Insert or update an evaluation.
    UpsertEval(Evaluation),
}

/// The abstract content of a store: each table's (key, value) pairs in
/// insertion order.
pub struct StoreModel {
    /// Jobs keyed by name.
    pub jobs: Pairs<Job>,
    /// Nodes keyed by id.
    pub nodes: Pairs<Node>,
    /// Allocations keyed by id.
    pub allocs: Pairs<Allocation>,
    /// Evaluations keyed by id.
    pub evals: Pairs<Evaluation>,
}

/// Why a command was refused, with the message it is refused with.
pub enum Rejection {
    /// Refused with a `Config` error.
    Config(Seq<char>),
    /// Refused with a `Validation` error.
    Validation(Seq<char>),
}

/// Every table has unique keys.
pub open spec fn model_wf(m: StoreModel) -> bool {
    keys_unique(m.jobs) && keys_unique(m.nodes) && keys_unique(m.allocs) && keys_unique(m.evals)
}

/// The outcome of applying `c` to a store whose content is `m`: the new
/// content, or why the command is refused (the content then stays as it was).
pub open spec fn step(m: StoreModel, c: Command) -> core::result::Result<StoreModel, Rejection> {
    match c {
        Command::UpsertJob(j) => match job_problem(j) {
            Some(msg) => Err(Rejection::Validation(msg)),
            None => Ok(StoreModel { jobs: upsert(m.jobs, j.name@, j), ..m }),
        },
        Command::DeregisterJob(name) => if has_key(m.jobs, name@) {
            Ok(StoreModel { jobs: without(m.jobs, name@), ..m })
        } else {
            Err(Rejection::Validation("job '"@ + name@ + "' not found"@))
        },
        Command::UpsertNode(n) => match node_problem(n) {
            Some(msg) => Err(Rejection::Config(msg)),
            None => match resources_problem(n.resources) {
                Some(msg) => Err(Rejection::Validation(msg)),
                None => Ok(StoreModel { nodes: upsert(m.nodes, n.id@, n), ..m }),
            },
        },
        Command::UpsertAlloc(a) => match alloc_problem(a) {
            Some(msg) => Err(Rejection::Config(msg)),
            None => match resources_problem(a.resources) {
                Some(msg) => Err(Rejection::Config(msg)),
                None => Ok(StoreModel { allocs: upsert(m.allocs, a.id@, a), ..m }),
            },
        },
        Command::UpsertEval(e) => match eval_problem(e) {
            Some(msg) => Err(Rejection::Validation(msg)),
            None => Ok(StoreModel { evals: upsert(m.evals, e.id@, e), ..m }),
        },
    }
}

/// Whether `r` and the store content `after` are what `step` prescribes for a
/// store whose content was `before`.
pub open spec fn outcome_matches(
    r: Result<()>,
    before: StoreModel,
    after: StoreModel,
    expected: core::result::Result<StoreModel, Rejection>,
) -> bool {
    match expected {
        Ok(m) => r is Ok && after == m,
        Err(Rejection::Config(msg)) => (r matches Err(e) && e.is_config(msg)) && after == before,
        Err(Rejection::Validation(msg)) => (r matches Err(e) && e.is_validation(msg)) && after == before,
    }
}

/// Applying a command keeps every table's keys unique.
pub proof fn law_step_keeps_keys_unique(m: StoreModel, c: Command)
    requires
        model_wf(m),
    ensures
        step(m, c) matches Ok(m2) ==> model_wf(m2),
{
    match c {
        Command::UpsertJob(j) => lemma_upsert(m.jobs, j.name@, j),
        Command::DeregisterJob(name) => lemma_without(m.jobs, name@),
        Command::UpsertNode(n) => lemma_upsert(m.nodes, n.id@, n),
        Command::UpsertAlloc(a) => lemma_upsert(m.allocs, a.id@, a),
        Command::UpsertEval(e) => lemma_upsert(m.evals, e.id@, e),
    }
}

/// A successful upsert of a job makes exactly that job readable under its
/// name, and leaves every other job and every other table as it was.
pub proof fn law_job_read_after_write(m: StoreModel, j: Job)
    requires
        model_wf(m),
        step(m, Command::UpsertJob(j)) is Ok,
    ensures
        lookup(step(m, Command::UpsertJob(j))->Ok_0.jobs, j.name@) == Some(j),
        forall|k: Seq<char>| k != j.name@ ==> lookup(step(m, Command::UpsertJob(j))->Ok_0.jobs, k) == #[trigger] lookup(m.jobs, k),
        step(m, Command::UpsertJob(j))->Ok_0.nodes == m.nodes,
        step(m, Command::UpsertJob(j))->Ok_0.allocs == m.allocs,
        step(m, Command::UpsertJob(j))->Ok_0.evals == m.evals,
{
    lemma_upsert(m.jobs, j.name@, j);
}

/// Deregistering a job that exists makes it unreadable and leaves the other
/// jobs; deregistering one that does not exist is refused.
pub proof fn law_deregister_removes(m: StoreModel, name: String)
    requires
        model_wf(m),
    ensures
        has_key(m.jobs, name@) ==> (step(m, Command::DeregisterJob(name)) matches Ok(m2)
            && lookup(m2.jobs, name@) is None
            && forall|k: Seq<char>| k != name@ ==> lookup(m2.jobs, k) == #[trigger] lookup(m.jobs, k)),
        !has_key(m.jobs, name@) ==> step(m, Command::DeregisterJob(name)) is Err,
{
    lemma_without(m.jobs, name@);
}

/// A successful upsert of a node, allocation or evaluation makes it readable
/// under its id.
pub proof fn law_read_after_write(m: StoreModel, c: Command)
    requires
        model_wf(m),
        step(m, c) is Ok,
    ensures
        c matches Command::UpsertNode(n) ==> lookup(step(m, c)->Ok_0.nodes, n.id@) == Some(n),
        c matches Command::UpsertAlloc(a) ==> lookup(step(m, c)->Ok_0.allocs, a.id@) == Some(a),
        c matches Command::UpsertEval(e) ==> lookup(step(m, c)->Ok_0.evals, e.id@) == Some(e),
{
    match c {
        Command::UpsertNode(n) => lemma_upsert(m.nodes, n.id@, n),
        Command::UpsertAlloc(a) => lemma_upsert(m.allocs, a.id@, a),
        Command::UpsertEval(e) => lemma_upsert(m.evals, e.id@, e),
        _ => {},
    }
}

/// The cluster's in-memory state: jobs, nodes, allocations, and evaluations.
#[derive(Debug)]
pub struct StateStore {
    /// Jobs keyed by job name.
    jobs: StrMap<Job>,
    /// Nodes keyed by node id.
    nodes: StrMap<Node>,
    /// Allocations keyed by allocation id.
    allocs: StrMap<Allocation>,
    /// Evaluations keyed by evaluation id.
    evals: StrMap<Evaluation>,
}

/// The key a job is stored under: its name.
pub open spec fn job_key() -> spec_fn(Job) -> Seq<char> {
    |j: Job| j.name@
}

/// The key a node is stored under: its id.
pub open spec fn node_key() -> spec_fn(Node) -> Seq<char> {
    |n: Node| n.id@
}

/// The key an allocation is stored under: its id.
pub open spec fn alloc_key() -> spec_fn(Allocation) -> Seq<char> {
    |a: Allocation| a.id@
}

/// The key an evaluation is stored under: its id.
pub open spec fn eval_key() -> spec_fn(Evaluation) -> Seq<char> {
    |e: Evaluation| e.id@
}

/// Every job is kept under its own name, and every node, allocation and
/// evaluation under its own id.
pub open spec fn store_keyed(m: StoreModel) -> bool {
    &&& keyed_by(m.jobs, job_key())
    &&& keyed_by(m.nodes, node_key())
    &&& keyed_by(m.allocs, alloc_key())
    &&& keyed_by(m.evals, eval_key())
}

/// Values of a vector of references, as values.
pub open spec fn derefs<T>(v: Seq<&T>) -> Seq<T> {
    v.map_values(|x: &T| *x)
}

/// Dereferencing commutes with pushing.
pub proof fn lemma_derefs_push<T>(s: Seq<&T>, x: &T)
    ensures
        derefs(s.push(x)) == derefs(s).push(*x),
{
    assert(derefs(s.push(x)) =~= derefs(s).push(*x));
}

impl StateStore {
    /// The store's abstract content.
    pub closed spec fn model(&self) -> StoreModel {
        StoreModel {
            jobs: self.jobs.pairs(),
            nodes: self.nodes.pairs(),
            allocs: self.allocs.pairs(),
            evals: self.evals.pairs(),
        }
    }

    #[verifier::type_invariant]
    closed spec fn keyed(&self) -> bool {
        store_keyed(self.model())
    }

    /// Every value is kept under its own name or id (a no-op at run time).
    pub fn check_keyed(&self)
        ensures
            store_keyed(self.model()),
    {
        proof {
            use_type_invariant(self);
        }
    }

    /// Every table has unique keys (a no-op at run time).
    pub fn check_wf(&self)
        ensures
            model_wf(self.model()),
    {
        self.jobs.check_unique();
        self.nodes.check_unique();
        self.allocs.check_unique();
        self.evals.check_unique();
    }

    /// Create an empty state store.
    pub fn new() -> (r: Self)
        ensures
            r.model().jobs.len() == 0,
            r.model().nodes.len() == 0,
            r.model().allocs.len() == 0,
            r.model().evals.len() == 0,
    {
        StateStore { jobs: StrMap::new(), nodes: StrMap::new(), allocs: StrMap::new(), evals: StrMap::new() }
    }

    /// Insert or replace a job, keyed by its name.
    ///
    /// # Errors
    ///
    /// Returns [`Error::Validation`] if the job fails validation.
    pub fn upsert_job(&mut self, job: Job) -> (r: Result<()>)
        ensures
            outcome_matches(r, old(self).model(), final(self).model(), step(old(self).model(), Command::UpsertJob(job))),
    {
        match job.validate() {
            Err(e) => Err(e),
            Ok(()) => {
                proof {
                    use_type_invariant(&*self);
                    lemma_keyed_upsert(self.jobs.pairs(), job_key(), job);
                }
                let name = job.name.clone();
                let mut table = StrMap::new();
                std::mem::swap(&mut table, &mut self.jobs);
                table.insert(name, job);
                std::mem::swap(&mut table, &mut self.jobs);
                Ok(())
            },
        }
    }

    /// The job named `name`, if present.
    pub fn get_job(&self, name: &str) -> (r: Option<&Job>)
        ensures
            match r {
                Some(j) => lookup(self.model().jobs, name@) == Some(*j) && j.name@ == name@,
                None => lookup(self.model().jobs, name@) is None,
            },
    {
        proof {
            use_type_invariant(self);
            lemma_keyed_lookup(self.jobs.pairs(), job_key(), name@);
        }
        self.jobs.get(name)
    }

    /// Remove the job named `name`.
    ///
    /// # Errors
    ///
    /// Returns [`Error::Validation`] if no such job exists.
    pub fn delete_job(&mut self, name: &str) -> (r: Result<()>)
        ensures
            has_key(old(self).model().jobs, name@) ==> r is Ok && final(self).model() == (StoreModel {
                jobs: without(old(self).model().jobs, name@),
                ..old(self).model()
            }),
            !has_key(old(self).model().jobs, name@) ==> (r matches Err(e) && e.is_validation(
                "job '"@ + name@ + "' not found"@,
            )) && final(self).model() == old(self).model(),
    {
        proof {
            reveal_strlit("job '");
            reveal_strlit("' not found");
        }
        proof {
            use_type_invariant(&*self);
            lemma_keyed_without(self.jobs.pairs(), job_key(), name@);
        }
        let mut table = StrMap::new();
        std::mem::swap(&mut table, &mut self.jobs);
        let removed = table.remove(name);
        std::mem::swap(&mut table, &mut self.jobs);
        match removed {
            Some(_) => Ok(()),
            None => {
                let mut m = concat("job '", name);
                m.append("' not found");
                Err(Error::Validation(m))
            },
        }
    }

    /// All jobs currently stored, in insertion order.
    pub fn list_jobs(&self) -> (r: Vec<&Job>)
        ensures
            derefs(r@) == values(self.model().jobs),
    {
        let mut out: Vec<&Job> = Vec::new();
        let mut i: usize = 0;
        while i < self.jobs.len()
            invariant
                i <= self.jobs.pairs().len(),
                derefs(out@) == values(self.jobs.pairs()).take(i as int),
            decreases self.jobs.pairs().len() - i,
        {
            let v = self.jobs.value_at(i);
            proof {
                lemma_derefs_push(out@, v);
            }
            out.push(v);
            assert(values(self.jobs.pairs()).take(i + 1) =~= values(self.jobs.pairs()).take(i as int).push(*v));
            i = i + 1;
        }
        assert(values(self.jobs.pairs()).take(i as int) =~= values(self.jobs.pairs()));
        out
    }

    /// Insert or replace a node, keyed by its id.
    ///
    /// # Errors
    ///
    /// Returns the node's validation error if it is invalid.
    pub fn upsert_node(&mut self, node: Node) -> (r: Result<()>)
        ensures
            outcome_matches(r, old(self).model(), final(self).model(), step(old(self).model(), Command::UpsertNode(node))),
    {
        match node.validate() {
            Err(e) => Err(e),
            Ok(()) => {
                proof {
                    use_type_invariant(&*self);
                    lemma_keyed_upsert(self.nodes.pairs(), node_key(), node);
                }
                let id = node.id.clone();
                let mut table = StrMap::new();
                std::mem::swap(&mut table, &mut self.nodes);
                table.insert(id, node);
                std::mem::swap(&mut table, &mut self.nodes);
                Ok(())
            },
        }
    }

    /// The node with id `id`, if present.
    pub fn get_node(&self, id: &str) -> (r: Option<&Node>)
        ensures
            match r {
                Some(n) => lookup(self.model().nodes, id@) == Some(*n) && n.id@ == id@,
                None => lookup(self.model().nodes, id@) is None,
            },
    {
        proof {
            use_type_invariant(self);
            lemma_keyed_lookup(self.nodes.pairs(), node_key(), id@);
        }
        self.nodes.get(id)
    }

    /// All nodes currently stored, in insertion order.
    pub fn list_nodes(&self) -> (r: Vec<&Node>)
        ensures
            derefs(r@) == values(self.model().nodes),
    {
        let mut out: Vec<&Node> = Vec::new();
        let mut i: usize = 0;
        while i < self.nodes.len()
            invariant
                i <= self.nodes.pairs().len(),
                derefs(out@) == values(self.nodes.pairs()).take(i as int),
            decreases self.nodes.pairs().len() - i,
        {
            let v = self.nodes.value_at(i);
            proof {
                lemma_derefs_push(out@, v);
            }
            out.push(v);
            assert(values(self.nodes.pairs()).take(i + 1) =~= values(self.nodes.pairs()).take(i as int).push(*v));
            i = i + 1;
        }
        assert(values(self.nodes.pairs()).take(i as int) =~= values(self.nodes.pairs()));
        out
    }

    /// Insert or replace an allocation, keyed by its id.
    ///
    /// # Errors
    ///
    /// Returns the allocation's validation error if it is invalid.
    pub fn upsert_alloc(&mut self, alloc: Allocation) -> (r: Result<()>)
        ensures
            outcome_matches(r, old(self).model(), final(self).model(), step(old(self).model(), Command::UpsertAlloc(alloc))),
    {
        match alloc.validate() {
            Err(e) => Err(e),
            Ok(()) => {
                proof {
                    use_type_invariant(&*self);
                    lemma_keyed_upsert(self.allocs.pairs(), alloc_key(), alloc);
                }
                let id = alloc.id.clone();
                let mut table = StrMap::new();
                std::mem::swap(&mut table, &mut self.allocs);
                table.insert(id, alloc);
                std::mem::swap(&mut table, &mut self.allocs);
                Ok(())
            },
        }
    }

    /// The allocation with id `id`, if present.
    pub fn get_alloc(&self, id: &str) -> (r: Option<&Allocation>)
        ensures
            match r {
                Some(a) => lookup(self.model().allocs, id@) == Some(*a) && a.id@ == id@,
                None => lookup(self.model().allocs, id@) is None,
            },
    {
        proof {
            use_type_invariant(self);
            lemma_keyed_lookup(self.allocs.pairs(), alloc_key(), id@);
        }
        self.allocs.get(id)
    }

    /// All allocations currently stored, in insertion order.
    pub fn list_allocs(&self) -> (r: Vec<&Allocation>)
        ensures
            derefs(r@) == values(self.model().allocs),
    {
        let mut out: Vec<&Allocation> = Vec::new();
        let mut i: usize = 0;
        while i < self.allocs.len()
            invariant
                i <= self.allocs.pairs().len(),
                derefs(out@) == values(self.allocs.pairs()).take(i as int),
            decreases self.allocs.pairs().len() - i,
        {
            let v = self.allocs.value_at(i);
            proof {
                lemma_derefs_push(out@, v);
            }
            out.push(v);
            assert(values(self.allocs.pairs()).take(i + 1) =~= values(self.allocs.pairs()).take(i as int).push(*v));
            i = i + 1;
        }
        assert(values(self.allocs.pairs()).take(i as int) =~= values(self.allocs.pairs()));
        out
    }

    /// All allocations placed on the node with id `node_id`, in insertion order.
    pub fn allocs_by_node(&self, node_id: &str) -> (r: Vec<&Allocation>)
        ensures
            derefs(r@) == values(self.model().allocs).filter(|a: Allocation| a.node_id@ == node_id@),
    {
        let ghost p = |a: Allocation| a.node_id@ == node_id@;
        let mut out: Vec<&Allocation> = Vec::new();
        let mut i: usize = 0;
        while i < self.allocs.len()
            invariant
                i <= self.allocs.pairs().len(),
                p == (|a: Allocation| a.node_id@ == node_id@),
                derefs(out@) == values(self.allocs.pairs()).take(i as int).filter(p),
            decreases self.allocs.pairs().len() - i,
        {
            let a = self.allocs.value_at(i);
            let ghost vs = values(self.allocs.pairs());
            assert(vs.take(i + 1).drop_last() =~= vs.take(i as int));
            reveal_with_fuel(Seq::<_>::filter, 1);
            if crate::text::str_eq(a.node_id.as_str(), node_id) {
                proof {
                    lemma_derefs_push(out@, a);
                }
                out.push(a);
            }
            assert(derefs(out@) =~= vs.take(i + 1).filter(p));
            i = i + 1;
        }
        assert(values(self.allocs.pairs()).take(i as int) =~= values(self.allocs.pairs()));
        out
    }

    /// All allocations belonging to the job named `job_id`, in insertion order.
    pub fn allocs_by_job(&self, job_id: &str) -> (r: Vec<&Allocation>)
        ensures
            derefs(r@) == values(self.model().allocs).filter(|a: Allocation| a.job_id@ == job_id@),
    {
        let ghost p = |a: Allocation| a.job_id@ == job_id@;
        let mut out: Vec<&Allocation> = Vec::new();
        let mut i: usize = 0;
        while i < self.allocs.len()
            invariant
                i <= self.allocs.pairs().len(),
                p == (|a: Allocation| a.job_id@ == job_id@),
                derefs(out@) == values(self.allocs.pairs()).take(i as int).filter(p),
            decreases self.allocs.pairs().len() - i,
        {
            let a = self.allocs.value_at(i);
            let ghost vs = values(self.allocs.pairs());
            assert(vs.take(i + 1).drop_last() =~= vs.take(i as int));
            reveal_with_fuel(Seq::<_>::filter, 1);
            if crate::text::str_eq(a.job_id.as_str(), job_id) {
                proof {
                    lemma_derefs_push(out@, a);
                }
                out.push(a);
            }
            assert(derefs(out@) =~= vs.take(i + 1).filter(p));
            i = i + 1;
        }
        assert(values(self.allocs.pairs()).take(i as int) =~= values(self.allocs.pairs()));
        out
    }

    /// Insert or replace an evaluation, keyed by its id.
    ///
    /// # Errors
    ///
    /// Returns [`Error::Validation`] if the evaluation fails validation.
    pub fn upsert_eval(&mut self, eval: Evaluation) -> (r: Result<()>)
        ensures
            outcome_matches(r, old(self).model(), final(self).model(), step(old(self).model(), Command::UpsertEval(eval))),
    {
        match eval.validate() {
            Err(e) => Err(e),
            Ok(()) => {
                proof {
                    use_type_invariant(&*self);
                    lemma_keyed_upsert(self.evals.pairs(), eval_key(), eval);
                }
                let id = String::from_str(eval.id.as_str());
                let mut table = StrMap::new();
                std::mem::swap(&mut table, &mut self.evals);
                table.insert(id, eval);
                std::mem::swap(&mut table, &mut self.evals);
                Ok(())
            },
        }
    }

    /// The evaluation with id `id`, if present.
    pub fn get_eval(&self, id: &str) -> (r: Option<&Evaluation>)
        ensures
            match r {
                Some(e) => lookup(self.model().evals, id@) == Some(*e) && e.id@ == id@,
                None => lookup(self.model().evals, id@) is None,
            },
    {
        proof {
            use_type_invariant(self);
            lemma_keyed_lookup(self.evals.pairs(), eval_key(), id@);
        }
        self.evals.get(id)
    }

    /// All evaluations currently stored, in insertion order.
    pub fn list_evals(&self) -> (r: Vec<&Evaluation>)
        ensures
            derefs(r@) == values(self.model().evals),
    {
        let mut out: Vec<&Evaluation> = Vec::new();
        let mut i: usize = 0;
        while i < self.evals.len()
            invariant
                i <= self.evals.pairs().len(),
                derefs(out@) == values(self.evals.pairs()).take(i as int),
            decreases self.evals.pairs().len() - i,
        {
            let v = self.evals.value_at(i);
            proof {
                lemma_derefs_push(out@, v);
            }
            out.push(v);
            assert(values(self.evals.pairs()).take(i + 1) =~= values(self.evals.pairs()).take(i as int).push(*v));
            i = i + 1;
        }
        assert(values(self.evals.pairs()).take(i as int) =~= values(self.evals.pairs()));
        out
    }

    /// Apply a committed command to the store.
    ///
    /// # Errors
    ///
    /// Returns the error the matching store operation returns.
    pub fn apply(&mut self, command: Command) -> (r: Result<()>)
        ensures
            outcome_matches(r, old(self).model(), final(self).model(), step(old(self).model(), command)),
    {
        match command {
            Command::UpsertJob(job) => self.upsert_job(job),
            Command::DeregisterJob(name) => self.delete_job(name.as_str()),
            Command::UpsertNode(node) => self.upsert_node(node),
            Command::UpsertAlloc(alloc) => self.upsert_alloc(alloc),
            Command::UpsertEval(eval) => self.upsert_eval(eval),
        }
    }
}

} // verus!
