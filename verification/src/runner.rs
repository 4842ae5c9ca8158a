//! The batch runner's decision core: one worker walks its batch strictly in
//! order and stops at the first failure. The walking state lives here and is
//! verified; the caller performs each task's action and reports the outcome
//! back.

use vstd::prelude::*;

use crate::executor::ExecutionError;
use crate::task::{Task, TaskError, TaskView};

verus! {

/// Whether the environment lets a task's action succeed: `env` holds, at
/// each id, whether that id's action goes through.
pub open spec fn env_ok(t: TaskView, env: Seq<bool>) -> bool
    recommends
        t.id < env.len(),
{
    env[t.id as int]
}

/// What one worker returns for `batch` under outcomes `env`: the id of the
/// first failing task, or nothing when every task succeeds.
pub open spec fn batch_result(batch: Seq<TaskView>, env: Seq<bool>) -> Option<nat>
    decreases batch.len(),
{
    if batch.len() == 0 {
        None
    } else if !env_ok(batch.first(), env) {
        Some(batch.first().id)
    } else {
        batch_result(batch.drop_first(), env)
    }
}

/// How many tasks of `batch` the worker executes under outcomes `env`:
/// everything up to and including the first failure, or the whole batch.
pub open spec fn executed_prefix_len(batch: Seq<TaskView>, env: Seq<bool>) -> int
    decreases batch.len(),
{
    if batch.len() == 0 {
        0
    } else if !env_ok(batch.first(), env) {
        1
    } else {
        1 + executed_prefix_len(batch.drop_first(), env)
    }
}

/// Walks one batch strictly in order, fail-fast: it offers tasks one at a
/// time, and once a failure is recorded it offers no further task.
#[derive(Debug)]
pub struct BatchRunner {
    batch: Vec<Task>,
    pos: usize,
    failure: Option<TaskError>,
}

impl BatchRunner {
    /// The batch this worker walks.
    pub closed spec fn batch_view(&self) -> Seq<TaskView> {
        self.batch.deep_view()
    }

    /// How many tasks have been executed so far.
    pub closed spec fn pos_spec(&self) -> int {
        self.pos as int
    }

    /// The recorded failure, if any: the id of the failing task.
    pub closed spec fn failure_spec(&self) -> Option<nat> {
        match self.failure {
            Some(e) => Some(e@),
            None => None,
        }
    }

    /// True while the worker still has a task to execute.
    pub open spec fn is_running(&self) -> bool {
        self.failure_spec() is None && self.pos_spec() < self.batch_view().len()
    }

    #[verifier::type_invariant]
    spec fn wf(&self) -> bool {
        self.pos <= self.batch.deep_view().len()
    }

    /// A worker for `batch`. An empty batch is a caller bug and is rejected.
    pub fn new(batch: Vec<Task>) -> (r: Result<BatchRunner, ExecutionError>)
        ensures
            r is Err <==> batch.deep_view().len() == 0,
            r is Ok ==> {
                let w = r->Ok_0;
                &&& w.batch_view() == batch.deep_view()
                &&& w.pos_spec() == 0
                &&& w.failure_spec() is None
            },
    {
        if batch.is_empty() {
            Err(ExecutionError)
        } else {
            Ok(BatchRunner { batch, pos: 0, failure: None })
        }
    }

    /// The next task to execute, strictly in batch order — or nothing, once
    /// the batch is exhausted or an earlier task has failed. The latter is
    /// the fail-fast guarantee: a task never runs after a failure within its
    /// batch.
    pub fn next_task(&self) -> (r: Option<Task>)
        ensures
            r is Some <==> self.is_running(),
            r is Some ==> r->0@ == self.batch_view()[self.pos_spec()],
    {
        proof {
            use_type_invariant(self);
        }
        if self.failure.is_some() {
            return None;
        }
        if self.pos < self.batch.len() {
            Some(self.batch[self.pos].clone())
        } else {
            None
        }
    }

    /// Records the outcome of the task last offered: on success the worker
    /// moves on; on failure it remembers that task's id and stops.
    pub fn record(&mut self, succeeded: bool)
        requires
            old(self).is_running(),
        ensures
            final(self).batch_view() == old(self).batch_view(),
            final(self).pos_spec() == old(self).pos_spec() + 1,
            succeeded ==> final(self).failure_spec() is None,
            !succeeded ==> final(self).failure_spec() == Some(
                old(self).batch_view()[old(self).pos_spec()].id,
            ),
    {
        proof {
            use_type_invariant(&*self);
            assert((self.pos as int) < self.batch.deep_view().len());
        }
        let n = self.batch.len();
        proof {
            assert(self.pos < n);
        }
        if !succeeded {
            self.failure = Some(TaskError::new(self.batch[self.pos].id));
        }
        self.pos = self.pos + 1;
    }

    /// What the worker returns to the orchestrator once joined: the first
    /// failure, or nothing when every task of the batch succeeded.
    pub fn result(&self) -> (r: Option<TaskError>)
        ensures
            match self.failure_spec() {
                Some(id) => r is Some && r->0@ == id,
                None => r is None,
            },
    {
        self.failure
    }
}

/// Runs one batch to its fail-fast conclusion under per-task outcomes `env`:
/// the sequential model of the worker that the orchestrator spawns per
/// batch. Rejects an empty batch; otherwise returns the first failure, or
/// nothing when every executed task succeeded.
pub fn run_batch(batch: Vec<Task>, env: &Vec<bool>) -> (r: Result<Option<TaskError>, ExecutionError>)
    requires
        forall|i: int|
            0 <= i < batch.deep_view().len() ==> (#[trigger] batch.deep_view()[i]).id < env.len(),
    ensures
        r is Err <==> batch.deep_view().len() == 0,
        r is Ok ==> match batch_result(batch.deep_view(), env@) {
            Some(id) => r->Ok_0 is Some && r->Ok_0->0@ == id,
            None => r->Ok_0 is None,
        },
{
    let ghost bv = batch.deep_view();
    let mut worker = match BatchRunner::new(batch) {
        Ok(w) => w,
        Err(e) => {
            return Err(e);
        },
    };
    proof {
        assert(bv.skip(0) =~= bv);
    }
    loop
        invariant
            worker.batch_view() == bv,
            forall|i: int| 0 <= i < bv.len() ==> (#[trigger] bv[i]).id < env.len(),
            0 <= worker.pos_spec() <= bv.len(),
            match worker.failure_spec() {
                None => batch_result(bv, env@) == batch_result(
                    bv.skip(worker.pos_spec()),
                    env@,
                ),
                Some(id) => batch_result(bv, env@) == Some(id),
            },
        ensures
            worker.batch_view() == bv,
            !worker.is_running(),
            match worker.failure_spec() {
                None => worker.pos_spec() == bv.len() && batch_result(bv, env@) == batch_result(
                    bv.skip(worker.pos_spec()),
                    env@,
                ),
                Some(id) => batch_result(bv, env@) == Some(id),
            },
        decreases bv.len() - worker.pos_spec() + (if worker.failure_spec() is None {
            1int
        } else {
            0int
        }),
    {
        let t = match worker.next_task() {
            Some(t) => t,
            None => {
                break ;
            },
        };
        let ghost pos = worker.pos_spec();
        let ok = env[t.id];
        proof {
            lemma_batch_result_step(bv, env@, pos);
        }
        worker.record(ok);
    }
    proof {
        if worker.failure_spec() is None {
            assert(worker.pos_spec() == bv.len());
            assert(bv.skip(bv.len() as int) =~= Seq::<TaskView>::empty());
        }
    }
    Ok(worker.result())
}

/// One step of the fail-fast recursion: at position `pos` of the batch, a
/// success moves the result computation one task further, and a failure
/// settles it on that task's id.
proof fn lemma_batch_result_step(bv: Seq<TaskView>, env: Seq<bool>, pos: int)
    requires
        0 <= pos < bv.len(),
        batch_result(bv, env) == batch_result(bv.skip(pos), env),
    ensures
        env_ok(bv[pos], env) ==> batch_result(bv, env) == batch_result(bv.skip(pos + 1), env),
        !env_ok(bv[pos], env) ==> batch_result(bv, env) == Some(bv[pos].id),
{
    let tail = bv.skip(pos);
    assert(tail.first() == bv[pos]);
    assert(tail.drop_first() =~= bv.skip(pos + 1));
}

/// A batch whose every task succeeds runs to completion and reports no
/// failure.
pub proof fn lemma_all_ok_runs_whole_batch(batch: Seq<TaskView>, env: Seq<bool>)
    requires
        forall|i: int| 0 <= i < batch.len() ==> env_ok(#[trigger] batch[i], env),
    ensures
        batch_result(batch, env) is None,
        executed_prefix_len(batch, env) == batch.len(),
    decreases batch.len(),
{
    if batch.len() > 0 {
        let tail = batch.drop_first();
        assert forall|i: int| 0 <= i < tail.len() implies env_ok(#[trigger] tail[i], env) by {
            assert(tail[i] == batch[i + 1]);
        }
        lemma_all_ok_runs_whole_batch(tail, env);
    }
}

/// The fail-fast law for one batch: when some task fails, the worker
/// executes exactly the tasks up to and including the first failure — every
/// earlier task succeeded, that task failed, no later task runs — and
/// returns that task's id; when no task fails, it executes the whole batch
/// and returns nothing.
pub proof fn lemma_fail_fast(batch: Seq<TaskView>, env: Seq<bool>)
    ensures
        batch_result(batch, env) is Some ==> {
            let k = executed_prefix_len(batch, env) - 1;
            &&& 0 <= k < batch.len()
            &&& !env_ok(batch[k], env)
            &&& batch_result(batch, env) == Some(batch[k].id)
            &&& forall|i: int| 0 <= i < k ==> env_ok(#[trigger] batch[i], env)
        },
        batch_result(batch, env) is None ==> executed_prefix_len(batch, env) == batch.len()
            && forall|i: int| 0 <= i < batch.len() ==> env_ok(#[trigger] batch[i], env),
    decreases batch.len(),
{
    if batch.len() > 0 && env_ok(batch.first(), env) {
        lemma_fail_fast(batch.drop_first(), env);
        let tail = batch.drop_first();
        assert forall|i: int| 1 <= i < batch.len() implies batch[i] == tail[i - 1] by {}
    }
}

} // verus!
