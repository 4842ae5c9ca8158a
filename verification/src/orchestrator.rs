//! The run orchestrator's contract: drive the immediate phase to completion,
//! toggle once, drive the deferred phase to completion, and collect every
//! worker's failure without stopping for any of them. The run always
//! completes, even if every task failed.

use vstd::prelude::*;

use crate::executor::{window_batches, TasksExecutor};
use crate::runner::{
    batch_result, env_ok, executed_prefix_len, lemma_all_ok_runs_whole_batch, run_batch,
};
use crate::schedular::{lemma_scheduled_order_elements, scheduled_order, TaskSchedular};
use crate::task::{Task, TaskError, TaskView};

verus! {

/// The failures one phase reports: for each batch in yield order, the id of
/// its first failing task, skipping batches whose tasks all succeed.
pub open spec fn reports_of(batches: Seq<Seq<TaskView>>, env: Seq<bool>) -> Seq<nat>
    decreases batches.len(),
{
    if batches.len() == 0 {
        Seq::empty()
    } else {
        let rest = reports_of(batches.drop_first(), env);
        match batch_result(batches.first(), env) {
            Some(id) => seq![id] + rest,
            None => rest,
        }
    }
}

/// Everything a whole run reports under per-task outcomes `env`: the
/// immediate phase's failures in batch order, then the deferred phase's.
pub open spec fn run_report_spec(tasks: Seq<TaskView>, batch_size: int, env: Seq<bool>) -> Seq<
    nat,
> {
    let s = scheduled_order(tasks);
    reports_of(window_batches(s, batch_size, false, 0), env) + reports_of(
        window_batches(s, batch_size, true, 0),
        env,
    )
}

/// Drives the executor's current phase to exhaustion, running each yielded
/// batch fail-fast and appending each batch's failure, if any, to `errors`.
fn run_phase(executor: &mut TasksExecutor, env: &Vec<bool>, errors: &mut Vec<TaskError>)
    requires
        forall|i: int|
            0 <= i < old(executor).ordered().len() ==> (#[trigger] old(executor).ordered()[i]).id
                < env.len(),
    ensures
        final(executor).ordered() == old(executor).ordered(),
        final(executor).batch_size_spec() == old(executor).batch_size_spec(),
        final(executor).in_deferred_phase() == old(executor).in_deferred_phase(),
        final(executor).pending_batches().len() == 0,
        final(errors).deep_view() == old(errors).deep_view() + reports_of(
            old(executor).pending_batches(),
            env@,
        ),
{
    loop
        invariant
            executor.ordered() == old(executor).ordered(),
            executor.batch_size_spec() == old(executor).batch_size_spec(),
            executor.in_deferred_phase() == old(executor).in_deferred_phase(),
            forall|i: int|
                0 <= i < executor.ordered().len() ==> (#[trigger] executor.ordered()[i]).id
                    < env.len(),
            errors.deep_view() + reports_of(executor.pending_batches(), env@) == old(
                errors,
            ).deep_view() + reports_of(old(executor).pending_batches(), env@),
        ensures
            executor.ordered() == old(executor).ordered(),
            executor.batch_size_spec() == old(executor).batch_size_spec(),
            executor.in_deferred_phase() == old(executor).in_deferred_phase(),
            executor.pending_batches().len() == 0,
            errors.deep_view() == old(errors).deep_view() + reports_of(
                old(executor).pending_batches(),
                env@,
            ),
        decreases executor.pending_batches().len(),
    {
        let ghost pending = executor.pending_batches();
        let batch = match executor.next_batch() {
            Some(b) => b,
            None => {
                proof {
                    assert(reports_of(executor.pending_batches(), env@) =~= Seq::<nat>::empty());
                    assert(errors.deep_view() =~= errors.deep_view() + Seq::<nat>::empty());
                }
                break ;
            },
        };
        let ghost bv = batch.deep_view();
        proof {
            assert(bv == pending[0]);
            assert(pending.first() == pending[0]);
            assert forall|i: int| 0 <= i < bv.len() implies (#[trigger] bv[i]).id < env.len() by {
                assert(executor.ordered().contains(bv[i]));
                let k = choose|k: int|
                    0 <= k < executor.ordered().len() && executor.ordered()[k] == bv[i];
                assert(executor.ordered()[k].id < env.len());
            }
        }
        let outcome = match run_batch(batch, env) {
            Ok(o) => o,
            Err(_) => {
                proof {
                    assert(pending[0].len() > 0);
                    assert(false);
                }
                None
            },
        };
        proof {
            assert(reports_of(pending, env@) == match batch_result(bv, env@) {
                Some(id) => seq![id] + reports_of(pending.drop_first(), env@),
                None => reports_of(pending.drop_first(), env@),
            });
        }
        match outcome {
            Some(e) => {
                let ghost before = errors.deep_view();
                errors.push(e);
                proof {
                    let id = batch_result(bv, env@)->0;
                    assert(errors.deep_view() =~= before.push(e.deep_view()));
                    assert(before.push(id) =~= before + seq![id]);
                    assert((before + seq![id]) + reports_of(pending.drop_first(), env@) =~= before
                        + (seq![id] + reports_of(pending.drop_first(), env@)));
                }
            },
            None => {},
        }
    }
}

/// The whole orchestrated run, as a function of the task list, the batch
/// size, and each task's outcome: schedule, batch and run the immediate
/// phase, toggle once, run the deferred phase, and return every recorded
/// failure. A task failure never aborts a sibling batch or the other phase;
/// the run itself always completes.
pub fn run_report(tasks: Vec<Task>, batch_size: usize, env: &Vec<bool>) -> (r: Vec<TaskError>)
    requires
        batch_size >= 1,
        forall|i: int|
            0 <= i < tasks.deep_view().len() ==> (#[trigger] tasks.deep_view()[i]).id < env.len(),
    ensures
        r.deep_view() == run_report_spec(tasks.deep_view(), batch_size as int, env@),
{
    let ghost tv = tasks.deep_view();
    let ghost s = scheduled_order(tv);
    let schedular = TaskSchedular::new(tasks);
    proof {
        lemma_scheduled_order_elements(tv);
        assert forall|i: int| 0 <= i < s.len() implies (#[trigger] s[i]).id < env.len() by {
            assert(tv.contains(s[i]));
            let k = choose|k: int| 0 <= k < tv.len() && tv[k] == s[i];
            assert(tv[k].id < env.len());
        }
    }
    let mut executor = TasksExecutor::new(schedular, batch_size);
    let mut errors: Vec<TaskError> = Vec::new();
    proof {
        assert(errors.deep_view() =~= Seq::<nat>::empty());
    }
    let ghost immediate_batches = executor.pending_batches();
    run_phase(&mut executor, env, &mut errors);
    executor.toggle_switch();
    let ghost deferred_batches = executor.pending_batches();
    run_phase(&mut executor, env, &mut errors);
    proof {
        assert(errors.deep_view() =~= (Seq::<nat>::empty() + reports_of(immediate_batches, env@))
            + reports_of(deferred_batches, env@));
        assert(Seq::<nat>::empty() + reports_of(immediate_batches, env@) =~= reports_of(
            immediate_batches,
            env@,
        ));
    }
    errors
}

/// Cross-batch independence: a failure inside one batch never masks another
/// batch's work. When batch `a` holds a failing task and every task of batch
/// `b` succeeds, the two batches together report exactly one failure — `a`'s
/// first — while `b` runs to completion.
pub proof fn lemma_cross_batch_independence(a: Seq<TaskView>, b: Seq<TaskView>, env: Seq<bool>)
    requires
        batch_result(a, env) is Some,
        forall|i: int| 0 <= i < b.len() ==> env_ok(#[trigger] b[i], env),
    ensures
        reports_of(seq![a, b], env) == seq![batch_result(a, env)->0],
        executed_prefix_len(b, env) == b.len(),
{
    lemma_all_ok_runs_whole_batch(b, env);
    let two = seq![a, b];
    assert(two.first() == a);
    assert(two.drop_first() =~= seq![b]);
    assert(seq![b].first() == b);
    assert(seq![b].drop_first() =~= Seq::<Seq<TaskView>>::empty());
    assert(reports_of(Seq::<Seq<TaskView>>::empty(), env) == Seq::<nat>::empty());
    assert(batch_result(b, env) is None);
    assert(reports_of(seq![b], env) == Seq::<nat>::empty());
    assert(seq![batch_result(a, env)->0] + Seq::<nat>::empty() =~= seq![batch_result(a, env)->0]);
}

/// Idempotence of reporting: what a run reports is a function of the task
/// list, the batch size, and each task's outcome alone, so running the same
/// fixed task list twice under the same environment reports the same task
/// ids, in the same order.
pub proof fn lemma_report_idempotent(
    tasks_first: Seq<TaskView>,
    tasks_second: Seq<TaskView>,
    batch_first: int,
    batch_second: int,
    env_first: Seq<bool>,
    env_second: Seq<bool>,
)
    requires
        tasks_first == tasks_second,
        batch_first == batch_second,
        env_first == env_second,
    ensures
        run_report_spec(tasks_first, batch_first, env_first) == run_report_spec(
            tasks_second,
            batch_second,
            env_second,
        ),
{
}

} // verus!
