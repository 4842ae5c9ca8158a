use tmplt::executor::{ExecutionError, TasksExecutor};
use tmplt::orchestrator::run_report;
use tmplt::runner::{run_batch, BatchRunner};
use tmplt::schedular::TaskSchedular;
use tmplt::task::{Action, Task};

fn path_task(id: usize, defered: bool) -> Task {
    Task::new(
        Action::MakePath { path: format!("p{id}"), is_file: false },
        defered,
        id,
    )
}

fn tasks_from_flags(flags: &[bool]) -> Vec<Task> {
    flags
        .iter()
        .enumerate()
        .map(|(id, &defered)| path_task(id, defered))
        .collect()
}

fn drain_phase(executor: &mut TasksExecutor) -> Vec<Vec<Task>> {
    let mut batches = Vec::new();
    while let Some(batch) = executor.next_batch() {
        batches.push(batch);
    }
    batches
}

#[test]
fn scheduler_keeps_every_task_and_the_group_order() {
    // Deferred flags [F, T, F, F, T] with ids [0, 1, 2, 3, 4] must come out
    // as [0, 2, 3, 1, 4].
    let schedular = TaskSchedular::new(tasks_from_flags(&[false, true, false, false, true]));
    assert_eq!(schedular.len(), 5);
    assert!(!schedular.is_empty());
    let order: Vec<usize> = (0..schedular.len()).map(|i| schedular.task_at(i).id).collect();
    assert_eq!(order, vec![0, 2, 3, 1, 4]);
}

#[test]
fn scheduler_of_nothing_is_empty() {
    let schedular = TaskSchedular::new(Vec::new());
    assert_eq!(schedular.len(), 0);
    assert!(schedular.is_empty());
}

#[test]
fn batch_sizes_of_each_phase_sum_to_its_task_count() {
    // 4 immediate and 3 deferred tasks, batch size 2.
    let flags = [false, true, false, true, false, false, true];
    let schedular = TaskSchedular::new(tasks_from_flags(&flags));
    let mut executor = TasksExecutor::new(schedular, 2);

    let immediate: Vec<Vec<Task>> = drain_phase(&mut executor);
    let total: usize = immediate.iter().map(|b| b.len()).sum();
    assert_eq!(total, 4);

    executor.toggle_switch();
    let deferred: Vec<Vec<Task>> = drain_phase(&mut executor);
    let total: usize = deferred.iter().map(|b| b.len()).sum();
    assert_eq!(total, 3);
}

#[test]
fn no_batch_mixes_the_phases() {
    let flags = [true, false, true, false, false, true, true, false];
    let schedular = TaskSchedular::new(tasks_from_flags(&flags));
    let mut executor = TasksExecutor::new(schedular, 3);

    for batch in drain_phase(&mut executor) {
        assert!(!batch.is_empty());
        assert!(batch.iter().all(|t| !t.defered));
    }
    executor.toggle_switch();
    for batch in drain_phase(&mut executor) {
        assert!(!batch.is_empty());
        assert!(batch.iter().all(|t| t.defered));
    }
}

#[test]
fn one_window_covering_everything_still_splits_the_phases() {
    // 3 tasks, 1 non-deferred and 2 deferred, batch size 50: the immediate
    // phase yields exactly one batch of size 1, the deferred phase exactly
    // one batch of size 2.
    let schedular = TaskSchedular::new(tasks_from_flags(&[true, false, true]));
    let mut executor = TasksExecutor::new(schedular, 50);

    let immediate = drain_phase(&mut executor);
    assert_eq!(immediate.len(), 1);
    assert_eq!(immediate[0].len(), 1);
    assert_eq!(immediate[0][0].id, 1);

    executor.toggle_switch();
    let deferred = drain_phase(&mut executor);
    assert_eq!(deferred.len(), 1);
    assert_eq!(deferred[0].len(), 2);
    assert_eq!(deferred[0][0].id, 0);
    assert_eq!(deferred[0][1].id, 2);
}

#[test]
fn zero_tasks_yield_no_batch_in_either_phase() {
    let schedular = TaskSchedular::new(Vec::new());
    let mut executor = TasksExecutor::new(schedular, 10);
    assert!(executor.next_batch().is_none());
    executor.toggle_switch();
    assert!(executor.next_batch().is_none());
}

#[test]
fn a_worker_stops_at_the_first_failure() {
    // A batch of three tasks where the second fails: the third must never
    // be offered, and the worker returns the second task's error.
    let batch = tasks_from_flags(&[false, false, false]);
    let mut worker = BatchRunner::new(batch).expect("non-empty batch");

    let first = worker.next_task().expect("first task");
    assert_eq!(first.id, 0);
    worker.record(true);

    let second = worker.next_task().expect("second task");
    assert_eq!(second.id, 1);
    worker.record(false);

    assert!(worker.next_task().is_none());
    let failure = worker.result().expect("the failure is reported");
    assert_eq!(failure.task_id(), 1);
}

#[test]
fn an_empty_batch_is_rejected() {
    assert!(matches!(BatchRunner::new(Vec::new()), Err(ExecutionError)));
    let env = vec![true];
    assert!(run_batch(Vec::new(), &env).is_err());
}

#[test]
fn a_failing_batch_never_masks_its_sibling() {
    // Batch A: ids 0, 1 where 1 fails. Batch B: ids 2, 3, both fine. With
    // batch size 2 and no deferred work both batches belong to the same
    // phase; exactly one error is reported, and it names task 1.
    let tasks = tasks_from_flags(&[false, false, false, false]);
    let env = vec![true, false, true, true];
    let report = run_report(tasks, 2, &env);
    assert_eq!(report.len(), 1);
    assert_eq!(report[0].task_id(), 1);

    let batch_b = vec![path_task(2, false), path_task(3, false)];
    let outcome = run_batch(batch_b, &env).expect("non-empty batch");
    assert!(outcome.is_none());
}

#[test]
fn the_report_is_the_same_on_a_second_run() {
    let flags = [false, true, false, false, true, false];
    let env = vec![true, false, false, true, true, false];
    let first: Vec<usize> = run_report(tasks_from_flags(&flags), 2, &env)
        .iter()
        .map(|e| e.task_id())
        .collect();
    let second: Vec<usize> = run_report(tasks_from_flags(&flags), 2, &env)
        .iter()
        .map(|e| e.task_id())
        .collect();
    assert_eq!(first, second);
    // The failing ids are reported phase by phase: immediate tasks 2 and 5,
    // then the deferred task 1.
    assert_eq!(first, vec![2, 5, 1]);
}

#[test]
fn a_run_where_everything_fails_still_completes() {
    let flags = [false, false, true];
    let env = vec![false, false, false];
    let report = run_report(tasks_from_flags(&flags), 1, &env);
    // One worker per single-task batch, each reporting its own failure.
    let ids: Vec<usize> = report.iter().map(|e| e.task_id()).collect();
    assert_eq!(ids, vec![0, 1, 2]);
}

#[test]
fn task_outcomes_become_results() {
    let t = path_task(7, false);
    assert!(t.execute_task(true).is_ok());
    let err = t.execute_task(false).unwrap_err();
    assert_eq!(err.task_id(), 7);
}
