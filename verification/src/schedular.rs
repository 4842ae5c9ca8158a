//! The two-phase orderer: consumes the full task list once and produces a
//! single stable total order — every non-deferred task, in original relative
//! order, followed by every deferred task, in original relative order.

use vstd::prelude::*;

use crate::seq_facts::{
    lemma_concat_multiset, lemma_filter_all_or_none, lemma_filter_partition_len,
    lemma_filter_partition_multiset, lemma_filter_push, lemma_map_values_concat,
};
use crate::task::{Task, TaskView};

verus! {

/// The order the scheduler yields: the non-deferred tasks of `tasks` in
/// their original relative order, then the deferred ones in theirs.
pub open spec fn scheduled_order(tasks: Seq<TaskView>) -> Seq<TaskView> {
    tasks.filter(|t: TaskView| !t.defered) + tasks.filter(|t: TaskView| t.defered)
}

/// The ids of a task sequence, in order.
pub open spec fn ids_of(tasks: Seq<TaskView>) -> Seq<nat> {
    tasks.map_values(|t: TaskView| t.id)
}

/// Partitions a task list into its immediate and deferred groups, each
/// order-preserving, and exposes the resulting total order.
#[derive(Debug)]
pub struct TaskSchedular {
    tasks: Vec<Task>,
    defered_tasks_buf: Vec<Task>,
}

impl TaskSchedular {
    /// The non-deferred group, in original relative order.
    pub closed spec fn immediate(&self) -> Seq<TaskView> {
        self.tasks.deep_view()
    }

    /// The deferred group, in original relative order.
    pub closed spec fn deferred(&self) -> Seq<TaskView> {
        self.defered_tasks_buf.deep_view()
    }

    /// The total order this scheduler yields.
    pub open spec fn ordered(&self) -> Seq<TaskView> {
        self.immediate() + self.deferred()
    }

    #[verifier::type_invariant]
    spec fn wf(&self) -> bool {
        &&& self.tasks@.len() + self.defered_tasks_buf@.len() <= usize::MAX
        &&& forall|i: int|
            0 <= i < self.immediate().len() ==> !(#[trigger] self.immediate()[i]).defered
        &&& forall|i: int|
            0 <= i < self.deferred().len() ==> (#[trigger] self.deferred()[i]).defered
    }

    /// Splits `tasks` into the two groups in a single pass, keeping each
    /// group's relative order.
    pub fn new(tasks: Vec<Task>) -> (s: TaskSchedular)
        ensures
            s.immediate() == tasks.deep_view().filter(|t: TaskView| !t.defered),
            s.deferred() == tasks.deep_view().filter(|t: TaskView| t.defered),
            s.ordered() == scheduled_order(tasks.deep_view()),
    {
        let ghost all = tasks.deep_view();
        let mut immediate_buf: Vec<Task> = Vec::new();
        let mut defered_buf: Vec<Task> = Vec::new();
        let mut i: usize = 0;
        proof {
            assert(all.take(0) =~= Seq::<TaskView>::empty());
            lemma_filter_all_or_none(all.take(0), |t: TaskView| !t.defered);
            lemma_filter_all_or_none(all.take(0), |t: TaskView| t.defered);
            assert(immediate_buf.deep_view() =~= Seq::<TaskView>::empty());
            assert(defered_buf.deep_view() =~= Seq::<TaskView>::empty());
        }
        while i < tasks.len()
            invariant
                i <= tasks.len(),
                all == tasks.deep_view(),
                immediate_buf.deep_view() == all.take(i as int).filter(|t: TaskView| !t.defered),
                defered_buf.deep_view() == all.take(i as int).filter(|t: TaskView| t.defered),
            decreases tasks.len() - i,
        {
            let t = tasks[i].clone();
            proof {
                assert(all.take(i + 1) =~= all.take(i as int).push(all[i as int]));
                lemma_filter_push(all.take(i as int), |t: TaskView| !t.defered, all[i as int]);
                lemma_filter_push(all.take(i as int), |t: TaskView| t.defered, all[i as int]);
            }
            if t.defered {
                defered_buf.push(t);
                proof {
                    assert(defered_buf.deep_view() =~= all.take(i + 1).filter(
                        |t: TaskView| t.defered,
                    ));
                }
            } else {
                immediate_buf.push(t);
                proof {
                    assert(immediate_buf.deep_view() =~= all.take(i + 1).filter(
                        |t: TaskView| !t.defered,
                    ));
                }
            }
            i = i + 1;
        }
        proof {
            assert(all.take(tasks.len() as int) =~= all);
            broadcast use vstd::seq_lib::group_filter_ensures;

            lemma_filter_partition_len(all, |t: TaskView| t.defered, |t: TaskView| !t.defered);
        }
        TaskSchedular { tasks: immediate_buf, defered_tasks_buf: defered_buf }
    }

    /// The total task count across both groups.
    pub fn len(&self) -> (n: usize)
        ensures
            n == self.ordered().len(),
    {
        proof {
            use_type_invariant(self);
        }
        self.tasks.len() + self.defered_tasks_buf.len()
    }

    /// True when the scheduler holds no tasks at all.
    pub fn is_empty(&self) -> (b: bool)
        ensures
            b == (self.ordered().len() == 0),
    {
        self.len() == 0
    }

    /// The task at position `i` of the total order.
    pub fn task_at(&self, i: usize) -> (t: Task)
        requires
            i < self.ordered().len(),
        ensures
            t@ == self.ordered()[i as int],
    {
        proof {
            use_type_invariant(self);
        }
        if i < self.tasks.len() {
            self.tasks[i].clone()
        } else {
            self.defered_tasks_buf[i - self.tasks.len()].clone()
        }
    }
}

/// Every task of the scheduled order comes from the input list.
pub proof fn lemma_scheduled_order_elements(tasks: Seq<TaskView>)
    ensures
        forall|i: int|
            0 <= i < scheduled_order(tasks).len() ==> tasks.contains(
                #[trigger] scheduled_order(tasks)[i],
            ),
{
    let q = |t: TaskView| !t.defered;
    let p = |t: TaskView| t.defered;
    let imm = tasks.filter(q);
    let def = tasks.filter(p);
    let out = scheduled_order(tasks);
    assert forall|i: int| 0 <= i < out.len() implies tasks.contains(#[trigger] out[i]) by {
        if i < imm.len() {
            assert(out[i] == imm[i]);
            crate::seq_facts::lemma_filter_is_subset(tasks, q, i);
        } else {
            assert(out[i] == def[i - imm.len()]);
            crate::seq_facts::lemma_filter_is_subset(tasks, p, i - imm.len());
        }
    }
}

/// The scheduler's output is a permutation of its input that lets every
/// non-deferred task precede every deferred one and keeps each group's
/// relative order: it has the same length, carries every input task — and
/// so every input id — exactly as often as the input does, never places a
/// non-deferred task after a deferred one, and restricts to the input's own
/// subsequences on each group.
pub proof fn lemma_scheduled_order_is_stable_partition(tasks: Seq<TaskView>)
    ensures
        scheduled_order(tasks).len() == tasks.len(),
        scheduled_order(tasks).to_multiset() == tasks.to_multiset(),
        ids_of(scheduled_order(tasks)).to_multiset() == ids_of(tasks).to_multiset(),
        forall|i: int, j: int|
            0 <= i < j < scheduled_order(tasks).len() && (#[trigger] scheduled_order(
                tasks,
            )[i]).defered ==> (#[trigger] scheduled_order(tasks)[j]).defered,
        scheduled_order(tasks).filter(|t: TaskView| !t.defered) == tasks.filter(
            |t: TaskView| !t.defered,
        ),
        scheduled_order(tasks).filter(|t: TaskView| t.defered) == tasks.filter(
            |t: TaskView| t.defered,
        ),
{
    broadcast use vstd::seq_lib::group_filter_ensures;

    let p = |t: TaskView| t.defered;
    let q = |t: TaskView| !t.defered;
    let imm = tasks.filter(q);
    let def = tasks.filter(p);
    let out = scheduled_order(tasks);

    lemma_filter_partition_len(tasks, p, q);

    // Same tasks, counted with multiplicity.
    lemma_concat_multiset(imm, def);
    lemma_filter_partition_multiset(tasks, q, p, |t: TaskView| t);
    assert(imm.map_values(|t: TaskView| t) =~= imm);
    assert(def.map_values(|t: TaskView| t) =~= def);
    assert(tasks.map_values(|t: TaskView| t) =~= tasks);
    assert(out.to_multiset() =~= tasks.to_multiset());

    // Same ids, counted with multiplicity.
    lemma_map_values_concat(imm, def, |t: TaskView| t.id);
    lemma_concat_multiset(ids_of(imm), ids_of(def));
    lemma_filter_partition_multiset(tasks, q, p, |t: TaskView| t.id);
    assert(ids_of(out).to_multiset() =~= ids_of(tasks).to_multiset());

    // No non-deferred task follows a deferred one.
    assert forall|i: int, j: int|
        0 <= i < j < out.len() && (#[trigger] out[i]).defered implies (#[trigger] out[j]).defered by {
        if i < imm.len() {
            assert(!out[i].defered);
        }
        assert(j >= imm.len());
    }

    // Restricted to either group, the output is the input's own subsequence.
    lemma_filter_all_or_none(imm, q);
    lemma_filter_all_or_none(def, q);
    lemma_filter_all_or_none(imm, p);
    lemma_filter_all_or_none(def, p);
    Seq::filter_distributes_over_add(imm, def, q);
    Seq::filter_distributes_over_add(imm, def, p);
    assert(out.filter(q) =~= imm);
    assert(out.filter(p) =~= def);
}

} // verus!
