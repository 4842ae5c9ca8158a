//! The batch executor: a two-state phase machine (`Immediate`, then
//! `Deferred` after one explicit toggle) that slices the scheduler's total
//! order into windows of at most `batch_size` tasks and yields each window
//! restricted to the tasks eligible in the current phase.

use vstd::prelude::*;

use crate::schedular::TaskSchedular;
use crate::seq_facts::{lemma_filter_all_or_none, lemma_filter_push};
use crate::task::{Task, TaskView};

verus! {

/// A task may run in the current phase exactly when its deferred marker
/// matches the phase: non-deferred tasks in the immediate phase, deferred
/// tasks in the deferred phase.
pub open spec fn eligible(t: TaskView, deferred_phase: bool) -> bool {
    t.defered == deferred_phase
}

/// Where the window that starts at `c` ends: `batch_size` tasks further,
/// or at the end of the sequence, whichever comes first.
pub open spec fn window_end(len: int, c: int, b: int) -> int {
    if c + b <= len {
        c + b
    } else {
        len
    }
}

/// The batches a phase still yields from cursor `c` on: each window of at
/// most `b` tasks of the total order is restricted to the phase's eligible
/// tasks, and windows left empty by that restriction yield nothing.
pub open spec fn window_batches(s: Seq<TaskView>, b: int, deferred_phase: bool, c: int) -> Seq<
    Seq<TaskView>,
>
    decreases s.len() - c,
    when 0 <= c && 1 <= b
{
    if c >= s.len() {
        Seq::empty()
    } else {
        let c2 = window_end(s.len() as int, c, b);
        let w = s.subrange(c, c2).filter(|t: TaskView| eligible(t, deferred_phase));
        let rest = window_batches(s, b, deferred_phase, c2);
        if w.len() > 0 {
            seq![w] + rest
        } else {
            rest
        }
    }
}

/// Raised when a batch runner is handed an empty batch: a caller bug, since
/// the executor never yields one.
#[derive(Clone, Copy, Debug, PartialEq, Eq, Structural)]
pub struct ExecutionError;

/// Yields successive batches of the current phase until the phase has no
/// more eligible tasks to offer; an explicit toggle then re-scans the total
/// order from its start for the deferred phase.
#[derive(Debug)]
pub struct TasksExecutor {
    _task_schedular: TaskSchedular,
    batch_size: usize,
    /// `false` in the initial, immediate phase; `true` once toggled into the
    /// deferred phase.
    switch: bool,
    cursor: usize,
}

impl TasksExecutor {
    /// The scheduler's total order this executor slices.
    pub closed spec fn ordered(&self) -> Seq<TaskView> {
        self._task_schedular.ordered()
    }

    /// The configured batch size.
    pub closed spec fn batch_size_spec(&self) -> int {
        self.batch_size as int
    }

    /// Whether the executor has been toggled into the deferred phase.
    pub closed spec fn in_deferred_phase(&self) -> bool {
        self.switch
    }

    /// The next unconsumed offset within the total order.
    pub closed spec fn cursor_spec(&self) -> int {
        self.cursor as int
    }

    /// The batches the current phase still has to yield.
    pub open spec fn pending_batches(&self) -> Seq<Seq<TaskView>> {
        window_batches(
            self.ordered(),
            self.batch_size_spec(),
            self.in_deferred_phase(),
            self.cursor_spec(),
        )
    }

    #[verifier::type_invariant]
    spec fn wf(&self) -> bool {
        &&& self.batch_size >= 1
        &&& self.cursor <= self.ordered().len()
    }

    /// A fresh executor in the immediate phase, positioned at the start of
    /// the scheduler's total order. The caller must have normalized the
    /// batch size already: the executor itself demands at least one.
    pub fn new(task_schedular: TaskSchedular, batch_size: usize) -> (e: TasksExecutor)
        requires
            batch_size >= 1,
        ensures
            e.ordered() == task_schedular.ordered(),
            e.batch_size_spec() == batch_size as int,
            !e.in_deferred_phase(),
            e.cursor_spec() == 0,
    {
        TasksExecutor { _task_schedular: task_schedular, batch_size, switch: false, cursor: 0 }
    }

    /// Switches from the immediate to the deferred phase, exactly once per
    /// run, and re-scans the total order from the start. A second toggle is
    /// out of contract.
    pub fn toggle_switch(&mut self)
        requires
            !old(self).in_deferred_phase(),
        ensures
            final(self).in_deferred_phase(),
            final(self).cursor_spec() == 0,
            final(self).ordered() == old(self).ordered(),
            final(self).batch_size_spec() == old(self).batch_size_spec(),
    {
        proof {
            use_type_invariant(&*self);
        }
        self.switch = true;
        self.cursor = 0;
    }

    /// Up to `batch_size` tasks drawn from the current position of the total
    /// order, restricted to the current phase's eligible tasks; `None` once
    /// the phase has no more eligible tasks to offer. Each yield hands out
    /// the head of `pending_batches` — never empty, pure to the current
    /// phase, and drawn from the total order — and advances past it.
    pub fn next_batch(&mut self) -> (r: Option<Vec<Task>>)
        ensures
            final(self).ordered() == old(self).ordered(),
            final(self).batch_size_spec() == old(self).batch_size_spec(),
            final(self).in_deferred_phase() == old(self).in_deferred_phase(),
            old(self).pending_batches().len() == 0 ==> r is None,
            old(self).pending_batches().len() > 0 ==> r is Some && r->0.deep_view() == old(
                self,
            ).pending_batches()[0] && final(self).pending_batches() == old(
                self,
            ).pending_batches().drop_first(),
            r is None ==> final(self).pending_batches().len() == 0,
            r is Some ==> r->0.deep_view().len() > 0 && forall|j: int|
                0 <= j < r->0.deep_view().len() ==> eligible(
                    #[trigger] r->0.deep_view()[j],
                    old(self).in_deferred_phase(),
                ) && old(self).ordered().contains(r->0.deep_view()[j]),
    {
        proof {
            use_type_invariant(&*self);
        }
        let ghost s = self.ordered();
        let ghost ph = self.switch;
        let ghost b = self.batch_size as int;
        let len = self._task_schedular.len();
        while self.cursor < len
            invariant
                s == old(self).ordered(),
                b == old(self).batch_size_spec(),
                ph == old(self).in_deferred_phase(),
                len == s.len(),
                self.ordered() == s,
                self.batch_size as int == b,
                self.switch == ph,
                self.batch_size >= 1,
                self.cursor <= len,
                self._task_schedular == old(self)._task_schedular,
                window_batches(s, b, ph, self.cursor as int) == old(self).pending_batches(),
            decreases len - self.cursor,
        {
            let start = self.cursor;
            let end = if len - start <= self.batch_size {
                len
            } else {
                start + self.batch_size
            };
            proof {
                assert(end as int == window_end(s.len() as int, start as int, b));
            }
            let ghost wpred = |t: TaskView| eligible(t, ph);
            let mut batch: Vec<Task> = Vec::new();
            let mut j = start;
            proof {
                assert(s.subrange(start as int, start as int) =~= Seq::<TaskView>::empty());
                lemma_filter_all_or_none(s.subrange(start as int, start as int), wpred);
                assert(batch.deep_view() =~= Seq::<TaskView>::empty());
            }
            while j < end
                invariant
                    start <= j <= end <= len,
                    len == s.len(),
                    self.ordered() == s,
                    self.switch == ph,
                    batch.deep_view() == s.subrange(start as int, j as int).filter(wpred),
                    wpred == (|t: TaskView| eligible(t, ph)),
                decreases end - j,
            {
                let t = self._task_schedular.task_at(j);
                proof {
                    assert(s.subrange(start as int, j + 1) =~= s.subrange(
                        start as int,
                        j as int,
                    ).push(s[j as int]));
                    lemma_filter_push(s.subrange(start as int, j as int), wpred, s[j as int]);
                }
                if t.defered == self.switch {
                    batch.push(t);
                    proof {
                        assert(batch.deep_view() =~= s.subrange(start as int, j + 1).filter(wpred));
                    }
                }
                j = j + 1;
            }
            self.cursor = end;
            if batch.len() > 0 {
                proof {
                    broadcast use vstd::seq_lib::group_filter_ensures;

                    let win = s.subrange(start as int, end as int);
                    let w = win.filter(wpred);
                    assert(window_batches(s, b, ph, start as int) == seq![w] + window_batches(
                        s,
                        b,
                        ph,
                        end as int,
                    ));
                    assert((seq![w] + window_batches(s, b, ph, end as int))[0] == w);
                    assert((seq![w] + window_batches(s, b, ph, end as int)).drop_first()
                        =~= window_batches(s, b, ph, end as int));
                    assert forall|j: int| 0 <= j < w.len() implies eligible(#[trigger] w[j], ph)
                        && s.contains(w[j]) by {
                        assert(wpred(w[j]));
                        crate::seq_facts::lemma_filter_is_subset(win, wpred, j);
                        let wi = choose|wi: int| 0 <= wi < win.len() && win[wi] == w[j];
                        assert(s[start + wi] == w[j]);
                    }
                }
                return Some(batch);
            }
            proof {
                assert(window_batches(s, b, ph, start as int) == window_batches(
                    s,
                    b,
                    ph,
                    end as int,
                ));
            }
        }
        proof {
            assert(window_batches(s, b, ph, self.cursor as int) =~= Seq::<Seq<TaskView>>::empty());
        }
        None
    }
}

/// The total size of a run of batches.
pub open spec fn sum_sizes(batches: Seq<Seq<TaskView>>) -> int
    decreases batches.len(),
{
    if batches.len() == 0 {
        0
    } else {
        batches.first().len() + sum_sizes(batches.drop_first())
    }
}

proof fn lemma_sum_sizes_cons(w: Seq<TaskView>, rest: Seq<Seq<TaskView>>)
    ensures
        sum_sizes(seq![w] + rest) == w.len() + sum_sizes(rest),
{
    assert((seq![w] + rest).first() == w);
    assert((seq![w] + rest).drop_first() =~= rest);
    assert((seq![w] + rest).len() > 0);
}

proof fn lemma_batch_sizes_cover_from(s: Seq<TaskView>, b: int, deferred_phase: bool, c: int)
    requires
        1 <= b,
        0 <= c <= s.len(),
    ensures
        sum_sizes(window_batches(s, b, deferred_phase, c)) == s.skip(c).filter(
            |t: TaskView| eligible(t, deferred_phase),
        ).len(),
    decreases s.len() - c,
{
    let pred = |t: TaskView| eligible(t, deferred_phase);
    if c >= s.len() {
        assert(s.skip(c) =~= Seq::<TaskView>::empty());
        lemma_filter_all_or_none(s.skip(c), pred);
    } else {
        let c2 = window_end(s.len() as int, c, b);
        let w = s.subrange(c, c2).filter(pred);
        lemma_batch_sizes_cover_from(s, b, deferred_phase, c2);
        assert(s.skip(c) =~= s.subrange(c, c2) + s.skip(c2));
        Seq::filter_distributes_over_add(s.subrange(c, c2), s.skip(c2), pred);
        if w.len() > 0 {
            lemma_sum_sizes_cons(w, window_batches(s, b, deferred_phase, c2));
        }
    }
}

/// Over a whole phase nothing is dropped and nothing is repeated: the batch
/// sizes of the phase sum to exactly the number of tasks eligible in it.
pub proof fn lemma_batch_sizes_cover_phase(s: Seq<TaskView>, b: int, deferred_phase: bool)
    requires
        1 <= b,
    ensures
        sum_sizes(window_batches(s, b, deferred_phase, 0)) == s.filter(
            |t: TaskView| eligible(t, deferred_phase),
        ).len(),
{
    lemma_batch_sizes_cover_from(s, b, deferred_phase, 0);
    assert(s.skip(0) =~= s);
}

/// Every yielded batch is non-empty, holds only tasks eligible in its phase,
/// and holds only tasks of the total order it was sliced from.
pub proof fn lemma_batches_eligible(s: Seq<TaskView>, b: int, deferred_phase: bool, c: int)
    requires
        1 <= b,
        0 <= c <= s.len(),
    ensures
        forall|k: int|
            0 <= k < window_batches(s, b, deferred_phase, c).len() ==> (#[trigger] window_batches(
                s,
                b,
                deferred_phase,
                c,
            )[k]).len() > 0,
        forall|k: int, j: int|
            0 <= k < window_batches(s, b, deferred_phase, c).len() && 0 <= j < window_batches(
                s,
                b,
                deferred_phase,
                c,
            )[k].len() ==> eligible(#[trigger] window_batches(s, b, deferred_phase, c)[k][j], deferred_phase)
                && s.contains(window_batches(s, b, deferred_phase, c)[k][j]),
    decreases s.len() - c,
{
    broadcast use vstd::seq_lib::group_filter_ensures;

    let pred = |t: TaskView| eligible(t, deferred_phase);
    let out = window_batches(s, b, deferred_phase, c);
    if c < s.len() {
        let c2 = window_end(s.len() as int, c, b);
        let win = s.subrange(c, c2);
        let w = win.filter(pred);
        lemma_batches_eligible(s, b, deferred_phase, c2);
        let rest = window_batches(s, b, deferred_phase, c2);
        if w.len() > 0 {
            assert forall|k: int| 0 <= k < out.len() implies (#[trigger] out[k]).len() > 0 by {
                if k > 0 {
                    assert(out[k] == rest[k - 1]);
                }
            }
            assert forall|k: int, j: int|
                0 <= k < out.len() && 0 <= j < out[k].len() implies eligible(
                #[trigger] out[k][j],
                deferred_phase,
            ) && s.contains(out[k][j]) by {
                if k == 0 {
                    assert(pred(w[j]));
                    crate::seq_facts::lemma_filter_is_subset(win, pred, j);
                    let wi = choose|wi: int| 0 <= wi < win.len() && win[wi] == w[j];
                    assert(s[c + wi] == w[j]);
                    assert(s.contains(w[j]));
                } else {
                    assert(out[k] == rest[k - 1]);
                }
            }
        }
    }
}

/// The degenerate single-window case, `batch_size >= total task count`: the
/// phase yields exactly one batch holding all its eligible tasks, or nothing
/// at all when the phase has none.
pub proof fn lemma_single_window(s: Seq<TaskView>, b: int, deferred_phase: bool)
    requires
        1 <= b,
        s.len() <= b,
    ensures
        window_batches(s, b, deferred_phase, 0) == if s.filter(
            |t: TaskView| eligible(t, deferred_phase),
        ).len() > 0 {
            seq![s.filter(|t: TaskView| eligible(t, deferred_phase))]
        } else {
            Seq::<Seq<TaskView>>::empty()
        },
{
    let pred = |t: TaskView| eligible(t, deferred_phase);
    if s.len() > 0 {
        assert(window_end(s.len() as int, 0, b) == s.len());
        assert(s.subrange(0, s.len() as int) =~= s);
        assert(window_batches(s, b, deferred_phase, s.len() as int) =~= Seq::<
            Seq<TaskView>,
        >::empty());
        if s.filter(pred).len() > 0 {
            assert(seq![s.filter(pred)] + Seq::<Seq<TaskView>>::empty() =~= seq![s.filter(pred)]);
        }
    } else {
        assert(s.filter(pred) =~= Seq::<TaskView>::empty()) by {
            lemma_filter_all_or_none(s, pred);
        }
    }
}

/// The degenerate empty case: with no tasks at all, neither phase yields a
/// batch.
pub proof fn lemma_no_tasks_no_batches(s: Seq<TaskView>, b: int, deferred_phase: bool)
    requires
        1 <= b,
        s.len() == 0,
    ensures
        window_batches(s, b, deferred_phase, 0) == Seq::<Seq<TaskView>>::empty(),
{
}

} // verus!
