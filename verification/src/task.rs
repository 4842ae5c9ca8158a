//! The unit-of-work model: a `Task` wraps one executable action with an
//! identity and a marker saying whether it runs in the deferred phase.

use vstd::prelude::*;

verus! {

/// Mathematical model of an [`Action`].
pub enum ActionView {
    RunCommand { args: Seq<Seq<char>> },
    MakePath { path: Seq<char>, is_file: bool },
}

/// One executable action produced by the interpreter: either a command line
/// handed to the platform shell, or a file or directory to create at a path.
/// Actions are plain data; performing them is the caller's business.
#[derive(Debug)]
pub enum Action {
    RunCommand { args: Vec<String> },
    MakePath { path: String, is_file: bool },
}

impl View for Action {
    type V = ActionView;

    open spec fn view(&self) -> ActionView {
        match self {
            Action::RunCommand { args } => ActionView::RunCommand { args: args.deep_view() },
            Action::MakePath { path, is_file } => ActionView::MakePath {
                path: path@,
                is_file: *is_file,
            },
        }
    }
}

impl DeepView for Action {
    type V = ActionView;

    open spec fn deep_view(&self) -> ActionView {
        self.view()
    }
}

impl Clone for Action {
    fn clone(&self) -> (r: Self)
        ensures
            r@ == self@,
    {
        match self {
            Action::RunCommand { args } => {
                let copied = args.clone();
                proof {
                    assert(copied.deep_view() =~= args.deep_view());
                }
                Action::RunCommand { args: copied }
            },
            Action::MakePath { path, is_file } => Action::MakePath {
                path: path.clone(),
                is_file: *is_file,
            },
        }
    }
}

/// Mathematical model of a [`Task`].
pub struct TaskView {
    pub id: nat,
    pub defered: bool,
    pub action: ActionView,
}

/// A unit of work: one action, its position in production order across all
/// actions of a run, and whether it must wait for the deferred phase.
/// Tasks are immutable after construction.
#[derive(Debug)]
pub struct Task {
    pub id: usize,
    pub action: Action,

    pub defered: bool,
}

impl View for Task {
    type V = TaskView;

    open spec fn view(&self) -> TaskView {
        TaskView { id: self.id as nat, defered: self.defered, action: self.action@ }
    }
}

impl DeepView for Task {
    type V = TaskView;

    open spec fn deep_view(&self) -> TaskView {
        self.view()
    }
}

impl Clone for Task {
    fn clone(&self) -> (r: Self)
        ensures
            r@ == self@,
    {
        Task { id: self.id, action: self.action.clone(), defered: self.defered }
    }
}

/// Identifies which task failed; carries no further payload, since retries
/// are not supported.
#[derive(Clone, Copy, Debug, PartialEq, Eq, Structural)]
pub struct TaskError {
    id: usize,
}

impl View for TaskError {
    type V = nat;

    closed spec fn view(&self) -> nat {
        self.id as nat
    }
}

impl DeepView for TaskError {
    type V = nat;

    open spec fn deep_view(&self) -> nat {
        self.view()
    }
}

impl TaskError {
    pub fn new(id: usize) -> (e: TaskError)
        ensures
            e@ == id as nat,
    {
        TaskError { id }
    }

    /// The position, in production order, of the task whose action failed.
    pub fn task_id(&self) -> (id: usize)
        ensures
            id as nat == self@,
    {
        self.id
    }
}

impl Task {
    pub fn new(action: Action, defered: bool, id: usize) -> (t: Task)
        ensures
            t@ == (TaskView { id: id as nat, defered, action: action@ }),
    {
        Task { id, action, defered }
    }

    /// The task's result, given whether its action went through: failure
    /// is communicated only through the returned error, and the error
    /// carries the id of the failed work.
    pub fn execute_task(&self, succeeded: bool) -> (r: Result<(), TaskError>)
        ensures
            succeeded <==> r is Ok,
            !succeeded ==> r->Err_0@ == self@.id,
    {
        if succeeded {
            Ok(())
        } else {
            Err(TaskError { id: self.id })
        }
    }
}

} // verus!
