use vstd::prelude::*;

verus! {

/// The mathematical value of a task: what the store's contracts speak of.
pub struct TaskModel {
    pub id: u64,
    pub body: Seq<char>,
    pub done: bool,
}

/// One item of the list: a stable identifier, its text and whether it is done.
#[derive(Clone, Debug, PartialEq, Eq)]
pub struct Task {
    pub id: u64,
    pub body: String,
    pub done: bool,
}

impl View for Task {
    type V = TaskModel;

    open spec fn view(&self) -> TaskModel {
        TaskModel { id: self.id, body: self.body@, done: self.done }
    }
}

/// Why an operation of the store was refused.
#[derive(Clone, Copy, Debug, PartialEq, Eq)]
pub enum TaskError {
    /// The persisted rows could not be read, or the store can take no more tasks.
    Storage,
    /// No task has the identifier that was given or selected.
    NotFound,
    /// A task's text may not be empty.
    InvalidInput,
}

/// The same task with its completion state flipped.
pub open spec fn flipped(t: TaskModel) -> TaskModel {
    TaskModel { done: !t.done, ..t }
}

/// The same task with its text replaced.
pub open spec fn rewritten(t: TaskModel, body: Seq<char>) -> TaskModel {
    TaskModel { body, ..t }
}

impl Task {
    /// An equal task that owns its own text.
    pub fn duplicate(&self) -> (r: Task)
        ensures
            r@ == self@,
    {
        Task { id: self.id, body: self.body.clone(), done: self.done }
    }
}

} // verus!
