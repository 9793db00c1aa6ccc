//! The task record: one persisted to-do entry.

use crate::time::Timestamp;
use vstd::prelude::*;

verus! {

/// A single to-do entry as stored in the records file.
#[derive(Debug)]
pub struct Task {
    /// Identifier, intended to be unique within the store.
    pub id: u32,
    /// Free-text description.
    pub name: String,
    /// When the task is due, normalized to UTC.
    pub due: Timestamp,
    /// Whether the task has been completed.
    pub completed: bool,
}

/// The mathematical value of a [`Task`].
#[verifier::ext_equal]
pub ghost struct TaskView {
    pub id: u32,
    pub name: Seq<char>,
    pub due: Timestamp,
    pub completed: bool,
}

impl TaskView {
    /// A well-formed task value: its due date is a real UTC calendar
    /// time.
    pub open spec fn wf(self) -> bool {
        self.due.wf()
    }
}

impl View for Task {
    type V = TaskView;

    open spec fn view(&self) -> TaskView {
        TaskView { id: self.id, name: self.name@, due: self.due, completed: self.completed }
    }
}

impl DeepView for Task {
    type V = TaskView;

    open spec fn deep_view(&self) -> TaskView {
        self.view()
    }
}

impl Task {
    /// Assembles a task from its fields.
    pub fn new(id: u32, name: String, due: Timestamp, completed: bool) -> (t: Task)
        ensures
            t@ == (TaskView { id, name: name@, due, completed }),
    {
        Task { id, name, due, completed }
    }
}

} // verus!
