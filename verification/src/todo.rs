//! The task record: one to-do item with its validity conditions.

use vstd::prelude::*;

verus! {

/// Largest timestamp the library accepts: the last second of year 9999 (UTC).
/// Keeping timestamps below this bound keeps them inside the range that the
/// calendar formatter handles.
pub const MAX_TIMESTAMP: u64 = 253402300799;

/// One to-do item.
#[derive(Debug, Clone, PartialEq, Eq)]
pub struct Todo {
    pub id: u64,
    pub text: String,
    pub done: bool,
    pub created_at: u64,
    pub completed_at: Option<u64>,
}

/// The mathematical model of a task: the same fields, with the text as a
/// sequence of characters.
pub ghost struct TodoView {
    pub id: u64,
    pub text: Seq<char>,
    pub done: bool,
    pub created_at: u64,
    pub completed_at: Option<u64>,
}

impl View for Todo {
    type V = TodoView;

    open spec fn view(&self) -> TodoView {
        TodoView {
            id: self.id,
            text: self.text@,
            done: self.done,
            created_at: self.created_at,
            completed_at: self.completed_at,
        }
    }
}

impl TodoView {
    /// A task is well formed when its text is non-empty, its completion time
    /// is present exactly when it is done, and its timestamps are in range.
    pub open spec fn wf(self) -> bool {
        &&& self.text.len() > 0
        &&& (self.done <==> self.completed_at is Some)
        &&& self.created_at <= MAX_TIMESTAMP
        &&& (self.completed_at matches Some(c) ==> c <= MAX_TIMESTAMP)
    }
}

impl Todo {
    /// A fresh task: not done, created now, never completed.
    pub fn new(id: u64, text: String, now: u64) -> (t: Todo)
        requires
            text@.len() > 0,
            now <= MAX_TIMESTAMP,
        ensures
            t@ == (TodoView {
                id,
                text: text@,
                done: false,
                created_at: now,
                completed_at: None::<u64>,
            }),
            t@.wf(),
    {
        Todo { id, text, done: false, created_at: now, completed_at: None }
    }

    /// Set the done flag and record the completion time.
    pub fn mark_done(&mut self, now: u64)
        requires
            now <= MAX_TIMESTAMP,
        ensures
            final(self)@ == (TodoView {
                done: true,
                completed_at: Some(now),
                ..old(self)@
            }),
    {
        self.done = true;
        self.completed_at = Some(now);
    }
}

} // verus!
