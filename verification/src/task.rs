//! The task entity: a textual description, a done flag (false at creation),
//! and an optional due date.

use vstd::prelude::*;
use crate::date::Date;
use crate::date::DateFormatError;
use crate::date::date_valid;
use crate::date::parse_date_seq;
use crate::date::parse_date_str;

verus! {

/// One unit of tracked work.
#[derive(Debug, Clone, PartialEq)]
pub struct Task {
    pub description: String,
    pub done: bool,
    pub due_date: Option<Date>,
}

/// The mathematical content of a task: its description as a character
/// sequence, its done flag, and its due date.
pub struct TaskView {
    pub description: Seq<char>,
    pub done: bool,
    pub due_date: Option<Date>,
}

impl View for Task {
    type V = TaskView;

    open spec fn view(&self) -> TaskView {
        TaskView { description: self.description@, done: self.done, due_date: self.due_date }
    }
}

/// A well-formed task: if it carries a due date, that date is a real
/// calendar date with a four-digit year.
pub open spec fn task_wf(t: TaskView) -> bool {
    match t.due_date {
        Some(d) => date_valid(d),
        None => true,
    }
}

/// The views of a sequence of tasks.
pub open spec fn task_views(ts: Seq<Task>) -> Seq<TaskView> {
    ts.map_values(|t: Task| t@)
}

/// Every task of the collection is well-formed.
pub open spec fn collection_wf(ts: Seq<Task>) -> bool {
    forall|i: int| 0 <= i < ts.len() ==> task_wf(#[trigger] ts[i]@)
}

impl Task {
    /// Create a task: not done, with the given description and due date.
    pub fn new(description: String, due_date: Option<Date>) -> (t: Task)
        requires
            due_date matches Some(d) ==> date_valid(d),
        ensures
            t@ == (TaskView { description: description@, done: false, due_date }),
            task_wf(t@),
    {
        Task { description, done: false, due_date }
    }

    /// Parse a due-date text. Only the exact shape `YYYY-MM-DD` naming a
    /// real calendar date is accepted; anything else is a `DateFormatError`.
    pub fn parse_date(input: &str) -> (r: Result<Date, DateFormatError>)
        ensures
            match r {
                Ok(d) => parse_date_seq(input@) == Some(d) && date_valid(d),
                Err(_) => parse_date_seq(input@) is None,
            },
    {
        match parse_date_str(input) {
            Some(d) => Ok(d),
            None => Err(DateFormatError),
        }
    }
}

} // verus!
