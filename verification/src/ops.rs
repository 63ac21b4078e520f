//! Mutations of the task collection, addressed by 1-based position.
//! Index validation (`1 <= index <= length`) is part of these contracts:
//! an out-of-range index changes nothing and is reported.

use vstd::prelude::*;
use crate::date::Date;
use crate::date::date_valid;
use crate::task::Task;
use crate::task::TaskView;
use crate::task::collection_wf;

verus! {

/// Errors of the positional operations.
#[derive(Clone, Copy, Debug, PartialEq, Eq, Structural)]
pub enum TaskError {
    /// The given position lies outside `[1, length]`.
    IndexOutOfRange,
    /// The given position text was not a number (used at the input boundary).
    NotANumber,
}

/// Append a new task; the collection keeps its order and gains one element.
pub fn add_task(tasks: &mut Vec<Task>, description: String, due_date: Option<Date>)
    requires
        due_date matches Some(d) ==> date_valid(d),
    ensures
        crate::task::task_views(final(tasks)@) == crate::task::task_views(old(tasks)@).push(
            TaskView { description: description@, done: false, due_date },
        ),
        collection_wf(old(tasks)@) ==> collection_wf(final(tasks)@),
{
    let t = Task::new(description, due_date);
    tasks.push(t);
    proof {
        assert(crate::task::task_views(final(tasks)@) =~= crate::task::task_views(
            old(tasks)@,
        ).push(TaskView { description: description@, done: false, due_date }));
        assert forall|i: int|
            0 <= i < final(tasks)@.len() && collection_wf(old(tasks)@) implies crate::task::task_wf(
            #[trigger] final(tasks)@[i]@,
        ) by {
            if i < old(tasks)@.len() {
                assert(final(tasks)@[i] == old(tasks)@[i]);
            }
        }
    }
}

/// Mark the task at the given 1-based position done. Exactly the positions
/// `1..=length` succeed; any other position leaves the collection unchanged
/// and reports `IndexOutOfRange`.
pub fn mark_task_done(tasks: &mut Vec<Task>, index: usize) -> (r: Result<(), TaskError>)
    ensures
        1 <= index <= old(tasks)@.len() ==> {
            &&& r is Ok
            &&& final(tasks)@ == old(tasks)@.update(
                index - 1,
                Task {
                    description: old(tasks)@[index - 1].description,
                    done: true,
                    due_date: old(tasks)@[index - 1].due_date,
                },
            )
        },
        !(1 <= index <= old(tasks)@.len()) ==> {
            &&& r == Result::<(), TaskError>::Err(TaskError::IndexOutOfRange)
            &&& final(tasks)@ == old(tasks)@
        },
        collection_wf(old(tasks)@) ==> collection_wf(final(tasks)@),
{
    if 1 <= index && index <= tasks.len() {
        let i = index - 1;
        tasks[i].done = true;
        proof {
            let ghost up = old(tasks)@.update(
                i as int,
                Task {
                    description: old(tasks)@[i as int].description,
                    done: true,
                    due_date: old(tasks)@[i as int].due_date,
                },
            );
            assert(final(tasks)@ =~= up);
            assert forall|j: int|
                0 <= j < final(tasks)@.len() && collection_wf(old(tasks)@) implies
                crate::task::task_wf(#[trigger] final(tasks)@[j]@) by {
                if j != i {
                    assert(final(tasks)@[j] == old(tasks)@[j]);
                } else {
                    assert(old(tasks)@[j]@.due_date == final(tasks)@[j]@.due_date);
                }
            }
        }
        Ok(())
    } else {
        Err(TaskError::IndexOutOfRange)
    }
}

/// Remove the task at the given 1-based position; later tasks shift down by
/// one. Exactly the positions `1..=length` succeed; any other position
/// leaves the collection unchanged and reports `IndexOutOfRange`.
pub fn delete_task(tasks: &mut Vec<Task>, index: usize) -> (r: Result<(), TaskError>)
    ensures
        1 <= index <= old(tasks)@.len() ==> {
            &&& r is Ok
            &&& final(tasks)@ == old(tasks)@.remove(index - 1)
        },
        !(1 <= index <= old(tasks)@.len()) ==> {
            &&& r == Result::<(), TaskError>::Err(TaskError::IndexOutOfRange)
            &&& final(tasks)@ == old(tasks)@
        },
        collection_wf(old(tasks)@) ==> collection_wf(final(tasks)@),
{
    if 1 <= index && index <= tasks.len() {
        let i = index - 1;
        tasks.remove(i);
        proof {
            assert forall|j: int|
                0 <= j < final(tasks)@.len() && collection_wf(old(tasks)@) implies
                crate::task::task_wf(#[trigger] final(tasks)@[j]@) by {
                if j < i {
                    assert(final(tasks)@[j] == old(tasks)@[j]);
                } else {
                    assert(final(tasks)@[j] == old(tasks)@[j + 1]);
                }
            }
        }
        Ok(())
    } else {
        Err(TaskError::IndexOutOfRange)
    }
}

} // verus!
