//! Tasks and the edits of an ordered task sequence.
//!
//! A task has no identity of its own: it is addressed by its position in the
//! sequence it belongs to. Every edit that takes a position checks it against
//! the sequence it is handed and refuses a position past the end.

use crate::error::TodoError;
use vstd::prelude::*;

verus! {

/// A named item of a todo list with its completion flag.
#[derive(Debug, PartialEq, Eq)]
pub struct Task {
    pub name: String,
    pub done: bool,
}

/// The mathematical value of a [`Task`].
pub ghost struct TaskView {
    pub name: Seq<char>,
    pub done: bool,
}

impl View for Task {
    type V = TaskView;

    open spec fn view(&self) -> TaskView {
        TaskView { name: self.name@, done: self.done }
    }
}

impl Clone for Task {
    fn clone(&self) -> (copy: Self)
        ensures
            copy@ == self@,
    {
        Task { name: self.name.clone(), done: self.done }
    }
}

/// The values of a sequence of tasks, in order.
pub open spec fn task_views(tasks: Seq<Task>) -> Seq<TaskView> {
    tasks.map_values(|t: Task| t@)
}

/// Appends `task` to the end of the sequence.
pub fn append_task(tasks: &mut Vec<Task>, task: Task)
    ensures
        task_views(final(tasks)@) == task_views(old(tasks)@).push(task@),
{
    tasks.push(task);
    assert(task_views(tasks@) =~= task_views(old(tasks)@).push(task@));
}

/// Gives the task at `index` the name `new_name` and leaves its flag and all
/// other tasks as they are.
pub fn rename_task_at(tasks: &mut Vec<Task>, index: usize, new_name: String) -> (result: Result<
    (),
    TodoError,
>)
    ensures
        index < old(tasks).len() ==> result is Ok && task_views(final(tasks)@) == task_views(
            old(tasks)@,
        ).update(
            index as int,
            TaskView { name: new_name@, done: old(tasks)[index as int].done },
        ),
        index >= old(tasks).len() ==> result == Err::<(), TodoError>(TodoError::IndexOutOfRange)
            && final(tasks)@ == old(tasks)@,
{
    if index >= tasks.len() {
        return Err(TodoError::IndexOutOfRange);
    }
    let done = tasks[index].done;
    tasks[index] = Task { name: new_name, done };
    assert(task_views(tasks@) =~= task_views(old(tasks)@).update(
        index as int,
        TaskView { name: new_name@, done },
    ));
    Ok(())
}

/// Flips the completion flag of the task at `index` and leaves its name and
/// all other tasks as they are.
pub fn toggle_task_at(tasks: &mut Vec<Task>, index: usize) -> (result: Result<(), TodoError>)
    ensures
        index < old(tasks).len() ==> result is Ok && task_views(final(tasks)@) == task_views(
            old(tasks)@,
        ).update(
            index as int,
            TaskView { name: old(tasks)[index as int].name@, done: !old(tasks)[index as int].done },
        ),
        index >= old(tasks).len() ==> result == Err::<(), TodoError>(TodoError::IndexOutOfRange)
            && final(tasks)@ == old(tasks)@,
{
    if index >= tasks.len() {
        return Err(TodoError::IndexOutOfRange);
    }
    let flipped = !tasks[index].done;
    tasks[index].done = flipped;
    assert(task_views(tasks@) =~= task_views(old(tasks)@).update(
        index as int,
        TaskView { name: old(tasks)[index as int].name@, done: flipped },
    ));
    Ok(())
}

/// Takes the task at `index` out of the sequence: the tasks before it keep
/// their positions and those after it move down by one.
pub fn remove_task_at(tasks: &mut Vec<Task>, index: usize) -> (result: Result<(), TodoError>)
    ensures
        index < old(tasks).len() ==> result is Ok && task_views(final(tasks)@) == task_views(
            old(tasks)@,
        ).remove(index as int),
        index >= old(tasks).len() ==> result == Err::<(), TodoError>(TodoError::IndexOutOfRange)
            && final(tasks)@ == old(tasks)@,
{
    if index >= tasks.len() {
        return Err(TodoError::IndexOutOfRange);
    }
    let _ = tasks.remove(index);
    assert(task_views(tasks@) =~= task_views(old(tasks)@).remove(index as int));
    Ok(())
}

} // verus!
