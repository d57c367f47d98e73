//! The decisions of the text front end: which command a menu choice stands
//! for, which sort order a sort choice stands for, and when a task list counts
//! as found.

use vstd::prelude::*;

use crate::task::{Task, TaskStatus};
use crate::task_manager::SortOrder;

verus! {

/// A command of the main menu.
#[derive(Clone, Copy, Debug, PartialEq, Eq, Structural)]
pub enum MenuCommand {
    AddTask,
    MarkDone,
    MarkTodo,
    Archive,
    ListTasks,
    Undo,
    Redo,
    SearchTasks,
    SortByDate,
    DeleteTask,
    Exit,
    Invalid,
}

impl MenuCommand {
    /// The command that a menu number stands for.
    pub open spec fn spec_from_choice(choice: u32) -> MenuCommand {
        if choice == 1 {
            MenuCommand::AddTask
        } else if choice == 2 {
            MenuCommand::MarkDone
        } else if choice == 3 {
            MenuCommand::MarkTodo
        } else if choice == 4 {
            MenuCommand::Archive
        } else if choice == 5 {
            MenuCommand::ListTasks
        } else if choice == 6 {
            MenuCommand::Undo
        } else if choice == 7 {
            MenuCommand::Redo
        } else if choice == 8 {
            MenuCommand::SearchTasks
        } else if choice == 9 {
            MenuCommand::SortByDate
        } else if choice == 1001 {
            MenuCommand::DeleteTask
        } else if choice == 0 {
            MenuCommand::Exit
        } else {
            MenuCommand::Invalid
        }
    }

    /// The status that a status command sets.
    pub open spec fn spec_target_status(self) -> Option<TaskStatus> {
        match self {
            MenuCommand::MarkDone => Some(TaskStatus::Done),
            MenuCommand::MarkTodo => Some(TaskStatus::Todo),
            MenuCommand::Archive => Some(TaskStatus::Archived),
            _ => None,
        }
    }

    pub fn from_choice(choice: u32) -> (c: MenuCommand)
        ensures
            c == MenuCommand::spec_from_choice(choice),
    {
        match choice {
            1 => MenuCommand::AddTask,
            2 => MenuCommand::MarkDone,
            3 => MenuCommand::MarkTodo,
            4 => MenuCommand::Archive,
            5 => MenuCommand::ListTasks,
            6 => MenuCommand::Undo,
            7 => MenuCommand::Redo,
            8 => MenuCommand::SearchTasks,
            9 => MenuCommand::SortByDate,
            1001 => MenuCommand::DeleteTask,
            0 => MenuCommand::Exit,
            _ => MenuCommand::Invalid,
        }
    }

    pub fn target_status(&self) -> (s: Option<TaskStatus>)
        ensures
            s == self.spec_target_status(),
    {
        match self {
            MenuCommand::MarkDone => Some(TaskStatus::Done),
            MenuCommand::MarkTodo => Some(TaskStatus::Todo),
            MenuCommand::Archive => Some(TaskStatus::Archived),
            _ => None,
        }
    }
}

/// The sort order that the answer to "1 for Ascending and 2 for Descending"
/// stands for, if any.
pub fn sort_order_from_choice(choice: i32) -> (r: Option<SortOrder>)
    ensures
        r == (if choice == 1 {
            Some(SortOrder::Ascending)
        } else if choice == 2 {
            Some(SortOrder::Descending)
        } else {
            None
        }),
{
    if choice == 1 {
        Some(SortOrder::Ascending)
    } else if choice == 2 {
        Some(SortOrder::Descending)
    } else {
        None
    }
}

/// A task list counts as found where it holds at least one task.
pub fn found_tasks(tasks: Vec<Task>) -> (r: Option<Vec<Task>>)
    ensures
        tasks@.len() > 0 ==> r == Some(tasks),
        tasks@.len() == 0 ==> r is None,
{
    if tasks.len() > 0 {
        Some(tasks)
    } else {
        None
    }
}

} // verus!
