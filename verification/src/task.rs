//! A task and its status.

use vstd::prelude::*;

use crate::ids::{parse_uuid, random_uuid, uuid_parse};

verus! {

/// Where a task stands.
#[derive(Clone, Copy, Debug, PartialEq, Eq, Structural)]
pub enum TaskStatus {
    Todo,
    Done,
    Archived,
}

impl TaskStatus {
    /// The integer that stands for the status in the `status` column.
    pub open spec fn spec_code(self) -> i32 {
        match self {
            TaskStatus::Todo => 0,
            TaskStatus::Done => 1,
            TaskStatus::Archived => 2,
        }
    }

    /// The status that a `status` column value stands for, if any.
    pub open spec fn spec_from_code(code: i32) -> Option<TaskStatus> {
        if code == 0 {
            Some(TaskStatus::Todo)
        } else if code == 1 {
            Some(TaskStatus::Done)
        } else if code == 2 {
            Some(TaskStatus::Archived)
        } else {
            None
        }
    }

    /// The text shown for the status.
    pub open spec fn spec_label(self) -> Seq<char> {
        match self {
            TaskStatus::Todo => seq!['T', 'o', 'D', 'o'],
            TaskStatus::Done => seq!['D', 'o', 'n', 'e'],
            TaskStatus::Archived => seq!['A', 'r', 'c', 'h', 'i', 'v', 'e', 'd'],
        }
    }

    pub fn code(&self) -> (c: i32)
        ensures
            c == self.spec_code(),
    {
        match self {
            TaskStatus::Todo => 0,
            TaskStatus::Done => 1,
            TaskStatus::Archived => 2,
        }
    }

    pub fn from_code(code: i32) -> (r: Option<TaskStatus>)
        ensures
            r == TaskStatus::spec_from_code(code),
    {
        if code == 0 {
            Some(TaskStatus::Todo)
        } else if code == 1 {
            Some(TaskStatus::Done)
        } else if code == 2 {
            Some(TaskStatus::Archived)
        } else {
            None
        }
    }

    pub fn label(&self) -> (s: String)
        ensures
            s@ == self.spec_label(),
    {
        match self {
            TaskStatus::Todo => {
                proof {
                    reveal_strlit("ToDo");
                }
                String::from_str("ToDo")
            },
            TaskStatus::Done => {
                proof {
                    reveal_strlit("Done");
                }
                String::from_str("Done")
            },
            TaskStatus::Archived => {
                proof {
                    reveal_strlit("Archived");
                }
                String::from_str("Archived")
            },
        }
    }
}

/// Decoding a status from its column value gives back the status.
pub proof fn lemma_status_code_roundtrip(s: TaskStatus)
    ensures
        TaskStatus::spec_from_code(s.spec_code()) == Some(s),
{
}

/// A task as the cache holds it. `id` is the 128-bit value of the task's UUID.
#[derive(Debug, PartialEq, Eq)]
pub struct Task {
    pub id: u128,
    pub title: String,
    pub description: String,
    pub status: TaskStatus,
    pub date: String,
}

impl Clone for Task {
    fn clone(&self) -> (r: Self)
        ensures
            r == *self,
    {
        Task {
            id: self.id,
            title: self.title.clone(),
            description: self.description.clone(),
            status: self.status,
            date: self.date.clone(),
        }
    }
}

impl Task {
    /// The same task with another status.
    pub open spec fn with_status(self, status: TaskStatus) -> Task {
        Task { status: status, ..self }
    }

    /// A new `Todo` task with a fresh random (version 4) UUID as its id.
    pub fn new(title: String, description: String, date: String) -> (t: Task)
        ensures
            (t.id >> 76u128) & 0xfu128 == 4u128,
            (t.id >> 62u128) & 0x3u128 == 2u128,
            t.title == title,
            t.description == description,
            t.status == TaskStatus::Todo,
            t.date == date,
    {
        Task::with_id(random_uuid(), title, description, date)
    }

    /// A `Todo` task with the given id.
    pub fn with_id(id: u128, title: String, description: String, date: String) -> (t: Task)
        ensures
            t.id == id,
            t.title == title,
            t.description == description,
            t.status == TaskStatus::Todo,
            t.date == date,
    {
        Task { id, title, description, status: TaskStatus::Todo, date }
    }
}


/// The columns of one row of the `tasks` table, as they were read: `id` is the
/// text of the UUID, `status` the integer code of the status.
#[derive(Debug, PartialEq, Eq)]
pub struct TaskRow {
    pub id: String,
    pub title: String,
    pub description: String,
    pub status: i32,
    pub date: String,
}

impl Clone for TaskRow {
    fn clone(&self) -> (r: Self)
        ensures
            r == *self,
    {
        TaskRow {
            id: self.id.clone(),
            title: self.title.clone(),
            description: self.description.clone(),
            status: self.status,
            date: self.date.clone(),
        }
    }
}

/// A row whose id is not a UUID or whose status code stands for no status.
#[derive(Debug, PartialEq, Eq, Structural)]
pub struct InvalidStatusError;

/// The task that a row stands for, given the UUID value read from its id
/// column: `None` where that id could not be read or the status code is unknown.
pub open spec fn spec_row_to_task(id: Option<u128>, row: TaskRow) -> Option<Task> {
    match (id, TaskStatus::spec_from_code(row.status)) {
        (Some(id), Some(status)) => Some(
            Task {
                id: id,
                title: row.title,
                description: row.description,
                status: status,
                date: row.date,
            },
        ),
        _ => None,
    }
}

/// The task that a row stands for, its id column read by `uuid::Uuid::parse_str`.
pub open spec fn row_task(row: TaskRow) -> Option<Task> {
    spec_row_to_task(uuid_parse(row.id@), row)
}

/// Builds the task of a row once its id column has been read as `id`.
pub fn task_from_parts(id: Option<u128>, row: TaskRow) -> (r: Result<Task, InvalidStatusError>)
    ensures
        match spec_row_to_task(id, row) {
            Some(t) => r == Ok::<Task, InvalidStatusError>(t),
            None => r == Err::<Task, InvalidStatusError>(InvalidStatusError),
        },
{
    let status = TaskStatus::from_code(row.status);
    match (id, status) {
        (Some(id), Some(status)) => Ok(
            Task {
                id: id,
                title: row.title,
                description: row.description,
                status: status,
                date: row.date,
            },
        ),
        _ => Err(InvalidStatusError),
    }
}

/// Builds the task of a row: its id column is read by `uuid::Uuid::parse_str`.
pub fn task_from_row(row: &TaskRow) -> (r: Result<Task, InvalidStatusError>)
    ensures
        match row_task(*row) {
            Some(t) => r == Ok::<Task, InvalidStatusError>(t),
            None => r == Err::<Task, InvalidStatusError>(InvalidStatusError),
        },
{
    let id = match parse_uuid(row.id.as_str()) {
        Ok(id) => Some(id),
        Err(_) => None,
    };
    task_from_parts(id, row.clone())
}

/// A row that holds a task's columns, with an id text that reads back as the
/// task's id, stands for that task.
pub proof fn lemma_row_roundtrip(t: Task, row: TaskRow)
    requires
        uuid_parse(row.id@) == Some(t.id),
        row.title == t.title,
        row.description == t.description,
        row.status == t.status.spec_code(),
        row.date == t.date,
    ensures
        row_task(row) == Some(t),
{
}

} // verus!
