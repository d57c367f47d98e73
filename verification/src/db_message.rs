//! The messages that the cache hands to the database worker, and the SQL
//! statement that each of them stands for.

use vstd::prelude::*;

use crate::ids::{uuid_parse, uuid_string, uuid_text};
use crate::task::{row_task, Task, TaskRow, TaskStatus};

verus! {

/// The statement that creates the `tasks` table where it is missing.
pub const CREATE_TASKS_TABLE_SQL: &'static str =
    "CREATE TABLE IF NOT EXISTS tasks (
                id TEXT NOT NULL PRIMARY KEY,
                title TEXT NOT NULL,
                description TEXT NOT NULL,
                status INTEGER NOT NULL,
                date TEXT NOT NULL
            )";

/// The query that reads every row of the `tasks` table.
pub const SELECT_TASKS_SQL: &'static str = "SELECT * FROM tasks";

/// The statement that writes a whole task.
pub const ADD_TASK_SQL: &'static str =
    "INSERT OR REPLACE INTO tasks (id, title,description, status, date) VALUES (?1, ?2, ?3, ?4, ?5)";

/// The statement that changes the status of a task.
pub const UPDATE_STATUS_SQL: &'static str = "UPDATE tasks SET status = ?1 WHERE id = ?2";

/// The statement that deletes a task.
pub const DELETE_TASK_SQL: &'static str = "DELETE FROM tasks WHERE id = ?1";

/// The statement that writes a task's id, description, status and date.
pub const SAVE_TASK_SQL: &'static str =
    "INSERT OR REPLACE INTO tasks (id, description, status, date) VALUES (?1, ?2, ?3, ?4)";

/// A change that the database must make to follow the cache.
#[derive(Debug, PartialEq, Eq)]
pub enum DbMessage {
    AddTaskToDb(Task),
    UpdateTaskStatusInDb(u128, TaskStatus),
    DeleteTaskFromDb(u128),
}

impl DbMessage {
    /// The `tasks` table, seen as its rows by id, after the message's statement
    /// has run on `table`: an add writes (or replaces) the whole row, a status
    /// change rewrites the status of the row with that id where there is one,
    /// and a delete removes that row.
    pub open spec fn applied_to(self, table: Map<u128, Task>) -> Map<u128, Task> {
        match self {
            DbMessage::AddTaskToDb(t) => table.insert(t.id, t),
            DbMessage::UpdateTaskStatusInDb(id, status) => if table.contains_key(id) {
                table.insert(id, table[id].with_status(status))
            } else {
                table
            },
            DbMessage::DeleteTaskFromDb(id) => table.remove(id),
        }
    }
}

/// `st` is the statement that carries out `msg`.
pub open spec fn is_statement_of(st: DbStatement, msg: DbMessage) -> bool {
    match msg {
        DbMessage::AddTaskToDb(t) => {
            &&& st.sql == ADD_TASK_SQL
            &&& st.params@.len() == 5
            &&& is_id_text(st.params@[0], t.id)
            &&& st.params@[1] == SqlValue::Text(t.title)
            &&& st.params@[2] == SqlValue::Text(t.description)
            &&& is_status_code(st.params@[3], t.status)
            &&& st.params@[4] == SqlValue::Text(t.date)
        },
        DbMessage::UpdateTaskStatusInDb(id, status) => {
            &&& st.sql == UPDATE_STATUS_SQL
            &&& st.params@.len() == 2
            &&& is_status_code(st.params@[0], status)
            &&& is_id_text(st.params@[1], id)
        },
        DbMessage::DeleteTaskFromDb(id) => {
            &&& st.sql == DELETE_TASK_SQL
            &&& st.params@.len() == 1
            &&& is_id_text(st.params@[0], id)
        },
    }
}

/// The `tasks` table, as its rows by the text of their `id` column (the
/// primary key), after `st` has run on `table`, for the three statements that
/// the messages use: `INSERT OR REPLACE` writes the whole row under its id,
/// the `UPDATE` rewrites the status of the row with that id where there is
/// one, and the `DELETE` removes that row. Any other statement is left out of
/// this model and changes nothing here.
pub open spec fn run_statement(table: Map<Seq<char>, TaskRow>, st: DbStatement) -> Map<
    Seq<char>,
    TaskRow,
> {
    let p = st.params@;
    if st.sql == ADD_TASK_SQL && p.len() == 5 {
        match (p[0], p[1], p[2], p[3], p[4]) {
            (
                SqlValue::Text(id),
                SqlValue::Text(title),
                SqlValue::Text(description),
                SqlValue::Integer(code),
                SqlValue::Text(date),
            ) => table.insert(
                id@,
                TaskRow { id: id, title: title, description: description, status: code as i32, date: date },
            ),
            _ => table,
        }
    } else if st.sql == UPDATE_STATUS_SQL && p.len() == 2 {
        match (p[0], p[1]) {
            (SqlValue::Integer(code), SqlValue::Text(id)) => if table.contains_key(id@) {
                table.insert(id@, TaskRow { status: code as i32, ..table[id@] })
            } else {
                table
            },
            _ => table,
        }
    } else if st.sql == DELETE_TASK_SQL && p.len() == 1 {
        match p[0] {
            SqlValue::Text(id) => table.remove(id@),
            _ => table,
        }
    } else {
        table
    }
}

/// The row under `key` is unchanged by the step from `before` to `after`.
pub open spec fn row_unchanged(
    before: Map<Seq<char>, TaskRow>,
    after: Map<Seq<char>, TaskRow>,
    key: Seq<char>,
) -> bool {
    &&& after.contains_key(key) == before.contains_key(key)
    &&& before.contains_key(key) ==> after[key] == before[key]
}

/// Running the statement of a message keeps the table's rows in step with the
/// cache: an add leaves under the task's id a row that reads back as the task,
/// a status change leaves under the id a row that reads back as the task it
/// held with the new status, a delete leaves no row under the id, and every
/// other row stays as it was.
pub proof fn lemma_statement_keeps_rows_in_step(
    table: Map<Seq<char>, TaskRow>,
    msg: DbMessage,
    st: DbStatement,
    key: Seq<char>,
)
    requires
        is_statement_of(st, msg),
    ensures
        ({
            let after = run_statement(table, st);
            match msg {
                DbMessage::AddTaskToDb(t) => if key == uuid_text(t.id) {
                    after.contains_key(key) && row_task(after[key]) == Some(t)
                } else {
                    row_unchanged(table, after, key)
                },
                DbMessage::UpdateTaskStatusInDb(id, status) => if key == uuid_text(id) {
                    &&& after.contains_key(key) == table.contains_key(key)
                    &&& forall|t: Task|
                        table.contains_key(key) && row_task(table[key]) == Some(t) ==> row_task(
                            #[trigger] after[key],
                        ) == Some(t.with_status(status))
                } else {
                    row_unchanged(table, after, key)
                },
                DbMessage::DeleteTaskFromDb(id) => if key == uuid_text(id) {
                    !after.contains_key(key)
                } else {
                    row_unchanged(table, after, key)
                },
            }
        }),
{
    let p = st.params@;
    match msg {
        DbMessage::AddTaskToDb(t) => {
            assert(p[0] is Text);
        },
        DbMessage::UpdateTaskStatusInDb(id, status) => {
            assert(p[1] is Text);
        },
        DbMessage::DeleteTaskFromDb(id) => {
            assert(p[0] is Text);
        },
    }
}

/// A value bound to a parameter of an SQL statement.
#[derive(Debug, PartialEq, Eq)]
pub enum SqlValue {
    Text(String),
    Integer(i64),
}

/// An SQL statement and the values of its parameters `?1`, `?2`, ...
#[derive(Debug, PartialEq, Eq)]
pub struct DbStatement {
    pub sql: &'static str,
    pub params: Vec<SqlValue>,
}

/// `v` is the text of the UUID `id`, in the form that reads back as `id`.
pub open spec fn is_id_text(v: SqlValue, id: u128) -> bool {
    match v {
        SqlValue::Text(s) => s@ == uuid_text(id) && uuid_parse(s@) == Some(id),
        SqlValue::Integer(_) => false,
    }
}

/// `v` is the integer code of `status`.
pub open spec fn is_status_code(v: SqlValue, status: TaskStatus) -> bool {
    v == SqlValue::Integer(status.spec_code() as i64)
}

fn id_param(id: u128) -> (v: SqlValue)
    ensures
        is_id_text(v, id),
{
    SqlValue::Text(uuid_string(id))
}

fn status_param(status: TaskStatus) -> (v: SqlValue)
    ensures
        is_status_code(v, status),
{
    SqlValue::Integer(status.code() as i64)
}

impl DbMessage {
    /// The statement that carries out the message, as the database worker runs it.
    pub fn statement(&self) -> (st: DbStatement)
        ensures
            is_statement_of(st, *self),
    {
        match self {
            DbMessage::AddTaskToDb(t) => {
                let mut params: Vec<SqlValue> = Vec::new();
                params.push(id_param(t.id));
                params.push(SqlValue::Text(t.title.clone()));
                params.push(SqlValue::Text(t.description.clone()));
                params.push(status_param(t.status));
                params.push(SqlValue::Text(t.date.clone()));
                DbStatement { sql: ADD_TASK_SQL, params }
            },
            DbMessage::UpdateTaskStatusInDb(id, status) => {
                let mut params: Vec<SqlValue> = Vec::new();
                params.push(status_param(*status));
                params.push(id_param(*id));
                DbStatement { sql: UPDATE_STATUS_SQL, params }
            },
            DbMessage::DeleteTaskFromDb(id) => {
                let mut params: Vec<SqlValue> = Vec::new();
                params.push(id_param(*id));
                DbStatement { sql: DELETE_TASK_SQL, params }
            },
        }
    }
}

/// The statement that writes a task's id, description, status and date (the
/// title is left out of it).
pub fn save_task_statement(task: &Task) -> (st: DbStatement)
    ensures
        st.sql == SAVE_TASK_SQL,
        st.params@.len() == 4,
        is_id_text(st.params@[0], task.id),
        st.params@[1] == SqlValue::Text(task.description),
        is_status_code(st.params@[2], task.status),
        st.params@[3] == SqlValue::Text(task.date),
{
    let mut params: Vec<SqlValue> = Vec::new();
    params.push(id_param(task.id));
    params.push(SqlValue::Text(task.description.clone()));
    params.push(status_param(task.status));
    params.push(SqlValue::Text(task.date.clone()));
    DbStatement { sql: SAVE_TASK_SQL, params }
}

} // verus!
