//! The earlier, database-only task manager: every change is an SQL statement
//! on an integer-keyed `tasks` table. Before each change a snapshot of the
//! whole table goes on an undo stack; undo writes the rows of the latest
//! snapshot back (the table gives them fresh ids), after putting the table as
//! it then is on a redo stack, and redo does the same the other way round.
//!
//! This module makes the decisions; the caller runs the statements it hands
//! back and reads the snapshots it asks for.

use vstd::prelude::*;

use crate::db_message::{DbStatement, SqlValue};

verus! {

/// The statement that creates the integer-keyed `tasks` table where it is missing.
pub const CREATE_TABLE_SQL: &'static str =
    "CREATE TABLE IF NOT EXISTS tasks (
                 id INTEGER PRIMARY KEY,
                 title TEXT NOT NULL,
                 description TEXT,
                 date TEXT NOT NULL,
                 status TEXT NOT NULL
             )";

/// The statement that adds a task.
pub const INSERT_TASK_SQL: &'static str =
    "INSERT INTO tasks (title, description, date, status) VALUES (?1, ?2, ?3, ?4)";

/// The query for every row of the table, the snapshot that undo and redo keep.
pub const ALL_TASKS_SQL: &'static str = "SELECT * FROM tasks";

/// The statement that marks a task done.
pub const MARK_DONE_SQL: &'static str = "UPDATE tasks SET status = 'Done' WHERE id = ?1";

/// The statement that marks a task not done.
pub const MARK_UNDONE_SQL: &'static str = "UPDATE tasks SET status = 'Undone' WHERE id = ?1";

/// The statement that archives a task.
pub const ARCHIVE_SQL: &'static str = "UPDATE tasks SET status = 'Archived' WHERE id = ?1";

/// The statement that deletes a task.
pub const DELETE_SQL: &'static str = "DELETE FROM tasks WHERE id = ?1";

/// The statement that empties the table before a snapshot is written back.
pub const DELETE_ALL_SQL: &'static str = "DELETE FROM tasks";

/// The query for the tasks sorted by date.
pub const SORTED_BY_DATE_SQL: &'static str = "SELECT * FROM tasks ORDER BY date";

/// The query for the tasks whose title or description is like `?1`.
pub const SEARCH_SQL: &'static str = "SELECT * FROM tasks WHERE title LIKE ?1 OR description LIKE ?1";

/// The query for the tasks that are not archived.
pub const LIST_SQL: &'static str = "SELECT * FROM tasks WHERE status NOT IN ('Archived')";

/// A row of the integer-keyed `tasks` table.
#[derive(Debug, PartialEq, Eq)]
pub struct StoredTask {
    pub id: i64,
    pub title: String,
    pub description: String,
    pub date: String,
    pub status: String,
}

impl Clone for StoredTask {
    fn clone(&self) -> (r: Self)
        ensures
            r == *self,
    {
        StoredTask {
            id: self.id,
            title: self.title.clone(),
            description: self.description.clone(),
            date: self.date.clone(),
            status: self.status.clone(),
        }
    }
}

/// The two stacks of snapshots, latest last.
pub ghost struct StackState {
    pub undo: Seq<Seq<StoredTask>>,
    pub redo: Seq<Seq<StoredTask>>,
}

impl StackState {
    /// The stacks after a change for which `before`, the table as it was just
    /// before the change, was recorded: it goes on the undo stack and the redo
    /// stack is emptied.
    pub open spec fn after_record(self, before: Seq<StoredTask>) -> StackState {
        StackState { undo: self.undo.push(before), redo: Seq::empty() }
    }

    /// The stacks after an undo that found the table as `current`: the latest
    /// snapshot leaves the undo stack (it is written back) and `current` goes
    /// on the redo stack. Nothing changes where the undo stack is empty.
    pub open spec fn after_undo(self, current: Seq<StoredTask>) -> StackState {
        if self.undo.len() == 0 {
            self
        } else {
            StackState { undo: self.undo.drop_last(), redo: self.redo.push(current) }
        }
    }

    /// The stacks after a redo that found the table as `current`: the latest
    /// snapshot leaves the redo stack (it is written back) and `current` goes
    /// on the undo stack. Nothing changes where the redo stack is empty.
    pub open spec fn after_redo(self, current: Seq<StoredTask>) -> StackState {
        if self.redo.len() == 0 {
            self
        } else {
            StackState { undo: self.undo.push(current), redo: self.redo.drop_last() }
        }
    }
}

/// What an undo does to the stacks: with nothing to undo, nothing changes;
/// otherwise exactly the latest snapshot leaves the undo stack and the table as
/// it was goes on top of the redo stack, above everything already there.
pub proof fn lemma_undo_stack_effect(s: StackState, current: Seq<StoredTask>)
    ensures
        s.undo.len() == 0 ==> s.after_undo(current) == s,
        s.undo.len() > 0 ==> s.after_undo(current).undo == s.undo.drop_last(),
        s.undo.len() > 0 ==> s.after_undo(current).redo == s.redo.push(current),
        s.undo.len() > 0 ==> s.after_undo(current).redo.len() == s.redo.len() + 1,
{
}

/// What a redo does to the stacks: with nothing to redo, nothing changes;
/// otherwise exactly the latest snapshot leaves the redo stack and the table as
/// it was goes on top of the undo stack.
pub proof fn lemma_redo_stack_effect(s: StackState, current: Seq<StoredTask>)
    ensures
        s.redo.len() == 0 ==> s.after_redo(current) == s,
        s.redo.len() > 0 ==> s.after_redo(current).redo == s.redo.drop_last(),
        s.redo.len() > 0 ==> s.after_redo(current).undo == s.undo.push(current),
        s.redo.len() > 0 ==> s.after_redo(current).undo.len() == s.undo.len() + 1,
{
}

/// An undo that finds nothing to undo leaves nothing to redo where there was
/// nothing before.
pub proof fn lemma_failed_undo_leaves_redo_empty(s: StackState, current: Seq<StoredTask>)
    requires
        s.undo.len() == 0,
        s.redo.len() == 0,
    ensures
        s.after_undo(current).redo.len() == 0,
        s.after_undo(current).undo.len() == 0,
{
}

/// A change empties the redo stack and its snapshot is what the next undo
/// writes back.
pub proof fn lemma_record_effect(s: StackState, before: Seq<StoredTask>)
    ensures
        s.after_record(before).undo == s.undo.push(before),
        s.after_record(before).redo.len() == 0,
{
}

/// An undo right after a change writes back the table as it was before the
/// change, leaves the undo stack as it was before the change, and keeps the
/// table it replaced for a redo.
pub proof fn lemma_undo_restores_before_change(
    s: StackState,
    before: Seq<StoredTask>,
    current: Seq<StoredTask>,
)
    ensures
        s.after_record(before).undo.last() == before,
        s.after_record(before).after_undo(current).undo == s.undo,
        s.after_record(before).after_undo(current).redo == seq![current],
{
    assert(s.undo.push(before).drop_last() =~= s.undo);
    assert(Seq::<Seq<StoredTask>>::empty().push(current) =~= seq![current]);
}

/// A redo right after an undo writes back the table as it was before the undo;
/// where the table is then as the undo left it, both stacks are as they were
/// before the undo.
pub proof fn lemma_redo_restores_before_undo(s: StackState, current: Seq<StoredTask>)
    requires
        s.undo.len() > 0,
    ensures
        s.after_undo(current).redo.last() == current,
        s.after_undo(current).after_redo(s.undo.last()) == s,
{
    let u = s.after_undo(current);
    assert(u.redo.drop_last() =~= s.redo);
    assert(s.undo.drop_last().push(s.undo.last()) =~= s.undo);
}

/// `st` runs `sql` with the task id `task_id` as its one parameter.
pub open spec fn is_id_statement(st: DbStatement, sql: &'static str, task_id: i32) -> bool {
    &&& st.sql == sql
    &&& st.params@ == seq![SqlValue::Integer(task_id as i64)]
}

/// `st` inserts a task with these columns.
pub open spec fn is_insert_statement(
    st: DbStatement,
    title: String,
    description: String,
    date: String,
    status: Seq<char>,
) -> bool {
    &&& st.sql == INSERT_TASK_SQL
    &&& st.params@.len() == 4
    &&& st.params@[0] == SqlValue::Text(title)
    &&& st.params@[1] == SqlValue::Text(description)
    &&& st.params@[2] == SqlValue::Text(date)
    &&& st.params@[3] matches SqlValue::Text(s) && s@ == status
}

/// `st` writes the row `t` back without its id (the table gives it a fresh one).
pub open spec fn is_restore_statement(st: DbStatement, t: StoredTask) -> bool {
    is_insert_statement(st, t.title, t.description, t.date, t.status@)
}

/// `sts` empties the table and then inserts each row of `tasks` in turn, with
/// its title, description, date and status; the table gives each a fresh id.
pub open spec fn restores(sts: Seq<DbStatement>, tasks: Seq<StoredTask>) -> bool {
    &&& sts.len() == tasks.len() + 1
    &&& sts[0].sql == DELETE_ALL_SQL
    &&& sts[0].params@.len() == 0
    &&& forall|i: int| 0 <= i < tasks.len() ==> is_restore_statement(#[trigger] sts[i + 1], tasks[i])
}

fn id_statement(sql: &'static str, task_id: i32) -> (st: DbStatement)
    ensures
        is_id_statement(st, sql, task_id),
{
    let mut params: Vec<SqlValue> = Vec::new();
    params.push(SqlValue::Integer(task_id as i64));
    DbStatement { sql, params }
}

fn insert_statement(title: String, description: String, date: String, status: String) -> (st: DbStatement)
    ensures
        is_insert_statement(st, title, description, date, status@),
{
    let mut params: Vec<SqlValue> = Vec::new();
    params.push(SqlValue::Text(title));
    params.push(SqlValue::Text(description));
    params.push(SqlValue::Text(date));
    params.push(SqlValue::Text(status));
    DbStatement { sql: INSERT_TASK_SQL, params }
}

/// The pattern that `LIKE` matches against for a search: the query between two `%`.
pub fn search_pattern(query: &str) -> (p: String)
    ensures
        p@ == seq!['%'] + query@ + seq!['%'],
{
    let mut p = String::new();
    proof {
        reveal_strlit("%");
    }
    p.append("%");
    p.append(query);
    p.append("%");
    p
}

fn restore_statement(t: &StoredTask) -> (st: DbStatement)
    ensures
        is_restore_statement(st, *t),
{
    insert_statement(t.title.clone(), t.description.clone(), t.date.clone(), t.status.clone())
}

/// The statements that write a snapshot back: empty the table, then insert
/// each row of the snapshot without its id.
pub fn restore_task_state(tasks: &Vec<StoredTask>) -> (sts: Vec<DbStatement>)
    ensures
        restores(sts@, tasks@),
{
    let mut sts: Vec<DbStatement> = Vec::new();
    sts.push(DbStatement { sql: DELETE_ALL_SQL, params: Vec::new() });
    let mut i: usize = 0;
    while i < tasks.len()
        invariant
            i <= tasks@.len(),
            sts@.len() == i + 1,
            sts@[0].sql == DELETE_ALL_SQL,
            sts@[0].params@.len() == 0,
            forall|j: int| 0 <= j < i ==> is_restore_statement(#[trigger] sts@[j + 1], tasks@[j]),
        decreases tasks@.len() - i,
    {
        let st = restore_statement(&tasks[i]);
        sts.push(st);
        i = i + 1;
    }
    sts
}

/// The undo and redo stacks of snapshots of the `tasks` table.
pub struct TaskManager {
    undo_stack: Vec<Vec<StoredTask>>,
    redo_stack: Vec<Vec<StoredTask>>,
}

impl View for TaskManager {
    type V = StackState;

    closed spec fn view(&self) -> StackState {
        StackState {
            undo: self.undo_stack@.map_values(|v: Vec<StoredTask>| v@),
            redo: self.redo_stack@.map_values(|v: Vec<StoredTask>| v@),
        }
    }
}

impl TaskManager {
    /// Empty stacks.
    pub fn new() -> (m: TaskManager)
        ensures
            m@.undo == Seq::<Seq<StoredTask>>::empty(),
            m@.redo == Seq::<Seq<StoredTask>>::empty(),
    {
        let m = TaskManager { undo_stack: Vec::new(), redo_stack: Vec::new() };
        assert(m@.undo =~= Seq::<Seq<StoredTask>>::empty());
        assert(m@.redo =~= Seq::<Seq<StoredTask>>::empty());
        m
    }

    /// The statement that adds a task with the status `Undone`.
    pub fn add_task(&self, title: String, description: String, date: String) -> (st: DbStatement)
        ensures
            is_insert_statement(st, title, description, date, "Undone"@),
    {
        insert_statement(title, description, date, String::from_str("Undone"))
    }

    /// The statement that marks the task `task_id` done.
    pub fn mark_task_done(&self, task_id: i32) -> (st: DbStatement)
        ensures
            is_id_statement(st, MARK_DONE_SQL, task_id),
    {
        id_statement(MARK_DONE_SQL, task_id)
    }

    /// The statement that marks the task `task_id` not done.
    pub fn mark_task_undone(&self, task_id: i32) -> (st: DbStatement)
        ensures
            is_id_statement(st, MARK_UNDONE_SQL, task_id),
    {
        id_statement(MARK_UNDONE_SQL, task_id)
    }

    /// The statement that archives the task `task_id`.
    pub fn archive_task(&self, task_id: i32) -> (st: DbStatement)
        ensures
            is_id_statement(st, ARCHIVE_SQL, task_id),
    {
        id_statement(ARCHIVE_SQL, task_id)
    }

    /// The statement that deletes the task `task_id`.
    pub fn delete_task(&self, task_id: i32) -> (st: DbStatement)
        ensures
            is_id_statement(st, DELETE_SQL, task_id),
    {
        id_statement(DELETE_SQL, task_id)
    }

    /// Records `before`, the table as it was just before a change that went
    /// through: it goes on the undo stack and the redo stack is emptied.
    pub fn update_undo_stack(&mut self, before: Vec<StoredTask>)
        ensures
            final(self)@ == old(self)@.after_record(before@),
            final(self)@.undo == old(self)@.undo.push(before@),
            final(self)@.redo.len() == 0,
    {
        let ghost s = before@;
        self.undo_stack.push(before);
        self.redo_stack.clear();
        proof {
            assert(self@.undo =~= old(self)@.undo.push(s));
            assert(self@.redo =~= Seq::<Seq<StoredTask>>::empty());
        }
    }

    /// Undoes the latest change, given `current`, the table as it now is:
    /// returns the statements that write back the table as it was before that
    /// change, and keeps `current` for a redo. Where there is nothing to undo,
    /// returns the error text and changes nothing.
    pub fn undo(&mut self, current: Vec<StoredTask>) -> (r: Result<Vec<DbStatement>, String>)
        ensures
            final(self)@ == old(self)@.after_undo(current@),
            match r {
                Ok(sts) => {
                    &&& old(self)@.undo.len() > 0
                    &&& restores(sts@, old(self)@.undo.last())
                    &&& final(self)@.undo == old(self)@.undo.drop_last()
                    &&& final(self)@.redo == old(self)@.redo.push(current@)
                },
                Err(e) => {
                    &&& old(self)@.undo.len() == 0
                    &&& e@ == "Nothing to undo."@
                    &&& final(self)@ == old(self)@
                },
            },
    {
        match self.undo_stack.pop() {
            Some(prev) => {
                let ghost c = current@;
                self.redo_stack.push(current);
                proof {
                    assert(self@.undo =~= old(self)@.undo.drop_last());
                    assert(self@.redo =~= old(self)@.redo.push(c));
                }
                Ok(restore_task_state(&prev))
            },
            None => Err(String::from_str("Nothing to undo.")),
        }
    }

    /// Redoes the latest undone change, given `current`, the table as it now
    /// is: returns the statements that write back the table as it was before
    /// that undo, and keeps `current` for an undo. Where there is nothing to
    /// redo, returns the error text and changes nothing.
    pub fn redo(&mut self, current: Vec<StoredTask>) -> (r: Result<Vec<DbStatement>, String>)
        ensures
            final(self)@ == old(self)@.after_redo(current@),
            match r {
                Ok(sts) => {
                    &&& old(self)@.redo.len() > 0
                    &&& restores(sts@, old(self)@.redo.last())
                    &&& final(self)@.redo == old(self)@.redo.drop_last()
                    &&& final(self)@.undo == old(self)@.undo.push(current@)
                },
                Err(e) => {
                    &&& old(self)@.redo.len() == 0
                    &&& e@ == "Nothing to redo."@
                    &&& final(self)@ == old(self)@
                },
            },
    {
        match self.redo_stack.pop() {
            Some(prev) => {
                let ghost c = current@;
                self.undo_stack.push(current);
                proof {
                    assert(self@.redo =~= old(self)@.redo.drop_last());
                    assert(self@.undo =~= old(self)@.undo.push(c));
                }
                Ok(restore_task_state(&prev))
            },
            None => Err(String::from_str("Nothing to redo.")),
        }
    }
}

} // verus!
