//! The task cache: tasks by id, with a history of status changes that can be
//! undone and redone. Each change that the database must follow comes back as
//! a [`DbMessage`] for the caller to hand to the database worker.

use std::collections::HashMap;
use std::collections::VecDeque;
use vstd::prelude::*;

use crate::db_message::DbMessage;
use crate::task::{row_task, task_from_row, InvalidStatusError, Task, TaskRow, TaskStatus};
use crate::text::{lemma_prefix_occurs, lemma_text_le_total, lemma_text_le_transitive, occurs_in, text_contains, text_le, text_le_exec};

verus! {

broadcast use vstd::std_specs::hash::group_hash_axioms;

/// The order in which tasks are listed by date.
#[derive(Clone, Copy, Debug, PartialEq, Eq, Structural)]
pub enum SortOrder {
    Ascending,
    Descending,
}

/// What a [`TaskManager`] holds: the cached tasks by id, the snapshots taken
/// before each status change (latest first), and the snapshots taken before
/// each undo (latest first).
pub ghost struct ManagerState {
    pub tasks: Map<u128, Task>,
    pub history: Seq<Task>,
    pub undone: Seq<Task>,
}

impl ManagerState {
    /// Every cached task is filed under its own id.
    pub open spec fn wf(self) -> bool {
        forall|k: u128| #[trigger] self.tasks.contains_key(k) ==> self.tasks[k].id == k
    }

    /// The state after the task `t` has been added (or has replaced the task
    /// with its id).
    pub open spec fn after_add(self, t: Task) -> ManagerState {
        ManagerState { tasks: self.tasks.insert(t.id, t), ..self }
    }

    /// The state after the status of the task `id` has been set to `status`:
    /// the task as it was goes on top of the history, and the redo history is
    /// cleared. Nothing changes where no task has that id.
    pub open spec fn after_update(self, id: u128, status: TaskStatus) -> ManagerState {
        if self.tasks.contains_key(id) {
            ManagerState {
                tasks: self.tasks.insert(id, self.tasks[id].with_status(status)),
                history: seq![self.tasks[id]] + self.history,
                undone: Seq::empty(),
            }
        } else {
            self
        }
    }

    /// The task that the latest snapshot of the history names is still cached
    /// (or the history is empty).
    pub open spec fn undo_ready(self) -> bool {
        self.history.len() > 0 ==> self.tasks.contains_key(self.history[0].id)
    }

    /// The task that the latest snapshot of the redo history names is still
    /// cached (or that history is empty).
    pub open spec fn redo_ready(self) -> bool {
        self.undone.len() > 0 ==> self.tasks.contains_key(self.undone[0].id)
    }

    /// The state after an undo: the latest snapshot leaves the history, the
    /// task as it is goes on top of the redo history, and the task takes the
    /// snapshot's status back. Nothing changes where the history is empty.
    pub open spec fn after_undo(self) -> ManagerState {
        if self.history.len() == 0 {
            self
        } else {
            let snap = self.history[0];
            let cur = self.tasks[snap.id];
            ManagerState {
                tasks: self.tasks.insert(snap.id, cur.with_status(snap.status)),
                history: self.history.drop_first(),
                undone: seq![cur] + self.undone,
            }
        }
    }

    /// The state after a redo: the latest snapshot leaves the redo history, the
    /// task as it is goes on top of the history, and the task takes the
    /// snapshot's status. Nothing changes where the redo history is empty.
    pub open spec fn after_redo(self) -> ManagerState {
        if self.undone.len() == 0 {
            self
        } else {
            let snap = self.undone[0];
            let cur = self.tasks[snap.id];
            ManagerState {
                tasks: self.tasks.insert(snap.id, cur.with_status(snap.status)),
                history: seq![cur] + self.history,
                undone: self.undone.drop_first(),
            }
        }
    }

    /// The state after the task `id` has been deleted from the cache (the
    /// histories keep their snapshots of it).
    pub open spec fn after_delete(self, id: u128) -> ManagerState {
        ManagerState { tasks: self.tasks.remove(id), ..self }
    }
}

/// Undoing a status change gives back the tasks and the history as they were
/// before it, and leaves the changed task alone in the redo history.
pub proof fn lemma_undo_reverts_update(s: ManagerState, id: u128, status: TaskStatus)
    requires
        s.wf(),
        s.tasks.contains_key(id),
    ensures
        s.after_update(id, status).undo_ready(),
        s.after_update(id, status).after_undo().tasks == s.tasks,
        s.after_update(id, status).after_undo().history == s.history,
        s.after_update(id, status).after_undo().undone == seq![s.tasks[id].with_status(status)],
{
    let u = s.after_update(id, status);
    let t = s.tasks[id];
    assert(u.history[0] == t);
    assert(t.with_status(status).with_status(t.status) == t);
    assert(u.after_undo().tasks =~= s.tasks);
    assert(u.history.drop_first() =~= s.history);
}

/// Redoing an undone status change gives back the state right after the change.
pub proof fn lemma_redo_reapplies_update(s: ManagerState, id: u128, status: TaskStatus)
    requires
        s.wf(),
        s.tasks.contains_key(id),
    ensures
        s.after_update(id, status).after_undo().redo_ready(),
        s.after_update(id, status).after_undo().after_redo() == s.after_update(id, status),
{
    lemma_undo_reverts_update(s, id, status);
    let u = s.after_update(id, status);
    let v = u.after_undo();
    let w = v.after_redo();
    let t = s.tasks[id];
    assert(v.undone[0] == t.with_status(status));
    assert(v.tasks[id] == t);
    assert(w.tasks =~= u.tasks);
    assert(w.history =~= u.history);
    assert(w.undone =~= u.undone);
}

/// Deleting a task that was just added under a fresh id gives back the cache
/// as it was.
pub proof fn lemma_delete_reverts_add(s: ManagerState, t: Task)
    requires
        !s.tasks.contains_key(t.id),
    ensures
        s.after_add(t).after_delete(t.id) == s,
{
    assert(s.after_add(t).after_delete(t.id).tasks =~= s.tasks);
}

/// A status change of a task that is not cached changes nothing, and one of a
/// cached task empties the redo history.
pub proof fn lemma_update_clears_redo(s: ManagerState, id: u128, status: TaskStatus)
    ensures
        !s.tasks.contains_key(id) ==> s.after_update(id, status) == s,
        s.tasks.contains_key(id) ==> s.after_update(id, status).undone.len() == 0,
{
}

/// Every operation keeps each cached task filed under its own id.
pub proof fn lemma_operations_keep_wf(s: ManagerState, t: Task, id: u128, status: TaskStatus)
    requires
        s.wf(),
    ensures
        s.after_add(t).wf(),
        s.after_update(id, status).wf(),
        s.after_delete(id).wf(),
        s.undo_ready() ==> s.after_undo().wf(),
        s.redo_ready() ==> s.after_redo().wf(),
{
}

/// `s` lists the tasks of `m`, each once, in some order.
pub open spec fn lists_exactly(s: Seq<Task>, m: Map<u128, Task>) -> bool {
    &&& forall|i: int| 0 <= i < s.len() ==> m.contains_key(#[trigger] s[i].id) && m[s[i].id] == s[i]
    &&& forall|i: int, j: int| 0 <= i < j < s.len() ==> #[trigger] s[i].id != #[trigger] s[j].id
    &&& forall|k: u128|
        #[trigger] m.contains_key(k) ==> exists|i: int| 0 <= i < s.len() && #[trigger] s[i].id == k
}

/// `keyword` occurs in the task's title, description or date.
pub open spec fn matches_keyword(t: Task, keyword: Seq<char>) -> bool {
    occurs_in(keyword, t.title@) || occurs_in(keyword, t.description@) || occurs_in(keyword, t.date@)
}

/// The tasks of `m` in which `keyword` occurs.
pub open spec fn tasks_matching(m: Map<u128, Task>, keyword: Seq<char>) -> Map<u128, Task> {
    Map::new(|k: u128| m.contains_key(k) && matches_keyword(m[k], keyword), |k: u128| m[k])
}

/// Under `order`, task `a` may stand before task `b`: its date comes no later
/// (ascending) or no earlier (descending) than `b`'s.
pub open spec fn date_before(a: Task, b: Task, order: SortOrder) -> bool {
    match order {
        SortOrder::Ascending => text_le(a.date@, b.date@),
        SortOrder::Descending => text_le(b.date@, a.date@),
    }
}

/// The tasks of `s` stand in `order` of their dates.
pub open spec fn sorted_by_date(s: Seq<Task>, order: SortOrder) -> bool {
    forall|i: int, j: int| 0 <= i < j < s.len() ==> date_before(#[trigger] s[i], #[trigger] s[j], order)
}

proof fn lemma_date_before_total(a: Task, b: Task, order: SortOrder)
    ensures
        date_before(a, b, order) || date_before(b, a, order),
{
    lemma_text_le_total(a.date@, b.date@);
}

proof fn lemma_date_before_transitive(a: Task, b: Task, c: Task, order: SortOrder)
    requires
        date_before(a, b, order),
        date_before(b, c, order),
    ensures
        date_before(a, c, order),
{
    match order {
        SortOrder::Ascending => lemma_text_le_transitive(a.date@, b.date@, c.date@),
        SortOrder::Descending => lemma_text_le_transitive(c.date@, b.date@, a.date@),
    }
}

fn date_before_exec(a: &Task, b: &Task, order: SortOrder) -> (r: bool)
    ensures
        r == date_before(*a, *b, order),
{
    match order {
        SortOrder::Ascending => text_le_exec(a.date.as_str(), b.date.as_str()),
        SortOrder::Descending => text_le_exec(b.date.as_str(), a.date.as_str()),
    }
}

/// Inserts `x` into the sorted `out` after every task that may stand before it.
fn insert_sorted(out: &mut Vec<Task>, x: Task, order: SortOrder) -> (p: usize)
    requires
        sorted_by_date(old(out)@, order),
    ensures
        p <= old(out)@.len(),
        final(out)@ == old(out)@.insert(p as int, x),
        sorted_by_date(final(out)@, order),
{
    let mut p: usize = 0;
    while p < out.len() && date_before_exec(&out[p], &x, order)
        invariant
            p <= out@.len(),
            forall|j: int| 0 <= j < p ==> date_before(#[trigger] out@[j], x, order),
        decreases out@.len() - p,
    {
        p = p + 1;
    }
    let ghost old_out = out@;
    proof {
        if p < old_out.len() {
            lemma_date_before_total(old_out[p as int], x, order);
            assert forall|j: int| p <= j < old_out.len() implies date_before(x, #[trigger] old_out[j], order) by {
                if j > p {
                    lemma_date_before_transitive(x, old_out[p as int], old_out[j], order);
                }
            }
        }
    }
    out.insert(p, x);
    proof {
        let n = out@;
        assert forall|i: int, j: int| 0 <= i < j < n.len() implies date_before(#[trigger] n[i], #[trigger] n[j], order) by {
            if i < p && j == p {
            } else if i < p && j > p {
                assert(n[j] == old_out[j - 1]);
            } else if i == p {
                assert(n[j] == old_out[j - 1]);
            } else if j < p {
            } else {
                assert(n[i] == old_out[i - 1]);
                assert(n[j] == old_out[j - 1]);
            }
        }
    }
    p
}

/// The cache that the rows fill, each valid row in turn filed under its
/// task's id (a later row replaces an earlier one with the same id).
pub open spec fn tasks_of_rows(rows: Seq<TaskRow>) -> Map<u128, Task>
    decreases rows.len(),
{
    if rows.len() == 0 {
        Map::empty()
    } else {
        let prev = tasks_of_rows(rows.drop_last());
        match row_task(rows.last()) {
            Some(t) => prev.insert(t.id, t),
            None => prev,
        }
    }
}

proof fn lemma_tasks_of_rows_prefix(ts: Seq<Task>, rows: Seq<TaskRow>, n: int)
    requires
        0 <= n <= ts.len(),
        rows.len() == ts.len(),
        forall|i: int, j: int| 0 <= i < j < ts.len() ==> #[trigger] ts[i].id != #[trigger] ts[j].id,
        forall|i: int| 0 <= i < rows.len() ==> #[trigger] row_task(rows[i]) == Some(ts[i]),
    ensures
        forall|k: u128| #[trigger] tasks_of_rows(rows.take(n)).contains_key(k) ==> exists|i: int|
            0 <= i < n && #[trigger] ts[i].id == k,
        forall|i: int|
            0 <= i < n ==> tasks_of_rows(rows.take(n)).contains_key(#[trigger] ts[i].id)
                && tasks_of_rows(rows.take(n))[ts[i].id] == ts[i],
    decreases n,
{
    if n > 0 {
        lemma_tasks_of_rows_prefix(ts, rows, n - 1);
        assert(rows.take(n).drop_last() =~= rows.take(n - 1));
        assert(rows.take(n).last() == rows[n - 1]);
        assert(row_task(rows[n - 1]) == Some(ts[n - 1]));
        let prev = tasks_of_rows(rows.take(n - 1));
        assert(tasks_of_rows(rows.take(n)) == prev.insert(ts[n - 1].id, ts[n - 1]));
        assert forall|k: u128| #[trigger] tasks_of_rows(rows.take(n)).contains_key(k) implies exists|i: int|
            0 <= i < n && #[trigger] ts[i].id == k by {
            if k != ts[n - 1].id {
                assert(prev.contains_key(k));
            }
        }
    } else {
        assert(rows.take(0) =~= Seq::<TaskRow>::empty());
    }
}

/// Reading back the rows that hold the cached tasks, one row per task, fills
/// the cache with exactly those tasks.
pub proof fn lemma_load_restores_tasks(ts: Seq<Task>, rows: Seq<TaskRow>, m: Map<u128, Task>)
    requires
        lists_exactly(ts, m),
        rows.len() == ts.len(),
        forall|i: int| 0 <= i < rows.len() ==> #[trigger] row_task(rows[i]) == Some(ts[i]),
    ensures
        tasks_of_rows(rows) == m,
{
    lemma_tasks_of_rows_prefix(ts, rows, ts.len() as int);
    assert(rows.take(rows.len() as int) =~= rows);
    let t = tasks_of_rows(rows);
    assert forall|k: u128| #[trigger] t.contains_key(k) <==> m.contains_key(k) by {
        if m.contains_key(k) {
            let i = choose|i: int| 0 <= i < ts.len() && #[trigger] ts[i].id == k;
            assert(t.contains_key(ts[i].id));
        }
        if t.contains_key(k) {
            let i = choose|i: int| 0 <= i < ts.len() && #[trigger] ts[i].id == k;
            assert(m.contains_key(ts[i].id));
        }
    }
    assert forall|k: u128| #[trigger] t.contains_key(k) implies t[k] == m[k] by {
        let i = choose|i: int| 0 <= i < ts.len() && #[trigger] ts[i].id == k;
        assert(t[ts[i].id] == ts[i]);
        assert(m[ts[i].id] == ts[i]);
    }
    assert(t =~= m);
}

/// Every task matches the empty keyword, so searching for it finds every task.
pub proof fn lemma_empty_keyword_matches_all(m: Map<u128, Task>)
    ensures
        tasks_matching(m, Seq::<char>::empty()) == m,
{
    assert forall|k: u128| m.contains_key(k) implies matches_keyword(m[k], Seq::<char>::empty()) by {
        let title = m[k].title@;
        let e = Seq::<char>::empty();
        assert(title.subrange(0, 0int + e.len()) =~= e);
        assert(occurs_in(e, title));
    }
    assert(tasks_matching(m, Seq::<char>::empty()) =~= m);
}

/// A longer keyword never finds more: every task that `a` followed by `b`
/// matches is also matched by `a`.
pub proof fn lemma_longer_keyword_finds_fewer(m: Map<u128, Task>, a: Seq<char>, b: Seq<char>)
    ensures
        forall|k: u128| #[trigger] tasks_matching(m, a + b).contains_key(k) ==> tasks_matching(m, a).contains_key(k)
            && tasks_matching(m, a)[k] == tasks_matching(m, a + b)[k],
{
    assert forall|k: u128| #[trigger] tasks_matching(m, a + b).contains_key(k) implies tasks_matching(m, a).contains_key(k)
        && tasks_matching(m, a)[k] == tasks_matching(m, a + b)[k] by {
        let t = m[k];
        if occurs_in(a + b, t.title@) {
            lemma_prefix_occurs(a, b, t.title@);
        }
        if occurs_in(a + b, t.description@) {
            lemma_prefix_occurs(a, b, t.description@);
        }
        if occurs_in(a + b, t.date@) {
            lemma_prefix_occurs(a, b, t.date@);
        }
    }
}

/// The message that each operation hands back makes a table that held the
/// cached tasks hold them again after the operation: the database follows
/// the cache.
pub proof fn lemma_messages_keep_table_in_step(s: ManagerState, t: Task, id: u128, status: TaskStatus)
    requires
        s.wf(),
    ensures
        DbMessage::AddTaskToDb(t).applied_to(s.tasks) == s.after_add(t).tasks,
        s.tasks.contains_key(id) ==> DbMessage::UpdateTaskStatusInDb(id, status).applied_to(s.tasks)
            == s.after_update(id, status).tasks,
        s.tasks.contains_key(id) ==> DbMessage::DeleteTaskFromDb(id).applied_to(s.tasks)
            == s.after_delete(id).tasks,
        s.history.len() > 0 && s.undo_ready() ==> DbMessage::UpdateTaskStatusInDb(
            s.history[0].id,
            s.history[0].status,
        ).applied_to(s.tasks) == s.after_undo().tasks,
        s.undone.len() > 0 && s.redo_ready() ==> DbMessage::UpdateTaskStatusInDb(
            s.undone[0].id,
            s.undone[0].status,
        ).applied_to(s.tasks) == s.after_redo().tasks,
{
}

/// A task with another status keeps its id, title, description and date.
pub proof fn lemma_with_status_changes_only_status(t: Task, status: TaskStatus)
    ensures
        t.with_status(status).status == status,
        t.with_status(status).id == t.id,
        t.with_status(status).title == t.title,
        t.with_status(status).description == t.description,
        t.with_status(status).date == t.date,
{
}

/// What adding does: the task is filed under its id, every other task and
/// both histories stay as they were.
pub proof fn lemma_add_effect(s: ManagerState, t: Task)
    ensures
        s.after_add(t).tasks.contains_key(t.id),
        s.after_add(t).tasks[t.id] == t,
        forall|k: u128|
            k != t.id ==> (#[trigger] s.after_add(t).tasks.contains_key(k) == s.tasks.contains_key(k)
                && (s.tasks.contains_key(k) ==> s.after_add(t).tasks[k] == s.tasks[k])),
        s.after_add(t).history == s.history,
        s.after_add(t).undone == s.undone,
{
}

/// What a status change of a cached task does: the task takes the new status
/// and keeps its other fields, the task as it was goes first in the history,
/// the redo history empties, and every other task stays as it was.
pub proof fn lemma_update_effect(s: ManagerState, id: u128, status: TaskStatus)
    requires
        s.wf(),
        s.tasks.contains_key(id),
    ensures
        ({
            let u = s.after_update(id, status);
            &&& u.tasks.contains_key(id)
            &&& u.tasks[id].status == status
            &&& u.tasks[id].id == id
            &&& u.tasks[id].title == s.tasks[id].title
            &&& u.tasks[id].description == s.tasks[id].description
            &&& u.tasks[id].date == s.tasks[id].date
            &&& u.history.len() == s.history.len() + 1
            &&& u.history[0] == s.tasks[id]
            &&& u.history.drop_first() == s.history
            &&& u.undone.len() == 0
            &&& forall|k: u128|
                k != id ==> (#[trigger] u.tasks.contains_key(k) == s.tasks.contains_key(k) && (
                s.tasks.contains_key(k) ==> u.tasks[k] == s.tasks[k]))
        }),
{
    let u = s.after_update(id, status);
    assert(u.history.drop_first() =~= s.history);
}

/// What a delete does: no task is left under the id, every other task and both
/// histories stay as they were.
pub proof fn lemma_delete_effect(s: ManagerState, id: u128)
    ensures
        !s.after_delete(id).tasks.contains_key(id),
        forall|k: u128|
            k != id ==> (#[trigger] s.after_delete(id).tasks.contains_key(k) == s.tasks.contains_key(k)
                && (s.tasks.contains_key(k) ==> s.after_delete(id).tasks[k] == s.tasks[k])),
        s.after_delete(id).history == s.history,
        s.after_delete(id).undone == s.undone,
{
}

/// An undo or a redo with nothing to take changes nothing.
pub proof fn lemma_undo_redo_with_nothing_to_take(s: ManagerState)
    ensures
        s.history.len() == 0 ==> s.after_undo() == s,
        s.undone.len() == 0 ==> s.after_redo() == s,
{
}

/// What an undo does: the task named by the latest snapshot takes the
/// snapshot's status back and keeps its other fields; the snapshot leaves the
/// history; the task as it was goes first in the redo history, in front of
/// the whole redo history as it was; every other task stays as it was.
pub proof fn lemma_undo_effect(s: ManagerState)
    requires
        s.wf(),
        s.undo_ready(),
        s.history.len() > 0,
    ensures
        ({
            let snap = s.history[0];
            let u = s.after_undo();
            &&& u.tasks.contains_key(snap.id)
            &&& u.tasks[snap.id].status == snap.status
            &&& u.tasks[snap.id].id == snap.id
            &&& u.tasks[snap.id].title == s.tasks[snap.id].title
            &&& u.tasks[snap.id].description == s.tasks[snap.id].description
            &&& u.tasks[snap.id].date == s.tasks[snap.id].date
            &&& u.history.len() == s.history.len() - 1
            &&& u.history == s.history.drop_first()
            &&& u.undone.len() == s.undone.len() + 1
            &&& u.undone[0] == s.tasks[snap.id]
            &&& u.undone.drop_first() == s.undone
            &&& forall|k: u128|
                k != snap.id ==> (#[trigger] u.tasks.contains_key(k) == s.tasks.contains_key(k) && (
                s.tasks.contains_key(k) ==> u.tasks[k] == s.tasks[k]))
        }),
{
    let u = s.after_undo();
    assert(u.undone.drop_first() =~= s.undone);
}

/// What a redo does: the task named by the latest redo snapshot takes that
/// snapshot's status and keeps its other fields; exactly that snapshot leaves
/// the redo history, the rest staying for later redos; the task as it was goes
/// first in the history; every other task stays as it was.
pub proof fn lemma_redo_effect(s: ManagerState)
    requires
        s.wf(),
        s.redo_ready(),
        s.undone.len() > 0,
    ensures
        ({
            let snap = s.undone[0];
            let u = s.after_redo();
            &&& u.tasks.contains_key(snap.id)
            &&& u.tasks[snap.id].status == snap.status
            &&& u.tasks[snap.id].id == snap.id
            &&& u.tasks[snap.id].title == s.tasks[snap.id].title
            &&& u.tasks[snap.id].description == s.tasks[snap.id].description
            &&& u.tasks[snap.id].date == s.tasks[snap.id].date
            &&& u.undone.len() == s.undone.len() - 1
            &&& u.undone == s.undone.drop_first()
            &&& u.history.len() == s.history.len() + 1
            &&& u.history[0] == s.tasks[snap.id]
            &&& u.history.drop_first() == s.history
            &&& forall|k: u128|
                k != snap.id ==> (#[trigger] u.tasks.contains_key(k) == s.tasks.contains_key(k) && (
                s.tasks.contains_key(k) ==> u.tasks[k] == s.tasks[k]))
        }),
{
    let u = s.after_redo();
    assert(u.history.drop_first() =~= s.history);
}

/// A redo right after an undo gives back the tasks and the redo history as
/// they were before the undo, and a history whose first entry names the same
/// task with the same status, the rest unchanged.
pub proof fn lemma_undo_then_redo_restores(s: ManagerState)
    requires
        s.wf(),
        s.undo_ready(),
        s.history.len() > 0,
    ensures
        s.after_undo().wf(),
        s.after_undo().redo_ready(),
        s.after_undo().after_redo().tasks == s.tasks,
        s.after_undo().after_redo().undone == s.undone,
        s.after_undo().after_redo().history.len() == s.history.len(),
        s.after_undo().after_redo().history[0].id == s.history[0].id,
        s.after_undo().after_redo().history[0].status == s.history[0].status,
        s.after_undo().after_redo().history.drop_first() == s.history.drop_first(),
{
    let snap = s.history[0];
    let cur = s.tasks[snap.id];
    let u = s.after_undo();
    let w = u.after_redo();
    assert(u.undone[0] == cur);
    assert(cur.id == snap.id);
    assert(cur.with_status(snap.status).with_status(cur.status) == cur);
    assert(w.tasks =~= s.tasks);
    assert(w.undone =~= s.undone);
    assert(w.history.drop_first() =~= s.history.drop_first());
}

/// An undo right after a redo gives back the tasks and the history as they
/// were before the redo, and a redo history whose first entry names the same
/// task with the same status, the rest unchanged.
pub proof fn lemma_redo_then_undo_restores(s: ManagerState)
    requires
        s.wf(),
        s.redo_ready(),
        s.undone.len() > 0,
    ensures
        s.after_redo().wf(),
        s.after_redo().undo_ready(),
        s.after_redo().after_undo().tasks == s.tasks,
        s.after_redo().after_undo().history == s.history,
        s.after_redo().after_undo().undone.len() == s.undone.len(),
        s.after_redo().after_undo().undone[0].id == s.undone[0].id,
        s.after_redo().after_undo().undone[0].status == s.undone[0].status,
        s.after_redo().after_undo().undone.drop_first() == s.undone.drop_first(),
{
    let snap = s.undone[0];
    let cur = s.tasks[snap.id];
    let u = s.after_redo();
    let w = u.after_undo();
    assert(u.history[0] == cur);
    assert(cur.id == snap.id);
    assert(cur.with_status(snap.status).with_status(cur.status) == cur);
    assert(w.tasks =~= s.tasks);
    assert(w.history =~= s.history);
    assert(w.undone.drop_first() =~= s.undone.drop_first());
}

/// Searching finds exactly the cached tasks in whose title, description or
/// date the keyword occurs: a task is found as soon as the keyword occurs in
/// any one of the three.
pub proof fn lemma_search_matches_exactly(m: Map<u128, Task>, keyword: Seq<char>)
    ensures
        forall|k: u128|
            #[trigger] tasks_matching(m, keyword).contains_key(k) == (m.contains_key(k) && (occurs_in(
                keyword,
                m[k].title@,
            ) || occurs_in(keyword, m[k].description@) || occurs_in(keyword, m[k].date@))),
        forall|k: u128|
            #[trigger] tasks_matching(m, keyword).contains_key(k) ==> tasks_matching(m, keyword)[k] == m[k],
{
}

/// Tasks sorted by date stand in the order of their whole date texts:
/// ascending, each date is no greater than any later one; descending, no less.
pub proof fn lemma_sorted_is_date_order(s: Seq<Task>, order: SortOrder)
    ensures
        sorted_by_date(s, order) == (forall|i: int, j: int|
            0 <= i < j < s.len() ==> (match order {
                SortOrder::Ascending => text_le(#[trigger] s[i].date@, #[trigger] s[j].date@),
                SortOrder::Descending => text_le(s[j].date@, s[i].date@),
            })),
{
}

/// A listing of the tasks of a map has one entry per task: as many entries as
/// the map has tasks, and an entry for a task exactly where the map has it.
pub proof fn lemma_listing_has_one_entry_per_task(s: Seq<Task>, m: Map<u128, Task>)
    requires
        lists_exactly(s, m),
        m.dom().finite(),
    ensures
        s.len() == m.len(),
        forall|k: u128| #[trigger] m.contains_key(k) == (exists|i: int| 0 <= i < s.len() && s[i].id == k),
{
    let ids = Seq::new(s.len(), |i: int| s[i].id);
    assert(ids.no_duplicates()) by {
        assert forall|i: int, j: int| 0 <= i < ids.len() && 0 <= j < ids.len() && i != j implies ids[i]
            != ids[j] by {
            if i < j {
                assert(s[i].id != s[j].id);
            } else {
                assert(s[j].id != s[i].id);
            }
        }
    }
    ids.unique_seq_to_set();
    assert forall|k: u128| #[trigger] ids.to_set().contains(k) == m.dom().contains(k) by {
        if m.contains_key(k) {
            let i = choose|i: int| 0 <= i < s.len() && #[trigger] s[i].id == k;
            assert(ids[i] == k);
        }
        if ids.to_set().contains(k) {
            let i = choose|i: int| 0 <= i < ids.len() && ids[i] == k;
            assert(m.contains_key(s[i].id));
        }
    }
    assert(ids.to_set() =~= m.dom());
    assert forall|k: u128| #[trigger] m.contains_key(k) == (exists|i: int| 0 <= i < s.len() && s[i].id == k) by {
        if m.contains_key(k) {
            let i = choose|i: int| 0 <= i < s.len() && #[trigger] s[i].id == k;
        }
        if exists|i: int| 0 <= i < s.len() && s[i].id == k {
            let i = choose|i: int| 0 <= i < s.len() && s[i].id == k;
            assert(m.contains_key(s[i].id));
        }
    }
}

/// Where several rows carry the same id, the last of them is the one that
/// stays: a valid last row is always what its id is filed with.
pub proof fn lemma_last_row_wins(rows: Seq<TaskRow>)
    requires
        rows.len() > 0,
        row_task(rows.last()) is Some,
    ensures
        tasks_of_rows(rows).contains_key(row_task(rows.last())->0.id),
        tasks_of_rows(rows)[row_task(rows.last())->0.id] == row_task(rows.last())->0,
{
}

/// A row that stands for no task adds nothing.
pub proof fn lemma_invalid_row_adds_nothing(rows: Seq<TaskRow>, row: TaskRow)
    requires
        row_task(row) is None,
    ensures
        tasks_of_rows(rows.push(row)) == tasks_of_rows(rows),
{
    assert(rows.push(row).drop_last() =~= rows);
}

/// The in-memory cache of tasks.
pub struct TaskManager {
    tasks: HashMap<u128, Task>,
    task_history: VecDeque<Task>,
    undone_tasks: VecDeque<Task>,
}

impl View for TaskManager {
    type V = ManagerState;

    closed spec fn view(&self) -> ManagerState {
        ManagerState { tasks: self.tasks@, history: self.task_history@, undone: self.undone_tasks@ }
    }
}

impl TaskManager {
    /// Every cached task is filed under its own id.
    #[verifier::type_invariant]
    spec fn inv(self) -> bool {
        self@.wf()
    }

    /// Takes the parts out of the manager, leaving it empty.
    fn take_parts(&mut self) -> (r: (HashMap<u128, Task>, VecDeque<Task>, VecDeque<Task>))
        ensures
            old(self)@.wf(),
            r.0@ == old(self)@.tasks,
            r.1@ == old(self)@.history,
            r.2@ == old(self)@.undone,
    {
        let mut m = TaskManager::new();
        std::mem::swap(&mut m, self);
        proof {
            use_type_invariant(&m);
        }
        let TaskManager { tasks, task_history, undone_tasks } = m;
        (tasks, task_history, undone_tasks)
    }

    /// Puts parts that file each task under its own id back into the manager.
    fn put_parts(&mut self, tasks: HashMap<u128, Task>, history: VecDeque<Task>, undone: VecDeque<Task>)
        requires
            (ManagerState { tasks: tasks@, history: history@, undone: undone@ }).wf(),
        ensures
            final(self)@ == (ManagerState { tasks: tasks@, history: history@, undone: undone@ }),
    {
        *self = TaskManager { tasks, task_history: history, undone_tasks: undone };
    }

    /// An empty cache with empty histories.
    pub fn new() -> (m: TaskManager)
        ensures
            m@.tasks == Map::<u128, Task>::empty(),
            m@.history == Seq::<Task>::empty(),
            m@.undone == Seq::<Task>::empty(),
            m@.wf(),
    {
        TaskManager { tasks: HashMap::new(), task_history: VecDeque::new(), undone_tasks: VecDeque::new() }
    }

    /// Adds a new `Todo` task with a fresh random id, and returns the id and the
    /// message that writes the task to the database.
    pub fn add_task(&mut self, title: String, description: String, date: String) -> (r: (u128, DbMessage))
        ensures
            final(self)@.wf(),
            (r.0 >> 76u128) & 0xfu128 == 4u128,
            (r.0 >> 62u128) & 0x3u128 == 2u128,
            final(self)@ == old(self)@.after_add(
                Task { id: r.0, title: title, description: description, status: TaskStatus::Todo, date: date },
            ),
            r.1 == DbMessage::AddTaskToDb(
                Task { id: r.0, title: title, description: description, status: TaskStatus::Todo, date: date },
            ),
            r.1.applied_to(old(self)@.tasks) == final(self)@.tasks,
            final(self)@.tasks.contains_key(r.0),
            final(self)@.tasks[r.0].id == r.0,
            final(self)@.tasks[r.0].title == title,
            final(self)@.tasks[r.0].description == description,
            final(self)@.tasks[r.0].status == TaskStatus::Todo,
            final(self)@.tasks[r.0].date == date,
            forall|k: u128|
                k != r.0 ==> (#[trigger] final(self)@.tasks.contains_key(k) == old(self)@.tasks.contains_key(k) && (old(self)@.tasks.contains_key(k)
                    ==> final(self)@.tasks[k] == old(self)@.tasks[k])),
            final(self)@.history == old(self)@.history,
            final(self)@.undone == old(self)@.undone,
    {
        let (mut tasks, history, undone) = self.take_parts();
        let task = Task::new(title, description, date);
        let id = task.id;
        let copy = task.clone();
        tasks.insert(id, task);
        self.put_parts(tasks, history, undone);
        (id, DbMessage::AddTaskToDb(copy))
    }

    /// Sets the status of the task `task_id`, keeping a snapshot of it for
    /// undo and clearing the redo history. Returns the message for the
    /// database, or `None` where no task has that id.
    pub fn update_task_status(&mut self, task_id: u128, status: TaskStatus) -> (r: Option<DbMessage>)
        ensures
            final(self)@.wf(),
            final(self)@ == old(self)@.after_update(task_id, status),
            match r {
                Some(msg) => msg.applied_to(old(self)@.tasks) == final(self)@.tasks,
                None => final(self)@.tasks == old(self)@.tasks,
            },
            r == (if old(self)@.tasks.contains_key(task_id) {
                Some(DbMessage::UpdateTaskStatusInDb(task_id, status))
            } else {
                None
            }),
            !old(self)@.tasks.contains_key(task_id) ==> final(self)@ == old(self)@,
            old(self)@.tasks.contains_key(task_id) ==> {
                &&& final(self)@.tasks.contains_key(task_id)
                &&& final(self)@.tasks[task_id].status == status
                &&& final(self)@.tasks[task_id].id == task_id
                &&& final(self)@.tasks[task_id].title == old(self)@.tasks[task_id].title
                &&& final(self)@.tasks[task_id].description == old(self)@.tasks[task_id].description
                &&& final(self)@.tasks[task_id].date == old(self)@.tasks[task_id].date
                &&& final(self)@.history.len() == old(self)@.history.len() + 1
                &&& final(self)@.history[0] == old(self)@.tasks[task_id]
                &&& final(self)@.history.drop_first() == old(self)@.history
                &&& final(self)@.undone.len() == 0
            },
            forall|k: u128|
                k != task_id ==> (#[trigger] final(self)@.tasks.contains_key(k) == old(self)@.tasks.contains_key(k) && (old(self)@.tasks.contains_key(k)
                    ==> final(self)@.tasks[k] == old(self)@.tasks[k])),
    {
        let (mut tasks, mut history, mut undone) = self.take_parts();
        let found = match tasks.get(&task_id) {
            Some(t) => Some(t.clone()),
            None => None,
        };
        match found {
            Some(snapshot) => {
                let mut changed = snapshot.clone();
                history.push_front(snapshot);
                changed.status = status;
                tasks.insert(task_id, changed);
                undone.clear();
                self.put_parts(tasks, history, undone);
                Some(DbMessage::UpdateTaskStatusInDb(task_id, status))
            },
            None => {
                self.put_parts(tasks, history, undone);
                None
            },
        }
    }

    /// Whether an undo would find the task that it restores (an undo with an
    /// empty history is always possible).
    pub fn undo_ready(&self) -> (r: bool)
        ensures
            r == self@.undo_ready(),
    {
        proof {
            use_type_invariant(self);
        }
        if self.task_history.len() == 0 {
            true
        } else {
            self.tasks.contains_key(&self.task_history[0].id)
        }
    }

    /// Whether a redo would find the task that it restores (a redo with an
    /// empty redo history is always possible).
    pub fn redo_ready(&self) -> (r: bool)
        ensures
            r == self@.redo_ready(),
    {
        proof {
            use_type_invariant(self);
        }
        if self.undone_tasks.len() == 0 {
            true
        } else {
            self.tasks.contains_key(&self.undone_tasks[0].id)
        }
    }

    /// Undoes the latest status change. Returns the message that writes the
    /// restored status to the database, or `None` where there is nothing to undo.
    pub fn undo(&mut self) -> (r: Option<DbMessage>)
        requires
            old(self)@.undo_ready(),
        ensures
            final(self)@.wf(),
            final(self)@ == old(self)@.after_undo(),
            match r {
                Some(msg) => msg.applied_to(old(self)@.tasks) == final(self)@.tasks,
                None => final(self)@.tasks == old(self)@.tasks,
            },
            r == (if old(self)@.history.len() > 0 {
                Some(
                    DbMessage::UpdateTaskStatusInDb(
                        old(self)@.history[0].id,
                        old(self)@.history[0].status,
                    ),
                )
            } else {
                None
            }),
            old(self)@.history.len() == 0 ==> final(self)@ == old(self)@,
            old(self)@.history.len() > 0 ==> {
                let snap = old(self)@.history[0];
                &&& final(self)@.tasks.contains_key(snap.id)
                &&& final(self)@.tasks[snap.id].status == snap.status
                &&& final(self)@.tasks[snap.id].id == snap.id
                &&& final(self)@.tasks[snap.id].title == old(self)@.tasks[snap.id].title
                &&& final(self)@.tasks[snap.id].description == old(self)@.tasks[snap.id].description
                &&& final(self)@.tasks[snap.id].date == old(self)@.tasks[snap.id].date
                &&& final(self)@.history.len() == old(self)@.history.len() - 1
                &&& final(self)@.history == old(self)@.history.drop_first()
                &&& final(self)@.undone.len() == old(self)@.undone.len() + 1
                &&& final(self)@.undone[0] == old(self)@.tasks[snap.id]
                &&& final(self)@.undone.drop_first() == old(self)@.undone
                &&& forall|k: u128|
                    k != snap.id ==> (#[trigger] final(self)@.tasks.contains_key(k) == old(self)@.tasks.contains_key(k)
                        && (old(self)@.tasks.contains_key(k) ==> final(self)@.tasks[k] == old(self)@.tasks[k]))
            },
    {
        let (mut tasks, mut history, mut undone) = self.take_parts();
        match history.pop_front() {
            Some(snapshot) => {
                let current = tasks.get(&snapshot.id).unwrap().clone();
                let mut restored = current.clone();
                undone.push_front(current);
                restored.status = snapshot.status;
                tasks.insert(snapshot.id, restored);
                proof {
                    assert(history@ == old(self)@.history.drop_first());
                }
                self.put_parts(tasks, history, undone);
                Some(DbMessage::UpdateTaskStatusInDb(snapshot.id, snapshot.status))
            },
            None => {
                self.put_parts(tasks, history, undone);
                None
            },
        }
    }

    /// Redoes the latest undone status change. Returns the message that writes
    /// the status to the database, or `None` where there is nothing to redo.
    pub fn redo(&mut self) -> (r: Option<DbMessage>)
        requires
            old(self)@.redo_ready(),
        ensures
            final(self)@.wf(),
            final(self)@ == old(self)@.after_redo(),
            match r {
                Some(msg) => msg.applied_to(old(self)@.tasks) == final(self)@.tasks,
                None => final(self)@.tasks == old(self)@.tasks,
            },
            r == (if old(self)@.undone.len() > 0 {
                Some(
                    DbMessage::UpdateTaskStatusInDb(
                        old(self)@.undone[0].id,
                        old(self)@.undone[0].status,
                    ),
                )
            } else {
                None
            }),
            old(self)@.undone.len() == 0 ==> final(self)@ == old(self)@,
            old(self)@.undone.len() > 0 ==> {
                let snap = old(self)@.undone[0];
                &&& final(self)@.tasks.contains_key(snap.id)
                &&& final(self)@.tasks[snap.id].status == snap.status
                &&& final(self)@.tasks[snap.id].id == snap.id
                &&& final(self)@.tasks[snap.id].title == old(self)@.tasks[snap.id].title
                &&& final(self)@.tasks[snap.id].description == old(self)@.tasks[snap.id].description
                &&& final(self)@.tasks[snap.id].date == old(self)@.tasks[snap.id].date
                &&& final(self)@.undone.len() == old(self)@.undone.len() - 1
                &&& final(self)@.undone == old(self)@.undone.drop_first()
                &&& final(self)@.history.len() == old(self)@.history.len() + 1
                &&& final(self)@.history[0] == old(self)@.tasks[snap.id]
                &&& final(self)@.history.drop_first() == old(self)@.history
                &&& forall|k: u128|
                    k != snap.id ==> (#[trigger] final(self)@.tasks.contains_key(k) == old(self)@.tasks.contains_key(k)
                        && (old(self)@.tasks.contains_key(k) ==> final(self)@.tasks[k] == old(self)@.tasks[k]))
            },
    {
        let (mut tasks, mut history, mut undone) = self.take_parts();
        match undone.pop_front() {
            Some(snapshot) => {
                let current = tasks.get(&snapshot.id).unwrap().clone();
                let mut restored = current.clone();
                history.push_front(current);
                restored.status = snapshot.status;
                tasks.insert(snapshot.id, restored);
                proof {
                    assert(undone@ == old(self)@.undone.drop_first());
                }
                self.put_parts(tasks, history, undone);
                Some(DbMessage::UpdateTaskStatusInDb(snapshot.id, snapshot.status))
            },
            None => {
                self.put_parts(tasks, history, undone);
                None
            },
        }
    }

    /// Deletes the task `task_id` from the cache. Returns the message that
    /// deletes it from the database, or `None` where no task has that id.
    pub fn delete_task(&mut self, task_id: u128) -> (r: Option<DbMessage>)
        ensures
            final(self)@.wf(),
            final(self)@ == old(self)@.after_delete(task_id),
            match r {
                Some(msg) => msg.applied_to(old(self)@.tasks) == final(self)@.tasks,
                None => final(self)@.tasks == old(self)@.tasks,
            },
            r == (if old(self)@.tasks.contains_key(task_id) {
                Some(DbMessage::DeleteTaskFromDb(task_id))
            } else {
                None
            }),
            !final(self)@.tasks.contains_key(task_id),
            forall|k: u128|
                k != task_id ==> (#[trigger] final(self)@.tasks.contains_key(k) == old(self)@.tasks.contains_key(k) && (old(self)@.tasks.contains_key(k)
                    ==> final(self)@.tasks[k] == old(self)@.tasks[k])),
            final(self)@.history == old(self)@.history,
            final(self)@.undone == old(self)@.undone,
    {
        let (mut tasks, history, undone) = self.take_parts();
        let removed = tasks.remove(&task_id);
        self.put_parts(tasks, history, undone);
        match removed {
            Some(_) => Some(DbMessage::DeleteTaskFromDb(task_id)),
            None => None,
        }
    }

    /// All cached tasks, each once, in the order in which the map walks them.
    pub fn list_tasks(&self) -> (r: Vec<Task>)
        ensures
            lists_exactly(r@, self@.tasks),
            r@.len() == self@.tasks.len(),
            forall|i: int|
                0 <= i < r@.len() ==> self@.tasks.contains_key(#[trigger] r@[i].id) && self@.tasks[r@[i].id]
                    == r@[i],
            forall|k: u128| #[trigger] self@.tasks.contains_key(k) ==> exists|i: int| 0 <= i < r@.len() && r@[i].id == k,
    {
        proof {
            use_type_invariant(self);
        }
        let mut out: Vec<Task> = Vec::new();
        let ghost m = self.tasks@;
        for k in it: self.tasks.keys()
            invariant
                m == self.tasks@,
                self@.wf(),
                it.seq().no_duplicates(),
                it.seq().unref().to_set() == m.dom(),
                out@.len() == it.index(),
                forall|i: int| 0 <= i < out@.len() ==> m.contains_key(#[trigger] out@[i].id) && m[out@[i].id] == out@[i],
                forall|i: int| 0 <= i < out@.len() ==> #[trigger] out@[i].id == *it.seq()[i],
                forall|i: int, j: int| 0 <= i < j < out@.len() ==> #[trigger] out@[i].id != #[trigger] out@[j].id,
                forall|key: u128|
                    #[trigger] m.contains_key(key) ==> (exists|i: int| 0 <= i < out@.len() && #[trigger] out@[i].id == key)
                        || (exists|j: int| it.index() <= j < it.seq().len() && *it.seq()[j] == key),
        {
            let t = self.tasks.get(k).unwrap().clone();
            let ghost before = out@;
            out.push(t);
            proof {
                assert forall|i: int, j: int| 0 <= i < j < out@.len() implies #[trigger] out@[i].id
                    != #[trigger] out@[j].id by {
                    if j == out@.len() - 1 {
                        assert(it.seq()[i] != it.seq()[j]);
                    }
                }
                assert forall|key: u128| #[trigger] m.contains_key(key) implies (exists|i: int|
                    0 <= i < out@.len() && #[trigger] out@[i].id == key) || (exists|j: int|
                    it.index() + 1 <= j < it.seq().len() && *it.seq()[j] == key) by {
                    if exists|i: int| 0 <= i < before.len() && #[trigger] before[i].id == key {
                        let i = choose|i: int| 0 <= i < before.len() && #[trigger] before[i].id == key;
                        assert(out@[i].id == key);
                    } else if *k == key {
                        assert(out@[out@.len() - 1].id == key);
                    }
                }
            }
        }
        proof {
            lemma_listing_has_one_entry_per_task(out@, m);
        }
        out
    }

    /// The cached tasks in whose title, description or date `keyword` occurs,
    /// each once, in the order in which the map walks them.
    pub fn search_tasks(&self, keyword: &str) -> (r: Vec<Task>)
        ensures
            lists_exactly(r@, tasks_matching(self@.tasks, keyword@)),
            forall|i: int|
                0 <= i < r@.len() ==> {
                    &&& self@.tasks.contains_key(#[trigger] r@[i].id)
                    &&& self@.tasks[r@[i].id] == r@[i]
                    &&& (occurs_in(keyword@, r@[i].title@) || occurs_in(keyword@, r@[i].description@)
                        || occurs_in(keyword@, r@[i].date@))
                },
            forall|k: u128|
                #[trigger] self@.tasks.contains_key(k) && (occurs_in(keyword@, self@.tasks[k].title@)
                    || occurs_in(keyword@, self@.tasks[k].description@) || occurs_in(
                    keyword@,
                    self@.tasks[k].date@,
                )) ==> exists|i: int| 0 <= i < r@.len() && #[trigger] r@[i].id == k,
    {
        proof {
            use_type_invariant(self);
        }
        let mut out: Vec<Task> = Vec::new();
        let ghost m = self.tasks@;
        let ghost mm = tasks_matching(m, keyword@);
        let ghost mut pos: Seq<int> = Seq::empty();
        for k in it: self.tasks.keys()
            invariant
                m == self.tasks@,
                mm == tasks_matching(m, keyword@),
                self@.wf(),
                it.seq().no_duplicates(),
                it.seq().unref().to_set() == m.dom(),
                forall|i: int| 0 <= i < out@.len() ==> mm.contains_key(#[trigger] out@[i].id) && mm[out@[i].id] == out@[i],
                pos.len() == out@.len(),
                forall|i: int| 0 <= i < out@.len() ==> 0 <= #[trigger] pos[i] < it.index() && out@[i].id == *it.seq()[pos[i]],
                forall|i: int, j: int| 0 <= i < j < out@.len() ==> #[trigger] out@[i].id != #[trigger] out@[j].id,
                forall|key: u128|
                    #[trigger] mm.contains_key(key) ==> (exists|i: int| 0 <= i < out@.len() && #[trigger] out@[i].id == key)
                        || (exists|j: int| it.index() <= j < it.seq().len() && *it.seq()[j] == key),
        {
            let t = self.tasks.get(k).unwrap();
            let hit = text_contains(t.title.as_str(), keyword) || text_contains(t.description.as_str(), keyword)
                || text_contains(t.date.as_str(), keyword);
            let ghost before = out@;
            let ghost idx = it.index();
            if hit {
                out.push(t.clone());
                proof {
                    pos = pos.push(idx);
                    assert(mm.contains_key(*k));
                    assert forall|i: int, j: int| 0 <= i < j < out@.len() implies #[trigger] out@[i].id
                        != #[trigger] out@[j].id by {
                        if j == out@.len() - 1 {
                            assert(out@[i] == before[i]);
                            assert(it.seq()[pos[i]] != it.seq()[idx]);
                        }
                    }
                }
            }
            proof {
                assert forall|key: u128| #[trigger] mm.contains_key(key) implies (exists|i: int|
                    0 <= i < out@.len() && #[trigger] out@[i].id == key) || (exists|j: int|
                    idx + 1 <= j < it.seq().len() && *it.seq()[j] == key) by {
                    if exists|i: int| 0 <= i < before.len() && #[trigger] before[i].id == key {
                        let i = choose|i: int| 0 <= i < before.len() && #[trigger] before[i].id == key;
                        assert(out@[i].id == key);
                    } else if *k == key {
                        assert(out@[out@.len() - 1].id == key);
                    }
                }
            }
        }
        proof {
            assert forall|k: u128|
                #[trigger] self@.tasks.contains_key(k) && (occurs_in(keyword@, self@.tasks[k].title@)
                    || occurs_in(keyword@, self@.tasks[k].description@) || occurs_in(
                    keyword@,
                    self@.tasks[k].date@,
                )) implies exists|i: int| 0 <= i < out@.len() && #[trigger] out@[i].id == k by {
                assert(mm.contains_key(k));
            }
        }
        out
    }

    /// Lists the cached tasks sorted by date in `order`, for the caller to
    /// show. The cache and its histories stay as they are.
    pub fn sort_tasks_by_date(&mut self, order: SortOrder) -> (r: Vec<Task>)
        ensures
            lists_exactly(r@, old(self)@.tasks),
            sorted_by_date(r@, order),
            forall|i: int, j: int|
                0 <= i < j < r@.len() ==> (match order {
                    SortOrder::Ascending => text_le(#[trigger] r@[i].date@, #[trigger] r@[j].date@),
                    SortOrder::Descending => text_le(r@[j].date@, r@[i].date@),
                }),
            final(self)@ == old(self)@,
    {
        proof {
            use_type_invariant(&*self);
        }
        let list = self.list_tasks();
        let ghost m = self@.tasks;
        let mut out: Vec<Task> = Vec::new();
        let ghost mut src: Seq<int> = Seq::empty();
        let ghost mut dst: Seq<int> = Seq::empty();
        let mut i: usize = 0;
        while i < list.len()
            invariant
                lists_exactly(list@, m),
                i <= list@.len(),
                out@.len() == i,
                sorted_by_date(out@, order),
                src.len() == out@.len(),
                forall|a: int| 0 <= a < out@.len() ==> 0 <= #[trigger] src[a] < i && out@[a] == list@[src[a]],
                dst.len() == i,
                forall|b: int| 0 <= b < i ==> 0 <= #[trigger] dst[b] < out@.len() && out@[dst[b]] == list@[b],
                forall|a: int, c: int| 0 <= a < c < out@.len() ==> #[trigger] out@[a].id != #[trigger] out@[c].id,
            decreases list@.len() - i,
        {
            let x = list[i].clone();
            let ghost before = out@;
            let p = insert_sorted(&mut out, x, order);
            proof {
                let pi = p as int;
                src = src.insert(pi, i as int);
                dst = Seq::new((i + 1) as nat, |b: int| if b == i { pi } else if dst[b] >= pi { dst[b] + 1 } else { dst[b] });
                assert forall|a: int| 0 <= a < out@.len() implies 0 <= #[trigger] src[a] < i + 1 && out@[a] == list@[src[a]] by {
                    if a > pi {
                        assert(out@[a] == before[a - 1]);
                    }
                }
                assert forall|b: int| 0 <= b < i + 1 implies 0 <= #[trigger] dst[b] < out@.len() && out@[dst[b]] == list@[b] by {
                    if b < i {
                        if dst[b] >= pi {
                            assert(out@[dst[b]] == before[dst[b] - 1]);
                        }
                    }
                }
                assert forall|a: int, c: int| 0 <= a < c < out@.len() implies #[trigger] out@[a].id != #[trigger] out@[c].id by {
                    if a == pi {
                        assert(out@[c] == before[c - 1]);
                        assert(list@[src[c]].id != list@[i as int].id);
                    } else if c == pi {
                        assert(list@[src[a]].id != list@[i as int].id);
                    } else {
                        let a0 = if a < pi { a } else { a - 1 };
                        let c0 = if c < pi { c } else { c - 1 };
                        assert(out@[a] == before[a0]);
                        assert(out@[c] == before[c0]);
                    }
                }
            }
            i = i + 1;
        }
        proof {
            assert forall|k: u128| #[trigger] m.contains_key(k) implies exists|a: int|
                0 <= a < out@.len() && #[trigger] out@[a].id == k by {
                let b = choose|b: int| 0 <= b < list@.len() && #[trigger] list@[b].id == k;
                assert(out@[dst[b]].id == k);
            }
            assert forall|a: int| 0 <= a < out@.len() implies m.contains_key(#[trigger] out@[a].id)
                && m[out@[a].id] == out@[a] by {
                let b = src[a];
                assert(list@[b] == out@[a]);
                assert(m.contains_key(list@[b].id));
            }
            assert(lists_exactly(out@, m));
        }
        out
    }

    /// Refills the cache from the rows read from the `tasks` table: the cache is
    /// emptied, then each row's task is filed in turn. At the first row whose id
    /// is not a UUID or whose status code is unknown, the rows before it stay
    /// filed and the error comes back. The histories are left as they are.
    pub fn load_tasks_from_db(&mut self, rows: Vec<TaskRow>) -> (r: Result<(), InvalidStatusError>)
        ensures
            final(self)@.wf(),
            final(self)@.history == old(self)@.history,
            final(self)@.undone == old(self)@.undone,
            match r {
                Ok(_) => {
                    &&& forall|i: int| 0 <= i < rows@.len() ==> (#[trigger] row_task(rows@[i])) is Some
                    &&& final(self)@.tasks == tasks_of_rows(rows@)
                },
                Err(_) => exists|k: int|
                    0 <= k < rows@.len() && (#[trigger] row_task(rows@[k])) is None && (forall|j: int|
                        0 <= j < k ==> (#[trigger] row_task(rows@[j])) is Some) && final(self)@.tasks
                        == tasks_of_rows(rows@.take(k)),
            },
    {
        let (mut tasks, history, undone) = self.take_parts();
        tasks.clear();
        let mut i: usize = 0;
        assert(rows@.take(0) =~= Seq::<TaskRow>::empty());
        while i < rows.len()
            invariant
                i <= rows@.len(),
                (ManagerState { tasks: tasks@, history: history@, undone: undone@ }).wf(),
                history@ == old(self)@.history,
                undone@ == old(self)@.undone,
                forall|j: int| 0 <= j < i ==> (#[trigger] row_task(rows@[j])) is Some,
                tasks@ == tasks_of_rows(rows@.take(i as int)),
            decreases rows@.len() - i,
        {
            match task_from_row(&rows[i]) {
                Ok(task) => {
                    proof {
                        assert(rows@.take(i + 1).drop_last() =~= rows@.take(i as int));
                    }
                    tasks.insert(task.id, task);
                },
                Err(e) => {
                    self.put_parts(tasks, history, undone);
                    return Err(e);
                },
            }
            i = i + 1;
        }
        assert(rows@.take(rows@.len() as int) =~= rows@);
        self.put_parts(tasks, history, undone);
        Ok(())
    }
}

} // verus!
