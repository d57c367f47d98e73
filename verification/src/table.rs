//! The `tasks` table as a whole: when it holds the cache, it still does after
//! the statement of each message has run, and reading all its rows back gives
//! the cache again.

use vstd::prelude::*;

use crate::db_message::{is_statement_of, lemma_statement_keeps_rows_in_step, run_statement, DbMessage, DbStatement};
use crate::ids::{uuid_parse, uuid_text};
use crate::task::{row_task, Task, TaskRow};
use crate::task_manager::{lemma_load_restores_tasks, lists_exactly, tasks_of_rows};

verus! {

/// Each task of `m` is filed under its own id.
pub open spec fn files_by_id(m: Map<u128, Task>) -> bool {
    forall|k: u128| #[trigger] m.contains_key(k) ==> m[k].id == k
}

/// The table (its rows by the text of their `id` column) holds the cache `m`:
/// each row sits under its own id text, each cached task has a row under the
/// text of its id that reads back as the task, and every row is such a row.
pub open spec fn table_holds(table: Map<Seq<char>, TaskRow>, m: Map<u128, Task>) -> bool {
    &&& forall|key: Seq<char>| #[trigger] table.contains_key(key) ==> table[key].id@ == key
    &&& forall|id: u128|
        #[trigger] m.contains_key(id) ==> table.contains_key(uuid_text(id)) && row_task(
            table[uuid_text(id)],
        ) == Some(m[id])
    &&& forall|key: Seq<char>|
        #[trigger] table.contains_key(key) ==> exists|id: u128|
            m.contains_key(id) && #[trigger] uuid_text(id) == key
}

/// The message at each position, in turn, applied to the cache.
pub open spec fn apply_messages(m: Map<u128, Task>, msgs: Seq<DbMessage>) -> Map<u128, Task>
    decreases msgs.len(),
{
    if msgs.len() == 0 {
        m
    } else {
        msgs.last().applied_to(apply_messages(m, msgs.drop_last()))
    }
}

/// The statement at each position, in turn, run on the table.
pub open spec fn run_statements(table: Map<Seq<char>, TaskRow>, sts: Seq<DbStatement>) -> Map<
    Seq<char>,
    TaskRow,
>
    decreases sts.len(),
{
    if sts.len() == 0 {
        table
    } else {
        run_statement(run_statements(table, sts.drop_last()), sts.last())
    }
}

/// The text of a cached task's id reads back as that id.
proof fn lemma_cached_id_text_reads_back(table: Map<Seq<char>, TaskRow>, m: Map<u128, Task>, id: u128)
    requires
        files_by_id(m),
        table_holds(table, m),
        m.contains_key(id),
    ensures
        uuid_parse(uuid_text(id)) == Some(id),
{
    let row = table[uuid_text(id)];
    assert(row.id@ == uuid_text(id));
    assert(row_task(row) == Some(m[id]));
    assert(m[id].id == id);
}

/// The id that a statement names, with the text it binds for it.
pub open spec fn named_id(msg: DbMessage) -> u128 {
    match msg {
        DbMessage::AddTaskToDb(t) => t.id,
        DbMessage::UpdateTaskStatusInDb(id, _) => id,
        DbMessage::DeleteTaskFromDb(id) => id,
    }
}

/// A table that holds the cache still holds it once the statement of a
/// message has run and the message has been applied to the cache.
pub proof fn lemma_statement_keeps_table_holding_cache(
    table: Map<Seq<char>, TaskRow>,
    m: Map<u128, Task>,
    msg: DbMessage,
    st: DbStatement,
)
    requires
        files_by_id(m),
        table_holds(table, m),
        is_statement_of(st, msg),
    ensures
        files_by_id(msg.applied_to(m)),
        table_holds(run_statement(table, st), msg.applied_to(m)),
{
    let after = run_statement(table, st);
    let m2 = msg.applied_to(m);
    let nid = named_id(msg);
    let nkey = uuid_text(nid);
    assert(uuid_parse(nkey) == Some(nid)) by {
        match msg {
            DbMessage::AddTaskToDb(t) => {},
            DbMessage::UpdateTaskStatusInDb(id, _) => {},
            DbMessage::DeleteTaskFromDb(id) => {},
        }
    }
    // Texts of other cached ids differ from the named one.
    assert forall|id: u128| m.contains_key(id) && id != nid implies uuid_text(id) != nkey by {
        lemma_cached_id_text_reads_back(table, m, id);
    }
    assert forall|key: Seq<char>| #[trigger] after.contains_key(key) implies after[key].id@ == key by {
        lemma_statement_keeps_rows_in_step(table, msg, st, key);
        if key == nkey {
            match msg {
                DbMessage::AddTaskToDb(t) => {},
                DbMessage::UpdateTaskStatusInDb(id, status) => {},
                DbMessage::DeleteTaskFromDb(id) => {},
            }
        }
    }
    assert forall|id: u128| #[trigger] m2.contains_key(id) implies after.contains_key(uuid_text(id))
        && row_task(after[uuid_text(id)]) == Some(m2[id]) by {
        lemma_statement_keeps_rows_in_step(table, msg, st, uuid_text(id));
        if id == nid {
            match msg {
                DbMessage::AddTaskToDb(t) => {},
                DbMessage::UpdateTaskStatusInDb(i, status) => {
                    assert(m.contains_key(id));
                    assert(row_task(table[uuid_text(id)]) == Some(m[id]));
                },
                DbMessage::DeleteTaskFromDb(i) => {},
            }
        } else {
            assert(m.contains_key(id));
            assert(uuid_text(id) != nkey);
        }
    }
    assert forall|key: Seq<char>| #[trigger] after.contains_key(key) implies exists|id: u128|
        m2.contains_key(id) && #[trigger] uuid_text(id) == key by {
        lemma_statement_keeps_rows_in_step(table, msg, st, key);
        if key == nkey {
            match msg {
                DbMessage::AddTaskToDb(t) => {
                    assert(m2.contains_key(nid));
                },
                DbMessage::UpdateTaskStatusInDb(i, status) => {
                    assert(table.contains_key(key));
                    let id = choose|id: u128| m.contains_key(id) && #[trigger] uuid_text(id) == key;
                    lemma_cached_id_text_reads_back(table, m, id);
                    assert(m2.contains_key(id));
                },
                DbMessage::DeleteTaskFromDb(i) => {},
            }
        } else {
            assert(table.contains_key(key));
            let id = choose|id: u128| m.contains_key(id) && #[trigger] uuid_text(id) == key;
            assert(id != nid);
            assert(m2.contains_key(id));
        }
    }
}

/// A table that holds the cache still holds it after the statements of any
/// sequence of messages have run, in order, and the messages have been
/// applied to the cache in the same order.
pub proof fn lemma_statements_keep_table_holding_cache(
    table: Map<Seq<char>, TaskRow>,
    m: Map<u128, Task>,
    msgs: Seq<DbMessage>,
    sts: Seq<DbStatement>,
)
    requires
        files_by_id(m),
        table_holds(table, m),
        sts.len() == msgs.len(),
        forall|i: int| 0 <= i < sts.len() ==> is_statement_of(#[trigger] sts[i], msgs[i]),
    ensures
        files_by_id(apply_messages(m, msgs)),
        table_holds(run_statements(table, sts), apply_messages(m, msgs)),
    decreases msgs.len(),
{
    if msgs.len() > 0 {
        let n = msgs.len() - 1;
        assert forall|i: int| 0 <= i < sts.drop_last().len() implies is_statement_of(
            #[trigger] sts.drop_last()[i],
            msgs.drop_last()[i],
        ) by {
            assert(is_statement_of(sts[i], msgs[i]));
        }
        lemma_statements_keep_table_holding_cache(table, m, msgs.drop_last(), sts.drop_last());
        assert(is_statement_of(sts[n], msgs[n]));
        lemma_statement_keeps_table_holding_cache(
            run_statements(table, sts.drop_last()),
            apply_messages(m, msgs.drop_last()),
            msgs.last(),
            sts.last(),
        );
    }
}

/// `rows` lists the rows of the table, each once, in some order (as a query
/// for every row returns them).
pub open spec fn lists_rows(rows: Seq<TaskRow>, table: Map<Seq<char>, TaskRow>) -> bool {
    &&& forall|i: int|
        0 <= i < rows.len() ==> table.contains_key(#[trigger] rows[i].id@) && table[rows[i].id@]
            == rows[i]
    &&& forall|i: int, j: int| 0 <= i < j < rows.len() ==> #[trigger] rows[i].id@ != #[trigger] rows[j].id@
    &&& forall|key: Seq<char>|
        #[trigger] table.contains_key(key) ==> exists|i: int| 0 <= i < rows.len() && #[trigger] rows[i].id@ == key
}

/// Reading back every row of a table that holds the cache fills a cache with
/// exactly the same tasks.
pub proof fn lemma_reload_gives_cache(
    table: Map<Seq<char>, TaskRow>,
    m: Map<u128, Task>,
    rows: Seq<TaskRow>,
)
    requires
        files_by_id(m),
        table_holds(table, m),
        lists_rows(rows, table),
    ensures
        forall|i: int| 0 <= i < rows.len() ==> (#[trigger] row_task(rows[i])) is Some,
        tasks_of_rows(rows) == m,
{
    // The cached id whose text is the key of each row.
    let ids = Seq::new(
        rows.len(),
        |i: int| choose|id: u128| m.contains_key(id) && #[trigger] uuid_text(id) == rows[i].id@,
    );
    assert forall|i: int| 0 <= i < rows.len() implies m.contains_key(#[trigger] ids[i])
        && uuid_text(ids[i]) == rows[i].id@ && row_task(rows[i]) == Some(m[ids[i]]) by {
        assert(table.contains_key(rows[i].id@));
    }
    let ts = Seq::new(rows.len(), |i: int| m[ids[i]]);
    assert forall|i: int| 0 <= i < rows.len() implies #[trigger] row_task(rows[i]) == Some(ts[i]) by {
        assert(m.contains_key(ids[i]));
    }
    assert(lists_exactly(ts, m)) by {
        assert forall|i: int| 0 <= i < ts.len() implies m.contains_key(#[trigger] ts[i].id) && m[ts[i].id]
            == ts[i] by {
            assert(m.contains_key(ids[i]));
            assert(ts[i].id == ids[i]);
        }
        assert forall|i: int, j: int| 0 <= i < j < ts.len() implies #[trigger] ts[i].id
            != #[trigger] ts[j].id by {
            assert(m.contains_key(ids[i]));
            assert(m.contains_key(ids[j]));
            assert(rows[i].id@ != rows[j].id@);
        }
        assert forall|k: u128| #[trigger] m.contains_key(k) implies exists|i: int|
            0 <= i < ts.len() && #[trigger] ts[i].id == k by {
            assert(table.contains_key(uuid_text(k)));
            let i = choose|i: int| 0 <= i < rows.len() && #[trigger] rows[i].id@ == uuid_text(k);
            assert(m.contains_key(ids[i]));
            lemma_cached_id_text_reads_back(table, m, k);
            lemma_cached_id_text_reads_back(table, m, ids[i]);
            assert(ts[i].id == k);
        }
    }
    lemma_load_restores_tasks(ts, rows, m);
}

/// A task written by its add statement to a table that holds the cache is
/// read back, with every field, when the table is reloaded.
pub proof fn lemma_written_task_reloads(
    table: Map<Seq<char>, TaskRow>,
    m: Map<u128, Task>,
    t: Task,
    st: DbStatement,
    rows: Seq<TaskRow>,
)
    requires
        files_by_id(m),
        table_holds(table, m),
        is_statement_of(st, DbMessage::AddTaskToDb(t)),
        lists_rows(rows, run_statement(table, st)),
    ensures
        tasks_of_rows(rows).contains_key(t.id),
        tasks_of_rows(rows)[t.id] == t,
{
    lemma_statement_keeps_table_holding_cache(table, m, DbMessage::AddTaskToDb(t), st);
    lemma_reload_gives_cache(run_statement(table, st), DbMessage::AddTaskToDb(t).applied_to(m), rows);
}

} // verus!
