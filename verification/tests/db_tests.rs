use task_assistant::db::{
    restore_task_state, search_pattern, StoredTask, TaskManager, ARCHIVE_SQL, DELETE_ALL_SQL,
    DELETE_SQL, INSERT_TASK_SQL, MARK_DONE_SQL, MARK_UNDONE_SQL,
};
use task_assistant::db_message::SqlValue;

fn stored(id: i64, title: &str, status: &str) -> StoredTask {
    StoredTask {
        id,
        title: title.to_string(),
        description: "d".to_string(),
        date: "2023-07-27".to_string(),
        status: status.to_string(),
    }
}

fn text(s: &str) -> SqlValue {
    SqlValue::Text(s.to_string())
}

#[test]
fn add_task_inserts_an_undone_task() {
    let m = TaskManager::new();
    let st = m.add_task("T".to_string(), "D".to_string(), "2023-07-27".to_string());
    assert_eq!(st.sql, INSERT_TASK_SQL);
    assert_eq!(st.params, vec![text("T"), text("D"), text("2023-07-27"), text("Undone")]);
}

#[test]
fn status_changes_and_delete_name_the_task() {
    let m = TaskManager::new();
    assert_eq!(m.mark_task_done(7).sql, MARK_DONE_SQL);
    assert_eq!(m.mark_task_done(7).params, vec![SqlValue::Integer(7)]);
    assert_eq!(m.mark_task_undone(8).sql, MARK_UNDONE_SQL);
    assert_eq!(m.mark_task_undone(8).params, vec![SqlValue::Integer(8)]);
    assert_eq!(m.archive_task(-1).sql, ARCHIVE_SQL);
    assert_eq!(m.archive_task(-1).params, vec![SqlValue::Integer(-1)]);
    assert_eq!(m.delete_task(9).sql, DELETE_SQL);
    assert_eq!(m.delete_task(9).params, vec![SqlValue::Integer(9)]);
}

#[test]
fn undo_with_nothing_recorded_fails() {
    let mut m = TaskManager::new();
    assert_eq!(m.undo(vec![stored(1, "a", "Done")]), Err("Nothing to undo.".to_string()));
}

fn restore_params(t: &StoredTask) -> Vec<SqlValue> {
    vec![text(&t.title), text(&t.description), text(&t.date), text(&t.status)]
}

#[test]
fn redo_with_nothing_undone_fails() {
    let mut m = TaskManager::new();
    assert_eq!(m.redo(vec![stored(1, "a", "Done")]), Err("Nothing to redo.".to_string()));
    m.update_undo_stack(vec![stored(1, "a", "Undone")]);
    assert_eq!(m.redo(vec![stored(1, "a", "Done")]), Err("Nothing to redo.".to_string()));
}

#[test]
fn undo_writes_back_the_table_before_the_change() {
    let mut m = TaskManager::new();
    let before = vec![stored(1, "a", "Undone"), stored(2, "b", "Archived")];
    m.update_undo_stack(before.clone());
    let after = vec![stored(1, "a", "Done"), stored(2, "b", "Archived")];
    let sts = m.undo(after).unwrap();
    assert_eq!(sts.len(), 3);
    assert_eq!(sts[0].sql, DELETE_ALL_SQL);
    assert!(sts[0].params.is_empty());
    assert_eq!(sts[1].sql, INSERT_TASK_SQL);
    assert_eq!(sts[1].params, restore_params(&before[0]));
    assert_eq!(sts[2].sql, INSERT_TASK_SQL);
    assert_eq!(sts[2].params, restore_params(&before[1]));
    assert_eq!(m.undo(vec![]), Err("Nothing to undo.".to_string()));
}

#[test]
fn redo_writes_back_the_table_before_the_undo() {
    let mut m = TaskManager::new();
    let before = vec![stored(1, "a", "Undone")];
    let after = vec![stored(1, "a", "Done")];
    m.update_undo_stack(before.clone());
    m.undo(after.clone()).unwrap();
    let sts = m.redo(before.clone()).unwrap();
    assert_eq!(sts.len(), 2);
    assert_eq!(sts[1].params, restore_params(&after[0]));
    assert_eq!(m.redo(after.clone()), Err("Nothing to redo.".to_string()));
    let sts = m.undo(after).unwrap();
    assert_eq!(sts[1].params, restore_params(&before[0]));
}

#[test]
fn a_new_change_clears_redo() {
    let mut m = TaskManager::new();
    m.update_undo_stack(vec![stored(1, "a", "Undone")]);
    m.undo(vec![stored(1, "a", "Done")]).unwrap();
    m.update_undo_stack(vec![stored(1, "a", "Undone")]);
    assert_eq!(m.redo(vec![]), Err("Nothing to redo.".to_string()));
}

#[test]
fn undo_walks_back_two_changes() {
    let mut m = TaskManager::new();
    let s0 = vec![];
    let s1 = vec![stored(1, "a", "Undone")];
    let s2 = vec![stored(1, "a", "Done")];
    m.update_undo_stack(s0.clone());
    m.update_undo_stack(s1.clone());
    let sts = m.undo(s2.clone()).unwrap();
    assert_eq!(sts[1].params, restore_params(&s1[0]));
    let sts = m.undo(s1.clone()).unwrap();
    assert_eq!(sts.len(), 1);
    let sts = m.redo(s0).unwrap();
    assert_eq!(sts[1].params, restore_params(&s1[0]));
    let sts = m.redo(s1).unwrap();
    assert_eq!(sts[1].params, restore_params(&s2[0]));
}

#[test]
fn restoring_an_empty_snapshot_only_empties_the_table() {
    let sts = restore_task_state(&Vec::new());
    assert_eq!(sts.len(), 1);
    assert_eq!(sts[0].sql, DELETE_ALL_SQL);
}

#[test]
fn search_pattern_wraps_the_query() {
    assert_eq!(search_pattern("milk"), "%milk%");
    assert_eq!(search_pattern(""), "%%");
}
