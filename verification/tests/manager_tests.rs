use task_assistant::db_message::DbMessage;
use task_assistant::task::{InvalidStatusError, Task, TaskRow, TaskStatus};
use task_assistant::task_manager::{SortOrder, TaskManager};

const ID_TEXT: &str = "67e55044-10b1-426f-9247-bb680e5fe0c8";
const ID: u128 = 0x67e5504410b1426f9247bb680e5fe0c8;

fn add(m: &mut TaskManager, title: &str, date: &str) -> u128 {
    let (id, msg) = m.add_task(title.to_string(), format!("about {}", title), date.to_string());
    match msg {
        DbMessage::AddTaskToDb(t) => {
            assert_eq!(t.id, id);
            assert_eq!(t.title, title);
            assert_eq!(t.status, TaskStatus::Todo);
        }
        _ => panic!("add_task must ask to add the task"),
    }
    id
}

fn find(m: &TaskManager, id: u128) -> Option<Task> {
    m.list_tasks().into_iter().find(|t| t.id == id)
}

fn status_of(m: &TaskManager, id: u128) -> TaskStatus {
    find(m, id).unwrap().status
}

fn update_message(r: Option<DbMessage>) -> (u128, TaskStatus) {
    match r {
        Some(DbMessage::UpdateTaskStatusInDb(id, s)) => (id, s),
        _ => panic!("expected a status update"),
    }
}

#[test]
fn new_manager_is_empty() {
    let m = TaskManager::new();
    assert!(m.list_tasks().is_empty());
    assert!(m.undo_ready());
    assert!(m.redo_ready());
}

#[test]
fn added_tasks_are_listed_once() {
    let mut m = TaskManager::new();
    let a = add(&mut m, "Task 1", "2023-07-27");
    let b = add(&mut m, "Task 2", "2023-07-28");
    let list = m.list_tasks();
    assert_eq!(list.len(), 2);
    assert_eq!(find(&m, a).unwrap().title, "Task 1");
    assert_eq!(find(&m, b).unwrap().date, "2023-07-28");
}

#[test]
fn update_of_unknown_task_changes_nothing() {
    let mut m = TaskManager::new();
    let a = add(&mut m, "Task 1", "2023-07-27");
    assert!(m.update_task_status(a ^ 1, TaskStatus::Done).is_none());
    assert_eq!(status_of(&m, a), TaskStatus::Todo);
    assert!(m.undo().is_none());
}

#[test]
fn update_then_undo_then_redo() {
    let mut m = TaskManager::new();
    let a = add(&mut m, "Task 1", "2023-07-27");
    assert_eq!(update_message(m.update_task_status(a, TaskStatus::Done)), (a, TaskStatus::Done));
    assert_eq!(status_of(&m, a), TaskStatus::Done);
    assert_eq!(update_message(m.undo()), (a, TaskStatus::Todo));
    assert_eq!(status_of(&m, a), TaskStatus::Todo);
    assert!(m.undo().is_none());
    assert_eq!(update_message(m.redo()), (a, TaskStatus::Done));
    assert_eq!(status_of(&m, a), TaskStatus::Done);
    assert!(m.redo().is_none());
    assert_eq!(update_message(m.undo()), (a, TaskStatus::Todo));
}

#[test]
fn undo_walks_back_through_several_changes() {
    let mut m = TaskManager::new();
    let a = add(&mut m, "A", "1");
    let b = add(&mut m, "B", "2");
    m.update_task_status(a, TaskStatus::Done);
    m.update_task_status(b, TaskStatus::Archived);
    m.update_task_status(a, TaskStatus::Archived);
    assert_eq!(update_message(m.undo()), (a, TaskStatus::Done));
    assert_eq!(update_message(m.undo()), (b, TaskStatus::Todo));
    assert_eq!(update_message(m.undo()), (a, TaskStatus::Todo));
    assert_eq!(status_of(&m, a), TaskStatus::Todo);
    assert_eq!(status_of(&m, b), TaskStatus::Todo);
    assert_eq!(update_message(m.redo()), (a, TaskStatus::Done));
    assert_eq!(update_message(m.redo()), (b, TaskStatus::Archived));
}

#[test]
fn a_new_change_clears_the_redo_history() {
    let mut m = TaskManager::new();
    let a = add(&mut m, "A", "1");
    m.update_task_status(a, TaskStatus::Done);
    m.undo();
    m.update_task_status(a, TaskStatus::Archived);
    assert!(m.redo().is_none());
    assert_eq!(status_of(&m, a), TaskStatus::Archived);
}

#[test]
fn delete_removes_the_task_once() {
    let mut m = TaskManager::new();
    let a = add(&mut m, "A", "1");
    let b = add(&mut m, "B", "2");
    match m.delete_task(a) {
        Some(DbMessage::DeleteTaskFromDb(id)) => assert_eq!(id, a),
        _ => panic!("expected a delete"),
    }
    assert!(m.delete_task(a).is_none());
    assert_eq!(m.list_tasks().len(), 1);
    assert!(find(&m, b).is_some());
}

#[test]
fn add_then_delete_gives_back_the_cache() {
    let mut m = TaskManager::new();
    let a = add(&mut m, "A", "1");
    let before = m.list_tasks();
    let b = add(&mut m, "B", "2");
    m.delete_task(b);
    assert_eq!(m.list_tasks(), before);
    assert!(find(&m, a).is_some());
}

#[test]
fn undo_after_delete_is_not_ready() {
    let mut m = TaskManager::new();
    let a = add(&mut m, "A", "1");
    m.update_task_status(a, TaskStatus::Done);
    m.delete_task(a);
    assert!(!m.undo_ready());
}

#[test]
fn redo_after_delete_is_not_ready() {
    let mut m = TaskManager::new();
    let a = add(&mut m, "A", "1");
    m.update_task_status(a, TaskStatus::Done);
    m.undo();
    assert!(m.redo_ready());
    m.delete_task(a);
    assert!(!m.redo_ready());
}

#[test]
fn search_looks_in_title_description_and_date() {
    let mut m = TaskManager::new();
    let a = add(&mut m, "Buy milk", "2023-07-27");
    let b = add(&mut m, "Call Bob", "2024-01-01");
    let hits: Vec<u128> = m.search_tasks("milk").iter().map(|t| t.id).collect();
    assert_eq!(hits, vec![a]);
    let hits: Vec<u128> = m.search_tasks("about Call").iter().map(|t| t.id).collect();
    assert_eq!(hits, vec![b]);
    let hits: Vec<u128> = m.search_tasks("2024").iter().map(|t| t.id).collect();
    assert_eq!(hits, vec![b]);
    assert!(m.search_tasks("zzz").is_empty());
    assert!(m.search_tasks("MILK").is_empty());
}

#[test]
fn empty_keyword_finds_every_task() {
    let mut m = TaskManager::new();
    add(&mut m, "A", "1");
    add(&mut m, "B", "2");
    add(&mut m, "C", "3");
    assert_eq!(m.search_tasks("").len(), 3);
}

#[test]
fn sort_ascending_leaves_the_cache_alone() {
    let mut m = TaskManager::new();
    add(&mut m, "B", "2023-07-28");
    add(&mut m, "C", "2024-01-01");
    add(&mut m, "A", "2023-07-27");
    add(&mut m, "D", "2023-07-28");
    let mut before = m.list_tasks();
    let sorted = m.sort_tasks_by_date(SortOrder::Ascending);
    let dates: Vec<&str> = sorted.iter().map(|t| t.date.as_str()).collect();
    assert_eq!(dates, vec!["2023-07-27", "2023-07-28", "2023-07-28", "2024-01-01"]);
    let mut after = m.list_tasks();
    before.sort_by_key(|t| t.id);
    after.sort_by_key(|t| t.id);
    assert_eq!(before, after);
    assert_eq!(after.len(), 4);
}

#[test]
fn sort_descending() {
    let mut m = TaskManager::new();
    add(&mut m, "B", "2023-07-28");
    add(&mut m, "C", "2024-01-01");
    add(&mut m, "A", "2023-07-27");
    add(&mut m, "E", "");
    add(&mut m, "F", "2023-07-2");
    let sorted = m.sort_tasks_by_date(SortOrder::Descending);
    let dates: Vec<&str> = sorted.iter().map(|t| t.date.as_str()).collect();
    assert_eq!(dates, vec!["2024-01-01", "2023-07-28", "2023-07-27", "2023-07-2", ""]);
}

#[test]
fn sort_keeps_history() {
    let mut m = TaskManager::new();
    let a = add(&mut m, "A", "1");
    m.update_task_status(a, TaskStatus::Done);
    m.sort_tasks_by_date(SortOrder::Ascending);
    assert!(m.undo_ready());
    assert_eq!(update_message(m.undo()), (a, TaskStatus::Todo));
    assert_eq!(status_of(&m, a), TaskStatus::Todo);
}

#[test]
fn longer_keyword_finds_no_more() {
    let mut m = TaskManager::new();
    add(&mut m, "milk and bread", "1");
    add(&mut m, "milk", "2");
    add(&mut m, "tea", "3");
    let short: Vec<u128> = m.search_tasks("milk").iter().map(|t| t.id).collect();
    let long: Vec<u128> = m.search_tasks("milk and").iter().map(|t| t.id).collect();
    assert_eq!(short.len(), 2);
    assert_eq!(long.len(), 1);
    assert!(long.iter().all(|id| short.contains(id)));
}

fn row(id: &str, title: &str, status: i32) -> TaskRow {
    TaskRow {
        id: id.to_string(),
        title: title.to_string(),
        description: String::new(),
        status,
        date: "2023-07-27".to_string(),
    }
}

#[test]
fn load_fills_the_cache_from_rows() {
    let mut m = TaskManager::new();
    add(&mut m, "old", "1");
    let rows = vec![
        row(ID_TEXT, "first", 1),
        row("00000000-0000-0000-0000-000000000002", "second", 2),
    ];
    assert_eq!(m.load_tasks_from_db(rows), Ok(()));
    let list = m.list_tasks();
    assert_eq!(list.len(), 2);
    assert_eq!(find(&m, ID).unwrap().status, TaskStatus::Done);
    assert_eq!(find(&m, 2).unwrap().title, "second");
}

#[test]
fn load_later_row_replaces_earlier_with_same_id() {
    let mut m = TaskManager::new();
    let rows = vec![row(ID_TEXT, "first", 0), row(ID_TEXT, "again", 1)];
    assert_eq!(m.load_tasks_from_db(rows), Ok(()));
    assert_eq!(m.list_tasks().len(), 1);
    assert_eq!(find(&m, ID).unwrap().title, "again");
}

#[test]
fn load_stops_at_the_first_bad_row() {
    let mut m = TaskManager::new();
    let rows = vec![
        row(ID_TEXT, "first", 0),
        row("00000000-0000-0000-0000-000000000002", "bad status", 9),
        row("00000000-0000-0000-0000-000000000003", "never read", 0),
    ];
    assert_eq!(m.load_tasks_from_db(rows), Err(InvalidStatusError));
    let list = m.list_tasks();
    assert_eq!(list.len(), 1);
    assert_eq!(list[0].id, ID);
}

#[test]
fn load_restores_written_tasks() {
    let mut m = TaskManager::new();
    let a = add(&mut m, "A", "2023-07-27");
    add(&mut m, "B", "2023-07-28");
    m.update_task_status(a, TaskStatus::Archived);
    let mut before = m.list_tasks();
    let rows: Vec<TaskRow> = before
        .iter()
        .map(|t| match DbMessage::AddTaskToDb(t.clone()).statement().params.as_slice() {
            [task_assistant::db_message::SqlValue::Text(id), _, _, task_assistant::db_message::SqlValue::Integer(code), _] => TaskRow {
                id: id.clone(),
                title: t.title.clone(),
                description: t.description.clone(),
                status: *code as i32,
                date: t.date.clone(),
            },
            _ => panic!("unexpected statement"),
        })
        .collect();
    let mut fresh = TaskManager::new();
    assert_eq!(fresh.load_tasks_from_db(rows), Ok(()));
    let mut after = fresh.list_tasks();
    before.sort_by_key(|t| t.id);
    after.sort_by_key(|t| t.id);
    assert_eq!(before, after);
}
