use task_assistant::db_message::{
    save_task_statement, DbMessage, SqlValue, ADD_TASK_SQL, DELETE_TASK_SQL, SAVE_TASK_SQL,
    UPDATE_STATUS_SQL,
};
use task_assistant::ids::parse_task_id;
use task_assistant::task::{task_from_parts, task_from_row, InvalidStatusError, Task, TaskRow, TaskStatus};

const ID: u128 = 0x67e5504410b1426f9247bb680e5fe0c8;
const ID_TEXT: &str = "67e55044-10b1-426f-9247-bb680e5fe0c8";

fn row(id: &str, status: i32) -> TaskRow {
    TaskRow {
        id: id.to_string(),
        title: "Write report".to_string(),
        description: "quarterly numbers".to_string(),
        status,
        date: "2023-07-27".to_string(),
    }
}

#[test]
fn status_codes_match_the_column_values() {
    assert_eq!(TaskStatus::Todo.code(), 0);
    assert_eq!(TaskStatus::Done.code(), 1);
    assert_eq!(TaskStatus::Archived.code(), 2);
    assert_eq!(TaskStatus::from_code(0), Some(TaskStatus::Todo));
    assert_eq!(TaskStatus::from_code(1), Some(TaskStatus::Done));
    assert_eq!(TaskStatus::from_code(2), Some(TaskStatus::Archived));
    assert_eq!(TaskStatus::from_code(3), None);
    assert_eq!(TaskStatus::from_code(-1), None);
}

#[test]
fn status_code_roundtrip_on_every_status() {
    for s in [TaskStatus::Todo, TaskStatus::Done, TaskStatus::Archived] {
        assert_eq!(TaskStatus::from_code(s.code()), Some(s));
    }
}

#[test]
fn status_labels() {
    assert_eq!(TaskStatus::Todo.label(), "ToDo");
    assert_eq!(TaskStatus::Done.label(), "Done");
    assert_eq!(TaskStatus::Archived.label(), "Archived");
}

#[test]
fn new_task_is_todo_with_a_version_4_id() {
    let t = Task::new("Task 1".to_string(), "desc".to_string(), "2023-07-27".to_string());
    assert_eq!(t.title, "Task 1");
    assert_eq!(t.description, "desc");
    assert_eq!(t.date, "2023-07-27");
    assert_eq!(t.status, TaskStatus::Todo);
    assert_eq!((t.id >> 76) & 0xf, 4);
    assert_eq!((t.id >> 62) & 0x3, 2);
    let u = Task::new("Task 1".to_string(), "desc".to_string(), "2023-07-27".to_string());
    assert_ne!(t.id, u.id);
}

#[test]
fn task_with_id_keeps_the_id() {
    let t = Task::with_id(ID, "a".to_string(), "b".to_string(), "c".to_string());
    assert_eq!(t.id, ID);
    assert_eq!(t.status, TaskStatus::Todo);
}

#[test]
fn clone_keeps_every_field() {
    let mut t = Task::with_id(ID, "a".to_string(), "b".to_string(), "c".to_string());
    t.status = TaskStatus::Archived;
    assert_eq!(t.clone(), t);
}

#[test]
fn row_with_hyphenated_id_reads_as_task() {
    let t = task_from_row(&row(ID_TEXT, 1)).unwrap();
    assert_eq!(t.id, ID);
    assert_eq!(t.title, "Write report");
    assert_eq!(t.description, "quarterly numbers");
    assert_eq!(t.status, TaskStatus::Done);
    assert_eq!(t.date, "2023-07-27");
}

#[test]
fn row_with_simple_or_upper_case_id_reads_as_task() {
    let t = task_from_row(&row("67E5504410B1426F9247BB680E5FE0C8", 2)).unwrap();
    assert_eq!(t.id, ID);
    assert_eq!(t.status, TaskStatus::Archived);
}

#[test]
fn row_with_bad_id_is_refused() {
    assert_eq!(task_from_row(&row("not-a-uuid", 0)), Err(InvalidStatusError));
    assert_eq!(task_from_row(&row("", 0)), Err(InvalidStatusError));
}

#[test]
fn row_with_unknown_status_is_refused() {
    assert_eq!(task_from_row(&row(ID_TEXT, 7)), Err(InvalidStatusError));
}

#[test]
fn task_from_parts_uses_the_given_id() {
    let t = task_from_parts(Some(5), row("ignored", 0)).unwrap();
    assert_eq!(t.id, 5);
    assert_eq!(t.status, TaskStatus::Todo);
    assert_eq!(task_from_parts(None, row(ID_TEXT, 0)), Err(InvalidStatusError));
    assert_eq!(task_from_parts(Some(5), row(ID_TEXT, 3)), Err(InvalidStatusError));
}

#[test]
fn add_message_writes_every_column() {
    let mut t = Task::with_id(ID, "T".to_string(), "D".to_string(), "2024-01-02".to_string());
    t.status = TaskStatus::Done;
    let st = DbMessage::AddTaskToDb(t).statement();
    assert_eq!(st.sql, ADD_TASK_SQL);
    assert_eq!(
        st.params,
        vec![
            SqlValue::Text(ID_TEXT.to_string()),
            SqlValue::Text("T".to_string()),
            SqlValue::Text("D".to_string()),
            SqlValue::Integer(1),
            SqlValue::Text("2024-01-02".to_string()),
        ]
    );
}

#[test]
fn update_and_delete_messages() {
    let st = DbMessage::UpdateTaskStatusInDb(ID, TaskStatus::Archived).statement();
    assert_eq!(st.sql, UPDATE_STATUS_SQL);
    assert_eq!(st.params, vec![SqlValue::Integer(2), SqlValue::Text(ID_TEXT.to_string())]);
    let st = DbMessage::DeleteTaskFromDb(ID).statement();
    assert_eq!(st.sql, DELETE_TASK_SQL);
    assert_eq!(st.params, vec![SqlValue::Text(ID_TEXT.to_string())]);
}

#[test]
fn small_ids_print_with_leading_zeros() {
    let st = DbMessage::DeleteTaskFromDb(1).statement();
    assert_eq!(st.params, vec![SqlValue::Text("00000000-0000-0000-0000-000000000001".to_string())]);
}

#[test]
fn save_statement_leaves_out_the_title() {
    let t = Task::with_id(ID, "T".to_string(), "D".to_string(), "2024-01-02".to_string());
    let st = save_task_statement(&t);
    assert_eq!(st.sql, SAVE_TASK_SQL);
    assert_eq!(
        st.params,
        vec![
            SqlValue::Text(ID_TEXT.to_string()),
            SqlValue::Text("D".to_string()),
            SqlValue::Integer(0),
            SqlValue::Text("2024-01-02".to_string()),
        ]
    );
}

#[test]
fn written_row_reads_back_as_the_task() {
    let mut t = Task::with_id(ID, "T".to_string(), "D".to_string(), "2024-01-02".to_string());
    t.status = TaskStatus::Archived;
    let st = DbMessage::AddTaskToDb(t.clone()).statement();
    let text = |v: &SqlValue| match v {
        SqlValue::Text(s) => s.clone(),
        SqlValue::Integer(_) => panic!("expected text"),
    };
    let code = match &st.params[3] {
        SqlValue::Integer(c) => *c as i32,
        SqlValue::Text(_) => panic!("expected an integer"),
    };
    let r = TaskRow {
        id: text(&st.params[0]),
        title: text(&st.params[1]),
        description: text(&st.params[2]),
        status: code,
        date: text(&st.params[4]),
    };
    assert_eq!(task_from_row(&r), Ok(t));
}

#[test]
fn typed_task_id_is_read_without_surrounding_space() {
    assert_eq!(parse_task_id("67e55044-10b1-426f-9247-bb680e5fe0c8\n"), Ok(ID));
    assert_eq!(parse_task_id("  67E55044-10B1-426F-9247-BB680E5FE0C8  "), Ok(ID));
}

#[test]
fn bad_typed_task_id_gives_the_parser_message() {
    let e = parse_task_id("12345\n").unwrap_err();
    assert_eq!(e, uuid::Uuid::parse_str("12345").unwrap_err().to_string());
    assert!(parse_task_id("").is_err());
}
