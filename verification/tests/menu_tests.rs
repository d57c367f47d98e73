use task_assistant::menu::{found_tasks, sort_order_from_choice, MenuCommand};
use task_assistant::task::{Task, TaskStatus};
use task_assistant::task_manager::SortOrder;

#[test]
fn menu_numbers() {
    assert_eq!(MenuCommand::from_choice(1), MenuCommand::AddTask);
    assert_eq!(MenuCommand::from_choice(2), MenuCommand::MarkDone);
    assert_eq!(MenuCommand::from_choice(3), MenuCommand::MarkTodo);
    assert_eq!(MenuCommand::from_choice(4), MenuCommand::Archive);
    assert_eq!(MenuCommand::from_choice(5), MenuCommand::ListTasks);
    assert_eq!(MenuCommand::from_choice(6), MenuCommand::Undo);
    assert_eq!(MenuCommand::from_choice(7), MenuCommand::Redo);
    assert_eq!(MenuCommand::from_choice(8), MenuCommand::SearchTasks);
    assert_eq!(MenuCommand::from_choice(9), MenuCommand::SortByDate);
    assert_eq!(MenuCommand::from_choice(1001), MenuCommand::DeleteTask);
    assert_eq!(MenuCommand::from_choice(0), MenuCommand::Exit);
    assert_eq!(MenuCommand::from_choice(10), MenuCommand::Invalid);
    assert_eq!(MenuCommand::from_choice(1000), MenuCommand::Invalid);
}

#[test]
fn status_commands() {
    assert_eq!(MenuCommand::MarkDone.target_status(), Some(TaskStatus::Done));
    assert_eq!(MenuCommand::MarkTodo.target_status(), Some(TaskStatus::Todo));
    assert_eq!(MenuCommand::Archive.target_status(), Some(TaskStatus::Archived));
    assert_eq!(MenuCommand::ListTasks.target_status(), None);
}

#[test]
fn sort_choices() {
    assert_eq!(sort_order_from_choice(1), Some(SortOrder::Ascending));
    assert_eq!(sort_order_from_choice(2), Some(SortOrder::Descending));
    assert_eq!(sort_order_from_choice(0), None);
    assert_eq!(sort_order_from_choice(3), None);
}

#[test]
fn empty_list_is_not_found() {
    assert_eq!(found_tasks(Vec::new()), None);
    let t = Task::with_id(1, "a".to_string(), "b".to_string(), "c".to_string());
    assert_eq!(found_tasks(vec![t.clone()]), Some(vec![t]));
}
