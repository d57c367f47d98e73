//! A task list kept in an in-memory cache, with undo and redo of status
//! changes, and the decisions that keep an SQLite table in step with it.

pub mod db;
pub mod db_message;
pub mod ids;
pub mod menu;
pub mod table;
pub mod task;
pub mod task_manager;
pub mod text;
