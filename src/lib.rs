//! An in-memory task list: tasks are added with fresh ids, updated and
//! deleted by id, and bulk-merged from an exported snapshot.

pub mod laws;
pub mod store;
pub mod task;

pub use store::{Store, StoreError, StoreView};
pub use task::{Task, TaskView, UpdateTask, UpdateView};
