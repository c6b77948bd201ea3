pub mod command;
pub mod laws;
pub mod store;
pub mod task;

pub use command::{plan, Args, Batch, Command, Request};
pub use store::TaskStore;
pub use task::{Task, TaskError};
