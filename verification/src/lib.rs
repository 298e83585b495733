//! Core of a task queue for long-running shell jobs: the task model, the
//! ordered task table, the scheduler that decides which pending tasks start,
//! the server's request handling, and the text that the command line prints.

pub mod task;
pub mod table;
pub mod text;
pub mod errors;
pub mod clock;
pub mod scheme;
pub mod gpu;
pub mod signal;
pub mod state;
pub mod worker;
pub mod logs;
pub mod cli;
pub mod render;
pub mod laws;
