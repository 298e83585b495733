//! The requests and answers that the server exchanges with its clients.

use vstd::prelude::*;
use crate::task::{GpuRequirement, Task};

verus! {

/// A request to queue a command.
#[derive(Clone, Debug, PartialEq, Eq)]
pub struct PushTaskRequest {
    pub label: Option<String>,
    pub command: String,
    pub log_path: Option<String>,
    pub current_dir: String,
    pub envs: Vec<(String, String)>,
    pub not_safely_depends: bool,
    pub dependencies: Vec<u32>,
    pub gpu_requirement: Option<GpuRequirement>,
}

/// A request that names one task.
#[derive(Clone, Copy, Debug, PartialEq, Eq, Structural)]
pub struct TaskIdRequest {
    pub task_id: u32,
}

/// A request to remove one task, or every task that has ended.
#[derive(Clone, Copy, Debug, PartialEq, Eq, Structural)]
pub struct RemoveTaskRequest {
    pub task_id: u32,
    pub is_all: bool,
}

/// The answer to a listing: the slots, the tasks in order of id, the GPU pool
/// and what each running GPU task holds of it.
#[derive(Clone, Debug, PartialEq, Eq)]
pub struct ListTaskResponse {
    pub num_slots: u32,
    pub used_slots: u32,
    pub tasks: Vec<(u32, Task)>,
    pub gpu_ids: Vec<u32>,
    pub gpu_allocations: Vec<(u32, Vec<(u32, u64)>)>,
}

} // verus!
