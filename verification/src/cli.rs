//! What the command line decides before it talks to the server: the server's
//! address, the request to queue a command, and which task operation to do.

use vstd::prelude::*;
use crate::task::GpuRequirement;
use crate::scheme::{PushTaskRequest, RemoveTaskRequest};
use crate::text::text;

verus! {

/// How a queued command waits for earlier tasks.
#[derive(Clone, Debug, PartialEq, Eq)]
pub struct DependTaskMode {
    /// Run after these tasks complete well.
    pub wait: Option<Vec<u32>>,
    /// Run after these tasks end, however they end.
    pub delay: Option<Vec<u32>>,
}

/// Which operation to do on tasks; at most one is given.
#[derive(Clone, Debug, PartialEq, Eq)]
pub struct DoTaskMode {
    pub info: Option<u32>,
    pub cat: Option<u32>,
    pub tail: Option<u32>,
    pub remove: Option<u32>,
    pub clear: bool,
    pub kill: Option<u32>,
}

/// The operation chosen from a [`DoTaskMode`].
#[derive(Clone, Copy, Debug, PartialEq, Eq, Structural)]
pub enum DoAction {
    Info(u32),
    Cat(u32),
    Tail(u32),
    Remove(u32),
    Clear,
    Kill(u32),
    Nothing,
}

/// The operation a mode asks for, taken in the order info, cat, tail, remove,
/// clear, kill.
pub open spec fn action_of(mode: DoTaskMode) -> DoAction {
    if mode.info is Some {
        DoAction::Info(mode.info->0)
    } else if mode.cat is Some {
        DoAction::Cat(mode.cat->0)
    } else if mode.tail is Some {
        DoAction::Tail(mode.tail->0)
    } else if mode.remove is Some {
        DoAction::Remove(mode.remove->0)
    } else if mode.clear {
        DoAction::Clear
    } else if mode.kill is Some {
        DoAction::Kill(mode.kill->0)
    } else {
        DoAction::Nothing
    }
}

/// The operation a mode asks for.
pub fn do_action(mode: &DoTaskMode) -> (a: DoAction)
    ensures
        a == action_of(*mode),
{
    if let Some(id) = mode.info {
        DoAction::Info(id)
    } else if let Some(id) = mode.cat {
        DoAction::Cat(id)
    } else if let Some(id) = mode.tail {
        DoAction::Tail(id)
    } else if let Some(id) = mode.remove {
        DoAction::Remove(id)
    } else if mode.clear {
        DoAction::Clear
    } else if let Some(id) = mode.kill {
        DoAction::Kill(id)
    } else {
        DoAction::Nothing
    }
}

/// The removal request of an operation, for `Remove` and `Clear`.
pub fn remove_request(a: DoAction) -> (r: Option<RemoveTaskRequest>)
    ensures
        r == match a {
            DoAction::Remove(id) => Some(RemoveTaskRequest { task_id: id, is_all: false }),
            DoAction::Clear => Some(RemoveTaskRequest { task_id: 0, is_all: true }),
            _ => None,
        },
{
    match a {
        DoAction::Remove(id) => Some(RemoveTaskRequest { task_id: id, is_all: false }),
        DoAction::Clear => Some(RemoveTaskRequest { task_id: 0, is_all: true }),
        _ => None,
    }
}

/// The server's address on this machine: the given port, or 20110.
pub open spec fn server_host_of(port: Option<Seq<char>>) -> Seq<char> {
    "127.0.0.1:"@ + match port {
        Some(p) => p,
        None => "20110"@,
    }
}

/// The server's address, given the port that the environment names, if any.
pub fn server_host(port: Option<String>) -> (h: String)
    ensures
        h@ == server_host_of(match port {
            Some(p) => Some(p@),
            None => None,
        }),
{
    let host = text("127.0.0.1:");
    match port {
        Some(p) => host.concat(p.as_str()),
        None => host.concat("20110"),
    }
}

/// Whether the command waits for tasks to end however they end, and which.
pub open spec fn dependence_of(mode: Option<DependTaskMode>) -> (bool, Seq<u32>) {
    match mode {
        None => (false, Seq::empty()),
        Some(m) => if m.wait is Some {
            (false, m.wait->0@)
        } else if m.delay is Some {
            (true, m.delay->0@)
        } else {
            (false, Seq::empty())
        },
    }
}

/// Whether the command waits for tasks to end however they end, and which.
pub fn dependence_choice(mode: Option<DependTaskMode>) -> (r: (bool, Vec<u32>))
    ensures
        (r.0, r.1@) == dependence_of(mode),
{
    match mode {
        None => (false, Vec::new()),
        Some(m) => {
            if let Some(waits) = m.wait {
                (false, waits)
            } else if let Some(delays) = m.delay {
                (true, delays)
            } else {
                (false, Vec::new())
            }
        },
    }
}

/// The refusal when a memory figure is given without a GPU count.
pub open spec fn gpu_flags_message() -> Seq<char> {
    "[-m] must be used with [-G]"@
}

/// A memory figure needs a GPU count.
pub fn check_gpu_flags(gpu: Option<u32>, gpu_mem_given: bool) -> (r: Result<(), String>)
    ensures
        r is Ok <==> !(gpu_mem_given && gpu is None),
        r matches Err(m) ==> m@ == gpu_flags_message(),
{
    if gpu_mem_given && gpu.is_none() {
        Err(text("[-m] must be used with [-G]"))
    } else {
        Ok(())
    }
}

/// The request that queues a command: the dependence mode, the GPU count and
/// the bytes each GPU must have free, the directory and the environment.
pub fn push_task_request(
    label: Option<String>,
    path: Option<String>,
    mode: Option<DependTaskMode>,
    command: String,
    gpu: Option<u32>,
    gpu_mem_bytes: Option<u64>,
    current_dir: String,
    envs: Vec<(String, String)>,
) -> (r: Result<PushTaskRequest, String>)
    ensures
        r is Ok <==> !(gpu_mem_bytes is Some && gpu is None),
        r matches Err(m) ==> m@ == gpu_flags_message(),
        r matches Ok(req) ==> {
            &&& req.label == label
            &&& req.command == command
            &&& req.log_path == path
            &&& req.current_dir == current_dir
            &&& req.envs@ == envs@
            &&& (req.not_safely_depends, req.dependencies@) == dependence_of(mode)
            &&& req.gpu_requirement == match gpu {
                Some(count) => Some(GpuRequirement { count, min_free_mem_bytes: gpu_mem_bytes }),
                None => None::<GpuRequirement>,
            }
        },
{
    let ghost mode0 = mode;
    let (not_safely_depends, dependencies) = dependence_choice(mode);
    match check_gpu_flags(gpu, gpu_mem_bytes.is_some()) {
        Err(m) => return Err(m),
        Ok(()) => {},
    }
    let gpu_requirement = match gpu {
        Some(count) => Some(GpuRequirement { count, min_free_mem_bytes: gpu_mem_bytes }),
        None => None,
    };
    Ok(PushTaskRequest {
        label,
        command,
        log_path: path,
        current_dir,
        envs,
        not_safely_depends,
        dependencies,
        gpu_requirement,
    })
}

} // verus!
