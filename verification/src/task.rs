//! The task model: statuses, worker messages, GPU requirements and tasks.

use vstd::prelude::*;

verus! {

/// Where a task stands in its life cycle.
#[derive(Clone, Copy, Debug, PartialEq, Eq, Structural)]
pub enum TaskStatus {
    Pending,
    Running,
    Completed,
    Failed,
    Killed,
    Skipped,
}

impl Default for TaskStatus {
    fn default() -> (s: TaskStatus)
        ensures
            s == TaskStatus::Pending,
    {
        TaskStatus::Pending
    }
}

impl TaskStatus {
    /// A task in one of these states will not run again.
    pub open spec fn spec_is_finished(self) -> bool {
        !(self is Pending || self is Running)
    }

    /// True for `Completed`, `Failed`, `Killed` and `Skipped`.
    #[verifier::when_used_as_spec(spec_is_finished)]
    pub fn is_finished(self) -> (b: bool)
        ensures
            b == self.spec_is_finished(),
    {
        match self {
            TaskStatus::Pending | TaskStatus::Running => false,
            _ => true,
        }
    }
}

/// What the worker is asked to do, or what happened to a task's process.
#[derive(Clone, Copy, Debug, PartialEq, Eq, Structural)]
pub enum TaskAction {
    Run,
    Complete,
    Fail(i32),
    Kill,
}

/// A message on the channel between the request handlers, the process
/// monitors and the scheduling worker.
#[derive(Clone, Copy, Debug, PartialEq, Eq, Structural)]
pub struct ChannelMessage {
    pub task_id: Option<u32>,
    pub task_action: TaskAction,
}

impl ChannelMessage {
    /// The message that asks the worker to look for tasks that can start.
    pub fn run_request() -> (m: ChannelMessage)
        ensures
            m == (ChannelMessage { task_id: None, task_action: TaskAction::Run }),
    {
        ChannelMessage { task_id: None, task_action: TaskAction::Run }
    }
}

/// A GPU as found at start-up.
#[derive(Clone, Copy, Debug, PartialEq, Eq, Structural)]
pub struct GpuInfo {
    pub index: u32,
    pub total_memory_bytes: u64,
}

/// What a task needs of the GPUs.
#[derive(Clone, Copy, Debug, PartialEq, Eq, Structural)]
pub struct GpuRequirement {
    /// How many GPUs.
    pub count: u32,
    /// Least free memory on each GPU, in bytes; `None` means the server's
    /// threshold share of the GPU's memory.
    pub min_free_mem_bytes: Option<u64>,
}

impl Default for GpuRequirement {
    fn default() -> (r: GpuRequirement)
        ensures
            r == (GpuRequirement { count: 0, min_free_mem_bytes: None }),
    {
        GpuRequirement { count: 0, min_free_mem_bytes: None }
    }
}

/// A point in time: whole seconds since the Unix epoch, negative before it,
/// and the nanoseconds past them.
#[derive(Clone, Copy, Debug, PartialEq, Eq, Structural)]
pub struct Timestamp {
    pub secs: i64,
    pub nanos: u32,
}

impl Default for Timestamp {
    fn default() -> (t: Timestamp)
        ensures
            t == (Timestamp { secs: 0, nanos: 0 }),
    {
        Timestamp { secs: 0, nanos: 0 }
    }
}


/// The view of an optional string: its characters, if present.
pub open spec fn opt_str_view(o: Option<String>) -> Option<Seq<char>> {
    match o {
        Some(s) => Some(s@),
        None => None,
    }
}

/// The view of a list of environment variables.
pub open spec fn env_view(v: Seq<(String, String)>) -> Seq<(Seq<char>, Seq<char>)> {
    v.map_values(|e: (String, String)| (e.0@, e.1@))
}

/// A queued shell command with everything the server keeps about it.
#[derive(Clone, Debug, PartialEq, Eq)]
pub struct Task {
    pub label: Option<String>,
    pub status: TaskStatus,
    pub command: String,
    pub log_path: Option<String>,
    pub current_dir: String,
    /// Environment variables, each name at most once.
    pub envs: Vec<(String, String)>,
    pub create_time: Timestamp,
    pub start_time: Option<Timestamp>,
    pub end_time: Option<Timestamp>,
    pub pid: Option<u32>,
    pub exit_code: Option<i32>,
    /// Start once the dependencies have ended, however they ended.
    pub not_safely_depends: bool,
    /// The tasks this one waits for, with the status last reported for each.
    pub dependencies: Vec<(u32, TaskStatus)>,
    /// The tasks that wait for this one.
    pub required: Vec<u32>,
    pub gpu_requirement: Option<GpuRequirement>,
}

/// The mathematical content of a [`Task`].
pub struct TaskView {
    pub label: Option<Seq<char>>,
    pub status: TaskStatus,
    pub command: Seq<char>,
    pub log_path: Option<Seq<char>>,
    pub current_dir: Seq<char>,
    pub envs: Seq<(Seq<char>, Seq<char>)>,
    pub create_time: Timestamp,
    pub start_time: Option<Timestamp>,
    pub end_time: Option<Timestamp>,
    pub pid: Option<u32>,
    pub exit_code: Option<i32>,
    pub not_safely_depends: bool,
    pub dependencies: Seq<(u32, TaskStatus)>,
    pub required: Seq<u32>,
    pub gpu_requirement: Option<GpuRequirement>,
}

impl View for Task {
    type V = TaskView;

    open spec fn view(&self) -> TaskView {
        TaskView {
            label: opt_str_view(self.label),
            status: self.status,
            command: self.command@,
            log_path: opt_str_view(self.log_path),
            current_dir: self.current_dir@,
            envs: env_view(self.envs@),
            create_time: self.create_time,
            start_time: self.start_time,
            end_time: self.end_time,
            pid: self.pid,
            exit_code: self.exit_code,
            not_safely_depends: self.not_safely_depends,
            dependencies: self.dependencies@,
            required: self.required@,
            gpu_requirement: self.gpu_requirement,
        }
    }
}

impl Default for Task {
    fn default() -> (t: Task)
        ensures
            t@ == (TaskView {
                label: None,
                status: TaskStatus::Pending,
                command: Seq::empty(),
                log_path: None,
                current_dir: Seq::empty(),
                envs: Seq::empty(),
                create_time: Timestamp { secs: 0, nanos: 0 },
                start_time: None,
                end_time: None,
                pid: None,
                exit_code: None,
                not_safely_depends: false,
                dependencies: Seq::empty(),
                required: Seq::empty(),
                gpu_requirement: None,
            }),
    {
        let t = Task {
            label: None,
            status: TaskStatus::Pending,
            command: String::new(),
            log_path: None,
            current_dir: String::new(),
            envs: Vec::new(),
            create_time: Timestamp { secs: 0, nanos: 0 },
            start_time: None,
            end_time: None,
            pid: None,
            exit_code: None,
            not_safely_depends: false,
            dependencies: Vec::new(),
            required: Vec::new(),
            gpu_requirement: None,
        };
        assert(env_view(t.envs@) =~= Seq::empty());
        t
    }
}

/// A copy of an optional string.
pub fn copy_opt_string(o: &Option<String>) -> (r: Option<String>)
    ensures
        r == *o,
{
    match o {
        Some(s) => Some(s.clone()),
        None => None,
    }
}

/// A copy of a list of environment variables.
pub fn copy_envs(v: &Vec<(String, String)>) -> (r: Vec<(String, String)>)
    ensures
        r@ == v@,
{
    let mut r: Vec<(String, String)> = Vec::new();
    let mut i: usize = 0;
    while i < v.len()
        invariant
            i <= v.len(),
            r@ == v@.subrange(0, i as int),
        decreases v.len() - i,
    {
        let e = (v[i].0.clone(), v[i].1.clone());
        r.push(e);
        i = i + 1;
        assert(r@ =~= v@.subrange(0, i as int));
    }
    assert(v@.subrange(0, v.len() as int) =~= v@);
    r
}

/// A copy of a vector of plain values.
pub fn copy_vec<T: Copy>(v: &Vec<T>) -> (r: Vec<T>)
    ensures
        r@ == v@,
{
    let mut r: Vec<T> = Vec::new();
    let mut i: usize = 0;
    while i < v.len()
        invariant
            i <= v.len(),
            r@ == v@.subrange(0, i as int),
        decreases v.len() - i,
    {
        r.push(v[i]);
        i = i + 1;
        assert(r@ =~= v@.subrange(0, i as int));
    }
    assert(v@.subrange(0, v.len() as int) =~= v@);
    r
}

impl Task {
    /// A copy of the task, field by field.
    pub fn duplicate(&self) -> (t: Task)
        ensures
            t@ == self@,
    {
        Task {
            label: copy_opt_string(&self.label),
            status: self.status,
            command: self.command.clone(),
            log_path: copy_opt_string(&self.log_path),
            current_dir: self.current_dir.clone(),
            envs: copy_envs(&self.envs),
            create_time: self.create_time,
            start_time: self.start_time,
            end_time: self.end_time,
            pid: self.pid,
            exit_code: self.exit_code,
            not_safely_depends: self.not_safely_depends,
            dependencies: copy_vec(&self.dependencies),
            required: copy_vec(&self.required),
            gpu_requirement: self.gpu_requirement,
        }
    }
}

/// The environment after setting `key` to `value`: every entry named `key`
/// takes the new value, or the pair is appended when there is none.
pub open spec fn env_set(
    s: Seq<(Seq<char>, Seq<char>)>,
    key: Seq<char>,
    value: Seq<char>,
) -> Seq<(Seq<char>, Seq<char>)> {
    if exists|i: int| 0 <= i < s.len() && (#[trigger] s[i]).0 == key {
        s.map_values(|e: (Seq<char>, Seq<char>)| if e.0 == key { (key, value) } else { e })
    } else {
        s.push((key, value))
    }
}

/// Sets one environment variable, as inserting into a map does.
pub fn set_env(envs: &mut Vec<(String, String)>, key: String, value: String)
    ensures
        env_view(final(envs)@) == env_set(env_view(old(envs)@), key@, value@),
{
    let ghost s0 = env_view(envs@);
    let mut found = false;
    let mut i: usize = 0;
    while i < envs.len()
        invariant
            i <= envs.len(),
            envs@.len() == old(envs)@.len(),
            s0 == env_view(old(envs)@),
            found <==> exists|j: int| 0 <= j < i && (#[trigger] s0[j]).0 == key@,
            forall|j: int|
                0 <= j < i ==> ((#[trigger] envs@[j]).0@, envs@[j].1@) == (if s0[j].0 == key@ {
                    (key@, value@)
                } else {
                    s0[j]
                }),
            forall|j: int| i <= j < envs@.len() ==> #[trigger] envs@[j] == old(envs)@[j],
        decreases envs.len() - i,
    {
        assert(s0[i as int] == (envs@[i as int].0@, envs@[i as int].1@));
        let ghost before = envs@;
        if envs[i].0 == key {
            let name = envs[i].0.clone();
            envs.set(i, (name, value.clone()));
            found = true;
        }
        assert(forall|j: int| 0 <= j < i ==> #[trigger] envs@[j] == before[j]);
        assert((envs@[i as int].0@, envs@[i as int].1@) == (if s0[i as int].0 == key@ {
            (key@, value@)
        } else {
            s0[i as int]
        }));
        i = i + 1;
    }
    if found {
        assert(env_view(envs@) =~= s0.map_values(
            |e: (Seq<char>, Seq<char>)| if e.0 == key@ { (key@, value@) } else { e },
        ));
    } else {
        assert(env_view(envs@) =~= s0);
        envs.push((key, value));
        assert(env_view(envs@) =~= s0.push((key@, value@)));
    }
}

/// Whether the list holds `x`.
pub fn contains_id(v: &Vec<u32>, x: u32) -> (b: bool)
    ensures
        b == v@.contains(x),
{
    let mut i: usize = 0;
    while i < v.len()
        invariant
            i <= v.len(),
            forall|j: int| 0 <= j < i ==> v@[j] != x,
        decreases v.len() - i,
    {
        if v[i] == x {
            assert(v@[i as int] == x);
            return true;
        }
        i = i + 1;
    }
    false
}

} // verus!
