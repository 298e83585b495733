//! The server's state and the handling of requests: queueing, removing,
//! describing, killing and listing tasks, and configuring the slots and GPUs.

use vstd::prelude::*;
use nvml_wrapper::Nvml;
use crate::task::{
    ChannelMessage, GpuInfo, Task, TaskAction, TaskStatus, TaskView, Timestamp, contains_id, copy_vec,
    env_view, opt_str_view,
};
use crate::table::{TaskTable, has_id, ids_increasing, lemma_rows_map_at, row_index, rows_map, rows_of};
use crate::text::{decimal, push_decimal, text};
use crate::errors::ServerError;
use crate::scheme::{ListTaskResponse, PushTaskRequest};
use crate::gpu::allocs_view;
use crate::signal::{send_sigterm, errno_text, errno_display};
use crate::clock;

verus! {

/// Every id of the list names a task.
pub open spec fn all_known(m: Map<u32, TaskView>, ids: Seq<u32>) -> bool {
    forall|i: int| 0 <= i < ids.len() ==> m.contains_key(#[trigger] ids[i])
}

/// The dependencies a new task records: each listed task that exists, in
/// order of id, with its status at that moment.
pub open spec fn dependency_entries(rows: Seq<(u32, TaskView)>, ids: Seq<u32>) -> Seq<(u32, TaskStatus)>
    decreases rows.len(),
{
    if rows.len() == 0 {
        Seq::empty()
    } else {
        let prev = dependency_entries(rows.drop_last(), ids);
        if ids.contains(rows.last().0) {
            prev.push((rows.last().0, rows.last().1.status))
        } else {
            prev
        }
    }
}

/// The task, recording that task `id` waits for it.
pub open spec fn with_requirer(t: TaskView, id: u32) -> TaskView {
    TaskView { required: t.required.push(id), ..t }
}

/// The rows after each listed task records that task `id` waits for it.
pub open spec fn mark_requirers(rows: Seq<(u32, TaskView)>, ids: Seq<u32>, id: u32) -> Seq<(u32, TaskView)> {
    rows.map_values(
        |r: (u32, TaskView)| if ids.contains(r.0) { (r.0, with_requirer(r.1, id)) } else { r },
    )
}

/// The tasks after `t` is queued under `id` behind the listed tasks: each of
/// them records that `id` waits for it, and `t` records their statuses.
pub open spec fn after_push(rows: Seq<(u32, TaskView)>, ids: Seq<u32>, id: u32, t: TaskView) -> Map<u32, TaskView> {
    rows_map(mark_requirers(rows, ids, id)).insert(
        id,
        TaskView { dependencies: dependency_entries(rows, ids), ..t },
    )
}

/// Marking requirers keeps every row's id, so the same ids have rows.
pub proof fn lemma_mark_requirers_ids(rows: Seq<(u32, TaskView)>, ids: Seq<u32>, id: u32)
    ensures
        mark_requirers(rows, ids, id).len() == rows.len(),
        forall|j: int| 0 <= j < rows.len() ==> (#[trigger] mark_requirers(rows, ids, id)[j]).0 == rows[j].0,
        forall|k: u32| has_id(mark_requirers(rows, ids, id), k) <==> has_id(rows, k),
{
    let m = mark_requirers(rows, ids, id);
    assert forall|k: u32| has_id(m, k) <==> has_id(rows, k) by {
        if has_id(m, k) {
            let j = choose|j: int| 0 <= j < m.len() && (#[trigger] m[j]).0 == k;
            assert(rows[j].0 == k);
        }
        if has_id(rows, k) {
            let j = choose|j: int| 0 <= j < rows.len() && (#[trigger] rows[j]).0 == k;
            assert(m[j].0 == k);
        }
    }
}

/// The tasks after a push are those before it and the new one.
pub proof fn lemma_after_push_keys(rows: Seq<(u32, TaskView)>, ids: Seq<u32>, id: u32, t: TaskView)
    ensures
        forall|k: u32| #[trigger] after_push(rows, ids, id, t).contains_key(k) <==> (rows_map(rows).contains_key(k) || k == id),
{
    lemma_mark_requirers_ids(rows, ids, id);
}

/// The task that a push request describes, created at `now`.
pub open spec fn task_from_request(req: PushTaskRequest, now: Timestamp) -> TaskView {
    TaskView {
        label: opt_str_view(req.label),
        status: TaskStatus::Pending,
        command: req.command@,
        log_path: opt_str_view(req.log_path),
        current_dir: req.current_dir@,
        envs: env_view(req.envs@),
        create_time: now,
        start_time: None,
        end_time: None,
        pid: None,
        exit_code: None,
        not_safely_depends: req.not_safely_depends,
        dependencies: Seq::empty(),
        required: Seq::empty(),
        gpu_requirement: req.gpu_requirement,
    }
}

/// The task that a push request describes, created at `now`.
pub fn task_from_push(req: PushTaskRequest, now: Timestamp) -> (t: Task)
    ensures
        t@ == task_from_request(req, now),
{
    let t = Task {
        label: req.label,
        status: TaskStatus::Pending,
        command: req.command,
        log_path: req.log_path,
        current_dir: req.current_dir,
        envs: req.envs,
        create_time: now,
        start_time: None,
        end_time: None,
        pid: None,
        exit_code: None,
        not_safely_depends: req.not_safely_depends,
        dependencies: Vec::new(),
        required: Vec::new(),
        gpu_requirement: req.gpu_requirement,
    };
    assert(t@.dependencies =~= Seq::<(u32, TaskStatus)>::empty());
    assert(t@.required =~= Seq::<u32>::empty());
    t
}

/// The tasks that stay when every ended task is cleared.
pub open spec fn unfinished_only(m: Map<u32, TaskView>) -> Map<u32, TaskView> {
    m.restrict(Set::new(|k: u32| m.contains_key(k) && !m[k].status.spec_is_finished()))
}

/// "No task with ID <id>".
pub open spec fn no_task_message(id: u32) -> Seq<char> {
    "No task with ID "@ + decimal(id as nat)
}

/// "Task <id> is running!".
pub open spec fn running_message(id: u32) -> Seq<char> {
    "Task "@ + decimal(id as nat) + " is running!"@
}

fn no_task_error(id: u32) -> (e: ServerError)
    ensures
        e matches ServerError::InvalidParams(m) && m@ == no_task_message(id),
{
    let mut m = text("No task with ID ");
    push_decimal(&mut m, id as u64);
    ServerError::InvalidParams(m)
}

/// The server's state.
pub struct ServerState {
    pub num_slots: u32,
    pub used_slots: u32,
    pub tasks: TaskTable,
    /// The id the next queued task gets.
    pub task_id_counter: u32,
    pub nvml: Option<Nvml>,
    pub gpu_infos: Vec<GpuInfo>,
    /// For each GPU of `gpu_infos`, the bytes a task needs on it when the task
    /// names no figure of its own: the server's threshold share of its memory.
    pub gpu_reserves: Vec<u64>,
    /// The GPUs that tasks may be given.
    pub gpu_ids: Vec<u32>,
    /// For each running GPU task, its GPUs and the bytes it holds on each.
    pub gpu_allocations: Vec<(u32, Vec<(u32, u64)>)>,
}

/// A copy of the reservations.
pub fn copy_allocations(v: &Vec<(u32, Vec<(u32, u64)>)>) -> (r: Vec<(u32, Vec<(u32, u64)>)>)
    ensures
        allocs_view(r@) == allocs_view(v@),
{
    let mut r: Vec<(u32, Vec<(u32, u64)>)> = Vec::new();
    let mut i: usize = 0;
    while i < v.len()
        invariant
            i <= v.len(),
            r@.len() == i,
            allocs_view(r@) == allocs_view(v@).subrange(0, i as int),
        decreases v.len() - i,
    {
        let e = (v[i].0, copy_vec(&v[i].1));
        let ghost before = r@;
        let ghost ev = (e.0, e.1@);
        r.push(e);
        assert(allocs_view(r@)[i as int] == ev);
        assert(forall|j: int| 0 <= j < i ==> #[trigger] allocs_view(r@)[j] == allocs_view(before)[j]);
        assert(allocs_view(r@) =~= allocs_view(v@).subrange(0, i + 1));
        i = i + 1;
    }
    assert(allocs_view(v@).subrange(0, v@.len() as int) =~= allocs_view(v@));
    r
}

impl ServerState {
    /// The state is well formed: the table keeps its order and each GPU has
    /// its threshold share.
    pub open spec fn wf(&self) -> bool {
        &&& self.tasks.wf()
        &&& self.gpu_reserves@.len() == self.gpu_infos@.len()
    }

    /// Every task's id is below the id counter: the counter, which the next
    /// push takes, names no task.
    pub open spec fn ids_below_counter(&self) -> bool {
        forall|k: u32| self.tasks@.contains_key(k) ==> k < self.task_id_counter
    }

    /// Nothing but the tasks and the id counter differs between the states.
    pub open spec fn same_resources(&self, other: &ServerState) -> bool {
        &&& self.num_slots == other.num_slots
        &&& self.used_slots == other.used_slots
        &&& self.nvml == other.nvml
        &&& self.gpu_infos@ == other.gpu_infos@
        &&& self.gpu_reserves@ == other.gpu_reserves@
        &&& self.gpu_ids@ == other.gpu_ids@
        &&& allocs_view(self.gpu_allocations@) == allocs_view(other.gpu_allocations@)
    }

    /// A server with no task, `num_slots` slots, and every GPU found in its pool.
    pub fn new(num_slots: u32, nvml: Option<Nvml>, gpu_infos: Vec<GpuInfo>, gpu_reserves: Vec<u64>) -> (s: ServerState)
        requires
            gpu_reserves@.len() == gpu_infos@.len(),
        ensures
            s.wf(),
            s.num_slots == num_slots,
            s.used_slots == 0,
            s.tasks@ == Map::<u32, TaskView>::empty(),
            s.task_id_counter == 0,
            s.ids_below_counter(),
            s.nvml == nvml,
            s.gpu_infos@ == gpu_infos@,
            s.gpu_reserves@ == gpu_reserves@,
            s.gpu_ids@ == gpu_infos@.map_values(|g: GpuInfo| g.index),
            s.gpu_allocations@.len() == 0,
    {
        let mut gpu_ids: Vec<u32> = Vec::new();
        let mut i: usize = 0;
        while i < gpu_infos.len()
            invariant
                i <= gpu_infos.len(),
                gpu_ids@ == gpu_infos@.subrange(0, i as int).map_values(|g: GpuInfo| g.index),
            decreases gpu_infos.len() - i,
        {
            gpu_ids.push(gpu_infos[i].index);
            i = i + 1;
            assert(gpu_ids@ =~= gpu_infos@.subrange(0, i as int).map_values(|g: GpuInfo| g.index));
        }
        assert(gpu_infos@.subrange(0, gpu_infos@.len() as int) =~= gpu_infos@);
        ServerState {
            num_slots,
            used_slots: 0,
            tasks: TaskTable::new(),
            task_id_counter: 0,
            nvml,
            gpu_infos,
            gpu_reserves,
            gpu_ids,
            gpu_allocations: Vec::new(),
        }
    }

    /// Sets the number of slots. When it grows, the worker is asked to look
    /// for tasks to start.
    pub fn set_num_slots(&mut self, num_slots: u32) -> (msg: Option<ChannelMessage>)
        ensures
            final(self).num_slots == num_slots,
            final(self).used_slots == old(self).used_slots,
            final(self).tasks == old(self).tasks,
            final(self).task_id_counter == old(self).task_id_counter,
            final(self).nvml == old(self).nvml,
            final(self).gpu_infos == old(self).gpu_infos,
            final(self).gpu_reserves == old(self).gpu_reserves,
            final(self).gpu_ids == old(self).gpu_ids,
            final(self).gpu_allocations == old(self).gpu_allocations,
            msg == (if old(self).num_slots < num_slots {
                Some(ChannelMessage { task_id: None, task_action: TaskAction::Run })
            } else {
                None
            }),
    {
        let grows = self.num_slots < num_slots;
        self.num_slots = num_slots;
        if grows {
            Some(ChannelMessage::run_request())
        } else {
            None
        }
    }

    /// Sets the GPUs that tasks may be given.
    pub fn set_gpu_ids(&mut self, gpu_ids: Vec<u32>)
        ensures
            final(self).gpu_ids@ == gpu_ids@,
            final(self).num_slots == old(self).num_slots,
            final(self).used_slots == old(self).used_slots,
            final(self).tasks == old(self).tasks,
            final(self).task_id_counter == old(self).task_id_counter,
            final(self).nvml == old(self).nvml,
            final(self).gpu_infos == old(self).gpu_infos,
            final(self).gpu_reserves == old(self).gpu_reserves,
            final(self).gpu_allocations == old(self).gpu_allocations,
    {
        self.gpu_ids = gpu_ids;
    }

    /// Sets, for each GPU, the bytes a task needs on it when the task names no
    /// figure of its own.
    pub fn set_gpu_reserves(&mut self, gpu_reserves: Vec<u64>)
        requires
            gpu_reserves@.len() == old(self).gpu_infos@.len(),
        ensures
            final(self).gpu_reserves@ == gpu_reserves@,
            final(self).num_slots == old(self).num_slots,
            final(self).used_slots == old(self).used_slots,
            final(self).tasks == old(self).tasks,
            final(self).task_id_counter == old(self).task_id_counter,
            final(self).nvml == old(self).nvml,
            final(self).gpu_infos == old(self).gpu_infos,
            final(self).gpu_ids == old(self).gpu_ids,
            final(self).gpu_allocations == old(self).gpu_allocations,
    {
        self.gpu_reserves = gpu_reserves;
    }

    /// Applies the settings that are given: the number of slots, the GPU pool,
    /// and each GPU's threshold share. The worker is asked to look for tasks
    /// to start when the slots grow.
    pub fn configure(
        &mut self,
        num_slots: Option<u32>,
        gpu_ids: Option<Vec<u32>>,
        gpu_reserves: Option<Vec<u64>>,
    ) -> (msg: Option<ChannelMessage>)
        requires
            old(self).wf(),
            gpu_reserves matches Some(r) ==> r@.len() == old(self).gpu_infos@.len(),
        ensures
            final(self).wf(),
            final(self).num_slots == match num_slots {
                Some(n) => n,
                None => old(self).num_slots,
            },
            final(self).gpu_ids@ == match gpu_ids {
                Some(v) => v@,
                None => old(self).gpu_ids@,
            },
            final(self).gpu_reserves@ == match gpu_reserves {
                Some(v) => v@,
                None => old(self).gpu_reserves@,
            },
            final(self).used_slots == old(self).used_slots,
            final(self).tasks == old(self).tasks,
            final(self).task_id_counter == old(self).task_id_counter,
            final(self).nvml == old(self).nvml,
            final(self).gpu_infos == old(self).gpu_infos,
            final(self).gpu_allocations == old(self).gpu_allocations,
            msg == (if num_slots matches Some(n) && old(self).num_slots < n {
                Some(ChannelMessage { task_id: None, task_action: TaskAction::Run })
            } else {
                None
            }),
    {
        let mut msg = None;
        if let Some(n) = num_slots {
            msg = self.set_num_slots(n);
        }
        if let Some(v) = gpu_ids {
            self.set_gpu_ids(v);
        }
        if let Some(v) = gpu_reserves {
            self.set_gpu_reserves(v);
        }
        msg
    }

    /// Queues `task` under the next id. Each listed task must exist; each
    /// records that the new task waits for it, and the new task records the
    /// status each had. The worker is then asked to look for tasks to start.
    pub fn push_task(&mut self, task: Task, dependence_ids: &Vec<u32>) -> (r: Result<ChannelMessage, ServerError>)
        requires
            old(self).wf(),
            old(self).task_id_counter < u32::MAX,
        ensures
            final(self).wf(),
            final(self).same_resources(old(self)),
            old(self).ids_below_counter() ==> final(self).ids_below_counter(),
            r is Ok <==> all_known(old(self).tasks@, dependence_ids@),
            match r {
                Ok(m) => {
                    &&& m == ChannelMessage { task_id: None, task_action: TaskAction::Run }
                    &&& final(self).task_id_counter == old(self).task_id_counter + 1
                    &&& final(self).tasks@ == after_push(
                        old(self).tasks.rows(),
                        dependence_ids@,
                        old(self).task_id_counter,
                        task@,
                    )
                },
                Err(e) => {
                    &&& e matches ServerError::InvalidParams(msg) && msg@ == "Invalid dependence task IDs"@
                    &&& final(self).task_id_counter == old(self).task_id_counter
                    &&& final(self).tasks == old(self).tasks
                },
            },
    {
        let mut k: usize = 0;
        while k < dependence_ids.len()
            invariant
                k <= dependence_ids.len(),
                self.tasks.wf(),
                self.tasks == old(self).tasks,
                self.wf(),
                self.same_resources(old(self)),
                self.task_id_counter == old(self).task_id_counter,
                forall|j: int| 0 <= j < k ==> self.tasks@.contains_key(#[trigger] dependence_ids@[j]),
            decreases dependence_ids.len() - k,
        {
            if !self.tasks.contains_key(dependence_ids[k]) {
                return Err(ServerError::InvalidParams(text("Invalid dependence task IDs")));
            }
            k = k + 1;
        }
        let new_id = self.task_id_counter;
        let ghost r0 = self.tasks.rows();
        let mut dependencies: Vec<(u32, TaskStatus)> = Vec::new();
        let mut i: usize = 0;
        while i < self.tasks.len()
            invariant
                i <= r0.len(),
                self.tasks.wf(),
                ids_increasing(r0),
                self.tasks.rows().len() == r0.len(),
                new_id == self.task_id_counter,
                new_id == old(self).task_id_counter,
                r0 == old(self).tasks.rows(),
                self.same_resources(old(self)),
                forall|j: int| 0 <= j < dependence_ids@.len() ==> old(self).tasks@.contains_key(#[trigger] dependence_ids@[j]),
                forall|j: int| 0 <= j < i ==> #[trigger] self.tasks.rows()[j] == mark_requirers(r0, dependence_ids@, new_id)[j],
                forall|j: int| i <= j < r0.len() ==> #[trigger] self.tasks.rows()[j] == r0[j],
                dependencies@ == dependency_entries(r0.subrange(0, i as int), dependence_ids@),
            decreases r0.len() - i,
        {
            let id = self.tasks.id_at(i);
            assert(r0.subrange(0, i + 1).drop_last() =~= r0.subrange(0, i as int));
            if contains_id(dependence_ids, id) {
                let mut t = self.tasks.task_at(i).duplicate();
                dependencies.push((id, t.status));
                t.required.push(new_id);
                self.tasks.replace_at(i, t);
            }
            i = i + 1;
        }
        assert(r0.subrange(0, r0.len() as int) =~= r0);
        assert(self.tasks.rows() =~= mark_requirers(r0, dependence_ids@, new_id));
        let mut task = task;
        task.dependencies = dependencies;
        let ghost mid = self.tasks@;
        self.tasks.insert(new_id, task);
        self.task_id_counter = new_id + 1;
        proof {
            lemma_mark_requirers_ids(r0, dependence_ids@, new_id);
            assert forall|k: u32| old(self).ids_below_counter() && self.tasks@.contains_key(k) implies k < self.task_id_counter by {
                if k != new_id {
                    assert(mid.contains_key(k));
                    assert(has_id(r0, k));
                    assert(old(self).tasks@.contains_key(k));
                }
            }
        }
        Ok(ChannelMessage::run_request())
    }

    /// Queues the command that a push request describes, created at the time
    /// the clock reads now, as [`ServerState::push_task`] does.
    pub fn push_request(&mut self, req: PushTaskRequest) -> (r: Result<ChannelMessage, ServerError>)
        requires
            old(self).wf(),
            old(self).task_id_counter < u32::MAX,
        ensures
            final(self).wf(),
            final(self).same_resources(old(self)),
            old(self).ids_below_counter() ==> final(self).ids_below_counter(),
            r is Ok <==> all_known(old(self).tasks@, req.dependencies@),
            match r {
                Ok(m) => {
                    &&& m == ChannelMessage { task_id: None, task_action: TaskAction::Run }
                    &&& final(self).task_id_counter == old(self).task_id_counter + 1
                    &&& exists|now: Timestamp| final(self).tasks@ == after_push(
                        old(self).tasks.rows(),
                        req.dependencies@,
                        old(self).task_id_counter,
                        #[trigger] task_from_request(req, now),
                    )
                },
                Err(e) => {
                    &&& e matches ServerError::InvalidParams(msg) && msg@ == "Invalid dependence task IDs"@
                    &&& final(self).task_id_counter == old(self).task_id_counter
                    &&& final(self).tasks == old(self).tasks
                },
            },
    {
        let now = clock::now();
        let dependencies = copy_vec(&req.dependencies);
        let task = task_from_push(req, now);
        self.push_task(task, &dependencies)
    }

    /// A copy of the task with this id, or an error naming the id.
    pub fn get_task_info(&self, task_id: u32) -> (r: Result<Task, ServerError>)
        requires
            self.wf(),
        ensures
            r is Ok <==> self.tasks@.contains_key(task_id),
            match r {
                Ok(t) => t@ == self.tasks@[task_id],
                Err(e) => e matches ServerError::InvalidParams(m) && m@ == no_task_message(task_id),
            },
    {
        match self.tasks.get(task_id) {
            Some(t) => Ok(t.duplicate()),
            None => Err(no_task_error(task_id)),
        }
    }

    /// Removes one task that is not running, or, with `is_all`, every task
    /// that has ended.
    pub fn remove_task(&mut self, task_id: u32, is_all: bool) -> (r: Result<(), ServerError>)
        requires
            old(self).wf(),
        ensures
            final(self).wf(),
            final(self).same_resources(old(self)),
            final(self).task_id_counter == old(self).task_id_counter,
            old(self).ids_below_counter() ==> final(self).ids_below_counter(),
            is_all ==> r is Ok && final(self).tasks@ == unfinished_only(old(self).tasks@),
            !is_all ==> {
                &&& (r is Ok <==> old(self).tasks@.contains_key(task_id)
                    && old(self).tasks@[task_id].status != TaskStatus::Running)
                &&& r is Ok ==> final(self).tasks@ == old(self).tasks@.remove(task_id)
                &&& r is Err ==> final(self).tasks == old(self).tasks
                &&& !old(self).tasks@.contains_key(task_id) ==> (r matches Err(
                    ServerError::InvalidParams(m),
                ) && m@ == no_task_message(task_id))
                &&& (old(self).tasks@.contains_key(task_id) && old(self).tasks@[task_id].status
                    == TaskStatus::Running) ==> (r matches Err(ServerError::InvalidParams(m)) && m@
                    == running_message(task_id))
            },
    {
        if is_all {
            let ghost m0 = self.tasks@;
            let ghost r0 = self.tasks.rows();
            let mut ids: Vec<u32> = Vec::new();
            let mut i: usize = 0;
            while i < self.tasks.len()
                invariant
                    i <= r0.len(),
                    self.tasks.rows() == r0,
                    self.tasks@ == m0,
                    self.same_resources(old(self)),
                    self.task_id_counter == old(self).task_id_counter,
                    ids_increasing(r0),
                    forall|j: int| 0 <= j < ids@.len() ==> m0.contains_key(#[trigger] ids@[j])
                        && m0[ids@[j]].status.spec_is_finished(),
                    forall|j: int| 0 <= j < i && (#[trigger] r0[j]).1.status.spec_is_finished() ==> ids@.contains(r0[j].0),
                decreases r0.len() - i,
            {
                let id = self.tasks.id_at(i);
                proof {
                    lemma_rows_map_at(r0, i as int);
                }
                if self.tasks.task_at(i).status.is_finished() {
                    let ghost before = ids@;
                    ids.push(id);
                    assert forall|y: u32| before.contains(y) implies ids@.contains(y) by {
                        let q = choose|q: int| 0 <= q < before.len() && before[q] == y;
                        assert(ids@[q] == y);
                    }
                    assert(ids@[before.len() as int] == id);
                    assert(ids@.contains(id));
                }
                i = i + 1;
            }
            let mut k: usize = 0;
            while k < ids.len()
                invariant
                    k <= ids.len(),
                    self.tasks.wf(),
                    self.same_resources(old(self)),
                    self.task_id_counter == old(self).task_id_counter,
                    forall|j: int| 0 <= j < ids@.len() ==> m0.contains_key(#[trigger] ids@[j])
                        && m0[ids@[j]].status.spec_is_finished(),
                    self.tasks@ == m0.remove_keys(ids@.subrange(0, k as int).to_set()),
                decreases ids.len() - k,
            {
                self.tasks.remove(ids[k]);
                assert(m0.remove_keys(ids@.subrange(0, k + 1).to_set()) =~= m0.remove_keys(
                    ids@.subrange(0, k as int).to_set(),
                ).remove(ids@[k as int])) by {
                    assert(ids@.subrange(0, k + 1).to_set() =~= ids@.subrange(0, k as int).to_set().insert(ids@[k as int])) by {
                        assert forall|x: u32| #[trigger] ids@.subrange(0, k + 1).to_set().contains(x)
                            <==> ids@.subrange(0, k as int).to_set().insert(ids@[k as int]).contains(x) by {
                            if ids@.subrange(0, k + 1).contains(x) {
                                let p = choose|p: int| 0 <= p < k + 1 && #[trigger] ids@.subrange(0, k + 1)[p] == x;
                                if p < k {
                                    assert(ids@.subrange(0, k as int)[p] == x);
                                }
                            }
                            if ids@.subrange(0, k as int).contains(x) {
                                let p = choose|p: int| 0 <= p < k && #[trigger] ids@.subrange(0, k as int)[p] == x;
                                assert(ids@.subrange(0, k + 1)[p] == x);
                            }
                            if x == ids@[k as int] {
                                assert(ids@.subrange(0, k + 1)[k as int] == x);
                            }
                        }
                    }
                }
                k = k + 1;
            }
            assert(ids@.subrange(0, ids@.len() as int) =~= ids@);
            assert(self.tasks@ =~= unfinished_only(m0)) by {
                assert forall|x: u32| #[trigger] self.tasks@.contains_key(x) <==> unfinished_only(m0).contains_key(x) by {
                    if m0.contains_key(x) && m0[x].status.spec_is_finished() {
                        let p = row_index(r0, x);
                        lemma_rows_map_at(r0, p);
                        assert(ids@.contains(x));
                    }
                    if ids@.contains(x) {
                        let p = choose|p: int| 0 <= p < ids@.len() && #[trigger] ids@[p] == x;
                        assert(m0[ids@[p]].status.spec_is_finished());
                    }
                }
            }
            Ok(())
        } else {
            match self.tasks.get(task_id) {
                None => Err(no_task_error(task_id)),
                Some(t) => {
                    if t.status == TaskStatus::Running {
                        let mut m = text("Task ");
                        push_decimal(&mut m, task_id as u64);
                        m.append(" is running!");
                        Err(ServerError::InvalidParams(m))
                    } else {
                        self.tasks.remove(task_id);
                        Ok(())
                    }
                },
            }
        }
    }

    /// The process to signal to kill a task: the task must exist and have a
    /// process id that fits an `i32`.
    pub fn kill_target(&self, task_id: u32) -> (r: Result<i32, ServerError>)
        requires
            self.wf(),
        ensures
            !self.tasks@.contains_key(task_id) ==> (r matches Err(ServerError::InvalidParams(m))
                && m@ == no_task_message(task_id)),
            self.tasks@.contains_key(task_id) ==> match self.tasks@[task_id].pid {
                None => r matches Err(ServerError::InternalError(m)) && m@ == "The task may not has run"@,
                Some(p) => if p <= i32::MAX {
                    r == Ok::<i32, ServerError>(p as i32)
                } else {
                    r matches Err(ServerError::InternalError(m)) && m@ == "The task PID is too big!"@
                },
            },
    {
        match self.tasks.get(task_id) {
            None => Err(no_task_error(task_id)),
            Some(t) => match t.pid {
                None => Err(ServerError::InternalError(text("The task may not has run"))),
                Some(p) => {
                    if p <= i32::MAX as u32 {
                        Ok(p as i32)
                    } else {
                        Err(ServerError::InternalError(text("The task PID is too big!")))
                    }
                },
            },
        }
    }

    /// Sends `SIGTERM` to the process of a task. The refusals are those of
    /// [`ServerState::kill_target`]; a failed delivery is an internal error
    /// whose text is nix's description of the error.
    pub fn kill_task(&self, task_id: u32) -> (r: Result<(), ServerError>)
        requires
            self.wf(),
        ensures
            !self.tasks@.contains_key(task_id) ==> (r matches Err(ServerError::InvalidParams(m))
                && m@ == no_task_message(task_id)),
            self.tasks@.contains_key(task_id) ==> match self.tasks@[task_id].pid {
                None => r matches Err(ServerError::InternalError(m)) && m@ == "The task may not has run"@,
                Some(p) => if p <= i32::MAX {
                    r is Ok || exists|code: i32| r matches Err(ServerError::InternalError(m)) && m@
                        == #[trigger] errno_display(code)
                } else {
                    r matches Err(ServerError::InternalError(m)) && m@ == "The task PID is too big!"@
                },
            },
    {
        let pid = match self.kill_target(task_id) {
            Ok(p) => p,
            Err(e) => return Err(e),
        };
        match send_sigterm(pid) {
            Ok(()) => Ok(()),
            Err(code) => Err(ServerError::InternalError(errno_text(code))),
        }
    }

    /// A snapshot of the slots, the tasks in order of id, the GPU pool and
    /// the reservations.
    pub fn list_tasks(&self) -> (r: ListTaskResponse)
        ensures
            r.num_slots == self.num_slots,
            r.used_slots == self.used_slots,
            rows_of(r.tasks@) == self.tasks.rows(),
            r.gpu_ids@ == self.gpu_ids@,
            allocs_view(r.gpu_allocations@) == allocs_view(self.gpu_allocations@),
    {
        ListTaskResponse {
            num_slots: self.num_slots,
            used_slots: self.used_slots,
            tasks: self.tasks.duplicate().into_rows(),
            gpu_ids: copy_vec(&self.gpu_ids),
            gpu_allocations: copy_allocations(&self.gpu_allocations),
        }
    }
}

} // verus!
