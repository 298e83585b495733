//! The scheduling worker's decisions: which pending tasks start, what a
//! finished process changes, and when to look again for GPU tasks.

use vstd::prelude::*;
use crate::task::{
    ChannelMessage, GpuInfo, Task, TaskAction, TaskStatus, TaskView, Timestamp, contains_id, env_set,
    set_env,
};
use crate::table::{ids_increasing, has_id, row_index, lemma_rows_map_at, lemma_row_index_unique};
use crate::text::{decimals, join, join_decimals, text};
use crate::gpu::{
    allocs_view, free_of, gpu_choice, lemma_free_of_no_answers, per_gpu_reserve, query_gpu_free_memory,
    reserve_for_index, select_gpus,
};
use crate::state::ServerState;
use crate::clock;

verus! {

/// Every dependency was last reported completed.
pub open spec fn deps_done(deps: Seq<(u32, TaskStatus)>) -> bool {
    forall|i: int| 0 <= i < deps.len() ==> (#[trigger] deps[i]).1 == TaskStatus::Completed
}

/// Every dependency was last reported to have ended, however it ended.
pub open spec fn deps_ended(deps: Seq<(u32, TaskStatus)>) -> bool {
    forall|i: int| 0 <= i < deps.len() ==> (#[trigger] deps[i]).1.spec_is_finished()
}

/// The task waits to run and what it waits for allows it: every dependency
/// completed, or, for a task that starts whatever happens, every dependency
/// ended.
pub open spec fn startable(t: TaskView) -> bool {
    &&& t.status == TaskStatus::Pending
    &&& if t.not_safely_depends {
        deps_ended(t.dependencies)
    } else {
        deps_done(t.dependencies)
    }
}

/// The task asks for no GPU and names no memory figure; starting it would
/// look up the threshold share of a first GPU that it does not get.
pub open spec fn zero_gpu_default(t: TaskView) -> bool {
    t.gpu_requirement matches Some(r) && r.count == 0 && r.min_free_mem_bytes is None
}

/// The environment of a task given these GPUs.
pub open spec fn gpu_env(envs: Seq<(Seq<char>, Seq<char>)>, gpus: Seq<u32>) -> Seq<(Seq<char>, Seq<char>)> {
    env_set(envs, "CUDA_VISIBLE_DEVICES"@, join(decimals(gpus), ","@))
}

/// `new` is `old` started: it was startable, it is now running with the
/// start time read from the clock, and only a GPU task's environment
/// changed, to name its GPUs.
pub open spec fn started_view(old: TaskView, new: TaskView) -> bool {
    &&& startable(old)
    &&& new.start_time is Some
    &&& new == TaskView { status: TaskStatus::Running, start_time: new.start_time, envs: new.envs, ..old }
    &&& match old.gpu_requirement {
        None => new.envs == old.envs,
        Some(req) => exists|gpus: Seq<u32>| gpus.len() == req.count && #[trigger] gpu_env(old.envs, gpus) == new.envs,
    }
}

/// The reservations with every entry of task `id` holding `list`.
pub open spec fn alloc_replace(
    a: Seq<(u32, Seq<(u32, u64)>)>,
    id: u32,
    list: Seq<(u32, u64)>,
) -> Seq<(u32, Seq<(u32, u64)>)> {
    a.map_values(|e: (u32, Seq<(u32, u64)>)| if e.0 == id { (id, list) } else { e })
}

/// The reservations after task `id` takes `list`, in place of what it held.
pub open spec fn alloc_insert(
    a: Seq<(u32, Seq<(u32, u64)>)>,
    id: u32,
    list: Seq<(u32, u64)>,
) -> Seq<(u32, Seq<(u32, u64)>)> {
    if exists|i: int| 0 <= i < a.len() && (#[trigger] a[i]).0 == id {
        alloc_replace(a, id, list)
    } else {
        a.push((id, list))
    }
}

/// The reservations after task `id` gives back what it held.
pub open spec fn alloc_remove(a: Seq<(u32, Seq<(u32, u64)>)>, id: u32) -> Seq<(u32, Seq<(u32, u64)>)>
    decreases a.len(),
{
    if a.len() == 0 {
        Seq::empty()
    } else {
        let prev = alloc_remove(a.drop_last(), id);
        if a.last().0 != id {
            prev.push(a.last())
        } else {
            prev
        }
    }
}

/// The GPUs and bytes task `k` holds: its last entry, if any.
pub open spec fn alloc_lookup(a: Seq<(u32, Seq<(u32, u64)>)>, k: u32) -> Option<Seq<(u32, u64)>>
    decreases a.len(),
{
    if a.len() == 0 {
        None
    } else if a.last().0 == k {
        Some(a.last().1)
    } else {
        alloc_lookup(a.drop_last(), k)
    }
}

proof fn lemma_lookup_replaced(a: Seq<(u32, Seq<(u32, u64)>)>, id: u32, list: Seq<(u32, u64)>, k: u32)
    ensures
        alloc_lookup(alloc_replace(a, id, list), k) == if k
            == id {
            if alloc_lookup(a, id) is Some {
                Some(list)
            } else {
                None
            }
        } else {
            alloc_lookup(a, k)
        },
    decreases a.len(),
{
    let m = alloc_replace(a, id, list);
    if a.len() > 0 {
        let p = a.drop_last();
        assert(m.drop_last() =~= alloc_replace(p, id, list));
        lemma_lookup_replaced(p, id, list, k);
        assert(m.last() == (if a.last().0 == id { (id, list) } else { a.last() }));
    }
}

/// After task `id` takes a list, it holds that list; no other task's holding
/// changes.
pub proof fn lemma_alloc_insert_lookup(a: Seq<(u32, Seq<(u32, u64)>)>, id: u32, list: Seq<(u32, u64)>, k: u32)
    ensures
        alloc_lookup(alloc_insert(a, id, list), k) == if k == id { Some(list) } else { alloc_lookup(a, k) },
{
    if exists|i: int| 0 <= i < a.len() && (#[trigger] a[i]).0 == id {
        lemma_lookup_replaced(a, id, list, k);
        if k == id {
            lemma_lookup_present(a, id);
        }
    } else {
        assert(a.push((id, list)).drop_last() =~= a);
    }
}

proof fn lemma_lookup_present(a: Seq<(u32, Seq<(u32, u64)>)>, k: u32)
    requires
        exists|i: int| 0 <= i < a.len() && (#[trigger] a[i]).0 == k,
    ensures
        alloc_lookup(a, k) is Some,
    decreases a.len(),
{
    if a.last().0 != k {
        let i = choose|i: int| 0 <= i < a.len() && (#[trigger] a[i]).0 == k;
        assert(a.drop_last()[i] == a[i]);
        lemma_lookup_present(a.drop_last(), k);
    }
}

/// After task `id` gives back what it held, it holds nothing; no other
/// task's holding changes.
pub proof fn lemma_alloc_remove_lookup(a: Seq<(u32, Seq<(u32, u64)>)>, id: u32, k: u32)
    ensures
        alloc_lookup(alloc_remove(a, id), k) == if k == id { None } else { alloc_lookup(a, k) },
    decreases a.len(),
{
    if a.len() > 0 {
        let p = a.drop_last();
        lemma_alloc_remove_lookup(p, id, k);
        let prev = alloc_remove(p, id);
        if a.last().0 != id {
            assert(prev.push(a.last()).drop_last() =~= prev);
        }
    }
}

/// How many of the ids are below `x`.
pub open spec fn count_below(ids: Seq<u32>, x: u32) -> nat
    decreases ids.len(),
{
    if ids.len() == 0 {
        0
    } else {
        count_below(ids.drop_last(), x) + if ids.last() < x { 1nat } else { 0nat }
    }
}

/// One pass of the scheduler over the rows `r` gave the rows `r2` and started
/// the tasks `launched`, with `used` slots taken of `num` before the pass.
pub open spec fn schedule_step(
    r: Seq<(u32, TaskView)>,
    r2: Seq<(u32, TaskView)>,
    launched: Seq<u32>,
    used: int,
    num: int,
) -> bool {
    &&& r2.len() == r.len()
    &&& forall|j: int| 0 <= j < r.len() ==> (#[trigger] r2[j]).0 == r[j].0
    &&& forall|j: int| 0 <= j < r.len() && !launched.contains(r[j].0) ==> #[trigger] r2[j] == r[j]
    &&& forall|j: int| 0 <= j < r.len() && launched.contains(r[j].0) ==> started_view(r[j].1, #[trigger] r2[j].1)
    &&& forall|a: int, b: int| 0 <= a < b < launched.len() ==> #[trigger] launched[a] < #[trigger] launched[b]
    &&& forall|a: int| 0 <= a < launched.len() ==> has_id(r, #[trigger] launched[a])
    &&& launched.len() > 0 ==> used + launched.len() <= num
    &&& forall|j: int|
        0 <= j < r.len() && startable(#[trigger] r[j].1) && r[j].1.gpu_requirement is None
            && !launched.contains(r[j].0) ==> used + count_below(launched, r[j].0) >= num
}

/// The rows `r2` carry the ids of the rows `r`, in the same places.
pub open spec fn keeps_ids(r: Seq<(u32, TaskView)>, r2: Seq<(u32, TaskView)>) -> bool {
    &&& r2.len() == r.len()
    &&& forall|j: int| 0 <= j < r.len() ==> (#[trigger] r2[j]).0 == r[j].0
}

/// Adding an element below `x` counts once; one at or above does not count.
pub proof fn lemma_count_below_push(ids: Seq<u32>, v: u32, x: u32)
    ensures
        count_below(ids.push(v), x) == count_below(ids, x) + if v < x { 1nat } else { 0nat },
{
    assert(ids.push(v).drop_last() =~= ids);
}

/// When every id is below `x`, all of them count.
pub proof fn lemma_count_below_all(ids: Seq<u32>, x: u32)
    requires
        forall|a: int| 0 <= a < ids.len() ==> #[trigger] ids[a] < x,
    ensures
        count_below(ids, x) == ids.len(),
    decreases ids.len(),
{
    if ids.len() > 0 {
        lemma_count_below_all(ids.drop_last(), x);
    }
}

/// A pushed element is contained, and nothing else changes.
pub proof fn lemma_push_contains(s: Seq<u32>, v: u32, y: u32)
    ensures
        s.push(v).contains(y) <==> (s.contains(y) || v == y),
{
    if s.contains(y) {
        let q = choose|q: int| 0 <= q < s.len() && s[q] == y;
        assert(s.push(v)[q] == y);
    }
    if v == y {
        assert(s.push(v)[s.len() as int] == y);
    }
    if s.push(v).contains(y) {
        let q = choose|q: int| 0 <= q < s.len() + 1 && s.push(v)[q] == y;
        if q < s.len() {
            assert(s[q] == y);
        }
    }
}

/// The task waits for task `id`.
pub open spec fn has_dep(deps: Seq<(u32, TaskStatus)>, id: u32) -> bool {
    exists|i: int| 0 <= i < deps.len() && (#[trigger] deps[i]).0 == id
}

/// The dependencies after task `id` is reported to stand at `st`.
pub open spec fn dep_set(deps: Seq<(u32, TaskStatus)>, id: u32, st: TaskStatus) -> Seq<(u32, TaskStatus)> {
    deps.map_values(|e: (u32, TaskStatus)| if e.0 == id { (id, st) } else { e })
}

/// An ending of a dependency that makes a safe dependent skip its turn.
pub open spec fn skips_dependents(st: TaskStatus) -> bool {
    st is Failed || st is Killed || st is Skipped
}

/// The task after it hears that task `id` stands at `st`: if it waits for
/// `id`, it records the status, and, unless it starts whatever happens, a
/// failure, kill or skip makes it skipped.
pub open spec fn notified(t: TaskView, id: u32, st: TaskStatus) -> TaskView {
    if has_dep(t.dependencies, id) {
        TaskView {
            dependencies: dep_set(t.dependencies, id, st),
            status: if !t.not_safely_depends && skips_dependents(st) {
                TaskStatus::Skipped
            } else {
                t.status
            },
            ..t
        }
    } else {
        t
    }
}

/// The rows after each listed task hears that task `id` stands at `st`.
pub open spec fn notify_required(
    rows: Seq<(u32, TaskView)>,
    id: u32,
    st: TaskStatus,
    required: Seq<u32>,
) -> Seq<(u32, TaskView)> {
    rows.map_values(
        |r: (u32, TaskView)| if required.contains(r.0) { (r.0, notified(r.1, id, st)) } else { r },
    )
}

/// The status a task ends in after its process did `action`.
pub open spec fn status_after(action: TaskAction) -> TaskStatus {
    match action {
        TaskAction::Complete => TaskStatus::Completed,
        TaskAction::Fail(_) => TaskStatus::Failed,
        TaskAction::Kill => TaskStatus::Killed,
        TaskAction::Run => TaskStatus::Running,
    }
}

/// The exit code recorded after its process did `action`.
pub open spec fn exit_code_after(action: TaskAction) -> i32 {
    match action {
        TaskAction::Complete => 0,
        TaskAction::Fail(c) => c,
        TaskAction::Kill => 1,
        TaskAction::Run => 0,
    }
}

/// The task after its process did `action`, ended at `end`, the clock's
/// reading.
pub open spec fn finished_view(t: TaskView, action: TaskAction, end: Timestamp) -> TaskView {
    TaskView {
        status: status_after(action),
        exit_code: Some(exit_code_after(action)),
        end_time: Some(end),
        ..t
    }
}

/// The rows after the task of row `pos` ended by `action` at `end` and the
/// tasks waiting for it heard of it.
pub open spec fn after_finish(
    rows: Seq<(u32, TaskView)>,
    pos: int,
    action: TaskAction,
    end: Timestamp,
) -> Seq<(u32, TaskView)> {
    let ft = finished_view(rows[pos].1, action, end);
    notify_required(rows.update(pos, (rows[pos].0, ft)), rows[pos].0, ft.status, ft.required)
}

/// Records `st` for every dependency on task `id`; tells whether there was one.
pub fn set_dep_status(deps: &mut Vec<(u32, TaskStatus)>, id: u32, st: TaskStatus) -> (found: bool)
    ensures
        found == has_dep(old(deps)@, id),
        final(deps)@ == dep_set(old(deps)@, id, st),
{
    let mut found = false;
    let mut i: usize = 0;
    while i < deps.len()
        invariant
            i <= deps.len(),
            deps@.len() == old(deps)@.len(),
            found <==> exists|j: int| 0 <= j < i && (#[trigger] old(deps)@[j]).0 == id,
            forall|j: int| 0 <= j < i ==> #[trigger] deps@[j] == (if old(deps)@[j].0 == id {
                (id, st)
            } else {
                old(deps)@[j]
            }),
            forall|j: int| i <= j < deps@.len() ==> #[trigger] deps@[j] == old(deps)@[j],
        decreases deps.len() - i,
    {
        if deps[i].0 == id {
            deps.set(i, (id, st));
            found = true;
        }
        i = i + 1;
    }
    assert(deps@ =~= dep_set(old(deps)@, id, st));
    found
}

/// Whether every dependency was last reported completed.
pub fn deps_all_completed(deps: &Vec<(u32, TaskStatus)>) -> (b: bool)
    ensures
        b == deps_done(deps@),
{
    let mut i: usize = 0;
    while i < deps.len()
        invariant
            i <= deps.len(),
            forall|j: int| 0 <= j < i ==> (#[trigger] deps@[j]).1 == TaskStatus::Completed,
        decreases deps.len() - i,
    {
        if deps[i].1 != TaskStatus::Completed {
            return false;
        }
        i = i + 1;
    }
    true
}

/// Whether every dependency was last reported to have ended.
pub fn deps_all_ended(deps: &Vec<(u32, TaskStatus)>) -> (b: bool)
    ensures
        b == deps_ended(deps@),
{
    let mut i: usize = 0;
    while i < deps.len()
        invariant
            i <= deps.len(),
            forall|j: int| 0 <= j < i ==> (#[trigger] deps@[j]).1.spec_is_finished(),
        decreases deps.len() - i,
    {
        if !deps[i].1.is_finished() {
            return false;
        }
        i = i + 1;
    }
    true
}

/// Task `id` takes `list` in place of what it held.
pub fn alloc_put(a: &mut Vec<(u32, Vec<(u32, u64)>)>, id: u32, list: Vec<(u32, u64)>)
    ensures
        allocs_view(final(a)@) == alloc_insert(allocs_view(old(a)@), id, list@),
{
    let ghost s0 = allocs_view(a@);
    let mut found = false;
    let mut i: usize = 0;
    while i < a.len()
        invariant
            i <= a.len(),
            a@.len() == old(a)@.len(),
            s0 == allocs_view(old(a)@),
            found <==> exists|j: int| 0 <= j < i && (#[trigger] s0[j]).0 == id,
            forall|j: int|
                0 <= j < i ==> ((#[trigger] a@[j]).0, a@[j].1@) == (if s0[j].0 == id {
                    (id, list@)
                } else {
                    s0[j]
                }),
            forall|j: int| i <= j < a@.len() ==> #[trigger] a@[j] == old(a)@[j],
        decreases a.len() - i,
    {
        assert(s0[i as int] == (a@[i as int].0, a@[i as int].1@));
        let ghost before = a@;
        if a[i].0 == id {
            a.set(i, (id, crate::task::copy_vec(&list)));
            found = true;
        }
        assert(forall|j: int| 0 <= j < i ==> #[trigger] a@[j] == before[j]);
        i = i + 1;
    }
    if found {
        assert(allocs_view(a@) =~= alloc_replace(s0, id, list@));
    } else {
        assert(allocs_view(a@) =~= s0);
        let ghost lv = list@;
        a.push((id, list));
        assert(allocs_view(a@) =~= s0.push((id, lv)));
    }
}

/// Task `id` gives back what it held.
pub fn alloc_take(a: &mut Vec<(u32, Vec<(u32, u64)>)>, id: u32)
    ensures
        allocs_view(final(a)@) == alloc_remove(allocs_view(old(a)@), id),
{
    let ghost s0 = allocs_view(a@);
    let mut kept: Vec<(u32, Vec<(u32, u64)>)> = Vec::new();
    let mut i: usize = 0;
    while i < a.len()
        invariant
            i <= a.len(),
            s0 == allocs_view(a@),
            allocs_view(kept@) == alloc_remove(s0.subrange(0, i as int), id),
        decreases a.len() - i,
    {
        let ghost sub = s0.subrange(0, i + 1);
        assert(sub.drop_last() =~= s0.subrange(0, i as int));
        assert(sub.last() == s0[i as int]);
        assert(s0[i as int] == (a@[i as int].0, a@[i as int].1@));
        if a[i].0 != id {
            let e = (a[i].0, crate::task::copy_vec(&a[i].1));
            let ghost before = kept@;
            let ghost ev = (e.0, e.1@);
            kept.push(e);
            assert(allocs_view(kept@) =~= allocs_view(before).push(ev));
        }
        i = i + 1;
    }
    assert(s0.subrange(0, s0.len() as int) =~= s0);
    *a = kept;
}

/// The reservation list of a task given `gpus`, each holding `bytes`.
pub open spec fn reservation_list(gpus: Seq<u32>, bytes: u64) -> Seq<(u32, u64)> {
    gpus.map_values(|g: u32| (g, bytes))
}

/// The GPUs of a reservation list.
pub open spec fn held_gpus(list: Seq<(u32, u64)>) -> Seq<u32> {
    list.map_values(|e: (u32, u64)| e.0)
}

/// A started GPU task holds as many GPUs of the pool as it asked for, and
/// its environment names exactly those GPUs.
pub open spec fn gpu_grant(old: TaskView, new: TaskView, held: Option<Seq<(u32, u64)>>, pool: Seq<u32>) -> bool {
    match old.gpu_requirement {
        None => true,
        Some(req) => held is Some && exists|gpus: Seq<u32>|
            {
                &&& gpus.len() == req.count
                &&& (forall|a: int| 0 <= a < gpus.len() ==> pool.contains(#[trigger] gpus[a]))
                &&& #[trigger] gpu_env(old.envs, gpus) == new.envs
                &&& held_gpus(held->0) == gpus
            },
    }
}

proof fn lemma_held_gpus_of_reservation(gpus: Seq<u32>, bytes: u64)
    ensures
        held_gpus(reservation_list(gpus, bytes)) == gpus,
{
    assert(held_gpus(reservation_list(gpus, bytes)) =~= gpus);
}

/// Pairs each GPU with the bytes held on it.
fn reservation_for(gpus: &Vec<u32>, bytes: u64) -> (v: Vec<(u32, u64)>)
    ensures
        v@ == reservation_list(gpus@, bytes),
{
    let mut v: Vec<(u32, u64)> = Vec::new();
    let mut i: usize = 0;
    while i < gpus.len()
        invariant
            i <= gpus.len(),
            v@ == reservation_list(gpus@.subrange(0, i as int), bytes),
        decreases gpus.len() - i,
    {
        v.push((gpus[i], bytes));
        i = i + 1;
        assert(v@ =~= reservation_list(gpus@.subrange(0, i as int), bytes));
    }
    assert(gpus@.subrange(0, gpus@.len() as int) =~= gpus@);
    v
}

/// What the worker is told of a task's process once waiting on it ended:
/// `None` when the wait itself failed, else whether the process succeeded and
/// its exit code, which it lacks when a signal ended it.
pub open spec fn exit_action(waited: Option<(bool, Option<i32>)>) -> TaskAction {
    match waited {
        None => TaskAction::Fail(1),
        Some((true, _)) => TaskAction::Complete,
        Some((false, Some(code))) => TaskAction::Fail(code),
        Some((false, None)) => TaskAction::Kill,
    }
}

/// The report on a task whose process ended as `waited` says: completed on
/// success, failed with the exit code, killed when a signal ended it, and
/// failed with code 1 when waiting on it failed.
pub fn action_of_exit(waited: Option<(bool, Option<i32>)>) -> (a: TaskAction)
    ensures
        a == exit_action(waited),
{
    match waited {
        None => TaskAction::Fail(1),
        Some((success, code)) => {
            if success {
                TaskAction::Complete
            } else {
                match code {
                    Some(c) => TaskAction::Fail(c),
                    None => TaskAction::Kill,
                }
            }
        },
    }
}

/// The task started at `now`, given `gpus` when it is a GPU task.
pub open spec fn started_task(t: TaskView, now: Timestamp, gpus: Option<Seq<u32>>) -> TaskView {
    TaskView {
        status: TaskStatus::Running,
        start_time: Some(now),
        envs: match gpus {
            Some(g) => gpu_env(t.envs, g),
            None => t.envs,
        },
        ..t
    }
}

/// Whether the task of row `i` starts, given the free memory NVML reported:
/// a slot is free, it is startable, and a GPU task finds NVML there and
/// enough GPUs that can take it.
pub open spec fn start_decision(s: ServerState, i: int, free: Seq<(u32, u64)>) -> bool {
    let t = s.tasks.rows()[i].1;
    &&& s.used_slots < s.num_slots
    &&& startable(t)
    &&& match t.gpu_requirement {
        None => true,
        Some(req) => s.nvml is Some && gpu_choice(
            s.gpu_infos@,
            s.gpu_reserves@,
            s.gpu_ids@,
            allocs_view(s.gpu_allocations@),
            free,
            req,
        ) is Some,
    }
}

/// The state `new` is `old` after the decision on row `i`, given the free
/// memory NVML reported and the clock's reading: when the task starts it
/// runs from `now`, takes a slot, and a GPU task holds the GPUs chosen for it
/// and names them in its environment; otherwise nothing changes.
pub open spec fn start_step(
    old: ServerState,
    new: ServerState,
    i: int,
    free: Seq<(u32, u64)>,
    now: Timestamp,
    started: bool,
) -> bool {
    let r = old.tasks.rows();
    let t = r[i].1;
    let a = allocs_view(old.gpu_allocations@);
    &&& started == start_decision(old, i, free)
    &&& if started {
        &&& new.used_slots == old.used_slots + 1
        &&& match t.gpu_requirement {
            None => {
                &&& new.tasks.rows() == r.update(i, (r[i].0, started_task(t, now, None)))
                &&& allocs_view(new.gpu_allocations@) == a
            },
            Some(req) => match gpu_choice(old.gpu_infos@, old.gpu_reserves@, old.gpu_ids@, a, free, req) {
                Some(gpus) => {
                    &&& new.tasks.rows() == r.update(i, (r[i].0, started_task(t, now, Some(gpus))))
                    &&& allocs_view(new.gpu_allocations@) == alloc_insert(
                        a,
                        r[i].0,
                        reservation_list(gpus, per_gpu_reserve(old.gpu_infos@, old.gpu_reserves@, req, gpus[0])),
                    )
                },
                None => false,
            },
        }
    } else {
        &&& new.tasks.rows() == r
        &&& new.used_slots == old.used_slots
        &&& allocs_view(new.gpu_allocations@) == a
    }
}

/// One pass of the scheduler: the ids of the tasks it started, in order, and,
/// when it stopped early, the id of the task it could not decide on.
pub struct SchedulePass {
    pub launched: Vec<u32>,
    pub stuck: Option<u32>,
}

/// Row `p` of `r` would start, with `used` of `num` slots taken, but its task
/// asks for no GPU and names no memory figure while NVML is there: its share
/// would be that of a first GPU it is not given.
pub open spec fn stuck_row(r: Seq<(u32, TaskView)>, p: int, used: int, num: int, nvml: bool) -> bool {
    &&& used < num
    &&& startable(r[p].1)
    &&& nvml
    &&& zero_gpu_default(r[p].1)
}

/// One pass of the scheduler over the rows `r`, with `used` of `num` slots
/// taken before it, gave the rows `r2`, started the tasks `launched`, and,
/// when `stuck` names a task, stopped at that task's row: the rows before it
/// went through the pass, and it and the rows after it are untouched.
pub open spec fn pass_step(
    r: Seq<(u32, TaskView)>,
    r2: Seq<(u32, TaskView)>,
    launched: Seq<u32>,
    stuck: Option<u32>,
    used: int,
    num: int,
    nvml: bool,
) -> bool {
    match stuck {
        None => schedule_step(r, r2, launched, used, num),
        Some(id) => exists|p: int|
            0 <= p < r.len() && (#[trigger] r[p]).0 == id && stuck_row(r, p, used + launched.len(), num, nvml)
                && r2.len() == r.len() && schedule_step(r.take(p), r2.take(p), launched, used, num) && r2.skip(p) == r.skip(p),
    }
}

/// The row a pass stopped at, or the number of rows when it went through them
/// all.
pub open spec fn pass_end(r: Seq<(u32, TaskView)>, stuck: Option<u32>) -> int {
    match stuck {
        None => r.len() as int,
        Some(id) => row_index(r, id),
    }
}

/// How a pass dealt with the GPUs of row `j` of the rows `r`: it met the
/// reservations `trace[j]` and left `trace[j + 1]`, with `used` slots taken
/// before the pass and the tasks `launched` started by it. A GPU task it
/// started holds the GPUs chosen for it over the free memory NVML reported,
/// one answer per GPU of the pool; a GPU task it left pending, though it was
/// startable, a slot was free at its turn and NVML was there, found no GPUs
/// that could take it over the free memory NVML reported. No other row
/// changes the reservations.
pub open spec fn gpu_row_at(
    infos: Seq<GpuInfo>,
    reserves: Seq<u64>,
    pool: Seq<u32>,
    nvml: bool,
    num: int,
    r: Seq<(u32, TaskView)>,
    launched: Seq<u32>,
    used: int,
    trace: Seq<Seq<(u32, Seq<(u32, u64)>)>>,
    j: int,
) -> bool {
    let row = r[j];
    let a = trace[j];
    let a2 = trace[j + 1];
    match row.1.gpu_requirement {
        None => a2 == a,
        Some(req) => if launched.contains(row.0) {
            exists|answers: Seq<Option<u64>>|
                answers.len() == pool.len() && match #[trigger] gpu_choice(
                    infos,
                    reserves,
                    pool,
                    a,
                    free_of(pool, answers),
                    req,
                ) {
                    Some(gpus) => a2 == alloc_insert(
                        a,
                        row.0,
                        reservation_list(gpus, per_gpu_reserve(infos, reserves, req, gpus[0])),
                    ),
                    None => false,
                }
        } else {
            &&& a2 == a
            &&& (startable(row.1) && used + count_below(launched, row.0) < num && nvml) ==> exists|
                answers: Seq<Option<u64>>,
            |
                answers.len() == pool.len() && #[trigger] gpu_choice(infos, reserves, pool, a, free_of(pool, answers), req)
                    is None
        },
    }
}

/// The reservations through a pass over the rows `r` up to row `upto`: they
/// went from `a0` to `a_end`, row by row as [`gpu_row_at`] says.
pub open spec fn gpu_pass(
    infos: Seq<GpuInfo>,
    reserves: Seq<u64>,
    pool: Seq<u32>,
    nvml: bool,
    num: int,
    r: Seq<(u32, TaskView)>,
    launched: Seq<u32>,
    used: int,
    upto: int,
    a0: Seq<(u32, Seq<(u32, u64)>)>,
    a_end: Seq<(u32, Seq<(u32, u64)>)>,
) -> bool {
    exists|trace: Seq<Seq<(u32, Seq<(u32, u64)>)>>|
        trace.len() == upto + 1 && trace[0] == a0 && #[trigger] trace[upto] == a_end && forall|j: int|
            0 <= j < upto ==> #[trigger] gpu_row_at(infos, reserves, pool, nvml, num, r, launched, used, trace, j)
}

/// Every task a pass started was startable before it.
pub proof fn lemma_pass_launched_startable(
    r: Seq<(u32, TaskView)>,
    r2: Seq<(u32, TaskView)>,
    launched: Seq<u32>,
    stuck: Option<u32>,
    used: int,
    num: int,
    nvml: bool,
    y: u32,
)
    requires
        pass_step(r, r2, launched, stuck, used, num, nvml),
        launched.contains(y),
    ensures
        exists|j: int| 0 <= j < r.len() && (#[trigger] r[j]).0 == y && startable(r[j].1),
{
    let a = choose|a: int| 0 <= a < launched.len() && launched[a] == y;
    match stuck {
        None => {
            assert(has_id(r, launched[a]));
            let j = choose|j: int| 0 <= j < r.len() && (#[trigger] r[j]).0 == y;
            assert(started_view(r[j].1, r2[j].1));
        },
        Some(id) => {
            let p = choose|p: int|
                0 <= p < r.len() && (#[trigger] r[p]).0 == id && stuck_row(r, p, used + launched.len(), num, nvml)
                    && r2.len() == r.len() && schedule_step(r.take(p), r2.take(p), launched, used, num) && r2.skip(p) == r.skip(p);
            let rp = r.take(p);
            assert(has_id(rp, launched[a]));
            let j = choose|j: int| 0 <= j < rp.len() && (#[trigger] rp[j]).0 == y;
            assert(started_view(rp[j].1, r2.take(p)[j].1));
            assert(rp[j] == r[j]);
        },
    }
}

/// Whether the task asks for no GPU and names no memory figure.
pub fn zero_gpu_default_task(t: &Task) -> (b: bool)
    ensures
        b == zero_gpu_default(t@),
{
    match t.gpu_requirement {
        Some(r) => r.count == 0 && r.min_free_mem_bytes.is_none(),
        None => false,
    }
}

/// Whether the task may start as far as its own status and dependencies go.
pub fn is_startable(t: &Task) -> (b: bool)
    ensures
        b == startable(t@),
{
    if t.status != TaskStatus::Pending {
        return false;
    }
    if t.not_safely_depends {
        deps_all_ended(&t.dependencies)
    } else {
        deps_all_completed(&t.dependencies)
    }
}

impl ServerState {
    /// Nothing but the tasks, the used slots and the reservations differs.
    pub open spec fn same_setup(&self, other: &ServerState) -> bool {
        &&& self.num_slots == other.num_slots
        &&& self.task_id_counter == other.task_id_counter
        &&& self.nvml == other.nvml
        &&& self.gpu_infos@ == other.gpu_infos@
        &&& self.gpu_reserves@ == other.gpu_reserves@
        &&& self.gpu_ids@ == other.gpu_ids@
    }

    /// Decides on the task of row `i` given the free memory NVML reported and
    /// the clock's reading, as [`start_step`] says: it starts if a slot is
    /// free, it is pending, what it waits for allows it, and, for a GPU task,
    /// enough GPUs can take it.
    pub fn try_create_task_with(&mut self, i: usize, free: &Vec<(u32, u64)>, now: Timestamp) -> (started: bool)
        requires
            old(self).wf(),
            i < old(self).tasks.rows().len(),
            !(old(self).used_slots < old(self).num_slots && startable(old(self).tasks.rows()[i as int].1)
                && old(self).nvml is Some && zero_gpu_default(old(self).tasks.rows()[i as int].1)),
        ensures
            final(self).wf(),
            final(self).same_setup(old(self)),
            keeps_ids(old(self).tasks.rows(), final(self).tasks.rows()),
            start_step(*old(self), *final(self), i as int, free@, now, started),
            !started ==> {
                &&& final(self).tasks.rows() == old(self).tasks.rows()
                &&& final(self).used_slots == old(self).used_slots
                &&& allocs_view(final(self).gpu_allocations@) == allocs_view(old(self).gpu_allocations@)
            },
            started ==> {
                let r = old(self).tasks.rows();
                let t = r[i as int].1;
                let t2 = final(self).tasks.rows()[i as int].1;
                &&& old(self).used_slots < old(self).num_slots
                &&& final(self).used_slots == old(self).used_slots + 1
                &&& final(self).tasks.rows() == r.update(i as int, (r[i as int].0, t2))
                &&& started_view(t, t2)
                &&& t.gpu_requirement is None ==> allocs_view(final(self).gpu_allocations@) == allocs_view(
                    old(self).gpu_allocations@,
                )
                &&& t.gpu_requirement matches Some(req) ==> {
                    &&& old(self).nvml is Some
                    &&& exists|free: Seq<(u32, u64)>, gpus: Seq<u32>|
                        #[trigger] gpu_choice(
                            old(self).gpu_infos@,
                            old(self).gpu_reserves@,
                            old(self).gpu_ids@,
                            allocs_view(old(self).gpu_allocations@),
                            free,
                            req,
                        ) == Some(gpus) && t2.envs == #[trigger] gpu_env(t.envs, gpus) && allocs_view(
                            final(self).gpu_allocations@,
                        ) == alloc_insert(
                            allocs_view(old(self).gpu_allocations@),
                            r[i as int].0,
                            reservation_list(
                                gpus,
                                per_gpu_reserve(old(self).gpu_infos@, old(self).gpu_reserves@, req, gpus[0]),
                            ),
                        )
                }
            },
            (old(self).used_slots < old(self).num_slots && startable(old(self).tasks.rows()[i as int].1)
                && old(self).tasks.rows()[i as int].1.gpu_requirement is None) ==> started,
    {
        if self.used_slots >= self.num_slots {
            return false;
        }
        let id = self.tasks.id_at(i);
        let ready = is_startable(self.tasks.task_at(i));
        let gpu_req = self.tasks.task_at(i).gpu_requirement;
        if !ready {
            return false;
        }
        let ghost r = self.tasks.rows();
        let ghost a0 = allocs_view(self.gpu_allocations@);
        let mut cuda: Option<String> = None;
        let ghost mut gpus_chosen: Seq<u32> = Seq::empty();
        let ghost mut free_seen: Seq<(u32, u64)> = Seq::empty();
        match gpu_req {
            None => {},
            Some(req) => {
                match &self.nvml {
                    None => {
                        return false;
                    },
                    Some(_) => {
                        let choice = select_gpus(
                            &self.gpu_infos,
                            &self.gpu_reserves,
                            &self.gpu_ids,
                            &self.gpu_allocations,
                            free,
                            req,
                        );
                        match choice {
                            None => {
                                return false;
                            },
                            Some(assigned) => {
                                let per = match req.min_free_mem_bytes {
                                    Some(b) => b,
                                    None => {
                                        assert(assigned@.len() == req.count);
                                        reserve_for_index(&self.gpu_infos, &self.gpu_reserves, assigned[0])
                                    },
                                };
                                let list = reservation_for(&assigned, per);
                                proof {
                                    gpus_chosen = assigned@;
                                    free_seen = free@;
                                }
                                alloc_put(&mut self.gpu_allocations, id, list);
                                cuda = Some(join_decimals(&assigned, ","));
                            },
                        }
                    },
                }
            },
        }
        let mut t = self.tasks.task_at(i).duplicate();
        match cuda {
            Some(v) => {
                set_env(&mut t.envs, text("CUDA_VISIBLE_DEVICES"), v);
            },
            None => {},
        }
        self.used_slots = self.used_slots + 1;
        t.status = TaskStatus::Running;
        t.start_time = Some(now);
        let ghost tv = t@;
        self.tasks.replace_at(i, t);
        proof {
            assert(self.tasks.rows()[i as int].1 == tv);
            if let Some(req) = gpu_req {
                assert(gpu_choice(
                    self.gpu_infos@,
                    self.gpu_reserves@,
                    self.gpu_ids@,
                    a0,
                    free_seen,
                    req,
                ) == Some(gpus_chosen));
                assert(tv.envs == gpu_env(r[i as int].1.envs, gpus_chosen));
                assert(gpus_chosen.len() == req.count);
            }
        }
        true
    }

    /// Starts the task of row `i` if a slot is free, it is pending, what it
    /// waits for allows it, and, for a GPU task, enough GPUs can take it.
    /// NVML is asked for the free memory of each GPU of the pool when a GPU
    /// task gets that far, and the clock gives the start time; the decision
    /// on those readings is [`ServerState::try_create_task_with`], and it
    /// holds of the figures of [`free_of`] the pool and NVML's answers,
    /// whatever the hardware answered.
    pub fn try_create_task(&mut self, i: usize) -> (started: bool)
        requires
            old(self).wf(),
            i < old(self).tasks.rows().len(),
            !(old(self).used_slots < old(self).num_slots && startable(old(self).tasks.rows()[i as int].1)
                && old(self).nvml is Some && zero_gpu_default(old(self).tasks.rows()[i as int].1)),
        ensures
            final(self).wf(),
            final(self).same_setup(old(self)),
            keeps_ids(old(self).tasks.rows(), final(self).tasks.rows()),
            exists|answers: Seq<Option<u64>>, now: Timestamp|
                answers.len() == old(self).gpu_ids@.len() && #[trigger] start_step(
                    *old(self),
                    *final(self),
                    i as int,
                    free_of(old(self).gpu_ids@, answers),
                    now,
                    started,
                ),
            !started ==> {
                &&& final(self).tasks.rows() == old(self).tasks.rows()
                &&& final(self).used_slots == old(self).used_slots
                &&& allocs_view(final(self).gpu_allocations@) == allocs_view(old(self).gpu_allocations@)
            },
            started ==> {
                let r = old(self).tasks.rows();
                let t = r[i as int].1;
                let t2 = final(self).tasks.rows()[i as int].1;
                &&& old(self).used_slots < old(self).num_slots
                &&& final(self).used_slots == old(self).used_slots + 1
                &&& final(self).tasks.rows() == r.update(i as int, (r[i as int].0, t2))
                &&& started_view(t, t2)
                &&& t.gpu_requirement is None ==> allocs_view(final(self).gpu_allocations@) == allocs_view(
                    old(self).gpu_allocations@,
                )
                &&& t.gpu_requirement matches Some(req) ==> {
                    &&& old(self).nvml is Some
                    &&& exists|free: Seq<(u32, u64)>, gpus: Seq<u32>|
                        #[trigger] gpu_choice(
                            old(self).gpu_infos@,
                            old(self).gpu_reserves@,
                            old(self).gpu_ids@,
                            allocs_view(old(self).gpu_allocations@),
                            free,
                            req,
                        ) == Some(gpus) && t2.envs == #[trigger] gpu_env(t.envs, gpus) && allocs_view(
                            final(self).gpu_allocations@,
                        ) == alloc_insert(
                            allocs_view(old(self).gpu_allocations@),
                            r[i as int].0,
                            reservation_list(
                                gpus,
                                per_gpu_reserve(old(self).gpu_infos@, old(self).gpu_reserves@, req, gpus[0]),
                            ),
                        )
                }
            },
            (old(self).used_slots < old(self).num_slots && startable(old(self).tasks.rows()[i as int].1)
                && old(self).tasks.rows()[i as int].1.gpu_requirement is None) ==> started,
    {
        let needs_gpus = self.used_slots < self.num_slots && is_startable(self.tasks.task_at(i))
            && self.tasks.task_at(i).gpu_requirement.is_some();
        let free = match &self.nvml {
            Some(nvml) => {
                if needs_gpus {
                    query_gpu_free_memory(nvml, &self.gpu_ids)
                } else {
                    Vec::new()
                }
            },
            None => Vec::new(),
        };
        proof {
            lemma_free_of_no_answers(self.gpu_ids@);
        }
        let now = clock::now();
        self.try_create_task_with(i, &free, now)
    }

    /// One pass of the scheduler: walks the tasks in order of id and starts
    /// each one that [`ServerState::try_create_task`] can start. Hands back
    /// the ids of the started tasks, in order.
    pub fn try_create_tasks(&mut self) -> (pass: SchedulePass)
        requires
            old(self).wf(),
        ensures
            final(self).wf(),
            final(self).same_setup(old(self)),
            keeps_ids(old(self).tasks.rows(), final(self).tasks.rows()),
            pass_step(
                old(self).tasks.rows(),
                final(self).tasks.rows(),
                pass.launched@,
                pass.stuck,
                old(self).used_slots as int,
                old(self).num_slots as int,
                old(self).nvml is Some,
            ),
            gpu_pass(
                old(self).gpu_infos@,
                old(self).gpu_reserves@,
                old(self).gpu_ids@,
                old(self).nvml is Some,
                old(self).num_slots as int,
                old(self).tasks.rows(),
                pass.launched@,
                old(self).used_slots as int,
                pass_end(old(self).tasks.rows(), pass.stuck),
                allocs_view(old(self).gpu_allocations@),
                allocs_view(final(self).gpu_allocations@),
            ),
            final(self).used_slots == old(self).used_slots + pass.launched@.len(),
            pass.launched@.len() == 0 ==> allocs_view(final(self).gpu_allocations@) == allocs_view(
                old(self).gpu_allocations@,
            ),
            forall|k: u32|
                !pass.launched@.contains(k) ==> #[trigger] alloc_lookup(allocs_view(final(self).gpu_allocations@), k)
                    == alloc_lookup(allocs_view(old(self).gpu_allocations@), k),
            forall|j: int|
                0 <= j < old(self).tasks.rows().len() && pass.launched@.contains(old(self).tasks.rows()[j].0) ==> gpu_grant(
                    old(self).tasks.rows()[j].1,
                    #[trigger] final(self).tasks.rows()[j].1,
                    alloc_lookup(allocs_view(final(self).gpu_allocations@), old(self).tasks.rows()[j].0),
                    old(self).gpu_ids@,
                ),
            forall|j: int|
                0 <= j < old(self).tasks.rows().len() && pass.launched@.contains(old(self).tasks.rows()[j].0)
                    && old(self).tasks.rows()[j].1.gpu_requirement is None ==> alloc_lookup(
                    allocs_view(final(self).gpu_allocations@),
                    #[trigger] old(self).tasks.rows()[j].0,
                ) == alloc_lookup(allocs_view(old(self).gpu_allocations@), old(self).tasks.rows()[j].0),
    {
        let ghost r = self.tasks.rows();
        let ghost a_old = allocs_view(self.gpu_allocations@);
        let ghost used0 = self.used_slots as int;
        let ghost num = self.num_slots as int;
        let ghost infos = self.gpu_infos@;
        let ghost reserves = self.gpu_reserves@;
        let ghost pool = self.gpu_ids@;
        let ghost nvml = self.nvml is Some;
        let ghost mut trace: Seq<Seq<(u32, Seq<(u32, u64)>)>> = seq![a_old];
        let mut launched: Vec<u32> = Vec::new();
        let mut i: usize = 0;
        while i < self.tasks.len()
            invariant
                i <= r.len(),
                infos == old(self).gpu_infos@,
                reserves == old(self).gpu_reserves@,
                pool == old(self).gpu_ids@,
                nvml == (old(self).nvml is Some),
                trace.len() == i + 1,
                trace[0] == a_old,
                trace[i as int] == allocs_view(self.gpu_allocations@),
                forall|j: int|
                    0 <= j < i ==> #[trigger] gpu_row_at(infos, reserves, pool, nvml, num, r, launched@, used0, trace, j),
                self.wf(),
                self.same_setup(old(self)),
                r == old(self).tasks.rows(),
                ids_increasing(r),
                used0 == old(self).used_slots,
                num == old(self).num_slots,
                self.tasks.rows().len() == r.len(),
                forall|j: int| 0 <= j < r.len() ==> (#[trigger] self.tasks.rows()[j]).0 == r[j].0,
                forall|j: int| i <= j < r.len() ==> #[trigger] self.tasks.rows()[j] == r[j],
                forall|j: int|
                    0 <= j < i && !launched@.contains(r[j].0) ==> #[trigger] self.tasks.rows()[j] == r[j],
                forall|j: int|
                    0 <= j < i && launched@.contains(r[j].0) ==> started_view(
                        r[j].1,
                        #[trigger] self.tasks.rows()[j].1,
                    ),
                forall|a: int, b: int| 0 <= a < b < launched@.len() ==> #[trigger] launched@[a] < #[trigger] launched@[b],
                forall|a: int| 0 <= a < launched@.len() ==> exists|j: int| 0 <= j < i && #[trigger] r[j].0 == #[trigger] launched@[a],
                self.used_slots == used0 + launched@.len(),
                launched@.len() > 0 ==> used0 + launched@.len() <= num,
                forall|j: int|
                    0 <= j < i && startable(#[trigger] r[j].1) && r[j].1.gpu_requirement is None
                        && !launched@.contains(r[j].0) ==> used0 + count_below(launched@, r[j].0) >= num,
                launched@.len() == 0 ==> allocs_view(self.gpu_allocations@) == allocs_view(old(self).gpu_allocations@),
                a_old == allocs_view(old(self).gpu_allocations@),
                forall|k: u32|
                    !launched@.contains(k) ==> #[trigger] alloc_lookup(allocs_view(self.gpu_allocations@), k)
                        == alloc_lookup(a_old, k),
                forall|j: int|
                    0 <= j < i && launched@.contains(r[j].0) ==> gpu_grant(
                        r[j].1,
                        #[trigger] self.tasks.rows()[j].1,
                        alloc_lookup(allocs_view(self.gpu_allocations@), r[j].0),
                        old(self).gpu_ids@,
                    ),
                forall|j: int|
                    0 <= j < i && launched@.contains(r[j].0) && r[j].1.gpu_requirement is None ==> alloc_lookup(
                        allocs_view(self.gpu_allocations@),
                        #[trigger] r[j].0,
                    ) == alloc_lookup(a_old, r[j].0),
            decreases r.len() - i,
        {
            proof {
                assert(self.tasks.rows()[i as int] == r[i as int]);
                assert forall|a: int| 0 <= a < launched@.len() implies #[trigger] launched@[a] < r[i as int].0 by {
                    let j = choose|j: int| 0 <= j < i && #[trigger] r[j].0 == #[trigger] launched@[a];
                    assert(r[j].0 < r[i as int].0);
                }
                if !launched@.contains(r[i as int].0) {
                } else {
                    let a = choose|a: int| 0 <= a < launched@.len() && launched@[a] == r[i as int].0;
                    assert(launched@[a] < r[i as int].0);
                }
                assert(!launched@.contains(r[i as int].0));
                lemma_count_below_all(launched@, r[i as int].0);
            }
            if self.used_slots < self.num_slots && self.nvml.is_some() && is_startable(self.tasks.task_at(i))
                && zero_gpu_default_task(self.tasks.task_at(i)) {
                let id = self.tasks.id_at(i);
                proof {
                    let cur = self.tasks.rows();
                    let rp = r.take(i as int);
                    let cp = cur.take(i as int);
                    assert forall|a: int| 0 <= a < launched@.len() implies has_id(rp, #[trigger] launched@[a]) by {
                        let j = choose|j: int| 0 <= j < i && #[trigger] r[j].0 == #[trigger] launched@[a];
                        assert(rp[j] == r[j]);
                    }
                    assert forall|j: int| 0 <= j < rp.len() implies (#[trigger] cp[j]).0 == rp[j].0 by {
                        assert(cp[j] == cur[j]);
                    }
                    assert forall|j: int| 0 <= j < rp.len() && !launched@.contains(rp[j].0) implies #[trigger] cp[j] == rp[j] by {
                        assert(cp[j] == cur[j]);
                    }
                    assert forall|j: int| 0 <= j < rp.len() && launched@.contains(rp[j].0) implies started_view(
                        rp[j].1,
                        #[trigger] cp[j].1,
                    ) by {
                        assert(cp[j] == cur[j]);
                    }
                    assert forall|j: int|
                        0 <= j < rp.len() && startable(#[trigger] rp[j].1) && rp[j].1.gpu_requirement is None
                            && !launched@.contains(rp[j].0) implies used0 + count_below(launched@, rp[j].0) >= num by {
                        assert(rp[j] == r[j]);
                    }
                    assert(schedule_step(rp, cp, launched@, used0, num));
                    assert(cur.skip(i as int) =~= r.skip(i as int));
                    assert(r[i as int] == cur[i as int]);
                    assert(r[i as int].0 == id);
                    assert(stuck_row(r, i as int, used0 + launched@.len(), num, old(self).nvml is Some));
                    lemma_row_index_unique(r, i as int);
                    assert(pass_end(r, Some(id)) == i);
                    assert(trace[i as int] == allocs_view(self.gpu_allocations@));
                }
                return SchedulePass { launched, stuck: Some(id) };
            }
            let ghost before = self.tasks.rows();
            let ghost lbefore = launched@;
            let ghost used_before = self.used_slots;
            let ghost a_before = allocs_view(self.gpu_allocations@);
            let ghost s_before = *self;
            let started = self.try_create_task(i);
            proof {
                let a_now = allocs_view(self.gpu_allocations@);
                let (answers, now) = choose|answers: Seq<Option<u64>>, now: Timestamp|
                    answers.len() == s_before.gpu_ids@.len() && #[trigger] start_step(
                        s_before,
                        *self,
                        i as int,
                        free_of(s_before.gpu_ids@, answers),
                        now,
                        started,
                    );
                let ghost free = free_of(pool, answers);
                assert(s_before.tasks.rows()[i as int] == r[i as int]);
                assert(allocs_view(s_before.gpu_allocations@) == trace[i as int]);
                let new_trace = trace.push(a_now);
                assert(new_trace[i as int] == trace[i as int]);
                assert(new_trace[i + 1] == a_now);
                let lnow = if started { lbefore.push(r[i as int].0) } else { lbefore };
                assert forall|j: int| 0 <= j < i implies #[trigger] gpu_row_at(
                    infos,
                    reserves,
                    pool,
                    nvml,
                    num,
                    r,
                    lnow,
                    used0,
                    new_trace,
                    j,
                ) by {
                    assert(gpu_row_at(infos, reserves, pool, nvml, num, r, lbefore, used0, trace, j));
                    assert(new_trace[j] == trace[j]);
                    assert(new_trace[j + 1] == trace[j + 1]);
                    assert(r[j].0 < r[i as int].0);
                    lemma_push_contains(lbefore, r[i as int].0, r[j].0);
                    lemma_count_below_push(lbefore, r[i as int].0, r[j].0);
                }
                lemma_count_below_all(lbefore, r[i as int].0);
                lemma_count_below_push(lbefore, r[i as int].0, r[i as int].0);
                lemma_push_contains(lbefore, r[i as int].0, r[i as int].0);
                assert(gpu_row_at(infos, reserves, pool, nvml, num, r, lnow, used0, new_trace, i as int));
                trace = new_trace;
            }
            let ghost a_after = allocs_view(self.gpu_allocations@);
            if started {
                let id = self.tasks.id_at(i);
                launched.push(id);
                proof {
                    assert(id == r[i as int].0);
                    let rows_now = self.tasks.rows();
                    assert(rows_now == before.update(i as int, (r[i as int].0, rows_now[i as int].1)));
                    assert forall|k: u32| k != id implies #[trigger] alloc_lookup(a_after, k) == alloc_lookup(a_before, k) by {
                        match r[i as int].1.gpu_requirement {
                            None => {},
                            Some(req) => {
                                let (free, gpus) = choose|free: Seq<(u32, u64)>, gpus: Seq<u32>|
                                    #[trigger] gpu_choice(infos, reserves, old(self).gpu_ids@, a_before, free, req)
                                        == Some(gpus) && rows_now[i as int].1.envs == #[trigger] gpu_env(r[i as int].1.envs, gpus)
                                        && a_after == alloc_insert(
                                        a_before,
                                        r[i as int].0,
                                        reservation_list(gpus, per_gpu_reserve(infos, reserves, req, gpus[0])),
                                    );
                                lemma_alloc_insert_lookup(
                                    a_before,
                                    id,
                                    reservation_list(gpus, per_gpu_reserve(infos, reserves, req, gpus[0])),
                                    k,
                                );
                            },
                        }
                    }
                    match r[i as int].1.gpu_requirement {
                        None => {},
                        Some(req) => {
                            let (free, gpus) = choose|free: Seq<(u32, u64)>, gpus: Seq<u32>|
                                #[trigger] gpu_choice(infos, reserves, old(self).gpu_ids@, a_before, free, req)
                                    == Some(gpus) && rows_now[i as int].1.envs == #[trigger] gpu_env(r[i as int].1.envs, gpus)
                                    && a_after == alloc_insert(
                                    a_before,
                                    r[i as int].0,
                                    reservation_list(gpus, per_gpu_reserve(infos, reserves, req, gpus[0])),
                                );
                            let bytes = per_gpu_reserve(infos, reserves, req, gpus[0]);
                            lemma_alloc_insert_lookup(a_before, id, reservation_list(gpus, bytes), id);
                            lemma_held_gpus_of_reservation(gpus, bytes);
                            crate::laws::law_gpu_choice_in_pool(infos, reserves, old(self).gpu_ids@, a_before, free, req, gpus);
                            assert(gpu_grant(r[i as int].1, rows_now[i as int].1, alloc_lookup(a_after, id), old(self).gpu_ids@));
                        },
                    }
                    assert forall|j: int| 0 <= j < i && launched@.contains(r[j].0) implies gpu_grant(
                        r[j].1,
                        #[trigger] self.tasks.rows()[j].1,
                        alloc_lookup(a_after, r[j].0),
                        old(self).gpu_ids@,
                    ) by {
                        assert(r[j].0 < r[i as int].0);
                        assert(lbefore.contains(r[j].0)) by {
                            lemma_push_contains(lbefore, id, r[j].0);
                        }
                        assert(self.tasks.rows()[j] == before[j]);
                    }
                    assert forall|y: u32| lbefore.contains(y) || y == id implies launched@.contains(y) by {
                        lemma_push_contains(lbefore, id, y);
                    }
                    assert forall|y: u32| launched@.contains(y) implies lbefore.contains(y) || y == id by {
                        lemma_push_contains(lbefore, id, y);
                    }
                    assert forall|j: int| 0 <= j < r.len() && j != i implies #[trigger] r[j].0 != id by {
                        if j < i {
                            assert(r[j].0 < r[i as int].0);
                        } else {
                            assert(r[i as int].0 < r[j].0);
                        }
                    }
                    assert forall|a: int| 0 <= a < launched@.len() implies exists|j: int| 0 <= j < i + 1 && #[trigger] r[j].0 == #[trigger] launched@[a] by {
                        if a < lbefore.len() {
                            assert(launched@[a] == lbefore[a]);
                        } else {
                            assert(r[i as int].0 == launched@[a]);
                        }
                    }
                    assert forall|j: int|
                        0 <= j < i + 1 && startable(#[trigger] r[j].1) && r[j].1.gpu_requirement is None
                            && !launched@.contains(r[j].0) implies used0 + count_below(launched@, r[j].0) >= num by {
                        lemma_count_below_push(lbefore, id, r[j].0);
                        assert(r[j].0 != id);
                    }
                }
            } else {
                proof {
                    assert(a_after == a_before);
                    assert forall|j: int| 0 <= j < i && launched@.contains(r[j].0) implies gpu_grant(
                        r[j].1,
                        #[trigger] self.tasks.rows()[j].1,
                        alloc_lookup(a_after, r[j].0),
                        old(self).gpu_ids@,
                    ) by {
                        assert(self.tasks.rows()[j] == before[j]);
                    }
                    assert forall|j: int|
                        0 <= j < i + 1 && startable(#[trigger] r[j].1) && r[j].1.gpu_requirement is None
                            && !launched@.contains(r[j].0) implies used0 + count_below(launched@, r[j].0) >= num by {
                    }
                    assert forall|a: int| 0 <= a < launched@.len() implies exists|j: int| 0 <= j < i + 1 && #[trigger] r[j].0 == #[trigger] launched@[a] by {
                        let j = choose|j: int| 0 <= j < i && #[trigger] r[j].0 == #[trigger] launched@[a];
                        assert(r[j].0 == launched@[a]);
                    }
                }
            }
            i = i + 1;
        }
        proof {
            assert forall|a: int| 0 <= a < launched@.len() implies has_id(r, #[trigger] launched@[a]) by {
                let j = choose|j: int| 0 <= j < i && #[trigger] r[j].0 == #[trigger] launched@[a];
                assert(r[j].0 == launched@[a]);
            }
        }
        assert(self.tasks.rows().take(r.len() as int) =~= self.tasks.rows());
        assert(trace[r.len() as int] == allocs_view(self.gpu_allocations@));
        SchedulePass { launched, stuck: None }
    }

    /// Tells each listed task that task `task_id` now stands at `status`, as
    /// [`notify_required`] says.
    pub fn update_required_status(&mut self, task_id: u32, status: TaskStatus, required: &Vec<u32>)
        requires
            old(self).wf(),
        ensures
            final(self).wf(),
            final(self).same_setup(old(self)),
            keeps_ids(old(self).tasks.rows(), final(self).tasks.rows()),
            final(self).used_slots == old(self).used_slots,
            allocs_view(final(self).gpu_allocations@) == allocs_view(old(self).gpu_allocations@),
            final(self).tasks.rows() == notify_required(old(self).tasks.rows(), task_id, status, required@),
    {
        let ghost r = self.tasks.rows();
        let mut i: usize = 0;
        while i < self.tasks.len()
            invariant
                i <= r.len(),
                self.wf(),
                self.same_setup(old(self)),
                self.used_slots == old(self).used_slots,
                allocs_view(self.gpu_allocations@) == allocs_view(old(self).gpu_allocations@),
                r == old(self).tasks.rows(),
                self.tasks.rows().len() == r.len(),
                forall|j: int| 0 <= j < i ==> #[trigger] self.tasks.rows()[j] == notify_required(r, task_id, status, required@)[j],
                forall|j: int| i <= j < r.len() ==> #[trigger] self.tasks.rows()[j] == r[j],
            decreases r.len() - i,
        {
            assert(self.tasks.rows()[i as int] == r[i as int]);
            let id = self.tasks.id_at(i);
            if contains_id(required, id) {
                let mut t = self.tasks.task_at(i).duplicate();
                let ghost tv0 = t@;
                if set_dep_status(&mut t.dependencies, task_id, status) {
                    let skip = match status {
                        TaskStatus::Failed | TaskStatus::Killed | TaskStatus::Skipped => true,
                        _ => false,
                    };
                    if !t.not_safely_depends && skip {
                        t.status = TaskStatus::Skipped;
                    }
                    assert(t@ == notified(tv0, task_id, status));
                    self.tasks.replace_at(i, t);
                }
            }
            i = i + 1;
        }
        assert(self.tasks.rows() =~= notify_required(r, task_id, status, required@));
    }

    /// What the worker does with one message. A request to run looks for
    /// tasks to start. A report that a task's process completed, failed or was
    /// killed ends the task, frees its slot and its GPUs, tells the tasks
    /// waiting for it, and looks for tasks to start. Anything else changes
    /// nothing. Hands back the scheduling pass: the ids of the started tasks,
    /// in order, and the task it stopped at, if any.
    pub fn handle_message(&mut self, msg: ChannelMessage) -> (pass: SchedulePass)
        requires
            old(self).wf(),
            (msg.task_id matches Some(id) && old(self).tasks@.contains_key(id) && msg.task_action
                != TaskAction::Run) ==> old(self).used_slots > 0,
        ensures
            final(self).wf(),
            final(self).same_setup(old(self)),
            keeps_ids(old(self).tasks.rows(), final(self).tasks.rows()),
            match msg.task_id {
                None => if msg.task_action == TaskAction::Run {
                    &&& pass_step(
                        old(self).tasks.rows(),
                        final(self).tasks.rows(),
                        pass.launched@,
                        pass.stuck,
                        old(self).used_slots as int,
                        old(self).num_slots as int,
                        old(self).nvml is Some,
                    )
                    &&& gpu_pass(
                        old(self).gpu_infos@,
                        old(self).gpu_reserves@,
                        old(self).gpu_ids@,
                        old(self).nvml is Some,
                        old(self).num_slots as int,
                        old(self).tasks.rows(),
                        pass.launched@,
                        old(self).used_slots as int,
                        pass_end(old(self).tasks.rows(), pass.stuck),
                        allocs_view(old(self).gpu_allocations@),
                        allocs_view(final(self).gpu_allocations@),
                    )
                    &&& final(self).used_slots == old(self).used_slots + pass.launched@.len()
                    &&& pass.launched@.len() == 0 ==> allocs_view(final(self).gpu_allocations@) == allocs_view(
                        old(self).gpu_allocations@,
                    )
                    &&& forall|k: u32|
                        !pass.launched@.contains(k) ==> #[trigger] alloc_lookup(
                            allocs_view(final(self).gpu_allocations@),
                            k,
                        ) == alloc_lookup(allocs_view(old(self).gpu_allocations@), k)
                    &&& forall|j: int|
                        0 <= j < old(self).tasks.rows().len() && pass.launched@.contains(old(self).tasks.rows()[j].0)
                            ==> gpu_grant(
                            old(self).tasks.rows()[j].1,
                            #[trigger] final(self).tasks.rows()[j].1,
                            alloc_lookup(allocs_view(final(self).gpu_allocations@), old(self).tasks.rows()[j].0),
                            old(self).gpu_ids@,
                        )
                } else {
                    &&& pass.launched@.len() == 0
                    &&& pass.stuck is None
                    &&& final(self).tasks.rows() == old(self).tasks.rows()
                    &&& final(self).used_slots == old(self).used_slots
                    &&& allocs_view(final(self).gpu_allocations@) == allocs_view(old(self).gpu_allocations@)
                },
                Some(id) => if !old(self).tasks@.contains_key(id) || msg.task_action == TaskAction::Run {
                    &&& pass.launched@.len() == 0
                    &&& pass.stuck is None
                    &&& final(self).tasks.rows() == old(self).tasks.rows()
                    &&& final(self).used_slots == old(self).used_slots
                    &&& allocs_view(final(self).gpu_allocations@) == allocs_view(old(self).gpu_allocations@)
                } else {
                    &&& exists|end: Timestamp|
                        pass_step(
                            #[trigger] after_finish(
                                old(self).tasks.rows(),
                                row_index(old(self).tasks.rows(), id),
                                msg.task_action,
                                end,
                            ),
                            final(self).tasks.rows(),
                            pass.launched@,
                            pass.stuck,
                            old(self).used_slots - 1,
                            old(self).num_slots as int,
                            old(self).nvml is Some,
                        ) && gpu_pass(
                            old(self).gpu_infos@,
                            old(self).gpu_reserves@,
                            old(self).gpu_ids@,
                            old(self).nvml is Some,
                            old(self).num_slots as int,
                            after_finish(old(self).tasks.rows(), row_index(old(self).tasks.rows(), id), msg.task_action, end),
                            pass.launched@,
                            old(self).used_slots - 1,
                            pass_end(
                                after_finish(
                                    old(self).tasks.rows(),
                                    row_index(old(self).tasks.rows(), id),
                                    msg.task_action,
                                    end,
                                ),
                                pass.stuck,
                            ),
                            alloc_remove(allocs_view(old(self).gpu_allocations@), id),
                            allocs_view(final(self).gpu_allocations@),
                        )
                    &&& final(self).used_slots == old(self).used_slots - 1 + pass.launched@.len()
                    &&& pass.launched@.len() == 0 ==> allocs_view(final(self).gpu_allocations@) == alloc_remove(
                        allocs_view(old(self).gpu_allocations@),
                        id,
                    )
                    &&& alloc_lookup(allocs_view(final(self).gpu_allocations@), id) is None
                    &&& forall|k: u32|
                        k != id && !pass.launched@.contains(k) ==> #[trigger] alloc_lookup(
                            allocs_view(final(self).gpu_allocations@),
                            k,
                        ) == alloc_lookup(allocs_view(old(self).gpu_allocations@), k)
                },
            },
    {
        match msg.task_id {
            None => {
                if msg.task_action == TaskAction::Run {
                    self.try_create_tasks()
                } else {
                    SchedulePass { launched: Vec::new(), stuck: None }
                }
            },
            Some(id) => {
                let pos = match self.tasks.position(id) {
                    None => {
                        return SchedulePass { launched: Vec::new(), stuck: None };
                    },
                    Some(p) => p,
                };
                let (status, code) = match msg.task_action {
                    TaskAction::Complete => (TaskStatus::Completed, 0i32),
                    TaskAction::Fail(c) => (TaskStatus::Failed, c),
                    TaskAction::Kill => (TaskStatus::Killed, 1i32),
                    TaskAction::Run => {
                        return SchedulePass { launched: Vec::new(), stuck: None };
                    },
                };
                let ghost r = self.tasks.rows();
                proof {
                    lemma_row_index_unique(r, pos as int);
                    lemma_rows_map_at(r, pos as int);
                }
                let mut t = self.tasks.task_at(pos).duplicate();
                t.status = status;
                t.exit_code = Some(code);
                let end = clock::now();
                t.end_time = Some(end);
                let required = crate::task::copy_vec(&t.required);
                let ghost ft = t@;
                assert(ft == finished_view(r[pos as int].1, msg.task_action, end));
                self.tasks.replace_at(pos, t);
                self.used_slots = self.used_slots - 1;
                alloc_take(&mut self.gpu_allocations, id);
                let ghost mid = self.tasks.rows();
                self.update_required_status(id, status, &required);
                assert(self.tasks.rows() == after_finish(r, pos as int, msg.task_action, end));
                let ghost a_mid = allocs_view(self.gpu_allocations@);
                let ghost r1 = self.tasks.rows();
                let pass = self.try_create_tasks();
                proof {
                    let a_end = allocs_view(self.gpu_allocations@);
                    let a0 = allocs_view(old(self).gpu_allocations@);
                    assert(r1[pos as int] == notify_required(mid, id, status, required@)[pos as int]);
                    assert(r1[pos as int].1.status != TaskStatus::Pending);
                    assert(r1[pos as int].0 == id);
                    if pass.launched@.contains(id) {
                        lemma_pass_launched_startable(
                            r1,
                            self.tasks.rows(),
                            pass.launched@,
                            pass.stuck,
                            old(self).used_slots - 1,
                            old(self).num_slots as int,
                            old(self).nvml is Some,
                            id,
                        );
                        let j = choose|j: int| 0 <= j < r1.len() && (#[trigger] r1[j]).0 == id && startable(r1[j].1);
                        assert(r1[j].0 == r[j].0);
                        if j != pos {
                            if j < pos {
                                assert(r[j].0 < r[pos as int].0);
                            } else {
                                assert(r[pos as int].0 < r[j].0);
                            }
                        }
                        assert(false);
                    }
                    lemma_alloc_remove_lookup(a0, id, id);
                    assert(alloc_lookup(a_end, id) == alloc_lookup(a_mid, id));
                    assert forall|k: u32| k != id && !pass.launched@.contains(k) implies #[trigger] alloc_lookup(a_end, k)
                        == alloc_lookup(a0, k) by {
                        lemma_alloc_remove_lookup(a0, id, k);
                    }
                }
                pass
            },
        }
    }

    /// Records how starting the process of task `task_id` went: its process id
    /// and log file, or, when it could not start, the report that it failed.
    pub fn record_launch(&mut self, task_id: u32, spawned: Option<(Option<u32>, String)>) -> (msg: Option<ChannelMessage>)
        requires
            old(self).wf(),
        ensures
            final(self).wf(),
            final(self).same_setup(old(self)),
            old(self).ids_below_counter() ==> final(self).ids_below_counter(),
            final(self).used_slots == old(self).used_slots,
            allocs_view(final(self).gpu_allocations@) == allocs_view(old(self).gpu_allocations@),
            match spawned {
                None => {
                    &&& msg == Some(ChannelMessage { task_id: Some(task_id), task_action: TaskAction::Fail(1) })
                    &&& final(self).tasks.rows() == old(self).tasks.rows()
                },
                Some((pid, path)) => {
                    &&& msg is None
                    &&& final(self).tasks@ == if old(self).tasks@.contains_key(task_id) {
                        old(self).tasks@.insert(
                            task_id,
                            TaskView { pid: pid, log_path: Some(path@), ..old(self).tasks@[task_id] },
                        )
                    } else {
                        old(self).tasks@
                    }
                },
            },
    {
        match spawned {
            None => Some(ChannelMessage { task_id: Some(task_id), task_action: TaskAction::Fail(1) }),
            Some((pid, path)) => {
                match self.tasks.get(task_id) {
                    None => {},
                    Some(t0) => {
                        let mut t = t0.duplicate();
                        t.pid = pid;
                        t.log_path = Some(path);
                        self.tasks.insert(task_id, t);
                    },
                }
                None
            },
        }
    }

    /// What the periodic tick asks for: when the server has GPUs and some
    /// pending task needs them, a request to look for tasks to start.
    pub fn tick(&self) -> (msg: Option<ChannelMessage>)
        requires
            self.wf(),
        ensures
            msg == (if self.gpu_infos@.len() > 0 && exists|j: int|
                0 <= j < self.tasks.rows().len() && (#[trigger] self.tasks.rows()[j]).1.status
                    == TaskStatus::Pending && self.tasks.rows()[j].1.gpu_requirement is Some {
                Some(ChannelMessage { task_id: None, task_action: TaskAction::Run })
            } else {
                None
            }),
    {
        if self.gpu_infos.len() == 0 {
            return None;
        }
        let mut i: usize = 0;
        while i < self.tasks.len()
            invariant
                i <= self.tasks.rows().len(),
                self.gpu_infos@.len() > 0,
                forall|j: int| 0 <= j < i ==> !((#[trigger] self.tasks.rows()[j]).1.status
                    == TaskStatus::Pending && self.tasks.rows()[j].1.gpu_requirement is Some),
            decreases self.tasks.rows().len() - i,
        {
            let t = self.tasks.task_at(i);
            if t.status == TaskStatus::Pending && t.gpu_requirement.is_some() {
                assert(self.tasks.rows()[i as int].1.status == TaskStatus::Pending);
                assert(self.tasks.rows()[i as int].1.gpu_requirement is Some);
                assert(self.gpu_infos@.len() > 0);
                return Some(ChannelMessage::run_request());
            }
            i = i + 1;
        }
        None
    }
}

} // verus!
