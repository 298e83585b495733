//! Properties that hold across the operations of the library.

use vstd::prelude::*;
use crate::task::{TaskStatus, TaskView, GpuRequirement, GpuInfo};
use crate::table::{ids_increasing, has_id};
use crate::worker::{
    schedule_step, started_view, after_finish, notify_required, notified, finished_view, has_dep,
    skips_dependents, status_after,
};
use crate::gpu::{gpu_choice, fitting_gpus, reported_free, reserved_on, gpu_fits, reserve_of_index, allocs_view};
use crate::table::{rows_map, lemma_rows_map_at};
use crate::logs::{
    scan, unsplit, lemma_scan_unsplit, lemma_scan_rest_has_no_newline, newline, lemma_scan_append,
    lemma_scan_without_newline, concat_chunks, feed_chunks, flushed,
};
use crate::state::{
    ServerState, after_push, dependency_entries, mark_requirers, with_requirer, lemma_after_push_keys,
    lemma_mark_requirers_ids,
};
use crate::worker::{
    keeps_ids, lemma_push_contains, pass_step, stuck_row, start_step, alloc_lookup, lemma_alloc_insert_lookup,
};
use crate::table::lemma_same_ids_same_keys;

verus! {

/// How many rows hold a running task.
pub open spec fn count_running(rows: Seq<(u32, TaskView)>) -> nat
    decreases rows.len(),
{
    if rows.len() == 0 {
        0
    } else {
        count_running(rows.drop_last()) + if rows.last().1.status == TaskStatus::Running { 1nat } else { 0nat }
    }
}

proof fn lemma_count_running_concat(a: Seq<(u32, TaskView)>, b: Seq<(u32, TaskView)>)
    ensures
        count_running(a + b) == count_running(a) + count_running(b),
    decreases b.len(),
{
    if b.len() == 0 {
        assert(a + b =~= a);
    } else {
        lemma_count_running_concat(a, b.drop_last());
        assert((a + b).drop_last() =~= a + b.drop_last());
        assert((a + b).last() == b.last());
    }
}

proof fn lemma_count_running_pairs(r: Seq<(u32, TaskView)>, r2: Seq<(u32, TaskView)>, launched: Seq<u32>)
    requires
        ids_increasing(r),
        r2.len() == r.len(),
        forall|j: int| 0 <= j < r.len() ==> (#[trigger] r2[j]).0 == r[j].0,
        forall|j: int| 0 <= j < r.len() && !launched.contains(r[j].0) ==> #[trigger] r2[j] == r[j],
        forall|j: int| 0 <= j < r.len() && launched.contains(r[j].0) ==> started_view(r[j].1, #[trigger] r2[j].1),
        forall|a: int, b: int| 0 <= a < b < launched.len() ==> #[trigger] launched[a] < #[trigger] launched[b],
        forall|a: int| 0 <= a < launched.len() ==> has_id(r, #[trigger] launched[a]),
    ensures
        count_running(r2) == count_running(r) + launched.len(),
    decreases r.len(),
{
    if r.len() == 0 {
        if launched.len() > 0 {
            assert(has_id(r, launched[0]));
        }
    } else {
        let n = r.len() - 1;
        let last = r[n].0;
        let rp = r.drop_last();
        let r2p = r2.drop_last();
        if launched.contains(last) {
            let lp = launched.drop_last();
            let q = choose|q: int| 0 <= q < launched.len() && launched[q] == last;
            assert(launched.last() == last) by {
                if q < launched.len() - 1 {
                    assert(launched[q] < launched.last());
                    let j = choose|j: int| 0 <= j < r.len() && (#[trigger] r[j]).0 == launched.last();
                    if j < n {
                        assert(r[j].0 < r[n].0);
                    }
                }
            }
            assert forall|a: int| 0 <= a < lp.len() implies has_id(rp, #[trigger] lp[a]) by {
                assert(lp[a] == launched[a]);
                assert(launched[a] < launched.last());
                let j = choose|j: int| 0 <= j < r.len() && (#[trigger] r[j]).0 == launched[a];
                assert(j != n);
                assert(rp[j] == r[j]);
            }
            assert forall|j: int| 0 <= j < rp.len() implies (lp.contains(rp[j].0) <==> launched.contains(rp[j].0)) by {
                assert(rp[j] == r[j]);
                assert(r[j].0 < r[n].0);
                if launched.contains(r[j].0) {
                    let a = choose|a: int| 0 <= a < launched.len() && launched[a] == r[j].0;
                    assert(a != launched.len() - 1);
                    assert(lp[a] == r[j].0);
                }
                if lp.contains(r[j].0) {
                    let a = choose|a: int| 0 <= a < lp.len() && lp[a] == r[j].0;
                    assert(launched[a] == r[j].0);
                }
            }
            assert forall|j: int| 0 <= j < rp.len() && !lp.contains(rp[j].0) implies #[trigger] r2p[j] == rp[j] by {
                assert(rp[j] == r[j]);
                assert(r2p[j] == r2[j]);
            }
            assert forall|j: int| 0 <= j < rp.len() && lp.contains(rp[j].0) implies started_view(rp[j].1, #[trigger] r2p[j].1) by {
                assert(rp[j] == r[j]);
                assert(r2p[j] == r2[j]);
            }
            assert forall|j: int| 0 <= j < rp.len() implies (#[trigger] r2p[j]).0 == rp[j].0 by {
                assert(rp[j] == r[j]);
                assert(r2p[j] == r2[j]);
            }
            lemma_count_running_pairs(rp, r2p, lp);
            assert(started_view(r[n].1, r2[n].1));
        } else {
            assert forall|a: int| 0 <= a < launched.len() implies has_id(rp, #[trigger] launched[a]) by {
                let j = choose|j: int| 0 <= j < r.len() && (#[trigger] r[j]).0 == launched[a];
                if j == n {
                    assert(launched.contains(last));
                }
                assert(rp[j] == r[j]);
            }
            assert forall|j: int| 0 <= j < rp.len() && !launched.contains(rp[j].0) implies #[trigger] r2p[j] == rp[j] by {
                assert(rp[j] == r[j]);
                assert(r2p[j] == r2[j]);
            }
            assert forall|j: int| 0 <= j < rp.len() && launched.contains(rp[j].0) implies started_view(rp[j].1, #[trigger] r2p[j].1) by {
                assert(rp[j] == r[j]);
                assert(r2p[j] == r2[j]);
            }
            assert forall|j: int| 0 <= j < rp.len() implies (#[trigger] r2p[j]).0 == rp[j].0 by {
                assert(rp[j] == r[j]);
                assert(r2p[j] == r2[j]);
            }
            lemma_count_running_pairs(rp, r2p, launched);
            assert(r2[n] == r[n]);
        }
    }
}

/// Each task a scheduling pass starts takes one slot: the pass adds exactly
/// as many running tasks as it reports started, whether it went through
/// every row or stopped early.
pub proof fn law_schedule_adds_running(
    r: Seq<(u32, TaskView)>,
    r2: Seq<(u32, TaskView)>,
    launched: Seq<u32>,
    stuck: Option<u32>,
    used: int,
    num: int,
    nvml: bool,
)
    requires
        ids_increasing(r),
        pass_step(r, r2, launched, stuck, used, num, nvml),
    ensures
        count_running(r2) == count_running(r) + launched.len(),
{
    match stuck {
        None => {
            lemma_count_running_pairs(r, r2, launched);
        },
        Some(id) => {
            let p = choose|p: int|
                0 <= p < r.len() && (#[trigger] r[p]).0 == id && stuck_row(r, p, used + launched.len(), num, nvml)
                    && r2.len() == r.len() && schedule_step(r.take(p), r2.take(p), launched, used, num) && r2.skip(p) == r.skip(p);
            let rp = r.take(p);
            assert(ids_increasing(rp)) by {
                assert forall|a: int, b: int| 0 <= a < b < rp.len() implies #[trigger] rp[a].0 < #[trigger] rp[b].0 by {
                    assert(rp[a] == r[a] && rp[b] == r[b]);
                }
            }
            lemma_count_running_pairs(rp, r2.take(p), launched);
            lemma_count_running_concat(rp, r.skip(p));
            lemma_count_running_concat(r2.take(p), r2.skip(p));
            assert(rp + r.skip(p) =~= r);
            assert(r2.take(p) + r2.skip(p) =~= r2);
        },
    }
}

/// A scheduling pass never takes more slots than there are: when the slots in
/// use were within the limit, they stay within it.
pub proof fn law_schedule_respects_slots(
    r: Seq<(u32, TaskView)>,
    r2: Seq<(u32, TaskView)>,
    launched: Seq<u32>,
    stuck: Option<u32>,
    used: int,
    num: int,
    nvml: bool,
)
    requires
        pass_step(r, r2, launched, stuck, used, num, nvml),
        used <= num,
    ensures
        used + launched.len() <= num,
{
}

/// Only tasks that were pending and free to go are started (what they wait
/// for completed, or, for a task that starts whatever happens, ended), and
/// they are running afterwards.
pub proof fn law_schedule_starts_only_ready(
    r: Seq<(u32, TaskView)>,
    r2: Seq<(u32, TaskView)>,
    launched: Seq<u32>,
    stuck: Option<u32>,
    used: int,
    num: int,
    nvml: bool,
    j: int,
)
    requires
        pass_step(r, r2, launched, stuck, used, num, nvml),
        0 <= j < r.len(),
        r2[j].1.status != r[j].1.status,
    ensures
        crate::worker::startable(r[j].1),
        r2[j].1.status == TaskStatus::Running,
        launched.contains(r[j].0),
{
    match stuck {
        None => {
            if !launched.contains(r[j].0) {
                assert(r2[j] == r[j]);
            } else {
                assert(started_view(r[j].1, r2[j].1));
            }
        },
        Some(id) => {
            let p = choose|p: int|
                0 <= p < r.len() && (#[trigger] r[p]).0 == id && stuck_row(r, p, used + launched.len(), num, nvml)
                    && r2.len() == r.len() && schedule_step(r.take(p), r2.take(p), launched, used, num) && r2.skip(p) == r.skip(p);
            if j >= p {
                assert(r2[j] == r2.skip(p)[j - p]);
                assert(r[j] == r.skip(p)[j - p]);
            } else {
                let rp = r.take(p);
                let r2p = r2.take(p);
                assert(rp[j] == r[j] && r2p[j] == r2[j]);
                if !launched.contains(rp[j].0) {
                    assert(r2p[j] == rp[j]);
                } else {
                    assert(started_view(rp[j].1, r2p[j].1));
                }
            }
        },
    }
}

proof fn lemma_count_running_update(rows: Seq<(u32, TaskView)>, pos: int, row: (u32, TaskView))
    requires
        0 <= pos < rows.len(),
    ensures
        count_running(rows.update(pos, row)) + (if rows[pos].1.status == TaskStatus::Running { 1int } else { 0int })
            == count_running(rows) + (if row.1.status == TaskStatus::Running { 1int } else { 0int }),
    decreases rows.len(),
{
    let u = rows.update(pos, row);
    if pos == rows.len() - 1 {
        assert(u.drop_last() =~= rows.drop_last());
    } else {
        assert(u.drop_last() =~= rows.drop_last().update(pos, row));
        lemma_count_running_update(rows.drop_last(), pos, row);
    }
}

proof fn lemma_count_running_notify(rows: Seq<(u32, TaskView)>, id: u32, st: TaskStatus, required: Seq<u32>)
    requires
        forall|j: int|
            0 <= j < rows.len() && required.contains(rows[j].0) && (#[trigger] rows[j]).1.status == TaskStatus::Running
                && has_dep(rows[j].1.dependencies, id) ==> rows[j].1.not_safely_depends || !skips_dependents(st),
    ensures
        count_running(notify_required(rows, id, st, required)) == count_running(rows),
    decreases rows.len(),
{
    let n = notify_required(rows, id, st, required);
    if rows.len() > 0 {
        let p = rows.drop_last();
        assert(n.drop_last() =~= notify_required(p, id, st, required));
        assert forall|j: int|
            0 <= j < p.len() && required.contains(p[j].0) && (#[trigger] p[j]).1.status == TaskStatus::Running
                && has_dep(p[j].1.dependencies, id) implies p[j].1.not_safely_depends || !skips_dependents(st) by {
            assert(p[j] == rows[j]);
        }
        lemma_count_running_notify(p, id, st, required);
        let last = rows.last();
        assert(n.last() == (if required.contains(last.0) { (last.0, notified(last.1, id, st)) } else { last }));
        assert(rows[rows.len() - 1] == last);
    }
}

/// A task's process ending frees exactly one running place, provided no
/// running task that waits safely for it hears of a failure or kill (such a
/// task would be marked skipped while its process still runs).
pub proof fn law_finish_frees_one(rows: Seq<(u32, TaskView)>, pos: int, action: crate::task::TaskAction, end: crate::task::Timestamp)
    requires
        0 <= pos < rows.len(),
        rows[pos].1.status == TaskStatus::Running,
        !(action is Run),
        forall|j: int|
            0 <= j < rows.len() && j != pos && rows[pos].1.required.contains(rows[j].0) && (#[trigger] rows[j]).1.status
                == TaskStatus::Running && has_dep(rows[j].1.dependencies, rows[pos].0) ==> rows[j].1.not_safely_depends
                || !skips_dependents(status_after(action)),
    ensures
        count_running(after_finish(rows, pos, action, end)) + 1 == count_running(rows),
{
    let ft = finished_view(rows[pos].1, action, end);
    let u = rows.update(pos, (rows[pos].0, ft));
    lemma_count_running_update(rows, pos, (rows[pos].0, ft));
    assert forall|j: int|
        0 <= j < u.len() && ft.required.contains(u[j].0) && (#[trigger] u[j]).1.status == TaskStatus::Running
            && has_dep(u[j].1.dependencies, rows[pos].0) implies u[j].1.not_safely_depends || !skips_dependents(ft.status) by {
        if j != pos {
            assert(u[j] == rows[j]);
        }
    }
    lemma_count_running_notify(u, rows[pos].0, ft.status, ft.required);
}

/// The worker keeps its count of used slots equal to the number of running
/// tasks: when a running task's process ends and a scheduling pass follows,
/// as [`crate::state::ServerState::handle_message`] states, the count and the
/// running tasks move together (with the same proviso as
/// [`law_finish_frees_one`]).
pub proof fn law_worker_keeps_slot_count(
    r: Seq<(u32, TaskView)>,
    pos: int,
    action: crate::task::TaskAction,
    end: crate::task::Timestamp,
    r2: Seq<(u32, TaskView)>,
    launched: Seq<u32>,
    stuck: Option<u32>,
    used: int,
    num: int,
    nvml: bool,
)
    requires
        ids_increasing(r),
        count_running(r) == used,
        0 <= pos < r.len(),
        r[pos].1.status == TaskStatus::Running,
        !(action is Run),
        forall|j: int|
            0 <= j < r.len() && j != pos && r[pos].1.required.contains(r[j].0) && (#[trigger] r[j]).1.status
                == TaskStatus::Running && has_dep(r[j].1.dependencies, r[pos].0) ==> r[j].1.not_safely_depends
                || !skips_dependents(status_after(action)),
        pass_step(after_finish(r, pos, action, end), r2, launched, stuck, used - 1, num, nvml),
    ensures
        count_running(r2) == used - 1 + launched.len(),
{
    law_finish_frees_one(r, pos, action, end);
    let mid = after_finish(r, pos, action, end);
    assert(ids_increasing(mid)) by {
        let ft = finished_view(r[pos].1, action, end);
        let u = r.update(pos, (r[pos].0, ft));
        assert forall|a: int, b: int| 0 <= a < b < mid.len() implies #[trigger] mid[a].0 < #[trigger] mid[b].0 by {
            assert(mid[a].0 == u[a].0);
            assert(mid[b].0 == u[b].0);
            assert(u[a].0 == r[a].0);
            assert(u[b].0 == r[b].0);
        }
    }
    law_schedule_adds_running(mid, r2, launched, stuck, used - 1, num, nvml);
}

/// A task that waits safely for a task that failed, was killed or was
/// skipped is skipped itself; one that starts whatever happens keeps its
/// status.
pub proof fn law_failure_skips_safe_dependents(t: TaskView, id: u32, st: TaskStatus)
    requires
        has_dep(t.dependencies, id),
        skips_dependents(st),
    ensures
        !t.not_safely_depends ==> notified(t, id, st).status == TaskStatus::Skipped,
        t.not_safely_depends ==> notified(t, id, st).status == t.status,
{
}

proof fn lemma_fitting_in_pool(
    infos: Seq<GpuInfo>,
    reserves: Seq<u64>,
    pool: Seq<u32>,
    allocs: Seq<(u32, Seq<(u32, u64)>)>,
    free: Seq<(u32, u64)>,
    req: GpuRequirement,
    n: nat,
)
    requires
        n <= infos.len(),
    ensures
        forall|a: int| 0 <= a < fitting_gpus(infos, reserves, pool, allocs, free, req, n).len() ==> pool.contains(
            #[trigger] fitting_gpus(infos, reserves, pool, allocs, free, req, n)[a],
        ),
    decreases n,
{
    if n > 0 {
        lemma_fitting_in_pool(infos, reserves, pool, allocs, free, req, (n - 1) as nat);
        let prev = fitting_gpus(infos, reserves, pool, allocs, free, req, (n - 1) as nat);
        let cur = fitting_gpus(infos, reserves, pool, allocs, free, req, n);
        assert forall|a: int| 0 <= a < cur.len() implies pool.contains(#[trigger] cur[a]) by {
            if a < prev.len() {
                assert(cur[a] == prev[a]);
            }
        }
    }
}

/// The GPUs given to a task are as many as it asks for, and all in the pool.
pub proof fn law_gpu_choice_in_pool(
    infos: Seq<GpuInfo>,
    reserves: Seq<u64>,
    pool: Seq<u32>,
    allocs: Seq<(u32, Seq<(u32, u64)>)>,
    free: Seq<(u32, u64)>,
    req: GpuRequirement,
    gpus: Seq<u32>,
)
    requires
        gpu_choice(infos, reserves, pool, allocs, free, req) == Some(gpus),
    ensures
        gpus.len() == req.count,
        forall|a: int| 0 <= a < gpus.len() ==> pool.contains(#[trigger] gpus[a]),
{
    let c = fitting_gpus(infos, reserves, pool, allocs, free, req, infos.len());
    lemma_fitting_in_pool(infos, reserves, pool, allocs, free, req, infos.len());
    assert forall|a: int| 0 <= a < gpus.len() implies pool.contains(#[trigger] gpus[a]) by {
        assert(gpus[a] == c[a]);
    }
}

proof fn lemma_dependency_entries_has(rows: Seq<(u32, TaskView)>, ids: Seq<u32>, j: int)
    requires
        0 <= j < rows.len(),
        ids.contains(rows[j].0),
    ensures
        dependency_entries(rows, ids).contains((rows[j].0, rows[j].1.status)),
    decreases rows.len(),
{
    let p = rows.drop_last();
    let prev = dependency_entries(p, ids);
    if j == rows.len() - 1 {
        assert(dependency_entries(rows, ids) == prev.push((rows[j].0, rows[j].1.status)));
        assert(dependency_entries(rows, ids)[prev.len() as int] == (rows[j].0, rows[j].1.status));
    } else {
        assert(p[j] == rows[j]);
        lemma_dependency_entries_has(p, ids, j);
        let q = choose|q: int| 0 <= q < prev.len() && prev[q] == (rows[j].0, rows[j].1.status);
        let cur = dependency_entries(rows, ids);
        if ids.contains(rows.last().0) {
            assert(cur[q] == prev[q]);
        } else {
            assert(cur == prev);
        }
    }
}

/// Queueing a task behind others links both ways: each listed task that
/// exists records that the new task waits for it, and the new task records
/// the status each had.
pub proof fn law_push_links_both_ways(rows: Seq<(u32, TaskView)>, ids: Seq<u32>, id: u32, t: TaskView, k: u32)
    requires
        ids_increasing(rows),
        ids.contains(k),
        rows_map(rows).contains_key(k),
        k != id,
    ensures
        after_push(rows, ids, id, t).contains_key(k),
        after_push(rows, ids, id, t)[k] == with_requirer(rows_map(rows)[k], id),
        after_push(rows, ids, id, t)[id].dependencies.contains((k, rows_map(rows)[k].status)),
{
    let j = choose|j: int| 0 <= j < rows.len() && (#[trigger] rows[j]).0 == k;
    lemma_rows_map_at(rows, j);
    let m = mark_requirers(rows, ids, id);
    assert(m[j] == (k, with_requirer(rows[j].1, id)));
    assert(ids_increasing(m)) by {
        assert forall|a: int, b: int| 0 <= a < b < m.len() implies #[trigger] m[a].0 < #[trigger] m[b].0 by {
            assert(m[a].0 == rows[a].0);
            assert(m[b].0 == rows[b].0);
        }
    }
    lemma_rows_map_at(m, j);
    lemma_dependency_entries_has(rows, ids, j);
}

/// Following a log loses and invents nothing: the lines handed out, each
/// with its newline put back, followed by the bytes still waiting, are the
/// bytes that were waiting followed by the new ones; and what waits holds no
/// newline.
pub proof fn law_log_lines_keep_every_byte(waiting: Seq<u8>, new: Seq<u8>)
    ensures
        unsplit(scan(waiting + new).0) + scan(waiting + new).1 == waiting + new,
        !scan(waiting + new).1.contains(newline()),
{
    lemma_scan_unsplit(waiting + new);
    lemma_scan_rest_has_no_newline(waiting + new);
}

/// Cutting a log's bytes into chunks anywhere, inside a line or a character
/// too, changes nothing: handing the chunks one after another to the line
/// splitter, starting with bytes that hold no newline, hands out the same
/// lines and leaves the same bytes waiting as handing it all the bytes at
/// once; and a last call that flushes what waits ends with the lines that
/// one flushing call on all the bytes hands out.
pub proof fn law_log_chunks_give_the_same_lines(waiting: Seq<u8>, chunks: Seq<Seq<u8>>)
    requires
        !waiting.contains(newline()),
    ensures
        feed_chunks(waiting, chunks) == scan(waiting + concat_chunks(chunks)),
        feed_chunks(waiting, chunks).0 + flushed(scan(feed_chunks(waiting, chunks).1 + Seq::<u8>::empty()))
            == flushed(scan(waiting + concat_chunks(chunks))),
{
    lemma_log_chunks(waiting, chunks);
    let (ls, rest) = scan(waiting + concat_chunks(chunks));
    lemma_scan_rest_has_no_newline(waiting + concat_chunks(chunks));
    assert(rest + Seq::<u8>::empty() =~= rest);
    lemma_scan_without_newline(rest);
    if rest.len() > 0 {
        assert(ls + seq![rest] =~= ls.push(rest));
    } else {
        assert(ls + Seq::<Seq<u8>>::empty() =~= ls);
    }
}

proof fn lemma_log_chunks(waiting: Seq<u8>, chunks: Seq<Seq<u8>>)
    requires
        !waiting.contains(newline()),
    ensures
        feed_chunks(waiting, chunks) == scan(waiting + concat_chunks(chunks)),
    decreases chunks.len(),
{
    if chunks.len() == 0 {
        lemma_scan_without_newline(waiting);
        assert(waiting + concat_chunks(chunks) =~= waiting);
    } else {
        let init = chunks.drop_last();
        lemma_log_chunks(waiting, init);
        let p = waiting + concat_chunks(init);
        lemma_scan_append(p, chunks.last());
        assert(p + chunks.last() =~= waiting + concat_chunks(chunks));
    }
}

/// Ids are never reused. A push takes the counter as the new task's id, and
/// while every id is below the counter that id is new and above every id a
/// task has; afterwards every id, the new one too, is below the raised
/// counter.
pub proof fn law_push_takes_a_new_id(rows: Seq<(u32, TaskView)>, ids: Seq<u32>, c: u32, t: TaskView)
    requires
        forall|k: u32| rows_map(rows).contains_key(k) ==> k < c,
    ensures
        !rows_map(rows).contains_key(c),
        after_push(rows, ids, c, t).contains_key(c),
        forall|k: u32| #[trigger] after_push(rows, ids, c, t).contains_key(k) ==> k <= c,
        forall|k: u32| rows_map(rows).contains_key(k) ==> #[trigger] after_push(rows, ids, c, t).contains_key(k),
{
    lemma_after_push_keys(rows, ids, c, t);
}

/// Starting tasks, ending them, telling the tasks that wait, and recording a
/// launch keep each row's id and the counter, so every id stays below the
/// counter, and the next push still takes an id no task ever had.
pub proof fn law_worker_keeps_ids_below_counter(s: ServerState, s2: ServerState)
    requires
        s.ids_below_counter(),
        keeps_ids(s.tasks.rows(), s2.tasks.rows()),
        s2.task_id_counter == s.task_id_counter,
    ensures
        s2.ids_below_counter(),
{
    lemma_same_ids_same_keys(s.tasks.rows(), s2.tasks.rows());
    assert forall|k: u32| s2.tasks@.contains_key(k) implies k < s2.task_id_counter by {
        assert(rows_map(s2.tasks.rows()).contains_key(k));
        assert(s.tasks@.contains_key(k));
    }
}

/// Each pair of tasks is linked both ways or not at all: a task lists another
/// among its dependencies exactly when that other lists it among the tasks
/// that wait for it.
pub open spec fn links_consistent(m: Map<u32, TaskView>) -> bool {
    forall|i: u32, j: u32|
        #![trigger m[i], m[j]]
        m.contains_key(i) && m.contains_key(j) ==> (has_dep(m[i].dependencies, j) <==> m[j].required.contains(i))
}

/// Every id the tasks hold, their own, those of their dependencies and those
/// of the tasks waiting for them, is below `c`.
pub open spec fn refs_below(m: Map<u32, TaskView>, c: int) -> bool {
    forall|i: u32|
        #[trigger] m.contains_key(i) ==> {
            &&& i < c
            &&& forall|a: int| 0 <= a < m[i].dependencies.len() ==> (#[trigger] m[i].dependencies[a]).0 < c
            &&& forall|a: int| 0 <= a < m[i].required.len() ==> #[trigger] m[i].required[a] < c
        }
}

/// The recorded dependencies are the listed ids that have rows.
proof fn lemma_dependency_entries_ids(rows: Seq<(u32, TaskView)>, ids: Seq<u32>)
    ensures
        forall|j: u32| has_dep(dependency_entries(rows, ids), j) <==> (has_id(rows, j) && ids.contains(j)),
        forall|a: int|
            0 <= a < dependency_entries(rows, ids).len() ==> has_id(rows, (#[trigger] dependency_entries(rows, ids)[a]).0),
    decreases rows.len(),
{
    if rows.len() > 0 {
        let p = rows.drop_last();
        lemma_dependency_entries_ids(p, ids);
        let prev = dependency_entries(p, ids);
        let cur = dependency_entries(rows, ids);
        let last = rows.last();
        assert forall|a: int| 0 <= a < cur.len() implies has_id(rows, (#[trigger] cur[a]).0) by {
            if a < prev.len() {
                assert(cur[a] == prev[a]);
                let q = choose|q: int| 0 <= q < p.len() && (#[trigger] p[q]).0 == prev[a].0;
                assert(rows[q] == p[q]);
            } else {
                assert(rows[rows.len() - 1].0 == cur[a].0);
            }
        }
        assert forall|j: u32| has_dep(cur, j) <==> (has_id(rows, j) && ids.contains(j)) by {
            if has_dep(cur, j) {
                let a = choose|a: int| 0 <= a < cur.len() && (#[trigger] cur[a]).0 == j;
                if a < prev.len() {
                    assert(cur[a] == prev[a]);
                    assert(has_dep(prev, j));
                    let q = choose|q: int| 0 <= q < p.len() && (#[trigger] p[q]).0 == j;
                    assert(rows[q] == p[q]);
                } else {
                    assert(rows[rows.len() - 1].0 == j);
                }
            }
            if has_id(rows, j) && ids.contains(j) {
                let q = choose|q: int| 0 <= q < rows.len() && (#[trigger] rows[q]).0 == j;
                if q < rows.len() - 1 {
                    assert(p[q] == rows[q]);
                    assert(has_id(p, j));
                    let a = choose|a: int| 0 <= a < prev.len() && (#[trigger] prev[a]).0 == j;
                    assert(cur[a] == prev[a]);
                } else {
                    assert(cur[prev.len() as int] == (last.0, last.1.status));
                }
            }
        }
    }
}

/// After a push, an old task is itself, recording the new task among those
/// waiting for it when it was listed.
proof fn lemma_after_push_old(rows: Seq<(u32, TaskView)>, ids: Seq<u32>, c: u32, t: TaskView, k: u32)
    requires
        ids_increasing(rows),
        rows_map(rows).contains_key(k),
        k != c,
    ensures
        after_push(rows, ids, c, t).contains_key(k),
        after_push(rows, ids, c, t)[k] == if ids.contains(k) {
            with_requirer(rows_map(rows)[k], c)
        } else {
            rows_map(rows)[k]
        },
{
    let j = choose|j: int| 0 <= j < rows.len() && (#[trigger] rows[j]).0 == k;
    lemma_rows_map_at(rows, j);
    let m = mark_requirers(rows, ids, c);
    lemma_mark_requirers_ids(rows, ids, c);
    assert(ids_increasing(m)) by {
        assert forall|a: int, b: int| 0 <= a < b < m.len() implies #[trigger] m[a].0 < #[trigger] m[b].0 by {
            assert(m[a].0 == rows[a].0);
            assert(m[b].0 == rows[b].0);
        }
    }
    lemma_rows_map_at(m, j);
}

/// No task has the id `c`, and none names it as a dependency or as a task
/// waiting for it.
pub open spec fn id_unused(m: Map<u32, TaskView>, c: u32) -> bool {
    &&& !m.contains_key(c)
    &&& forall|i: u32|
        #[trigger] m.contains_key(i) ==> !has_dep(m[i].dependencies, c) && !m[i].required.contains(c)
}

/// Every id held below the counter leaves the counter unused.
pub proof fn lemma_refs_below_unused(m: Map<u32, TaskView>, c: u32)
    requires
        refs_below(m, c as int),
    ensures
        id_unused(m, c),
{
    assert forall|i: u32| #[trigger] m.contains_key(i) implies !has_dep(m[i].dependencies, c)
        && !m[i].required.contains(c) by {
        if has_dep(m[i].dependencies, c) {
            let q = choose|q: int| 0 <= q < m[i].dependencies.len() && (#[trigger] m[i].dependencies[q]).0 == c;
            assert(m[i].dependencies[q].0 < c);
        }
        if m[i].required.contains(c) {
            let q = choose|q: int| 0 <= q < m[i].required.len() && m[i].required[q] == c;
            assert(m[i].required[q] < c);
        }
    }
}

/// Queueing a task that nothing waits for keeps every pair of tasks linked
/// both ways or not at all, when the id it takes is unused. (Where some task
/// already names that id among the tasks waiting for it, the new task does
/// not list that task back, and the link breaks.)
pub proof fn law_push_keeps_links_both_ways(rows: Seq<(u32, TaskView)>, ids: Seq<u32>, c: u32, t: TaskView)
    requires
        ids_increasing(rows),
        links_consistent(rows_map(rows)),
        id_unused(rows_map(rows), c),
        t.required.len() == 0,
    ensures
        links_consistent(after_push(rows, ids, c, t)),
{
    let m = rows_map(rows);
    let a = after_push(rows, ids, c, t);
    let entries = dependency_entries(rows, ids);
    lemma_after_push_keys(rows, ids, c, t);
    lemma_dependency_entries_ids(rows, ids);
    assert(a[c] == TaskView { dependencies: entries, ..t });
    assert(!m.contains_key(c));
    assert forall|i: u32, j: u32| a.contains_key(i) && a.contains_key(j) implies (has_dep(a[i].dependencies, j)
        <==> a[j].required.contains(i)) by {
        if i != c {
            lemma_after_push_old(rows, ids, c, t, i);
            assert(a[i].dependencies == m[i].dependencies);
        }
        if j != c {
            lemma_after_push_old(rows, ids, c, t, j);
            lemma_push_contains(m[j].required, c, i);
            assert(m.contains_key(j));
        }
        if i != c && j != c {
            assert(m.contains_key(i) && m.contains_key(j));
            assert(m[i] == m[i] && m[j] == m[j]);
        }
        if i != c && j == c {
            assert(m.contains_key(i));
        }
        if i == c && j == c {
            assert(!has_id(rows, c));
        }
    }
}

/// Queueing a task that nothing waits for, under the counter, keeps every id
/// the tasks hold below the counter: so every state that pushes reach from
/// an empty table has its counter unused.
pub proof fn law_push_keeps_refs_below(rows: Seq<(u32, TaskView)>, ids: Seq<u32>, c: u32, t: TaskView)
    requires
        ids_increasing(rows),
        refs_below(rows_map(rows), c as int),
        t.required.len() == 0,
    ensures
        refs_below(after_push(rows, ids, c, t), c + 1),
{
    let m = rows_map(rows);
    let a = after_push(rows, ids, c, t);
    let entries = dependency_entries(rows, ids);
    lemma_after_push_keys(rows, ids, c, t);
    lemma_dependency_entries_ids(rows, ids);
    assert(a[c] == TaskView { dependencies: entries, ..t });
    assert forall|i: u32| #[trigger] a.contains_key(i) implies {
        &&& i < c + 1
        &&& forall|q: int| 0 <= q < a[i].dependencies.len() ==> (#[trigger] a[i].dependencies[q]).0 < c + 1
        &&& forall|q: int| 0 <= q < a[i].required.len() ==> #[trigger] a[i].required[q] < c + 1
    } by {
        if i == c {
            assert forall|q: int| 0 <= q < a[i].dependencies.len() implies (#[trigger] a[i].dependencies[q]).0 < c + 1 by {
                assert(has_id(rows, entries[q].0));
                let r = choose|r: int| 0 <= r < rows.len() && (#[trigger] rows[r]).0 == entries[q].0;
                lemma_rows_map_at(rows, r);
            }
        } else {
            lemma_after_push_old(rows, ids, c, t, i);
            assert forall|q: int| 0 <= q < a[i].required.len() implies #[trigger] a[i].required[q] < c + 1 by {
                if q < m[i].required.len() {
                    assert(a[i].required[q] == m[i].required[q]);
                }
            }
            assert forall|q: int| 0 <= q < a[i].dependencies.len() implies (#[trigger] a[i].dependencies[q]).0 < c + 1 by {
                assert(a[i].dependencies[q] == m[i].dependencies[q]);
            }
        }
    }
}

/// Deciding on one task keeps the slots within their number: the count of
/// used slots stays, or grows by one when the task, pending before, now runs.
pub proof fn law_start_keeps_slots(
    s: ServerState,
    s2: ServerState,
    i: int,
    free: Seq<(u32, u64)>,
    now: crate::task::Timestamp,
    started: bool,
)
    requires
        0 <= i < s.tasks.rows().len(),
        start_step(s, s2, i, free, now, started),
        s2.num_slots == s.num_slots,
        s.used_slots <= s.num_slots,
    ensures
        s2.used_slots <= s2.num_slots,
        s2.used_slots == s.used_slots || (s2.used_slots == s.used_slots + 1 && s.tasks.rows()[i].1.status
            == TaskStatus::Pending && s2.tasks.rows()[i].1.status == TaskStatus::Running),
{
}

/// Ids are never reused, across any calls: after a push took id `m` (and
/// raised the counter to `m + 1`), operations that keep or raise the counter,
/// as every operation does, lead to a push taking the counter `n`, which is
/// above `m`, is `m + 1` when the counter did not move in between, and names
/// no task while every id is below the counter.
pub proof fn law_later_push_takes_larger_id(m: u32, s1: ServerState, s2: ServerState)
    requires
        s1.task_id_counter == m + 1,
        s2.task_id_counter >= s1.task_id_counter,
        s2.ids_below_counter(),
    ensures
        s2.task_id_counter > m,
        s2.task_id_counter == s1.task_id_counter ==> s2.task_id_counter == m + 1,
        !s2.tasks@.contains_key(s2.task_id_counter),
{
}

/// Whether a GPU has room for a task, written out: it is in the pool, and
/// its memory less the larger of what NVML reports in use (memory less the
/// reported free bytes) and what running tasks reserve on it, never below 0,
/// is at least what the task needs on it, its own figure or else the GPU's
/// threshold share `share`. Memory both reserved and seen in use counts once.
pub open spec fn has_room(
    info: GpuInfo,
    share: u64,
    pool: Seq<u32>,
    allocs: Seq<(u32, Seq<(u32, u64)>)>,
    free: Seq<(u32, u64)>,
    req: GpuRequirement,
) -> bool {
    let total: int = info.total_memory_bytes as int;
    let seen_free: int = reported_free(free, info.index) as int;
    let in_use: int = if seen_free >= total { 0 } else { total - seen_free };
    let held: int = reserved_on(allocs, info.index);
    let taken: int = if in_use >= held { in_use } else { held };
    let left: int = if taken >= total { 0 } else { total - taken };
    let need: int = match req.min_free_mem_bytes {
        Some(b) => b as int,
        None => share as int,
    };
    &&& pool.contains(info.index)
    &&& left >= need
}

proof fn lemma_fits_is_room(
    info: GpuInfo,
    share: u64,
    pool: Seq<u32>,
    allocs: Seq<(u32, Seq<(u32, u64)>)>,
    free: Seq<(u32, u64)>,
    req: GpuRequirement,
)
    ensures
        gpu_fits(info, share, pool, allocs, free, req) == has_room(info, share, pool, allocs, free, req),
{
}

proof fn lemma_fitting_from_infos(
    infos: Seq<GpuInfo>,
    reserves: Seq<u64>,
    pool: Seq<u32>,
    allocs: Seq<(u32, Seq<(u32, u64)>)>,
    free: Seq<(u32, u64)>,
    req: GpuRequirement,
    n: nat,
)
    requires
        n <= infos.len(),
        reserves.len() == infos.len(),
    ensures
        forall|k: int|
            0 <= k < fitting_gpus(infos, reserves, pool, allocs, free, req, n).len() ==> exists|j: int|
                0 <= j < n && infos[j].index == #[trigger] fitting_gpus(infos, reserves, pool, allocs, free, req, n)[k]
                    && has_room(infos[j], reserves[j], pool, allocs, free, req),
    decreases n,
{
    if n > 0 {
        let m = (n - 1) as nat;
        lemma_fitting_from_infos(infos, reserves, pool, allocs, free, req, m);
        let prev = fitting_gpus(infos, reserves, pool, allocs, free, req, m);
        let cur = fitting_gpus(infos, reserves, pool, allocs, free, req, n);
        lemma_fits_is_room(infos[n - 1], reserves[n - 1], pool, allocs, free, req);
        assert forall|k: int| 0 <= k < cur.len() implies exists|j: int|
            0 <= j < n && infos[j].index == #[trigger] cur[k] && has_room(infos[j], reserves[j], pool, allocs, free, req) by {
            if k < prev.len() {
                assert(cur[k] == prev[k]);
                let j = choose|j: int|
                    0 <= j < m && infos[j].index == #[trigger] prev[k] && has_room(infos[j], reserves[j], pool, allocs, free, req);
                assert(infos[j].index == cur[k]);
            } else {
                assert(cur[k] == infos[n - 1].index);
            }
        }
    }
}

proof fn lemma_fitting_counts(
    infos: Seq<GpuInfo>,
    reserves: Seq<u64>,
    pool: Seq<u32>,
    allocs: Seq<(u32, Seq<(u32, u64)>)>,
    free: Seq<(u32, u64)>,
    req: GpuRequirement,
    n: nat,
    ps: Seq<int>,
)
    requires
        n <= infos.len(),
        reserves.len() == infos.len(),
        forall|a: int, b: int| 0 <= a < b < ps.len() ==> #[trigger] ps[a] < #[trigger] ps[b],
        forall|a: int| 0 <= a < ps.len() ==> 0 <= #[trigger] ps[a] < n,
        forall|a: int|
            0 <= a < ps.len() ==> has_room(infos[#[trigger] ps[a]], reserves[ps[a]], pool, allocs, free, req),
    ensures
        fitting_gpus(infos, reserves, pool, allocs, free, req, n).len() >= ps.len(),
    decreases n,
{
    if ps.len() > 0 {
        assert(0 <= ps[0] < n);
        let m = (n - 1) as nat;
        let prev = fitting_gpus(infos, reserves, pool, allocs, free, req, m);
        lemma_fits_is_room(infos[n - 1], reserves[n - 1], pool, allocs, free, req);
        let last = ps[ps.len() - 1];
        assert(0 <= last < n);
        if last == n - 1 {
            assert(has_room(infos[last], reserves[last], pool, allocs, free, req));
            assert(gpu_fits(infos[n - 1], reserves[n - 1], pool, allocs, free, req));
            assert(fitting_gpus(infos, reserves, pool, allocs, free, req, n) == prev.push(infos[n - 1].index));
            let q = ps.drop_last();
            assert forall|a: int| 0 <= a < q.len() implies 0 <= #[trigger] q[a] < m by {
                assert(q[a] == ps[a]);
                assert(ps[a] < ps[ps.len() - 1]);
            }
            assert forall|a: int, b: int| 0 <= a < b < q.len() implies #[trigger] q[a] < #[trigger] q[b] by {
                assert(q[a] == ps[a] && q[b] == ps[b]);
            }
            assert forall|a: int| 0 <= a < q.len() implies has_room(infos[#[trigger] q[a]], reserves[q[a]], pool, allocs, free, req) by {
                assert(q[a] == ps[a]);
            }
            lemma_fitting_counts(infos, reserves, pool, allocs, free, req, m, q);
        } else {
            assert forall|a: int| 0 <= a < ps.len() implies 0 <= #[trigger] ps[a] < m by {
                if a < ps.len() - 1 {
                    assert(ps[a] < ps[ps.len() - 1]);
                }
            }
            lemma_fitting_counts(infos, reserves, pool, allocs, free, req, m, ps);
            assert(fitting_gpus(infos, reserves, pool, allocs, free, req, n).len() >= prev.len());
        }
    }
}

/// The GPUs chosen for a task are GPUs with room for it (see [`has_room`]),
/// as many as it asks for; and whenever that many GPUs of the server have
/// room, GPUs are chosen. So memory that running tasks reserve and that NVML
/// also sees in use is counted once.
pub proof fn law_gpu_choice_takes_gpus_with_room(
    infos: Seq<GpuInfo>,
    reserves: Seq<u64>,
    pool: Seq<u32>,
    allocs: Seq<(u32, Seq<(u32, u64)>)>,
    free: Seq<(u32, u64)>,
    req: GpuRequirement,
)
    requires
        reserves.len() == infos.len(),
    ensures
        gpu_choice(infos, reserves, pool, allocs, free, req) matches Some(gpus) ==> {
            &&& gpus.len() == req.count
            &&& forall|k: int|
                0 <= k < gpus.len() ==> exists|j: int|
                    0 <= j < infos.len() && infos[j].index == #[trigger] gpus[k] && has_room(
                        infos[j],
                        reserves[j],
                        pool,
                        allocs,
                        free,
                        req,
                    )
        },
        forall|ps: Seq<int>|
            ps.len() == req.count && (forall|a: int, b: int| 0 <= a < b < ps.len() ==> #[trigger] ps[a] < #[trigger] ps[b])
                && (forall|a: int| 0 <= a < ps.len() ==> 0 <= #[trigger] ps[a] < infos.len())
                && (forall|a: int|
                0 <= a < ps.len() ==> has_room(infos[#[trigger] ps[a]], reserves[ps[a]], pool, allocs, free, req))
                ==> #[trigger] gpu_choice(infos, reserves, pool, allocs, free, req) is Some,
{
    let n = infos.len();
    let c = fitting_gpus(infos, reserves, pool, allocs, free, req, n);
    lemma_fitting_from_infos(infos, reserves, pool, allocs, free, req, n);
    if let Some(gpus) = gpu_choice(infos, reserves, pool, allocs, free, req) {
        assert forall|k: int| 0 <= k < gpus.len() implies exists|j: int|
            0 <= j < infos.len() && infos[j].index == #[trigger] gpus[k] && has_room(infos[j], reserves[j], pool, allocs, free, req) by {
            assert(gpus[k] == c[k]);
        }
    }
    assert forall|ps: Seq<int>|
        ps.len() == req.count && (forall|a: int, b: int| 0 <= a < b < ps.len() ==> #[trigger] ps[a] < #[trigger] ps[b])
            && (forall|a: int| 0 <= a < ps.len() ==> 0 <= #[trigger] ps[a] < infos.len())
            && (forall|a: int|
            0 <= a < ps.len() ==> has_room(infos[#[trigger] ps[a]], reserves[ps[a]], pool, allocs, free, req))
            implies #[trigger] gpu_choice(infos, reserves, pool, allocs, free, req) is Some by {
        lemma_fitting_counts(infos, reserves, pool, allocs, free, req, n, ps);
    }
}

/// The threshold share of the GPU with index `idx` is the share listed
/// beside the first GPU with that index.
proof fn lemma_share_of_first(infos: Seq<GpuInfo>, reserves: Seq<u64>, idx: u32, j: int)
    requires
        reserves.len() == infos.len(),
        0 <= j < infos.len(),
        infos[j].index == idx,
        forall|q: int| 0 <= q < j ==> infos[q].index != idx,
    ensures
        reserve_of_index(infos, reserves, idx) == reserves[j],
    decreases j,
{
    if j > 0 {
        assert(infos[0].index != idx);
        let i2 = infos.drop_first();
        let r2 = reserves.drop_first();
        assert forall|q: int| 0 <= q < j - 1 implies i2[q].index != idx by {
            assert(i2[q] == infos[q + 1]);
        }
        assert(i2[j - 1] == infos[j]);
        lemma_share_of_first(i2, r2, idx, j - 1);
        assert(r2[j - 1] == reserves[j]);
    }
}

/// Some GPU of the list has the index `idx`: the first one does.
proof fn lemma_first_with_index(infos: Seq<GpuInfo>, idx: u32, j: int) -> (f: int)
    requires
        0 <= j < infos.len(),
        infos[j].index == idx,
    ensures
        0 <= f <= j,
        infos[f].index == idx,
        forall|q: int| 0 <= q < f ==> infos[q].index != idx,
    decreases j,
{
    if exists|q: int| 0 <= q < j && infos[q].index == idx {
        let q = choose|q: int| 0 <= q < j && infos[q].index == idx;
        lemma_first_with_index(infos, idx, q)
    } else {
        j
    }
}

/// When a GPU task starts on GPUs `g`, the reservations hold, under its id,
/// each GPU of `g` with the same bytes: the task's own memory figure when it
/// names one, and otherwise the threshold share listed in `gpu_reserves`
/// beside the GPU `g[0]` (the first GPU with that index). The GPUs are as
/// many as the task asks for, and each has room for it.
pub proof fn law_started_gpu_task_reserves(
    s: crate::state::ServerState,
    s2: crate::state::ServerState,
    i: int,
    free: Seq<(u32, u64)>,
    now: crate::task::Timestamp,
)
    requires
        s.wf(),
        0 <= i < s.tasks.rows().len(),
        start_step(s, s2, i, free, now, true),
        s.tasks.rows()[i].1.gpu_requirement is Some,
    ensures
        ({
            let req = s.tasks.rows()[i].1.gpu_requirement->0;
            let infos = s.gpu_infos@;
            let reserves = s.gpu_reserves@;
            exists|g: Seq<u32>, list: Seq<(u32, u64)>|
                #[trigger] alloc_lookup(allocs_view(s2.gpu_allocations@), s.tasks.rows()[i].0) == Some(list)
                    && g.len() == req.count && list.len() == g.len() && (forall|k: int|
                    0 <= k < g.len() ==> (#[trigger] list[k]).0 == g[k] && exists|j: int|
                        0 <= j < infos.len() && infos[j].index == g[k] && has_room(
                            infos[j],
                            reserves[j],
                            s.gpu_ids@,
                            allocs_view(s.gpu_allocations@),
                            free,
                            req,
                        )) && (forall|k: int|
                    0 <= k < g.len() ==> match req.min_free_mem_bytes {
                        Some(b) => (#[trigger] list[k]).1 == b,
                        None => exists|j: int|
                            0 <= j < infos.len() && infos[j].index == g[0] && (forall|q: int|
                                0 <= q < j ==> infos[q].index != g[0]) && (#[trigger] list[k]).1 == reserves[j],
                    })
        }),
{
    let r = s.tasks.rows();
    let req = r[i].1.gpu_requirement->0;
    let infos = s.gpu_infos@;
    let reserves = s.gpu_reserves@;
    let a = allocs_view(s.gpu_allocations@);
    law_gpu_choice_takes_gpus_with_room(infos, reserves, s.gpu_ids@, a, free, req);
    assert(gpu_choice(infos, reserves, s.gpu_ids@, a, free, req) is Some);
    let g = gpu_choice(infos, reserves, s.gpu_ids@, a, free, req)->0;
    let bytes = crate::gpu::per_gpu_reserve(infos, reserves, req, g[0]);
    let list = crate::worker::reservation_list(g, bytes);
    lemma_alloc_insert_lookup(a, r[i].0, list, r[i].0);
    assert(alloc_lookup(allocs_view(s2.gpu_allocations@), r[i].0) == Some(list));
    if req.min_free_mem_bytes is None && g.len() > 0 {
        let j0 = choose|j: int| 0 <= j < infos.len() && infos[j].index == #[trigger] g[0] && has_room(
            infos[j], reserves[j], s.gpu_ids@, a, free, req);
        let f = lemma_first_with_index(infos, g[0], j0);
        lemma_share_of_first(infos, reserves, g[0], f);
        assert forall|k: int| 0 <= k < g.len() implies exists|j: int|
            0 <= j < infos.len() && infos[j].index == g[0] && (forall|q: int| 0 <= q < j ==> infos[q].index != g[0])
                && (#[trigger] list[k]).1 == reserves[j] by {
            assert(list[k].1 == reserves[f]);
        }
    }
    assert forall|k: int| 0 <= k < g.len() implies (#[trigger] list[k]).0 == g[k] && exists|j: int|
        0 <= j < infos.len() && infos[j].index == g[k] && has_room(infos[j], reserves[j], s.gpu_ids@, a, free, req) by {
        assert(list[k] == (g[k], bytes));
        let j = choose|j: int| 0 <= j < infos.len() && infos[j].index == #[trigger] g[k] && has_room(
            infos[j], reserves[j], s.gpu_ids@, a, free, req);
    }
    assert forall|k: int| 0 <= k < g.len() implies match req.min_free_mem_bytes {
        Some(b) => (#[trigger] list[k]).1 == b,
        None => exists|j: int|
            0 <= j < infos.len() && infos[j].index == g[0] && (forall|q: int| 0 <= q < j ==> infos[q].index != g[0])
                && (#[trigger] list[k]).1 == reserves[j],
    } by {
        assert(list[k] == (g[k], bytes));
    }
}

/// When a task ends Failed, Killed or Skipped, each task told of it that
/// lists it as a dependency and waits for it to succeed (not_safely_depends
/// false) is Skipped afterwards, and records that status for it; one that
/// starts whatever happens keeps its status and records it too.
pub proof fn law_failure_or_kill_skips_waiting_tasks(
    rows: Seq<(u32, TaskView)>,
    id: u32,
    st: TaskStatus,
    required: Seq<u32>,
    j: int,
)
    requires
        st == TaskStatus::Failed || st == TaskStatus::Killed || st == TaskStatus::Skipped,
        0 <= j < rows.len(),
        required.contains(rows[j].0),
        has_dep(rows[j].1.dependencies, id),
    ensures
        !rows[j].1.not_safely_depends ==> notify_required(rows, id, st, required)[j].1.status == TaskStatus::Skipped,
        rows[j].1.not_safely_depends ==> notify_required(rows, id, st, required)[j].1.status == rows[j].1.status,
        notify_required(rows, id, st, required)[j].1.dependencies.contains((id, st)),
        forall|q: int|
            0 <= q < rows[j].1.dependencies.len() && rows[j].1.dependencies[q].0 == id ==> #[trigger] notify_required(
                rows,
                id,
                st,
                required,
            )[j].1.dependencies[q] == (id, st),
{
    let d = rows[j].1.dependencies;
    let q = choose|q: int| 0 <= q < d.len() && (#[trigger] d[q]).0 == id;
    let n = notify_required(rows, id, st, required)[j].1.dependencies;
    assert(n[q] == (id, st));
}

/// When a task ends Completed, each task told of it keeps its status and
/// records the completion.
pub proof fn law_completion_keeps_waiting_tasks(
    rows: Seq<(u32, TaskView)>,
    id: u32,
    required: Seq<u32>,
    j: int,
)
    requires
        0 <= j < rows.len(),
    ensures
        notify_required(rows, id, TaskStatus::Completed, required)[j].1.status == rows[j].1.status,
{
}

/// A task's process failing or being killed skips, in the same step, each
/// task that waits for it to succeed and that it lists among the tasks
/// waiting for it.
pub proof fn law_failed_or_killed_task_skips_dependents(
    rows: Seq<(u32, TaskView)>,
    pos: int,
    action: crate::task::TaskAction,
    end: crate::task::Timestamp,
    j: int,
)
    requires
        0 <= pos < rows.len(),
        0 <= j < rows.len(),
        j != pos,
        action is Fail || action is Kill,
        rows[pos].1.required.contains(rows[j].0),
        has_dep(rows[j].1.dependencies, rows[pos].0),
        !rows[j].1.not_safely_depends,
    ensures
        after_finish(rows, pos, action, end)[j].1.status == TaskStatus::Skipped,
{
    let ft = finished_view(rows[pos].1, action, end);
    let u = rows.update(pos, (rows[pos].0, ft));
    assert(u[j] == rows[j]);
    law_failure_or_kill_skips_waiting_tasks(u, rows[pos].0, ft.status, ft.required, j);
}

/// Clearing every ended task keeps exactly the tasks that are Pending or
/// Running, each as it was.
pub proof fn law_clear_keeps_pending_and_running(m: Map<u32, TaskView>)
    ensures
        forall|k: u32|
            #[trigger] crate::state::unfinished_only(m).contains_key(k) <==> (m.contains_key(k) && (m[k].status
                == TaskStatus::Pending || m[k].status == TaskStatus::Running)),
        forall|k: u32| #[trigger] crate::state::unfinished_only(m).contains_key(k) ==> crate::state::unfinished_only(m)[k] == m[k],
{
}

/// The task queued from a push request, under the counter, is pending, was
/// created at the clock's reading, and has the request's label, command, log
/// path, working directory, environment, wait or delay mode and GPU
/// requirement; it records the listed tasks that exist as its dependencies
/// and nothing waits for it yet.
pub proof fn law_pushed_task_follows_request(
    rows: Seq<(u32, TaskView)>,
    ids: Seq<u32>,
    c: u32,
    req: crate::scheme::PushTaskRequest,
    now: crate::task::Timestamp,
)
    ensures
        ({
            let t = after_push(rows, ids, c, crate::state::task_from_request(req, now))[c];
            &&& after_push(rows, ids, c, crate::state::task_from_request(req, now)).contains_key(c)
            &&& t.status == TaskStatus::Pending
            &&& t.create_time == now
            &&& t.start_time is None && t.end_time is None && t.pid is None && t.exit_code is None
            &&& t.command == req.command@
            &&& t.current_dir == req.current_dir@
            &&& t.not_safely_depends == req.not_safely_depends
            &&& t.gpu_requirement == req.gpu_requirement
            &&& (match req.label {
                Some(l) => t.label == Some(l@),
                None => t.label is None,
            })
            &&& (match req.log_path {
                Some(l) => t.log_path == Some(l@),
                None => t.log_path is None,
            })
            &&& t.envs.len() == req.envs@.len()
            &&& forall|k: int| 0 <= k < req.envs@.len() ==> #[trigger] t.envs[k] == (req.envs@[k].0@, req.envs@[k].1@)
            &&& t.dependencies == dependency_entries(rows, ids)
            &&& t.required.len() == 0
        }),
{
}

/// A task whose process completed is Completed with exit code 0; one that
/// failed with code `c` is Failed with exit code `c`; one that was killed is
/// Killed with exit code 1; each ended at `end`, and is otherwise unchanged.
pub proof fn law_finished_task_status(t: TaskView, action: crate::task::TaskAction, end: crate::task::Timestamp)
    requires
        !(action is Run),
    ensures
        finished_view(t, action, end).status == match action {
            crate::task::TaskAction::Complete => TaskStatus::Completed,
            crate::task::TaskAction::Fail(_) => TaskStatus::Failed,
            _ => TaskStatus::Killed,
        },
        finished_view(t, action, end).exit_code == Some(match action {
            crate::task::TaskAction::Complete => 0i32,
            crate::task::TaskAction::Fail(c) => c,
            _ => 1i32,
        }),
        finished_view(t, action, end).end_time == Some(end),
        finished_view(t, action, end).dependencies == t.dependencies,
        finished_view(t, action, end).required == t.required,
        finished_view(t, action, end).command == t.command,
{
}

} // verus!
