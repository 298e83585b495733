//! GPUs: what NVML reports of them, and which GPUs can take a task.

use vstd::prelude::*;
use crate::task::{GpuInfo, GpuRequirement, contains_id};
use nvml_wrapper::Nvml;
use nvml_wrapper::Device;
use nvml_wrapper::error::NvmlError;

verus! {

#[verifier::external_type_specification]
#[verifier::external_body]
pub struct ExNvml(nvml_wrapper::Nvml);

#[verifier::external_type_specification]
#[verifier::external_body]
pub struct ExDevice<'nvml>(nvml_wrapper::Device<'nvml>);

#[verifier::external_type_specification]
#[verifier::external_body]
pub struct ExNvmlError(nvml_wrapper::error::NvmlError);

/// Calls `Nvml::device_count`: how many GPUs the driver reports. The number
/// comes from the hardware and is not stated.
#[verifier::external_body]
fn device_count(nvml: &Nvml) -> (r: Result<u32, NvmlError>) {
    nvml.device_count()
}

/// Calls `Nvml::device_by_index`: a handle on the GPU with that index. Whether
/// the driver hands one out is not stated.
#[verifier::external_body]
fn device_by_index<'a>(nvml: &'a Nvml, index: u32) -> (r: Result<Device<'a>, NvmlError>) {
    nvml.device_by_index(index)
}

/// Calls `Device::memory_info` and hands back its `free` and `total` fields,
/// in bytes. The figures come from the hardware and are not stated.
#[verifier::external_body]
fn memory_info(device: &Device) -> (r: Result<(u64, u64), NvmlError>) {
    match device.memory_info() {
        Ok(m) => Ok((m.free, m.total)),
        Err(e) => Err(e),
    }
}

/// The GPUs described by NVML's answers, one per index in order: each index
/// whose query gave a total memory figure, with that figure.
pub open spec fn gpus_of(answers: Seq<Option<u64>>) -> Seq<GpuInfo>
    decreases answers.len(),
{
    if answers.len() == 0 {
        Seq::empty()
    } else {
        let rest = gpus_of(answers.drop_last());
        match answers.last() {
            Some(total) => rest.push(GpuInfo { index: (answers.len() - 1) as u32, total_memory_bytes: total }),
            None => rest,
        }
    }
}

/// The free memory described by NVML's answers for the pool `ids`, one answer
/// per id in order: each id whose query gave a figure, with that figure, in
/// the order of the pool.
pub open spec fn free_of(ids: Seq<u32>, answers: Seq<Option<u64>>) -> Seq<(u32, u64)>
    decreases ids.len(),
{
    if ids.len() == 0 {
        Seq::empty()
    } else {
        let rest = free_of(ids.drop_last(), answers.drop_last());
        match answers[ids.len() - 1] {
            Some(f) => rest.push((ids.last(), f)),
            None => rest,
        }
    }
}

/// When no query gave a figure, there is no free memory to report.
pub proof fn lemma_free_of_no_answers(ids: Seq<u32>)
    ensures
        free_of(ids, Seq::new(ids.len(), |k: int| None::<u64>)) == Seq::<(u32, u64)>::empty(),
    decreases ids.len(),
{
    if ids.len() > 0 {
        let nones = Seq::new(ids.len(), |k: int| None::<u64>);
        lemma_free_of_no_answers(ids.drop_last());
        assert(nones.drop_last() =~= Seq::new(ids.drop_last().len(), |k: int| None::<u64>));
    }
}

/// The GPUs listed in `gpus_of(answers)` have increasing indices below the
/// number of answers.
pub proof fn lemma_gpus_of_increasing(answers: Seq<Option<u64>>)
    requires
        answers.len() <= 0x1_0000_0000,
    ensures
        forall|i: int, j: int|
            0 <= i < j < gpus_of(answers).len() ==> #[trigger] gpus_of(answers)[i].index
                < #[trigger] gpus_of(answers)[j].index,
        forall|i: int| 0 <= i < gpus_of(answers).len() ==> #[trigger] gpus_of(answers)[i].index < answers.len(),
    decreases answers.len(),
{
    if answers.len() > 0 {
        let prev = answers.drop_last();
        lemma_gpus_of_increasing(prev);
        let rest = gpus_of(prev);
        let n: int = answers.len() - 1;
        assert(0 <= n < 0x1_0000_0000);
        assert(n as u32 == n);
        match answers.last() {
            Some(total) => {
                let g = rest.push(GpuInfo { index: n as u32, total_memory_bytes: total });
                assert(gpus_of(answers) == g);
                assert forall|i: int, j: int| 0 <= i < j < g.len() implies #[trigger] g[i].index < #[trigger] g[j].index by {
                    if j < rest.len() {
                        assert(g[i] == rest[i] && g[j] == rest[j]);
                    } else {
                        assert(g[i] == rest[i]);
                    }
                }
                assert forall|i: int| 0 <= i < g.len() implies #[trigger] g[i].index < answers.len() by {
                    if i < rest.len() {
                        assert(g[i] == rest[i]);
                    }
                }
            },
            None => {},
        }
    }
}

/// The GPUs that NVML's answers describe, as [`gpus_of`] says.
pub fn gpus_from_answers(answers: &Vec<Option<u64>>) -> (gpus: Vec<GpuInfo>)
    requires
        answers@.len() <= 0x1_0000_0000,
    ensures
        gpus@ == gpus_of(answers@),
{
    let mut gpus: Vec<GpuInfo> = Vec::new();
    let mut i: usize = 0;
    while i < answers.len()
        invariant
            i <= answers@.len(),
            answers@.len() <= 0x1_0000_0000,
            gpus@ == gpus_of(answers@.take(i as int)),
        decreases answers@.len() - i,
    {
        assert(answers@.take(i as int + 1).drop_last() =~= answers@.take(i as int));
        match answers[i] {
            Some(total) => {
                gpus.push(GpuInfo { index: i as u32, total_memory_bytes: total });
            },
            None => {},
        }
        i = i + 1;
    }
    assert(answers@.take(answers@.len() as int) =~= answers@);
    gpus
}

/// The free memory that NVML's answers give for the pool `ids`, as
/// [`free_of`] says.
pub fn free_from_answers(ids: &Vec<u32>, answers: &Vec<Option<u64>>) -> (free: Vec<(u32, u64)>)
    requires
        ids@.len() == answers@.len(),
    ensures
        free@ == free_of(ids@, answers@),
{
    let mut free: Vec<(u32, u64)> = Vec::new();
    let mut i: usize = 0;
    while i < ids.len()
        invariant
            i <= ids@.len(),
            ids@.len() == answers@.len(),
            free@ == free_of(ids@.take(i as int), answers@.take(i as int)),
        decreases ids@.len() - i,
    {
        assert(ids@.take(i as int + 1).drop_last() =~= ids@.take(i as int));
        assert(answers@.take(i as int + 1).drop_last() =~= answers@.take(i as int));
        match answers[i] {
            Some(f) => {
                free.push((ids[i], f));
            },
            None => {},
        }
        i = i + 1;
    }
    assert(ids@.take(ids@.len() as int) =~= ids@);
    assert(answers@.take(answers@.len() as int) =~= answers@);
    free
}

/// What NVML answers for the total memory of the GPU with that index: the
/// figure, or nothing when the GPU or its figures cannot be had.
fn total_memory_answer(nvml: &Nvml, index: u32) -> Option<u64> {
    match device_by_index(nvml, index) {
        Ok(device) => match memory_info(&device) {
            Ok((_free, total)) => Some(total),
            Err(_) => None,
        },
        Err(_) => None,
    }
}

/// What NVML answers for the free memory of the GPU with that index: the
/// figure, or nothing when the GPU or its figures cannot be had.
fn free_memory_answer(nvml: &Nvml, index: u32) -> Option<u64> {
    match device_by_index(nvml, index) {
        Ok(device) => match memory_info(&device) {
            Ok((free, _total)) => Some(free),
            Err(_) => None,
        },
        Err(_) => None,
    }
}

/// The GPUs that NVML can describe, in increasing order of index; an empty
/// list when NVML cannot count them. NVML is asked for a count, then for the
/// total memory of each index below it; the list is [`gpus_of`] those
/// answers, whatever the hardware answered.
pub fn discover_gpus(nvml: &Nvml) -> (gpus: Vec<GpuInfo>)
    ensures
        exists|answers: Seq<Option<u64>>| answers.len() <= u32::MAX && #[trigger] gpus_of(answers) == gpus@,
        forall|i: int, j: int| 0 <= i < j < gpus@.len() ==> #[trigger] gpus@[i].index < #[trigger] gpus@[j].index,
{
    let count = match device_count(nvml) {
        Ok(c) => c,
        Err(_) => {
            let none: Vec<Option<u64>> = Vec::new();
            let gpus = gpus_from_answers(&none);
            proof {
                lemma_gpus_of_increasing(none@);
            }
            return gpus;
        },
    };
    let mut answers: Vec<Option<u64>> = Vec::new();
    let mut i: u32 = 0;
    while i < count
        invariant
            i <= count,
            answers@.len() == i,
        decreases count - i,
    {
        answers.push(total_memory_answer(nvml, i));
        i = i + 1;
    }
    let gpus = gpus_from_answers(&answers);
    proof {
        lemma_gpus_of_increasing(answers@);
    }
    gpus
}

/// The free memory that NVML reports now for each GPU of the pool that it can
/// describe, as pairs of index and bytes, in the order of the pool. NVML is
/// asked once per id of the pool; the pairs are [`free_of`] the pool and
/// those answers, whatever the hardware answered.
pub fn query_gpu_free_memory(nvml: &Nvml, gpu_ids: &Vec<u32>) -> (free: Vec<(u32, u64)>)
    ensures
        exists|answers: Seq<Option<u64>>|
            answers.len() == gpu_ids@.len() && #[trigger] free_of(gpu_ids@, answers) == free@,
{
    let mut answers: Vec<Option<u64>> = Vec::new();
    let mut i: usize = 0;
    while i < gpu_ids.len()
        invariant
            i <= gpu_ids@.len(),
            answers@.len() == i,
        decreases gpu_ids@.len() - i,
    {
        answers.push(free_memory_answer(nvml, gpu_ids[i]));
        i = i + 1;
    }
    free_from_answers(gpu_ids, &answers)
}

/// The view of the reservations: for each task id, its GPUs and the bytes
/// held on each.
pub open spec fn allocs_view(v: Seq<(u32, Vec<(u32, u64)>)>) -> Seq<(u32, Seq<(u32, u64)>)> {
    v.map_values(|e: (u32, Vec<(u32, u64)>)| (e.0, e.1@))
}

/// The bytes one task holds on a GPU.
pub open spec fn reserved_in(list: Seq<(u32, u64)>, gpu: u32) -> int
    decreases list.len(),
{
    if list.len() == 0 {
        0
    } else {
        reserved_in(list.drop_last(), gpu) + if list.last().0 == gpu {
            list.last().1 as int
        } else {
            0
        }
    }
}

/// The bytes all running tasks hold on a GPU.
pub open spec fn reserved_on(allocs: Seq<(u32, Seq<(u32, u64)>)>, gpu: u32) -> int
    decreases allocs.len(),
{
    if allocs.len() == 0 {
        0
    } else {
        reserved_on(allocs.drop_last(), gpu) + reserved_in(allocs.last().1, gpu)
    }
}

/// The free memory reported for a GPU: the last report for it, or 0.
pub open spec fn reported_free(free: Seq<(u32, u64)>, gpu: u32) -> u64
    decreases free.len(),
{
    if free.len() == 0 {
        0
    } else if free.last().0 == gpu {
        free.last().1
    } else {
        reported_free(free.drop_last(), gpu)
    }
}

/// What a GPU still offers: its memory less the larger of what NVML sees in
/// use and what the running tasks hold, never below 0.
pub open spec fn available_on(total: u64, free: u64, reserved: int) -> int {
    let used: int = if free >= total { 0 } else { total - free };
    let effective: int = if used >= reserved { used } else { reserved };
    if effective >= total { 0 } else { total - effective }
}

/// The bytes a task needs on each GPU: its own figure, or the GPU's share under
/// the server's threshold.
pub open spec fn required_on(req: GpuRequirement, default_reserve: u64) -> u64 {
    match req.min_free_mem_bytes {
        Some(b) => b,
        None => default_reserve,
    }
}

/// A GPU can take the task: it is in the pool and offers enough memory.
pub open spec fn gpu_fits(
    info: GpuInfo,
    default_reserve: u64,
    pool: Seq<u32>,
    allocs: Seq<(u32, Seq<(u32, u64)>)>,
    free: Seq<(u32, u64)>,
    req: GpuRequirement,
) -> bool {
    &&& pool.contains(info.index)
    &&& available_on(info.total_memory_bytes, reported_free(free, info.index), reserved_on(allocs, info.index))
        >= required_on(req, default_reserve)
}

/// The indices of the first `n` GPUs that can take the task, in order.
pub open spec fn fitting_gpus(
    infos: Seq<GpuInfo>,
    reserves: Seq<u64>,
    pool: Seq<u32>,
    allocs: Seq<(u32, Seq<(u32, u64)>)>,
    free: Seq<(u32, u64)>,
    req: GpuRequirement,
    n: nat,
) -> Seq<u32>
    decreases n,
{
    if n == 0 {
        Seq::empty()
    } else {
        let prev = fitting_gpus(infos, reserves, pool, allocs, free, req, (n - 1) as nat);
        if gpu_fits(infos[n - 1], reserves[n - 1], pool, allocs, free, req) {
            prev.push(infos[n - 1].index)
        } else {
            prev
        }
    }
}

/// The GPUs given to a task: the first ones that can take it, as many as it
/// asks for, or none when too few can.
pub open spec fn gpu_choice(
    infos: Seq<GpuInfo>,
    reserves: Seq<u64>,
    pool: Seq<u32>,
    allocs: Seq<(u32, Seq<(u32, u64)>)>,
    free: Seq<(u32, u64)>,
    req: GpuRequirement,
) -> Option<Seq<u32>> {
    let c = fitting_gpus(infos, reserves, pool, allocs, free, req, infos.len());
    if c.len() < req.count {
        None
    } else {
        Some(c.take(req.count as int))
    }
}

/// The threshold share of the first GPU with this index, or 0.
pub open spec fn reserve_of_index(infos: Seq<GpuInfo>, reserves: Seq<u64>, idx: u32) -> u64
    decreases infos.len(),
{
    if infos.len() == 0 || reserves.len() == 0 {
        0
    } else if infos[0].index == idx {
        reserves[0]
    } else {
        reserve_of_index(infos.drop_first(), reserves.drop_first(), idx)
    }
}

/// The bytes held on each GPU given to a task: its own figure, or the
/// threshold share of the first GPU it was given.
pub open spec fn per_gpu_reserve(
    infos: Seq<GpuInfo>,
    reserves: Seq<u64>,
    req: GpuRequirement,
    first: u32,
) -> u64 {
    match req.min_free_mem_bytes {
        Some(b) => b,
        None => reserve_of_index(infos, reserves, first),
    }
}

/// The free memory reported for a GPU.
pub fn lookup_free(free: &Vec<(u32, u64)>, gpu: u32) -> (f: u64)
    ensures
        f == reported_free(free@, gpu),
{
    let mut f: u64 = 0;
    let mut i: usize = 0;
    while i < free.len()
        invariant
            i <= free.len(),
            f == reported_free(free@.subrange(0, i as int), gpu),
        decreases free.len() - i,
    {
        if free[i].0 == gpu {
            f = free[i].1;
        }
        assert(free@.subrange(0, i + 1).drop_last() =~= free@.subrange(0, i as int));
        i = i + 1;
    }
    assert(free@.subrange(0, free.len() as int) =~= free@);
    f
}

/// The bytes all running tasks hold on a GPU, capped at `u64::MAX`.
pub fn reserved_bytes(allocs: &Vec<(u32, Vec<(u32, u64)>)>, gpu: u32) -> (r: u64)
    ensures
        r == (if reserved_on(allocs_view(allocs@), gpu) > u64::MAX {
            u64::MAX as int
        } else {
            reserved_on(allocs_view(allocs@), gpu)
        }),
{
    let ghost av = allocs_view(allocs@);
    let mut acc: u64 = 0;
    let mut i: usize = 0;
    while i < allocs.len()
        invariant
            i <= allocs.len(),
            av == allocs_view(allocs@),
            acc == (if reserved_on(av.subrange(0, i as int), gpu) > u64::MAX {
                u64::MAX as int
            } else {
                reserved_on(av.subrange(0, i as int), gpu)
            }),
            reserved_on(av.subrange(0, i as int), gpu) >= 0,
        decreases allocs.len() - i,
    {
        let list = &allocs[i].1;
        let ghost lv = list@;
        assert(av[i as int].1 == lv);
        let ghost base = reserved_on(av.subrange(0, i as int), gpu);
        let mut j: usize = 0;
        while j < list.len()
            invariant
                j <= list.len(),
                lv == list@,
                base >= 0,
                reserved_in(lv.subrange(0, j as int), gpu) >= 0,
                acc == (if base + reserved_in(lv.subrange(0, j as int), gpu) > u64::MAX {
                    u64::MAX as int
                } else {
                    base + reserved_in(lv.subrange(0, j as int), gpu)
                }),
            decreases list.len() - j,
        {
            assert(lv.subrange(0, j + 1).drop_last() =~= lv.subrange(0, j as int));
            if list[j].0 == gpu {
                acc = acc.saturating_add(list[j].1);
            }
            j = j + 1;
        }
        assert(lv.subrange(0, lv.len() as int) =~= lv);
        assert(av.subrange(0, i + 1).drop_last() =~= av.subrange(0, i as int));
        i = i + 1;
    }
    assert(av.subrange(0, allocs.len() as int) =~= av);
    acc
}

/// Whether one GPU can take the task.
fn fits(
    info: GpuInfo,
    default_reserve: u64,
    pool: &Vec<u32>,
    allocs: &Vec<(u32, Vec<(u32, u64)>)>,
    free: &Vec<(u32, u64)>,
    req: GpuRequirement,
) -> (b: bool)
    ensures
        b == gpu_fits(info, default_reserve, pool@, allocs_view(allocs@), free@, req),
{
    if !contains_id(pool, info.index) {
        return false;
    }
    let reserved = reserved_bytes(allocs, info.index);
    let nvml_free = lookup_free(free, info.index);
    let nvml_used = info.total_memory_bytes.saturating_sub(nvml_free);
    let effective = if nvml_used >= reserved { nvml_used } else { reserved };
    let available = info.total_memory_bytes.saturating_sub(effective);
    let required = match req.min_free_mem_bytes {
        Some(b) => b,
        None => default_reserve,
    };
    available >= required
}

/// The GPUs to give a task, chosen as [`gpu_choice`] says.
pub fn select_gpus(
    infos: &Vec<GpuInfo>,
    reserves: &Vec<u64>,
    pool: &Vec<u32>,
    allocs: &Vec<(u32, Vec<(u32, u64)>)>,
    free: &Vec<(u32, u64)>,
    req: GpuRequirement,
) -> (r: Option<Vec<u32>>)
    requires
        reserves@.len() == infos@.len(),
    ensures
        match r {
            Some(v) => gpu_choice(infos@, reserves@, pool@, allocs_view(allocs@), free@, req) == Some(v@),
            None => gpu_choice(infos@, reserves@, pool@, allocs_view(allocs@), free@, req) is None,
        },
{
    let ghost av = allocs_view(allocs@);
    let mut chosen: Vec<u32> = Vec::new();
    let mut i: usize = 0;
    while i < infos.len()
        invariant
            i <= infos.len(),
            reserves@.len() == infos@.len(),
            av == allocs_view(allocs@),
            chosen@ == fitting_gpus(infos@, reserves@, pool@, av, free@, req, i as nat),
        decreases infos.len() - i,
    {
        if fits(infos[i], reserves[i], pool, allocs, free, req) {
            chosen.push(infos[i].index);
        }
        i = i + 1;
    }
    if chosen.len() < req.count as usize {
        None
    } else {
        chosen.truncate(req.count as usize);
        Some(chosen)
    }
}

/// The threshold share of the first GPU with this index, or 0.
pub fn reserve_for_index(infos: &Vec<GpuInfo>, reserves: &Vec<u64>, idx: u32) -> (r: u64)
    requires
        reserves@.len() == infos@.len(),
    ensures
        r == reserve_of_index(infos@, reserves@, idx),
{
    let mut i: usize = 0;
    assert(infos@.subrange(0, infos@.len() as int) =~= infos@);
    assert(reserves@.subrange(0, reserves@.len() as int) =~= reserves@);
    while i < infos.len()
        invariant
            i <= infos.len(),
            reserves@.len() == infos@.len(),
            reserve_of_index(infos@, reserves@, idx) == reserve_of_index(
                infos@.subrange(i as int, infos@.len() as int),
                reserves@.subrange(i as int, reserves@.len() as int),
                idx,
            ),
        decreases infos.len() - i,
    {
        let ghost si = infos@.subrange(i as int, infos@.len() as int);
        let ghost sr = reserves@.subrange(i as int, reserves@.len() as int);
        assert(si[0] == infos@[i as int]);
        assert(sr[0] == reserves@[i as int]);
        if infos[i].index == idx {
            return reserves[i];
        }
        assert(si.drop_first() =~= infos@.subrange(i + 1, infos@.len() as int));
        assert(sr.drop_first() =~= reserves@.subrange(i + 1, reserves@.len() as int));
        i = i + 1;
    }
    0
}

} // verus!
