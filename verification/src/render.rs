//! The text the command line prints for a listing and for one task.

use vstd::prelude::*;
use crate::task::{Task, TaskStatus, TaskView, opt_str_view};
use crate::table::rows_of;
use crate::scheme::ListTaskResponse;
use crate::gpu::allocs_view;
use crate::text::{decimal, decimals, join, join_decimals, push_decimal, push_signed_decimal, signed_decimal, text};

verus! {

/// The name a status is shown by.
pub open spec fn status_name_of(s: TaskStatus) -> Seq<char> {
    match s {
        TaskStatus::Pending => "Pending"@,
        TaskStatus::Running => "Running"@,
        TaskStatus::Completed => "Completed"@,
        TaskStatus::Failed => "Failed"@,
        TaskStatus::Killed => "Killed"@,
        TaskStatus::Skipped => "Skipped"@,
    }
}

/// The name a status is shown by.
pub fn status_name(s: TaskStatus) -> (n: &'static str)
    ensures
        n@ == status_name_of(s),
{
    match s {
        TaskStatus::Pending => "Pending",
        TaskStatus::Running => "Running",
        TaskStatus::Completed => "Completed",
        TaskStatus::Failed => "Failed",
        TaskStatus::Killed => "Killed",
        TaskStatus::Skipped => "Skipped",
    }
}

/// An optional text, or nothing.
pub open spec fn or_empty(o: Option<Seq<char>>) -> Seq<char> {
    match o {
        Some(s) => s,
        None => Seq::empty(),
    }
}

/// The line that shows the GPU pool.
pub open spec fn pool_line(ids: Seq<u32>) -> Seq<char> {
    "GPU pool: ["@ + join(decimals(ids), ", "@) + "]"@
}

/// The line that shows the GPUs one task holds.
pub open spec fn allocation_line(id: u32, list: Seq<(u32, u64)>) -> Seq<char> {
    "  task#"@ + decimal(id as nat) + " → GPU ["@ + join(decimals(list.map_values(|e: (u32, u64)| e.0)), ", "@)
        + "]"@
}

/// The heading of the task table, with the slots in use and in all.
pub open spec fn header_line(used: u32, num: u32) -> Seq<char> {
    "ID\tLabel\tOutput\tStatus\tCommand ("@ + decimal(used as nat) + "/"@ + decimal(num as nat) + ")"@
}

/// The line of one task in the table.
pub open spec fn task_line(id: u32, t: TaskView) -> Seq<char> {
    decimal(id as nat) + "\t"@ + or_empty(t.label) + "\t"@ + or_empty(t.log_path) + "\t"@ + status_name_of(t.status)
        + "\t"@ + t.command
}

/// The lines of a listing: the pool and the reservations when there are
/// any, the heading, then one line per task in order of id.
pub open spec fn list_lines_of(
    num_slots: u32,
    used_slots: u32,
    rows: Seq<(u32, TaskView)>,
    gpu_ids: Seq<u32>,
    allocs: Seq<(u32, Seq<(u32, u64)>)>,
) -> Seq<Seq<char>> {
    let pool: Seq<Seq<char>> = if gpu_ids.len() > 0 { seq![pool_line(gpu_ids)] } else { Seq::empty() };
    pool + allocs.map_values(|a: (u32, Seq<(u32, u64)>)| allocation_line(a.0, a.1)) + seq![header_line(used_slots, num_slots)]
        + rows.map_values(|r: (u32, TaskView)| task_line(r.0, r.1))
}

/// The view of a vector of strings.
pub open spec fn strings_view(v: Seq<String>) -> Seq<Seq<char>> {
    v.map_values(|s: String| s@)
}

fn push_line(lines: &mut Vec<String>, line: String)
    ensures
        strings_view(final(lines)@) == strings_view(old(lines)@).push(line@),
{
    let ghost lv = line@;
    lines.push(line);
    assert(strings_view(lines@) =~= strings_view(old(lines)@).push(lv));
}

fn append_opt(s: &mut String, o: &Option<String>)
    ensures
        final(s)@ == old(s)@ + or_empty(opt_str_view(*o)),
{
    match o {
        Some(x) => s.append(x.as_str()),
        None => {
            assert(old(s)@ + Seq::<char>::empty() =~= old(s)@);
        },
    }
}

/// The line of one task in the table.
pub fn task_line_text(id: u32, t: &Task) -> (s: String)
    ensures
        s@ == task_line(id, t@),
{
    let mut s = String::new();
    push_decimal(&mut s, id as u64);
    s.append("\t");
    append_opt(&mut s, &t.label);
    s.append("\t");
    append_opt(&mut s, &t.log_path);
    s.append("\t");
    s.append(status_name(t.status));
    s.append("\t");
    s.append(t.command.as_str());
    assert(s@ =~= task_line(id, t@));
    s
}

/// The lines that list the tasks.
pub fn list_lines(resp: &ListTaskResponse) -> (lines: Vec<String>)
    ensures
        strings_view(lines@) == list_lines_of(
            resp.num_slots,
            resp.used_slots,
            rows_of(resp.tasks@),
            resp.gpu_ids@,
            allocs_view(resp.gpu_allocations@),
        ),
{
    let ghost av = allocs_view(resp.gpu_allocations@);
    let ghost rv = rows_of(resp.tasks@);
    let mut lines: Vec<String> = Vec::new();
    if resp.gpu_ids.len() > 0 {
        let mut l = text("GPU pool: [");
        let ids = join_decimals(&resp.gpu_ids, ", ");
        l.append(ids.as_str());
        l.append("]");
        push_line(&mut lines, l);
    }
    let ghost pool: Seq<Seq<char>> = if resp.gpu_ids@.len() > 0 { seq![pool_line(resp.gpu_ids@)] } else { Seq::empty() };
    assert(strings_view(lines@) =~= pool);
    let mut i: usize = 0;
    while i < resp.gpu_allocations.len()
        invariant
            i <= resp.gpu_allocations.len(),
            av == allocs_view(resp.gpu_allocations@),
            strings_view(lines@) == pool + av.subrange(0, i as int).map_values(
                |a: (u32, Seq<(u32, u64)>)| allocation_line(a.0, a.1),
            ),
        decreases resp.gpu_allocations.len() - i,
    {
        let id = resp.gpu_allocations[i].0;
        let list = &resp.gpu_allocations[i].1;
        let mut gpus: Vec<u32> = Vec::new();
        let mut k: usize = 0;
        while k < list.len()
            invariant
                k <= list.len(),
                gpus@ == list@.subrange(0, k as int).map_values(|e: (u32, u64)| e.0),
            decreases list.len() - k,
        {
            gpus.push(list[k].0);
            k = k + 1;
            assert(gpus@ =~= list@.subrange(0, k as int).map_values(|e: (u32, u64)| e.0));
        }
        assert(list@.subrange(0, list@.len() as int) =~= list@);
        let mut l = text("  task#");
        push_decimal(&mut l, id as u64);
        l.append(" → GPU [");
        let joined = join_decimals(&gpus, ", ");
        l.append(joined.as_str());
        l.append("]");
        assert(av[i as int] == (id, list@));
        assert(l@ =~= allocation_line(id, list@));
        push_line(&mut lines, l);
        assert(av.subrange(0, i + 1).map_values(|a: (u32, Seq<(u32, u64)>)| allocation_line(a.0, a.1)) =~= av.subrange(
            0,
            i as int,
        ).map_values(|a: (u32, Seq<(u32, u64)>)| allocation_line(a.0, a.1)).push(allocation_line(id, list@)));
        i = i + 1;
    }
    assert(av.subrange(0, av.len() as int) =~= av);
    let mut h = text("ID\tLabel\tOutput\tStatus\tCommand (");
    push_decimal(&mut h, resp.used_slots as u64);
    h.append("/");
    push_decimal(&mut h, resp.num_slots as u64);
    h.append(")");
    assert(h@ =~= header_line(resp.used_slots, resp.num_slots));
    push_line(&mut lines, h);
    let ghost mid = strings_view(lines@);
    let mut j: usize = 0;
    while j < resp.tasks.len()
        invariant
            j <= resp.tasks.len(),
            rv == rows_of(resp.tasks@),
            strings_view(lines@) == mid + rv.subrange(0, j as int).map_values(|r: (u32, TaskView)| task_line(r.0, r.1)),
        decreases resp.tasks.len() - j,
    {
        let l = task_line_text(resp.tasks[j].0, &resp.tasks[j].1);
        assert(rv[j as int] == (resp.tasks@[j as int].0, resp.tasks@[j as int].1@));
        push_line(&mut lines, l);
        assert(rv.subrange(0, j + 1).map_values(|r: (u32, TaskView)| task_line(r.0, r.1)) =~= rv.subrange(0, j as int).map_values(
            |r: (u32, TaskView)| task_line(r.0, r.1),
        ).push(task_line(rv[j as int].0, rv[j as int].1)));
        j = j + 1;
    }
    assert(rv.subrange(0, rv.len() as int) =~= rv);
    assert(strings_view(lines@) =~= list_lines_of(
        resp.num_slots,
        resp.used_slots,
        rv,
        resp.gpu_ids@,
        av,
    ));
    lines
}

/// One line with a label, when the value is there.
pub open spec fn opt_line(label: Seq<char>, o: Option<Seq<char>>) -> Seq<Seq<char>> {
    match o {
        Some(s) => seq![label + s],
        None => Seq::empty(),
    }
}

/// The process id line, when the task has a process.
pub open spec fn pid_lines(pid: Option<u32>) -> Seq<Seq<char>> {
    match pid {
        Some(p) => seq!["PID: "@ + decimal(p as nat)],
        None => Seq::empty(),
    }
}

/// The exit code line, when the task has ended.
pub open spec fn exit_lines(code: Option<i32>) -> Seq<Seq<char>> {
    match code {
        Some(e) => seq!["Exit code: "@ + signed_decimal(e as int)],
        None => Seq::empty(),
    }
}

/// The line that names the tasks this one waits for, when there are any.
pub open spec fn dependence_lines(deps: Seq<(u32, TaskStatus)>) -> Seq<Seq<char>> {
    if deps.len() > 0 {
        seq!["Dependence: "@ + join(decimals(deps.map_values(|d: (u32, TaskStatus)| d.0)), ", "@)]
    } else {
        Seq::empty()
    }
}

/// The lines that describe one task, given how its times read: the status,
/// the process id and exit code when known, the command, the label when
/// there is one, the log path, the tasks it waits for when there are any,
/// then the times.
pub open spec fn info_lines_of(
    t: TaskView,
    create: Seq<char>,
    start: Option<Seq<char>>,
    end: Option<Seq<char>>,
    elapsed: Option<Seq<char>>,
) -> Seq<Seq<char>> {
    seq!["Status: "@ + status_name_of(t.status)] + pid_lines(t.pid) + exit_lines(t.exit_code) + seq![
        "Command: "@ + t.command,
    ] + opt_line("Label: "@, t.label) + seq!["Log path: "@ + or_empty(t.log_path)] + dependence_lines(
        t.dependencies,
    ) + seq!["Create time: "@ + create] + opt_line("Start time: "@, start) + opt_line("End time: "@, end)
        + opt_line("Elapse time: "@, elapsed)
}

fn labeled(label: &str, value: &str) -> (s: String)
    ensures
        s@ == label@ + value@,
{
    text(label).concat(value)
}

fn append_lines(lines: &mut Vec<String>, more: Vec<String>)
    ensures
        strings_view(final(lines)@) == strings_view(old(lines)@) + strings_view(more@),
{
    let mut more = more;
    let ghost mv = strings_view(more@);
    lines.append(&mut more);
    assert(strings_view(lines@) =~= strings_view(old(lines)@) + mv);
}

fn one_line(line: String) -> (v: Vec<String>)
    ensures
        strings_view(v@) == seq![line@],
{
    let mut v: Vec<String> = Vec::new();
    push_line(&mut v, line);
    assert(strings_view(v@) =~= seq![line@]);
    v
}

fn no_lines() -> (v: Vec<String>)
    ensures
        strings_view(v@) == Seq::<Seq<char>>::empty(),
{
    let v: Vec<String> = Vec::new();
    assert(strings_view(v@) =~= Seq::<Seq<char>>::empty());
    v
}

fn opt_line_text(label: &str, o: &Option<String>) -> (v: Vec<String>)
    ensures
        strings_view(v@) == opt_line(label@, opt_str_view(*o)),
{
    match o {
        Some(s) => one_line(labeled(label, s.as_str())),
        None => no_lines(),
    }
}

fn pid_lines_text(pid: Option<u32>) -> (v: Vec<String>)
    ensures
        strings_view(v@) == pid_lines(pid),
{
    match pid {
        Some(p) => {
            let mut l = text("PID: ");
            push_decimal(&mut l, p as u64);
            one_line(l)
        },
        None => no_lines(),
    }
}

fn exit_lines_text(code: Option<i32>) -> (v: Vec<String>)
    ensures
        strings_view(v@) == exit_lines(code),
{
    match code {
        Some(e) => {
            let mut l = text("Exit code: ");
            push_signed_decimal(&mut l, e as i64);
            one_line(l)
        },
        None => no_lines(),
    }
}

fn dependence_lines_text(deps: &Vec<(u32, TaskStatus)>) -> (v: Vec<String>)
    ensures
        strings_view(v@) == dependence_lines(deps@),
{
    if deps.len() == 0 {
        return no_lines();
    }
    let mut ids: Vec<u32> = Vec::new();
    let mut k: usize = 0;
    while k < deps.len()
        invariant
            k <= deps.len(),
            ids@ == deps@.subrange(0, k as int).map_values(|d: (u32, TaskStatus)| d.0),
        decreases deps.len() - k,
    {
        ids.push(deps[k].0);
        k = k + 1;
        assert(ids@ =~= deps@.subrange(0, k as int).map_values(|d: (u32, TaskStatus)| d.0));
    }
    assert(deps@.subrange(0, deps@.len() as int) =~= deps@);
    let joined = join_decimals(&ids, ", ");
    one_line(labeled("Dependence: ", joined.as_str()))
}

/// The lines that describe one task, given its creation time, its start and
/// end times, and the time between them, each written out: a time line
/// appears when the task has that time, and the elapsed line when it has
/// both.
pub fn task_info_lines(
    t: &Task,
    create: &String,
    start: &Option<String>,
    end: &Option<String>,
    elapsed: &Option<String>,
) -> (lines: Vec<String>)
    requires
        (*start is Some) <==> (t.start_time is Some),
        (*end is Some) <==> (t.end_time is Some),
        (*elapsed is Some) <==> (t.start_time is Some && t.end_time is Some),
    ensures
        strings_view(lines@) == info_lines_of(
            t@,
            create@,
            opt_str_view(*start),
            opt_str_view(*end),
            opt_str_view(*elapsed),
        ),
{
    let mut lines = one_line(labeled("Status: ", status_name(t.status)));
    append_lines(&mut lines, pid_lines_text(t.pid));
    append_lines(&mut lines, exit_lines_text(t.exit_code));
    append_lines(&mut lines, one_line(labeled("Command: ", t.command.as_str())));
    append_lines(&mut lines, opt_line_text("Label: ", &t.label));
    let mut lp = text("Log path: ");
    append_opt(&mut lp, &t.log_path);
    append_lines(&mut lines, one_line(lp));
    append_lines(&mut lines, dependence_lines_text(&t.dependencies));
    append_lines(&mut lines, one_line(labeled("Create time: ", create.as_str())));
    append_lines(&mut lines, opt_line_text("Start time: ", start));
    append_lines(&mut lines, opt_line_text("End time: ", end));
    append_lines(&mut lines, opt_line_text("Elapse time: ", elapsed));
    lines
}

} // verus!
