use rts::clock::{now, timestamp_from_reading};
use rts::cli::{
    check_gpu_flags, dependence_choice, do_action, push_task_request, remove_request, server_host, DependTaskMode,
    DoAction, DoTaskMode,
};
use rts::logs::{emit_log_lines, log_lines_to_print, text_lines, LogFollower};
use rts::render::{list_lines, status_name, task_info_lines};
use rts::scheme::{ListTaskResponse, RemoveTaskRequest};
use rts::task::{set_env, Task, TaskStatus, Timestamp};
use rts::text::{decimal_string, join_decimals};

#[test]
fn decimals() {
    assert_eq!(decimal_string(0), "0");
    assert_eq!(decimal_string(1234567890123), "1234567890123");
    assert_eq!(join_decimals(&vec![3, 10, 0], ", "), "3, 10, 0");
    assert_eq!(join_decimals(&vec![], ","), "");
}

#[test]
fn host_from_port() {
    assert_eq!(server_host(None), "127.0.0.1:20110");
    assert_eq!(server_host(Some("8080".to_string())), "127.0.0.1:8080");
}

#[test]
fn do_modes() {
    let none = DoTaskMode { info: None, cat: None, tail: None, remove: None, clear: false, kill: None };
    assert_eq!(do_action(&none), DoAction::Nothing);
    assert_eq!(do_action(&DoTaskMode { tail: Some(3), ..none.clone() }), DoAction::Tail(3));
    assert_eq!(do_action(&DoTaskMode { clear: true, ..none.clone() }), DoAction::Clear);
    assert_eq!(do_action(&DoTaskMode { kill: Some(4), ..none.clone() }), DoAction::Kill(4));
    assert_eq!(remove_request(DoAction::Clear), Some(RemoveTaskRequest { task_id: 0, is_all: true }));
    assert_eq!(remove_request(DoAction::Remove(5)), Some(RemoveTaskRequest { task_id: 5, is_all: false }));
    assert_eq!(remove_request(DoAction::Info(5)), None);
}

#[test]
fn push_request_building() {
    assert_eq!(check_gpu_flags(None, true), Err("[-m] must be used with [-G]".to_string()));
    assert_eq!(check_gpu_flags(Some(1), true), Ok(()));
    let (delay, ids) = dependence_choice(Some(DependTaskMode { wait: None, delay: Some(vec![1, 2]) }));
    assert!(delay);
    assert_eq!(ids, vec![1, 2]);
    let req = push_task_request(
        Some("l".to_string()),
        None,
        Some(DependTaskMode { wait: Some(vec![4]), delay: None }),
        "echo hi".to_string(),
        Some(2),
        Some(1024),
        "/".to_string(),
        vec![],
    )
    .unwrap();
    assert!(!req.not_safely_depends);
    assert_eq!(req.dependencies, vec![4]);
    assert_eq!(req.gpu_requirement.unwrap().count, 2);
    assert_eq!(req.gpu_requirement.unwrap().min_free_mem_bytes, Some(1024));
    assert!(push_task_request(None, None, None, "x".to_string(), None, Some(1), "/".to_string(), vec![]).is_err());
}

#[test]
fn env_replaces_or_adds() {
    let mut envs = vec![("A".to_string(), "1".to_string())];
    set_env(&mut envs, "B".to_string(), "2".to_string());
    set_env(&mut envs, "A".to_string(), "3".to_string());
    assert_eq!(envs, vec![("A".to_string(), "3".to_string()), ("B".to_string(), "2".to_string())]);
}

fn lines_of(v: Vec<Vec<u8>>) -> Vec<String> {
    v.into_iter().map(|l| String::from_utf8(l).unwrap()).collect()
}

#[test]
fn log_lines() {
    assert_eq!(lines_of(text_lines(&b"a\r\nb\n\nc".to_vec())), vec!["a", "b", "", "c"]);
    assert_eq!(lines_of(text_lines(&b"a\n".to_vec())), vec!["a"]);
    let content: Vec<u8> = (0..15).map(|i| format!("{}\n", i)).collect::<String>().into_bytes();
    let tail = lines_of(log_lines_to_print(&content, true));
    assert_eq!(tail.len(), 10);
    assert_eq!(tail[0], "5");
    assert_eq!(lines_of(log_lines_to_print(&content, false)).len(), 15);
}

#[test]
fn emitted_lines_wait_for_newlines() {
    let mut remaining = b"par".to_vec();
    let lines = emit_log_lines(&mut remaining, &b"tial\nnext\nrest".to_vec(), false);
    assert_eq!(lines_of(lines), vec!["partial", "next"]);
    assert_eq!(remaining, b"rest".to_vec());
    let lines = emit_log_lines(&mut remaining, &vec![], true);
    assert_eq!(lines_of(lines), vec!["rest"]);
    assert!(remaining.is_empty());
}

#[test]
fn follower_steps() {
    let mut f = LogFollower::new();
    assert_eq!(f.bytes_to_read(10), None);
    let first = f.first_look(&b"x\ny".to_vec(), false);
    assert_eq!(lines_of(first), vec!["x", "y"]);
    assert_eq!(f.pos, 3);
    assert_eq!(f.bytes_to_read(3), None);
    assert_eq!(f.bytes_to_read(7), Some(4));
    let lines = f.on_new_bytes(&b"ab\ncd".to_vec(), 7);
    assert_eq!(lines_of(lines), vec!["ab"]);
    assert_eq!(lines_of(f.finish()), vec!["cd"]);
}

#[test]
fn listing_lines() {
    let resp = ListTaskResponse {
        num_slots: 2,
        used_slots: 1,
        tasks: vec![
            (0, Task { status: TaskStatus::Running, command: "echo hi".into(), log_path: Some("/tmp/a".into()), ..Default::default() }),
            (1, Task { label: Some("higher".into()), command: "sleep 10".into(), ..Default::default() }),
        ],
        gpu_ids: vec![0, 1],
        gpu_allocations: vec![(0, vec![(1, 5), (0, 5)])],
    };
    assert_eq!(
        list_lines(&resp),
        vec![
            "GPU pool: [0, 1]".to_string(),
            "  task#0 → GPU [1, 0]".to_string(),
            "ID\tLabel\tOutput\tStatus\tCommand (1/2)".to_string(),
            "0\t\t/tmp/a\tRunning\techo hi".to_string(),
            "1\thigher\t\tPending\tsleep 10".to_string(),
        ]
    );
}

#[test]
fn info_lines() {
    let t = Task {
        status: TaskStatus::Failed,
        pid: Some(12),
        exit_code: Some(-3),
        command: "false".into(),
        dependencies: vec![(4, TaskStatus::Completed), (5, TaskStatus::Failed)],
        start_time: Some(Timestamp { secs: 1_700_000_000, nanos: 0 }),
        ..Default::default()
    };
    let lines = task_info_lines(&t, &"C".to_string(), &Some("S".to_string()), &None, &None);
    assert_eq!(
        lines,
        vec![
            "Status: Failed",
            "PID: 12",
            "Exit code: -3",
            "Command: false",
            "Log path: ",
            "Dependence: 4, 5",
            "Create time: C",
            "Start time: S",
        ]
    );
    assert_eq!(status_name(TaskStatus::Skipped), "Skipped");
}

#[test]
fn emitted_lines_rebuild_the_bytes() {
    let waiting = b"ab".to_vec();
    let new = b"c\n\nde\nf".to_vec();
    let mut remaining = waiting.clone();
    let lines = emit_log_lines(&mut remaining, &new, false);
    let mut rebuilt: Vec<u8> = Vec::new();
    for l in &lines {
        rebuilt.extend_from_slice(l);
        rebuilt.push(b'\n');
    }
    rebuilt.extend_from_slice(&remaining);
    let mut all = waiting;
    all.extend_from_slice(&new);
    assert_eq!(rebuilt, all);
    assert!(!remaining.contains(&b'\n'));
}

#[test]
fn chunked_log_gives_the_same_lines() {
    let bytes = "one\ntwo é\r\n\nthree".as_bytes().to_vec();
    let mut whole_waiting: Vec<u8> = Vec::new();
    let whole = emit_log_lines(&mut whole_waiting, &bytes, true);
    for cut in 0..bytes.len() {
        for cut2 in cut..bytes.len() {
            let mut waiting: Vec<u8> = Vec::new();
            let mut lines = emit_log_lines(&mut waiting, &bytes[..cut].to_vec(), false);
            lines.extend(emit_log_lines(&mut waiting, &bytes[cut..cut2].to_vec(), false));
            lines.extend(emit_log_lines(&mut waiting, &bytes[cut2..].to_vec(), false));
            lines.extend(emit_log_lines(&mut waiting, &Vec::new(), true));
            assert_eq!(lines, whole);
            assert!(waiting.is_empty());
        }
    }
    assert_eq!(whole.len(), 4);
    assert_eq!(whole[3], b"three".to_vec());
}

#[test]
fn clock_readings_before_and_after_the_epoch() {
    assert_eq!(timestamp_from_reading(Ok((5, 3))), Timestamp { secs: 5, nanos: 3 });
    assert_eq!(timestamp_from_reading(Err((3, 0))), Timestamp { secs: -3, nanos: 0 });
    assert_eq!(timestamp_from_reading(Err((1, 250_000_000))), Timestamp { secs: -2, nanos: 750_000_000 });
    assert_eq!(timestamp_from_reading(Ok((u64::MAX, 7))), Timestamp { secs: i64::MAX, nanos: 7 });
    assert!(now().secs > 1_600_000_000);
}
