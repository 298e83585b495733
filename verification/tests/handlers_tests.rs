use rts::errors::ServerError;
use rts::scheme::PushTaskRequest;
use rts::state::ServerState;
use rts::task::{ChannelMessage, Task, TaskAction, TaskStatus};
use rts::table::TaskTable;

fn new_state() -> ServerState {
    ServerState::new(1, None, vec![], vec![])
}

fn push_request() -> PushTaskRequest {
    PushTaskRequest {
        label: Some("test".to_string()),
        command: "echo hi".to_string(),
        log_path: Some("/tmp/rtx/test_push".to_string()),
        current_dir: "/".to_string(),
        envs: vec![("PYTHONPATH".to_string(), "/".to_string())],
        not_safely_depends: false,
        dependencies: Vec::new(),
        gpu_requirement: None,
    }
}

fn check_pushed(state: &ServerState, request: &PushTaskRequest, message: ChannelMessage) {
    let task0 = state.tasks.get(0).unwrap();
    assert_eq!(task0.label, request.label);
    assert_eq!(task0.status, TaskStatus::Pending);
    assert_eq!(task0.command, request.command);
    assert_eq!(task0.log_path, Some("/tmp/rtx/test_push".to_string()));
    assert_eq!(task0.current_dir, request.current_dir);
    assert_eq!(task0.envs, request.envs);
    assert_eq!(
        message,
        ChannelMessage {
            task_id: None,
            task_action: TaskAction::Run,
        }
    );
}

#[test]
fn handlers_test_push_task() {
    let mut state = new_state();
    let request = push_request();
    let message = state.push_request(request.clone()).unwrap();
    check_pushed(&state, &request, message);
}

#[test]
fn push_test_push_task() {
    let mut state = new_state();
    let request = push_request();
    let message = state.push_request(request.clone()).unwrap();
    check_pushed(&state, &request, message);
}

#[test]
fn test_push_task_invalid_dependency() {
    let mut state = new_state();
    let request = PushTaskRequest {
        label: None,
        command: "echo hi".to_string(),
        log_path: None,
        current_dir: "/".to_string(),
        envs: Vec::new(),
        not_safely_depends: false,
        dependencies: vec![999],
        gpu_requirement: None,
    };
    let result = state.push_request(request);
    assert!(result.is_err());
    match result {
        Err(ServerError::InvalidParams(msg)) => {
            assert_eq!(msg, "Invalid dependence task IDs");
        }
        _ => panic!("Expected ServerError::InvalidParams"),
    }
}

fn running_state() -> ServerState {
    let mut state = new_state();
    let task = Task {
        status: TaskStatus::Running,
        command: "echo hi".into(),
        ..Default::default()
    };
    state.tasks.insert(0, task);
    state
}

fn completed_state() -> ServerState {
    let mut state = new_state();
    let task = Task {
        status: TaskStatus::Completed,
        command: "echo hi".into(),
        ..Default::default()
    };
    state.tasks.insert(0, task);
    state
}

#[test]
fn handlers_test_remove_running_task() {
    let mut state = running_state();
    let result = state.remove_task(0, false);
    assert!(result.is_err());
}

#[test]
fn remove_test_remove_running_task() {
    let mut state = running_state();
    let result = state.remove_task(0, false);
    assert!(result.is_err());
}

#[test]
fn handlers_test_remove_unrun_task() {
    let mut state = completed_state();
    let result = state.remove_task(0, false);
    assert!(result.is_ok());
}

#[test]
fn remove_test_remove_unrun_task() {
    let mut state = completed_state();
    let result = state.remove_task(0, false);
    assert!(result.is_ok());
}

fn mixed_state() -> ServerState {
    let mut state = new_state();
    state.tasks.insert(
        0,
        Task {
            status: TaskStatus::Pending,
            command: "echo hi".into(),
            ..Default::default()
        },
    );
    state.tasks.insert(
        1,
        Task {
            status: TaskStatus::Completed,
            command: "echo hi".into(),
            ..Default::default()
        },
    );
    state
}

#[test]
fn handlers_test_remove_all_task() {
    let mut state = mixed_state();
    let result = state.remove_task(0, true);
    assert!(result.is_ok());
    assert!(state.tasks.get(0).is_some());
    assert!(state.tasks.get(1).is_none());
}

#[test]
fn remove_test_remove_all_task() {
    let mut state = mixed_state();
    let result = state.remove_task(0, true);
    assert!(result.is_ok());
    assert!(state.tasks.get(0).is_some());
    assert!(state.tasks.get(1).is_none());
}

fn info_task() -> Task {
    Task {
        status: TaskStatus::Running,
        command: "echo hi".into(),
        log_path: Some("/tmp/a".to_string()),
        ..Default::default()
    }
}

#[test]
fn handlers_test_list_tasks() {
    let mut state = new_state();
    let task = info_task();
    state.tasks.insert(0, task.clone());
    let result = state.get_task_info(0).unwrap();
    assert_eq!(result, task);
}

#[test]
fn info_test_list_tasks() {
    let mut state = new_state();
    let task = info_task();
    state.tasks.insert(0, task.clone());
    let result = state.get_task_info(0).unwrap();
    assert_eq!(result, task);
}

#[test]
fn list_test_list_tasks() {
    let mut state = new_state();
    let mut tasks = TaskTable::new();
    tasks.insert(
        0,
        Task {
            status: TaskStatus::Running,
            command: "echo hi".into(),
            log_path: Some("/tmp/a".to_string()),
            ..Default::default()
        },
    );
    tasks.insert(
        1,
        Task {
            label: Some("higher".to_string()),
            status: TaskStatus::Pending,
            command: "sleep 10".into(),
            ..Default::default()
        },
    );
    state.tasks = tasks.duplicate();
    let result = state.list_tasks();
    assert_eq!(result.num_slots, 1);
    assert_eq!(result.used_slots, 0);
    assert_eq!(result.tasks, tasks.into_rows());
}

#[test]
fn handlers_test_configure() {
    let mut state = new_state();
    let message = state.set_num_slots(2);
    assert_eq!(state.num_slots, 2);
    assert_eq!(
        message,
        Some(ChannelMessage {
            task_id: None,
            task_action: TaskAction::Run,
        })
    );
}

#[test]
fn configure_test_configure() {
    let mut state = new_state();
    let message = state.set_num_slots(2);
    assert_eq!(state.num_slots, 2);
    assert_eq!(
        message,
        Some(ChannelMessage {
            task_id: None,
            task_action: TaskAction::Run,
        })
    );
}

#[test]
fn configure_fewer_slots_sends_nothing() {
    let mut state = new_state();
    assert_eq!(state.set_num_slots(1), None);
    assert_eq!(state.set_num_slots(0), None);
    assert_eq!(state.num_slots, 0);
}

#[test]
fn info_of_missing_task() {
    let state = new_state();
    match state.get_task_info(7) {
        Err(ServerError::InvalidParams(m)) => assert_eq!(m, "No task with ID 7"),
        _ => panic!("expected an error"),
    }
}

#[test]
fn remove_errors_name_the_task() {
    let mut state = running_state();
    match state.remove_task(0, false) {
        Err(ServerError::InvalidParams(m)) => assert_eq!(m, "Task 0 is running!"),
        _ => panic!("expected an error"),
    }
    match state.remove_task(42, false) {
        Err(ServerError::InvalidParams(m)) => assert_eq!(m, "No task with ID 42"),
        _ => panic!("expected an error"),
    }
    assert!(state.tasks.get(0).is_some());
}

#[test]
fn kill_refusals() {
    let mut state = new_state();
    match state.kill_task(3) {
        Err(ServerError::InvalidParams(m)) => assert_eq!(m, "No task with ID 3"),
        _ => panic!("expected an error"),
    }
    state.tasks.insert(3, Task::default());
    match state.kill_task(3) {
        Err(ServerError::InternalError(m)) => assert_eq!(m, "The task may not has run"),
        _ => panic!("expected an error"),
    }
    state.tasks.insert(3, Task { pid: Some(u32::MAX), ..Default::default() });
    match state.kill_task(3) {
        Err(ServerError::InternalError(m)) => assert_eq!(m, "The task PID is too big!"),
        _ => panic!("expected an error"),
    }
    state.tasks.insert(3, Task { pid: Some(1234), ..Default::default() });
    assert_eq!(state.kill_target(3), Ok(1234));
}

#[test]
fn push_links_dependencies_both_ways() {
    let mut state = new_state();
    state.push_task(Task::default(), &vec![]).unwrap();
    state.push_task(Task::default(), &vec![]).unwrap();
    state.push_task(Task::default(), &vec![1, 0]).unwrap();
    let t2 = state.tasks.get(2).unwrap();
    assert_eq!(t2.dependencies, vec![(0, TaskStatus::Pending), (1, TaskStatus::Pending)]);
    assert_eq!(state.tasks.get(0).unwrap().required, vec![2]);
    assert_eq!(state.tasks.get(1).unwrap().required, vec![2]);
    assert_eq!(state.task_id_counter, 3);
}

#[test]
fn failed_push_changes_nothing() {
    let mut state = new_state();
    state.push_task(Task::default(), &vec![]).unwrap();
    assert!(state.push_task(Task::default(), &vec![0, 5]).is_err());
    assert_eq!(state.task_id_counter, 1);
    assert_eq!(state.tasks.len(), 1);
    assert!(state.tasks.get(0).unwrap().required.is_empty());
}

#[test]
fn pushed_request_is_stamped_now() {
    let mut state = new_state();
    state.push_request(push_request()).unwrap();
    assert!(state.tasks.get(0).unwrap().create_time.secs > 1_600_000_000);
}

#[test]
fn kill_of_a_missing_process_is_an_internal_error() {
    let mut state = new_state();
    state.tasks.insert(0, Task { pid: Some(999_999_999), ..Default::default() });
    match state.kill_task(0) {
        Err(ServerError::InternalError(m)) => assert_eq!(m, "ESRCH: No such process"),
        other => panic!("expected an internal error, got {:?}", other),
    }
}

#[test]
fn ids_are_never_reused() {
    let mut state = new_state();
    state.push_task(Task::default(), &vec![]).unwrap();
    state.push_task(Task::default(), &vec![]).unwrap();
    state.remove_task(1, false).unwrap();
    state.remove_task(0, false).unwrap();
    assert_eq!(state.tasks.len(), 0);
    state.push_task(Task::default(), &vec![]).unwrap();
    assert!(state.tasks.contains_key(2));
    assert!(!state.tasks.contains_key(0) && !state.tasks.contains_key(1));
    assert_eq!(state.task_id_counter, 3);
}
