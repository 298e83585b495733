use rts::worker::action_of_exit;
use rts::state::ServerState;
use rts::task::{ChannelMessage, GpuRequirement, Task, TaskAction, TaskStatus};

fn state_with(num_slots: u32, n: u32) -> ServerState {
    let mut state = ServerState::new(num_slots, None, vec![], vec![]);
    for _ in 0..n {
        state
            .push_task(
                Task {
                    command: "sleep 0.1".to_string(),
                    current_dir: "/".to_string(),
                    ..Default::default()
                },
                &vec![],
            )
            .unwrap();
    }
    state
}

fn status(state: &ServerState, id: u32) -> TaskStatus {
    state.tasks.get(id).unwrap().status
}

fn run() -> ChannelMessage {
    ChannelMessage { task_id: None, task_action: TaskAction::Run }
}

fn report(id: u32, action: TaskAction) -> ChannelMessage {
    ChannelMessage { task_id: Some(id), task_action: action }
}

#[test]
fn two_slots_start_the_two_oldest() {
    let mut state = state_with(2, 3);
    let launched = state.handle_message(run()).launched;
    assert_eq!(launched, vec![0, 1]);
    assert_eq!(status(&state, 0), TaskStatus::Running);
    assert_eq!(status(&state, 1), TaskStatus::Running);
    assert_eq!(status(&state, 2), TaskStatus::Pending);
    assert_eq!(state.used_slots, 2);
    assert!(state.tasks.get(0).unwrap().start_time.is_some());
}

#[test]
fn failure_records_the_exit_code() {
    let mut state = state_with(2, 1);
    assert_eq!(state.handle_message(run()).launched, vec![0]);
    let launched = state.handle_message(report(0, TaskAction::Fail(127))).launched;
    assert!(launched.is_empty());
    let t = state.tasks.get(0).unwrap();
    assert_eq!(t.status, TaskStatus::Failed);
    assert_eq!(t.exit_code, Some(127));
    assert!(t.end_time.is_some());
    assert_eq!(state.used_slots, 0);
}

#[test]
fn completion_and_kill_codes() {
    let mut state = state_with(2, 2);
    state.handle_message(run());
    state.handle_message(report(0, TaskAction::Complete));
    state.handle_message(report(1, TaskAction::Kill));
    assert_eq!(state.tasks.get(0).unwrap().exit_code, Some(0));
    assert_eq!(status(&state, 0), TaskStatus::Completed);
    assert_eq!(state.tasks.get(1).unwrap().exit_code, Some(1));
    assert_eq!(status(&state, 1), TaskStatus::Killed);
}

#[test]
fn dependent_waits_until_dependencies_complete() {
    let mut state = state_with(2, 3);
    state
        .push_task(
            Task { command: "sleep 0.1".to_string(), ..Default::default() },
            &vec![0, 1, 2],
        )
        .unwrap();
    assert_eq!(state.handle_message(run()).launched, vec![0, 1]);
    assert_eq!(status(&state, 2), TaskStatus::Pending);
    assert_eq!(status(&state, 3), TaskStatus::Pending);
    assert_eq!(state.handle_message(report(0, TaskAction::Complete)).launched, vec![2]);
    assert_eq!(state.handle_message(report(1, TaskAction::Complete)).launched, Vec::<u32>::new());
    assert_eq!(status(&state, 2), TaskStatus::Running);
    assert_eq!(status(&state, 3), TaskStatus::Pending);
    assert_eq!(state.handle_message(report(2, TaskAction::Complete)).launched, vec![3]);
    assert_eq!(
        state.tasks.get(3).unwrap().dependencies,
        vec![(0, TaskStatus::Completed), (1, TaskStatus::Completed), (2, TaskStatus::Completed)]
    );
}

#[test]
fn failed_dependency_skips_a_waiting_task() {
    let mut state = state_with(1, 1);
    state.push_task(Task::default(), &vec![0]).unwrap();
    state.handle_message(run());
    let launched = state.handle_message(report(0, TaskAction::Fail(2))).launched;
    assert!(launched.is_empty());
    assert_eq!(status(&state, 1), TaskStatus::Skipped);
    assert_eq!(state.tasks.get(1).unwrap().dependencies, vec![(0, TaskStatus::Failed)]);
}

#[test]
fn delayed_dependent_runs_after_a_failure() {
    let mut state = state_with(1, 1);
    state
        .push_task(Task { not_safely_depends: true, ..Default::default() }, &vec![0])
        .unwrap();
    assert_eq!(state.handle_message(run()).launched, vec![0]);
    assert_eq!(state.handle_message(report(0, TaskAction::Fail(2))).launched, vec![1]);
    assert_eq!(status(&state, 1), TaskStatus::Running);
}

#[test]
fn reports_for_unknown_tasks_and_run_reports_change_nothing() {
    let mut state = state_with(1, 1);
    assert!(state.handle_message(report(9, TaskAction::Complete)).launched.is_empty());
    assert!(state.handle_message(report(0, TaskAction::Run)).launched.is_empty());
    assert!(state.handle_message(ChannelMessage { task_id: None, task_action: TaskAction::Complete }).launched.is_empty());
    assert_eq!(status(&state, 0), TaskStatus::Pending);
    assert_eq!(state.used_slots, 0);
}

#[test]
fn gpu_task_without_nvml_stays_pending() {
    let mut state = ServerState::new(2, None, vec![], vec![]);
    state
        .push_task(
            Task {
                gpu_requirement: Some(GpuRequirement { count: 1, min_free_mem_bytes: None }),
                ..Default::default()
            },
            &vec![],
        )
        .unwrap();
    state.push_task(Task::default(), &vec![]).unwrap();
    assert_eq!(state.handle_message(run()).launched, vec![1]);
    assert_eq!(status(&state, 0), TaskStatus::Pending);
    assert_eq!(state.tick(), None);
}

#[test]
fn record_launch_sets_pid_and_log() {
    let mut state = state_with(1, 1);
    state.handle_message(run());
    assert_eq!(state.record_launch(0, Some((Some(42), "/tmp/log".to_string()))), None);
    let t = state.tasks.get(0).unwrap();
    assert_eq!(t.pid, Some(42));
    assert_eq!(t.log_path, Some("/tmp/log".to_string()));
    assert_eq!(
        state.record_launch(0, None),
        Some(ChannelMessage { task_id: Some(0), task_action: TaskAction::Fail(1) })
    );
}

#[test]
fn growing_slots_starts_more() {
    let mut state = state_with(1, 2);
    assert_eq!(state.handle_message(run()).launched, vec![0]);
    let msg = state.set_num_slots(2).unwrap();
    assert_eq!(state.handle_message(msg).launched, vec![1]);
    assert_eq!(state.used_slots, 2);
}

#[test]
fn delayed_dependent_waits_for_its_dependency_to_end() {
    let mut state = state_with(2, 1);
    state
        .push_task(Task { not_safely_depends: true, ..Default::default() }, &vec![0])
        .unwrap();
    assert_eq!(state.handle_message(run()).launched, vec![0]);
    assert_eq!(status(&state, 1), TaskStatus::Pending);
    assert_eq!(state.handle_message(report(0, TaskAction::Kill)).launched, vec![1]);
}

#[test]
fn configure_applies_what_is_given() {
    let mut state = ServerState::new(1, None, vec![], vec![]);
    assert_eq!(state.configure(Some(3), Some(vec![1, 2]), None), Some(run()));
    assert_eq!(state.num_slots, 3);
    assert_eq!(state.gpu_ids, vec![1, 2]);
    assert_eq!(state.configure(None, None, Some(vec![])), None);
    assert_eq!(state.num_slots, 3);
}

fn running_count(state: &ServerState) -> u32 {
    let mut n = 0;
    for i in 0..state.tasks.len() {
        if state.tasks.task_at(i).status == TaskStatus::Running {
            n += 1;
        }
    }
    n
}

#[test]
fn used_slots_match_running_tasks() {
    let mut state = state_with(2, 4);
    state.handle_message(run());
    assert_eq!(running_count(&state), state.used_slots);
    state.handle_message(report(1, TaskAction::Complete));
    assert_eq!(running_count(&state), state.used_slots);
    assert_eq!(state.used_slots, 2);
    state.handle_message(report(0, TaskAction::Fail(3)));
    state.handle_message(report(2, TaskAction::Kill));
    assert_eq!(running_count(&state), state.used_slots);
    assert_eq!(state.used_slots, 1);
}

#[test]
fn clock_readings_are_recorded() {
    let mut state = state_with(1, 1);
    let created = state.tasks.get(0).unwrap().create_time;
    assert_eq!(created.secs, 0);
    state.handle_message(run());
    let started = state.tasks.get(0).unwrap().start_time.unwrap();
    assert!(started.secs > 1_600_000_000);
    assert!(started.nanos < 2_000_000_000);
    state.handle_message(report(0, TaskAction::Complete));
    let ended = state.tasks.get(0).unwrap().end_time.unwrap();
    assert!(ended.secs >= started.secs);
}

#[test]
fn exit_reports() {
    assert_eq!(action_of_exit(Some((true, Some(0)))), TaskAction::Complete);
    assert_eq!(action_of_exit(Some((false, Some(127)))), TaskAction::Fail(127));
    assert_eq!(action_of_exit(Some((false, None))), TaskAction::Kill);
    assert_eq!(action_of_exit(None), TaskAction::Fail(1));
}

#[test]
fn pass_without_nvml_never_stops_early() {
    let mut state = state_with(1, 2);
    let pass = state.handle_message(run());
    assert_eq!(pass.launched, vec![0]);
    assert!(pass.stuck.is_none());
}
