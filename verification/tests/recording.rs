use bevy_light_field::recording::{
    sink_change, RecordingAction, RecordingCommand, RecordingState, SinkChange, IDLE_LIMIT_NANOS,
};

const SECOND: u64 = 1_000_000_000;
const FRAME: u64 = 16_666_667;

fn run(mut state: RecordingState, ticks: &[(u64, usize)]) -> (RecordingState, Vec<RecordingAction>) {
    let mut actions = Vec::new();
    for (elapsed, detections) in ticks {
        let (next, action) = state.step(*elapsed, *detections);
        state = next;
        actions.push(action);
    }
    (state, actions)
}

#[test]
fn idle_limit_is_three_seconds() {
    assert_eq!(IDLE_LIMIT_NANOS, 3 * SECOND);
}

#[test]
fn controller_starts_idle() {
    assert_eq!(RecordingState::new(), RecordingState::Idle);
    assert!(!RecordingState::new().is_recording());
    assert!(RecordingState::Recording { idle_nanos: 0 }.is_recording());
}

#[test]
fn idle_controller_waits_for_a_detection() {
    let (state, actions) = run(RecordingState::Idle, &[(FRAME, 0), (10 * SECOND, 0)]);
    assert_eq!(state, RecordingState::Idle);
    assert_eq!(actions, vec![RecordingAction::Keep, RecordingAction::Keep]);
}

#[test]
fn first_detection_starts_recording() {
    let (state, action) = RecordingState::Idle.step(FRAME, 1);
    assert_eq!(action, RecordingAction::Start);
    assert_eq!(state, RecordingState::Recording { idle_nanos: 0 });
    let (state, action) = RecordingState::Idle.step(FRAME, 5);
    assert_eq!(action, RecordingAction::Start);
    assert_eq!(state, RecordingState::Recording { idle_nanos: 0 });
}

#[test]
fn time_without_detections_adds_up() {
    let (state, actions) =
        run(RecordingState::Recording { idle_nanos: 0 }, &[(SECOND, 0), (SECOND, 0), (500, 0)]);
    assert_eq!(state, RecordingState::Recording { idle_nanos: 2 * SECOND + 500 });
    assert!(actions.iter().all(|a| *a == RecordingAction::Keep));
}

#[test]
fn detection_sets_the_time_back() {
    let (state, action) = RecordingState::Recording { idle_nanos: 2 * SECOND }.step(SECOND, 1);
    assert_eq!(action, RecordingAction::Keep);
    assert_eq!(state, RecordingState::Recording { idle_nanos: 0 });
}

#[test]
fn detections_less_than_three_seconds_apart_keep_the_session_open() {
    let mut ticks = Vec::new();
    for _ in 0..20 {
        ticks.push((SECOND, 0));
        ticks.push((SECOND, 0));
        ticks.push((SECOND - 1, 1));
    }
    let (state, actions) = run(RecordingState::Recording { idle_nanos: 0 }, &ticks);
    assert!(state.is_recording());
    assert!(actions.iter().all(|a| *a == RecordingAction::Keep));
}

#[test]
fn exactly_three_seconds_without_detection_do_not_stop() {
    let (state, action) = RecordingState::Recording { idle_nanos: 3 * SECOND }.step(FRAME, 0);
    assert_eq!(action, RecordingAction::Keep);
    assert_eq!(state, RecordingState::Recording { idle_nanos: 3 * SECOND + FRAME });
}

#[test]
fn more_than_three_seconds_without_detection_stop_once() {
    let ticks = [(SECOND, 0), (SECOND, 0), (SECOND, 0), (1, 0), (FRAME, 0), (FRAME, 0), (FRAME, 0)];
    let (state, actions) = run(RecordingState::Recording { idle_nanos: 0 }, &ticks);
    assert_eq!(state, RecordingState::Idle);
    assert_eq!(
        actions,
        vec![
            RecordingAction::Keep,
            RecordingAction::Keep,
            RecordingAction::Keep,
            RecordingAction::Keep,
            RecordingAction::Stop,
            RecordingAction::Keep,
            RecordingAction::Keep,
        ]
    );
    assert_eq!(actions.iter().filter(|a| **a == RecordingAction::Stop).count(), 1);
}

#[test]
fn detections_in_the_stopping_tick_start_nothing() {
    let (state, action) = RecordingState::Recording { idle_nanos: 3 * SECOND + 1 }.step(FRAME, 2);
    assert_eq!(action, RecordingAction::Stop);
    assert_eq!(state, RecordingState::Idle);
    let (state, action) = state.step(FRAME, 1);
    assert_eq!(action, RecordingAction::Start);
    assert_eq!(state, RecordingState::Recording { idle_nanos: 0 });
}

#[test]
fn sessions_follow_each_other() {
    let ticks = [
        (FRAME, 1),
        (2 * SECOND, 0),
        (2 * SECOND, 0),
        (FRAME, 0),
        (FRAME, 0),
        (FRAME, 3),
        (4 * SECOND, 0),
        (FRAME, 0),
    ];
    let (state, actions) = run(RecordingState::Idle, &ticks);
    assert_eq!(state, RecordingState::Idle);
    assert_eq!(
        actions,
        vec![
            RecordingAction::Start,
            RecordingAction::Keep,
            RecordingAction::Keep,
            RecordingAction::Stop,
            RecordingAction::Keep,
            RecordingAction::Start,
            RecordingAction::Keep,
            RecordingAction::Stop,
        ]
    );
}

#[test]
fn idle_time_is_held_at_the_largest_value() {
    let (state, action) = RecordingState::Recording { idle_nanos: 2 * SECOND }.step(u64::MAX, 0);
    assert_eq!(action, RecordingAction::Keep);
    assert_eq!(state, RecordingState::Recording { idle_nanos: u64::MAX });
    let (state, action) = state.step(1, 0);
    assert_eq!(action, RecordingAction::Stop);
    assert_eq!(state, RecordingState::Idle);
}

#[test]
fn start_command_opens_a_sink_and_finishes_the_open_one() {
    let start = RecordingCommand::StartRecording("0.mp4");
    assert_eq!(sink_change(false, &start), SinkChange { finish_current: false, open_new: true });
    assert_eq!(sink_change(true, &start), SinkChange { finish_current: true, open_new: true });
}

#[test]
fn stop_command_finishes_the_open_sink() {
    let stop: RecordingCommand<&str> = RecordingCommand::StopRecording;
    assert_eq!(sink_change(true, &stop), SinkChange { finish_current: true, open_new: false });
    assert_eq!(sink_change(false, &stop), SinkChange { finish_current: false, open_new: false });
}
