//! When to record.
//!
//! Recording starts with the first detection of a subject and goes on for
//! as long as detections keep coming. Once more than three seconds have
//! passed without one, it stops. The controller is asked once per tick of
//! the consumer with the time since the tick before and the number of
//! detections that arrived in between, and answers what is to be done.
//!
//! A camera session applies the commands it is sent between two access
//! units: starting opens a new sink and finishes the one before it, stopping
//! finishes the sink.

use vstd::prelude::*;

verus! {

/// The time without a detection after which recording stops, in
/// nanoseconds: three seconds.
pub const IDLE_LIMIT_NANOS: u64 = 3_000_000_000;

/// The state of the controller between two ticks.
#[derive(Debug, Clone, Copy, PartialEq, Eq, Structural)]
pub enum RecordingState {
    /// Nothing is recorded.
    Idle,
    /// A session is recorded; `idle_nanos` have passed since the last
    /// detection.
    Recording { idle_nanos: u64 },
}

/// What the caller has to do after a tick.
#[derive(Debug, Clone, Copy, PartialEq, Eq, Structural)]
pub enum RecordingAction {
    /// Nothing.
    Keep,
    /// Open a new session and start recording every camera.
    Start,
    /// Stop recording and attach the recorded clips to the session.
    Stop,
}

/// What a tick brings: the time since the tick before, in nanoseconds, and
/// the number of detections since then.
#[derive(Debug, Clone, Copy, PartialEq, Eq, Structural)]
pub struct Tick {
    pub elapsed_nanos: u64,
    pub detections: usize,
}

/// `a + b`, held at the largest `u64`.
pub open spec fn held_sum(a: int, b: int) -> u64 {
    if a + b > u64::MAX {
        u64::MAX
    } else {
        (a + b) as u64
    }
}

/// The state after a tick.
pub open spec fn next_state(state: RecordingState, tick: Tick) -> RecordingState {
    match state {
        RecordingState::Idle => if tick.detections > 0 {
            RecordingState::Recording { idle_nanos: 0 }
        } else {
            RecordingState::Idle
        },
        RecordingState::Recording { idle_nanos } => if idle_nanos > IDLE_LIMIT_NANOS {
            RecordingState::Idle
        } else if tick.detections > 0 {
            RecordingState::Recording { idle_nanos: 0 }
        } else {
            RecordingState::Recording {
                idle_nanos: held_sum(idle_nanos as int, tick.elapsed_nanos as int),
            }
        },
    }
}

/// What is to be done after a tick.
pub open spec fn next_action(state: RecordingState, tick: Tick) -> RecordingAction {
    match state {
        RecordingState::Idle => if tick.detections > 0 {
            RecordingAction::Start
        } else {
            RecordingAction::Keep
        },
        RecordingState::Recording { idle_nanos } => if idle_nanos > IDLE_LIMIT_NANOS {
            RecordingAction::Stop
        } else {
            RecordingAction::Keep
        },
    }
}

impl RecordingState {
    /// The state in which nothing is recorded.
    pub fn new() -> (state: RecordingState)
        ensures
            state == RecordingState::Idle,
    {
        RecordingState::Idle
    }

    /// Whether a session is being recorded.
    pub fn is_recording(&self) -> (recording: bool)
        ensures
            recording == (*self != RecordingState::Idle),
    {
        match self {
            RecordingState::Idle => false,
            RecordingState::Recording { .. } => true,
        }
    }

    /// Takes one tick: `elapsed_nanos` have passed since the tick before
    /// and `detections` detections have arrived. While idle, a detection
    /// starts recording. While recording, the tick first looks at the time
    /// that had passed without a detection: above the limit, recording
    /// stops, and the detections of this tick start nothing; otherwise a
    /// detection sets the time back to zero, and the lack of one adds
    /// `elapsed_nanos` to it.
    pub fn step(self, elapsed_nanos: u64, detections: usize) -> (result: (
        RecordingState,
        RecordingAction,
    ))
        ensures
            result.0 == next_state(self, Tick { elapsed_nanos, detections }),
            result.1 == next_action(self, Tick { elapsed_nanos, detections }),
    {
        match self {
            RecordingState::Idle => {
                if detections > 0 {
                    (RecordingState::Recording { idle_nanos: 0 }, RecordingAction::Start)
                } else {
                    (RecordingState::Idle, RecordingAction::Keep)
                }
            },
            RecordingState::Recording { idle_nanos } => {
                if idle_nanos > IDLE_LIMIT_NANOS {
                    (RecordingState::Idle, RecordingAction::Stop)
                } else if detections > 0 {
                    (RecordingState::Recording { idle_nanos: 0 }, RecordingAction::Keep)
                } else {
                    let idle = if elapsed_nanos > u64::MAX - idle_nanos {
                        u64::MAX
                    } else {
                        idle_nanos + elapsed_nanos
                    };
                    (RecordingState::Recording { idle_nanos: idle }, RecordingAction::Keep)
                }
            },
        }
    }
}

/// The state after a run of ticks.
pub open spec fn state_after(state: RecordingState, ticks: Seq<Tick>) -> RecordingState
    decreases ticks.len(),
{
    if ticks.len() == 0 {
        state
    } else {
        next_state(state_after(state, ticks.drop_last()), ticks.last())
    }
}

/// What is to be done after tick `k` of a run.
pub open spec fn action_at(state: RecordingState, ticks: Seq<Tick>, k: int) -> RecordingAction {
    next_action(state_after(state, ticks.take(k)), ticks[k])
}

/// The time that has passed without a detection at the end of a run of
/// ticks which began `idle` nanoseconds after a detection.
pub open spec fn quiet_time(idle: nat, ticks: Seq<Tick>) -> nat
    decreases ticks.len(),
{
    if ticks.len() == 0 {
        idle
    } else if ticks.last().detections > 0 {
        0
    } else {
        quiet_time(idle, ticks.drop_last()) + ticks.last().elapsed_nanos as nat
    }
}

/// While no tick of a run finds more than the limit passed since the last
/// detection, recording goes on: nothing is started or stopped, and the
/// controller has counted the time since the last detection.
pub proof fn lemma_detections_keep_recording(idle_nanos: u64, ticks: Seq<Tick>)
    requires
        forall|k: int|
            0 <= k < ticks.len() ==> quiet_time(idle_nanos as nat, #[trigger] ticks.take(k))
                <= IDLE_LIMIT_NANOS,
    ensures
        state_after(RecordingState::Recording { idle_nanos }, ticks)
            == (RecordingState::Recording {
            idle_nanos: held_sum(quiet_time(idle_nanos as nat, ticks) as int, 0),
        }),
        forall|k: int|
            0 <= k < ticks.len() ==> action_at(RecordingState::Recording { idle_nanos }, ticks, k)
                == RecordingAction::Keep,
    decreases ticks.len(),
{
    let start = RecordingState::Recording { idle_nanos };
    if ticks.len() > 0 {
        let front = ticks.drop_last();
        let last = ticks.len() - 1;
        assert forall|k: int| 0 <= k < front.len() implies quiet_time(
            idle_nanos as nat,
            #[trigger] front.take(k),
        ) <= IDLE_LIMIT_NANOS by {
            assert(front.take(k) =~= ticks.take(k));
        }
        lemma_detections_keep_recording(idle_nanos, front);
        assert(ticks.take(last) =~= front);
        assert(quiet_time(idle_nanos as nat, front) <= IDLE_LIMIT_NANOS);
        assert forall|k: int| 0 <= k < ticks.len() implies action_at(start, ticks, k)
            == RecordingAction::Keep by {
            if k < last {
                assert(front.take(k) =~= ticks.take(k));
                assert(action_at(start, front, k) == RecordingAction::Keep);
            }
        }
    }
}

/// The first tick that finds more than the limit passed since the last
/// detection stops the recording, and leaves the controller idle.
pub proof fn lemma_silence_stops_recording(idle_nanos: u64, ticks: Seq<Tick>, k: int)
    requires
        0 <= k < ticks.len(),
        forall|j: int|
            0 <= j < k ==> quiet_time(idle_nanos as nat, #[trigger] ticks.take(j))
                <= IDLE_LIMIT_NANOS,
        quiet_time(idle_nanos as nat, ticks.take(k)) > IDLE_LIMIT_NANOS,
    ensures
        action_at(RecordingState::Recording { idle_nanos }, ticks, k) == RecordingAction::Stop,
        state_after(RecordingState::Recording { idle_nanos }, ticks.take(k + 1))
            == RecordingState::Idle,
{
    let before = ticks.take(k);
    assert forall|j: int| 0 <= j < before.len() implies quiet_time(
        idle_nanos as nat,
        #[trigger] before.take(j),
    ) <= IDLE_LIMIT_NANOS by {
        assert(before.take(j) =~= ticks.take(j));
    }
    lemma_detections_keep_recording(idle_nanos, before);
    assert(ticks.take(k + 1).drop_last() =~= before);
    assert(ticks.take(k + 1).last() == ticks[k]);
}

/// A recording is stopped once: after a tick that stops it, no later tick
/// stops anything unless a tick in between has started a recording.
pub proof fn lemma_stopped_once(state: RecordingState, ticks: Seq<Tick>, i: int, j: int)
    requires
        0 <= i < j < ticks.len(),
        action_at(state, ticks, i) == RecordingAction::Stop,
        forall|m: int| i < m < j ==> action_at(state, ticks, m) != RecordingAction::Start,
    ensures
        action_at(state, ticks, j) != RecordingAction::Stop,
        state_after(state, ticks.take(j)) == RecordingState::Idle,
    decreases j - i,
{
    assert(ticks.take(j).drop_last() =~= ticks.take(j - 1));
    assert(ticks.take(j).last() == ticks[j - 1]);
    if j - 1 == i {
        assert(state_after(state, ticks.take(j)) == next_state(
            state_after(state, ticks.take(i)),
            ticks[i],
        ));
    } else {
        lemma_stopped_once(state, ticks, i, j - 1);
        assert(action_at(state, ticks, j - 1) != RecordingAction::Start);
    }
}

/// A command sent to a camera session.
#[derive(Debug)]
pub enum RecordingCommand<S> {
    /// Record to the sink that comes with the command.
    StartRecording(S),
    /// Finish the recording.
    StopRecording,
}

/// What a camera session does to its sink when a command arrives.
#[derive(Debug, Clone, Copy, PartialEq, Eq, Structural)]
pub struct SinkChange {
    /// The sink that was written to is finished and given up.
    pub finish_current: bool,
    /// A writer is opened on the sink of the command. The session records
    /// from now on if that succeeds.
    pub open_new: bool,
}

/// What a session whose sink is open or not (`recording`) does on
/// `command`: starting finishes the sink that is open and opens the new
/// one, stopping finishes the sink that is open.
pub fn sink_change<S>(recording: bool, command: &RecordingCommand<S>) -> (change: SinkChange)
    ensures
        change.finish_current == recording,
        change.open_new == (*command is StartRecording),
{
    match command {
        RecordingCommand::StartRecording(_) => SinkChange {
            finish_current: recording,
            open_new: true,
        },
        RecordingCommand::StopRecording => SinkChange { finish_current: recording, open_new: false },
    }
}

} // verus!
