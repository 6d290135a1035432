//! The spawn sequence of a MULTI LOGIN, once every check has passed and the
//! accounts to start are reserved.
//!
//! The steps of the launch plan are started in order. Each start prepares
//! the account's broker session, then spawns its client; between two spawns
//! the launcher waits. When a preparation or a spawn fails, the reservations
//! of that step and of every later one are released (and the broker session
//! prepared for a failed spawn is cancelled), and the launch fails.
//!
//! The application performs each action that `multi_launch_step` returns and
//! reports what happened.

use vstd::prelude::*;
use crate::text::push_str;

verus! {

/// Where the spawn sequence stands.
#[derive(Debug, Clone, Copy, PartialEq, Eq, Structural)]
pub enum LaunchStage {
    /// Not begun.
    Ready,
    /// Waiting out the delay before the current step.
    Waiting,
    /// Waiting for the current step's broker session.
    Preparing,
    /// Waiting for the current step's client to spawn.
    Spawning,
    /// Finished, one way or the other.
    Done,
}

/// The spawn sequence over `steps` plan steps: `current` is the step under
/// way and `launched` the number of clients spawned so far.
#[derive(Debug, Clone, Copy, PartialEq, Eq, Structural)]
pub struct LaunchRun {
    pub steps: usize,
    pub current: usize,
    pub launched: usize,
    pub stage: LaunchStage,
}

/// What the application reports back.
#[derive(Debug)]
pub enum LaunchEvent {
    Start,
    /// The delay has passed.
    Slept,
    /// Outcome of preparing the current step's broker session.
    Prepared(Result<(), String>),
    /// Outcome of spawning the current step's client.
    Spawned(Result<(), String>),
}

/// What the application is asked to do next.
#[derive(Debug)]
pub enum LaunchAction {
    /// Wait the configured delay.
    Sleep,
    /// Prepare the broker session of plan step `index`.
    Prepare(usize),
    /// Spawn the client of plan step `index`.
    Spawn(usize),
    /// Cancel the broker session just prepared when asked, release the
    /// reservations of plan steps `release_from..`, and fail with `error`.
    Abort { cancel_broker_session: bool, release_from: usize, error: String },
    /// The launch succeeded with `launched` clients spawned.
    Finish { launched: usize },
}

impl LaunchRun {
    /// Every step before the current one has spawned its client.
    pub open spec fn wf(self) -> bool {
        match self.stage {
            LaunchStage::Ready => self.current == 0 && self.launched == 0,
            LaunchStage::Done => self.launched <= self.steps,
            _ => self.launched == self.current && self.current < self.steps,
        }
    }

    /// A spawn sequence over `steps` plan steps, not yet begun.
    pub fn new(steps: usize) -> (r: LaunchRun)
        ensures
            r == launch_start(steps),
            r.wf(),
    {
        LaunchRun { steps, current: 0, launched: 0, stage: LaunchStage::Ready }
    }
}

/// The spawn sequence over `steps` plan steps before it begins.
pub open spec fn launch_start(steps: usize) -> LaunchRun {
    LaunchRun { steps, current: 0, launched: 0, stage: LaunchStage::Ready }
}

/// The event the stage waits for, reporting success.
pub open spec fn went_well(stage: LaunchStage, e: LaunchEvent) -> bool {
    match stage {
        LaunchStage::Ready => e is Start,
        LaunchStage::Waiting => e is Slept,
        LaunchStage::Preparing => prepared_ok(e),
        LaunchStage::Spawning => spawned_ok(e),
        LaunchStage::Done => false,
    }
}

/// The next state when the awaited event reports success.
pub open spec fn on_success(s: LaunchRun) -> LaunchRun {
    match s.stage {
        LaunchStage::Ready => if s.steps == 0 {
            moved_to(s, LaunchStage::Done)
        } else {
            moved_to(s, LaunchStage::Preparing)
        },
        LaunchStage::Waiting => moved_to(s, LaunchStage::Preparing),
        LaunchStage::Preparing => moved_to(s, LaunchStage::Spawning),
        LaunchStage::Spawning => if s.current + 1 < s.steps {
            advanced(s)
        } else {
            completed(s)
        },
        LaunchStage::Done => s,
    }
}

/// What is asked next when the awaited event reports success.
pub open spec fn success_action(s: LaunchRun) -> LaunchAction {
    match s.stage {
        LaunchStage::Ready => if s.steps == 0 {
            finished(0)
        } else {
            LaunchAction::Prepare(0)
        },
        LaunchStage::Waiting => LaunchAction::Prepare(s.current),
        LaunchStage::Preparing => LaunchAction::Spawn(s.current),
        LaunchStage::Spawning => if s.current + 1 < s.steps {
            LaunchAction::Sleep
        } else {
            finished(s.steps)
        },
        LaunchStage::Done => finished(s.launched),
    }
}

/// The state after `k` awaited events, each reporting success.
pub open spec fn after_successes(s: LaunchRun, k: nat) -> LaunchRun
    decreases k,
{
    if k == 0 {
        s
    } else {
        on_success(after_successes(s, (k - 1) as nat))
    }
}

/// The error of a failed broker-session preparation.
pub open spec fn prepare_failure_text(e: Seq<char>) -> Seq<char> {
    "CE IPC 세션 준비 실패: "@ + e
}

/// The state `s` moved to another stage.
pub open spec fn moved_to(s: LaunchRun, stage: LaunchStage) -> LaunchRun {
    LaunchRun { stage, ..s }
}

/// The sequence ends where it stands.
pub open spec fn stopped(s: LaunchRun, r: LaunchRun) -> bool {
    r == moved_to(s, LaunchStage::Done)
}

/// After the current step's spawn: waiting before the next step.
pub open spec fn advanced(s: LaunchRun) -> LaunchRun {
    LaunchRun {
        stage: LaunchStage::Waiting,
        current: (s.current + 1) as usize,
        launched: (s.launched + 1) as usize,
        ..s
    }
}

/// After the last step's spawn: done.
pub open spec fn completed(s: LaunchRun) -> LaunchRun {
    LaunchRun { stage: LaunchStage::Done, launched: (s.launched + 1) as usize, ..s }
}

/// Success with `launched` clients spawned.
pub open spec fn finished(launched: usize) -> LaunchAction {
    LaunchAction::Finish { launched }
}

/// `a` aborts, cancelling the broker session when `cancel` holds, releasing
/// the steps from `from` on and failing with `error`.
pub open spec fn aborts(a: LaunchAction, cancel: bool, from: int, error: Seq<char>) -> bool {
    a matches LaunchAction::Abort { cancel_broker_session, release_from, error: e } && cancel_broker_session
        == cancel && release_from == from && e@ == error
}

/// The event reports a prepared session.
pub open spec fn prepared_ok(e: LaunchEvent) -> bool {
    e matches LaunchEvent::Prepared(Ok(_))
}

/// The event reports a spawned client.
pub open spec fn spawned_ok(e: LaunchEvent) -> bool {
    e matches LaunchEvent::Spawned(Ok(_))
}

/// The event is the one the stage waits for.
pub open spec fn expected(stage: LaunchStage, e: LaunchEvent) -> bool {
    match stage {
        LaunchStage::Ready => e is Start,
        LaunchStage::Waiting => e is Slept,
        LaunchStage::Preparing => e is Prepared,
        LaunchStage::Spawning => (e is Spawned),
        LaunchStage::Done => false,
    }
}

/// The error text of an unexpected event.
pub open spec fn out_of_step_text() -> Seq<char> {
    "MULTI LOGIN 실행 순서가 어긋났습니다."@
}

fn stop(s: LaunchRun) -> (r: LaunchRun)
    ensures
        stopped(s, r),
{
    LaunchRun { stage: LaunchStage::Done, ..s }
}

/// One step of the spawn sequence: from the state and what the application
/// reports, the next state and what to do next.
///
/// - `Start` prepares the first step, or finishes at once with none.
/// - A prepared session is followed by its spawn; a spawned client by the
///   delay and the next step's preparation, or, after the last step, by
///   success with every step spawned.
/// - A failed preparation releases the current and later steps and fails
///   with the preparation error; a failed spawn also cancels the session.
/// - An event the stage does not wait for ends a running sequence, releasing
///   the steps from the current one on.
pub fn multi_launch_step(state: LaunchRun, event: LaunchEvent) -> (r: (LaunchRun, LaunchAction))
    requires
        state.wf(),
    ensures
        r.0.wf(),
        r.0.steps == state.steps,
        // every awaited success, in one clause
        went_well(state.stage, event) ==> (r.0 == on_success(state) && r.1 == success_action(state)),
        // starting
        state.stage == LaunchStage::Ready && event is Start ==> (if state.steps == 0 {
            stopped(state, r.0) && r.1 == finished(0)
        } else {
            r.0 == moved_to(state, LaunchStage::Preparing) && r.1 == LaunchAction::Prepare(0)
        }),
        // the delay has passed
        state.stage == LaunchStage::Waiting && event is Slept ==> (r.0 == moved_to(
            state,
            LaunchStage::Preparing,
        ) && r.1 == LaunchAction::Prepare(state.current)),
        // the session is prepared
        state.stage == LaunchStage::Preparing && prepared_ok(event) ==> (r.0 == moved_to(
            state,
            LaunchStage::Spawning,
        ) && r.1 == LaunchAction::Spawn(state.current)),
        // the client is spawned: the delay before the next step, or success
        state.stage == LaunchStage::Spawning && spawned_ok(event) ==> (if state.current + 1 < state.steps {
            r.0 == advanced(state) && r.1 == LaunchAction::Sleep
        } else {
            r.0 == completed(state) && r.1 == finished(state.steps)
        }),
        // a preparation or a spawn failed
        event matches LaunchEvent::Prepared(Err(e)) ==> (state.stage == LaunchStage::Preparing ==> stopped(
            state,
            r.0,
        ) && aborts(r.1, false, state.current as int, prepare_failure_text(e@))),
        event matches LaunchEvent::Spawned(Err(e)) ==> (state.stage == LaunchStage::Spawning ==> stopped(
            state,
            r.0,
        ) && aborts(r.1, true, state.current as int, e@)),
        // anything else
        state.stage != LaunchStage::Done && !expected(state.stage, event) ==> (stopped(state, r.0) && aborts(
            r.1,
            state.stage == LaunchStage::Spawning,
            state.current as int,
            out_of_step_text(),
        )),
        state.stage == LaunchStage::Done ==> (stopped(state, r.0) && aborts(
            r.1,
            false,
            state.steps as int,
            out_of_step_text(),
        )),
{
    proof {
        reveal_strlit("MULTI LOGIN 실행 순서가 어긋났습니다.");
        reveal_strlit("CE IPC 세션 준비 실패: ");
    }
    match (state.stage, event) {
        (LaunchStage::Ready, LaunchEvent::Start) => {
            if state.steps == 0 {
                (stop(state), LaunchAction::Finish { launched: 0 })
            } else {
                (LaunchRun { stage: LaunchStage::Preparing, ..state }, LaunchAction::Prepare(0))
            }
        },
        (LaunchStage::Waiting, LaunchEvent::Slept) => {
            (LaunchRun { stage: LaunchStage::Preparing, ..state }, LaunchAction::Prepare(state.current))
        },
        (LaunchStage::Preparing, LaunchEvent::Prepared(outcome)) => match outcome {
            Ok(()) => (LaunchRun { stage: LaunchStage::Spawning, ..state }, LaunchAction::Spawn(state.current)),
            Err(e) => {
                let mut error = String::from_str("CE IPC 세션 준비 실패: ");
                push_str(&mut error, e.as_str());
                (
                    stop(state),
                    LaunchAction::Abort { cancel_broker_session: false, release_from: state.current, error },
                )
            },
        },
        (LaunchStage::Spawning, LaunchEvent::Spawned(outcome)) => match outcome {
            Ok(()) => {
                let launched = state.launched + 1;
                if state.current + 1 < state.steps {
                    (
                        LaunchRun { stage: LaunchStage::Waiting, current: state.current + 1, launched, ..state },
                        LaunchAction::Sleep,
                    )
                } else {
                    (LaunchRun { stage: LaunchStage::Done, launched, ..state }, LaunchAction::Finish { launched })
                }
            },
            Err(error) => (
                stop(state),
                LaunchAction::Abort { cancel_broker_session: true, release_from: state.current, error },
            ),
        },
        (LaunchStage::Done, _) => (
            stop(state),
            LaunchAction::Abort {
                cancel_broker_session: false,
                release_from: state.steps,
                error: String::from_str("MULTI LOGIN 실행 순서가 어긋났습니다."),
            },
        ),
        (stage, _) => (
            stop(state),
            LaunchAction::Abort {
                cancel_broker_session: stage == LaunchStage::Spawning,
                release_from: state.current,
                error: String::from_str("MULTI LOGIN 실행 순서가 어긋났습니다."),
            },
        ),
    }
}

proof fn lemma_launch_progress(n: usize, i: int)
    requires
        0 <= i < n,
    ensures
        after_successes(launch_start(n), (3 * i + 1) as nat) == (LaunchRun {
            steps: n,
            current: i as usize,
            launched: i as usize,
            stage: LaunchStage::Preparing,
        }),
        after_successes(launch_start(n), (3 * i + 2) as nat) == (LaunchRun {
            steps: n,
            current: i as usize,
            launched: i as usize,
            stage: LaunchStage::Spawning,
        }),
        after_successes(launch_start(n), (3 * i + 3) as nat) == (if i + 1 < n {
            LaunchRun { steps: n, current: (i + 1) as usize, launched: (i + 1) as usize, stage: LaunchStage::Waiting }
        } else {
            LaunchRun { steps: n, current: i as usize, launched: n, stage: LaunchStage::Done }
        }),
    decreases i,
{
    let s = launch_start(n);
    if i > 0 {
        lemma_launch_progress(n, i - 1);
        assert(after_successes(s, (3 * i + 1) as nat) == on_success(after_successes(s, (3 * i) as nat)));
    } else {
        assert(after_successes(s, 1) == on_success(after_successes(s, 0)));
    }
    assert(after_successes(s, (3 * i + 2) as nat) == on_success(after_successes(s, (3 * i + 1) as nat)));
    assert(after_successes(s, (3 * i + 3) as nat) == on_success(after_successes(s, (3 * i + 2) as nat)));
}

/// A MULTI LOGIN in which every preparation, spawn and delay succeeds
/// prepares and then spawns each plan step in order, waits between two
/// spawns (and only there), and ends with every step launched: after the
/// `3 * steps` awaited events the sequence is done with `launched == steps`.
pub proof fn lemma_successful_launch_spawns_every_step(n: usize, i: int)
    requires
        0 <= i < n,
    ensures
        success_action(after_successes(launch_start(n), (3 * i) as nat)) == LaunchAction::Prepare(i as usize),
        success_action(after_successes(launch_start(n), (3 * i + 1) as nat)) == LaunchAction::Spawn(
            i as usize,
        ),
        success_action(after_successes(launch_start(n), (3 * i + 2) as nat)) == (if i + 1 < n {
            LaunchAction::Sleep
        } else {
            finished(n)
        }),
        after_successes(launch_start(n), (3 * n) as nat).stage == LaunchStage::Done,
        after_successes(launch_start(n), (3 * n) as nat).launched == n,
{
    lemma_launch_progress(n, i);
    if i > 0 {
        lemma_launch_progress(n, i - 1);
    }
    lemma_launch_progress(n, n - 1);
}

} // verus!
