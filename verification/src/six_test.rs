//! The sequence of the six-window position test, once its checks passed and
//! its targets are known.
//!
//! Every window is captured first, in session order; a failed capture ends
//! the test with nothing to undo. The captured placements are then saved and
//! the windows moved one by one. When a move fails, every captured window is
//! restored, the last one first, the saved placements of the test are
//! forgotten, and the test fails.
//!
//! The application performs each action that `six_test_step` returns and
//! reports what happened.

use vstd::prelude::*;

verus! {

/// Where the test stands.
#[derive(Debug, Clone, Copy, PartialEq, Eq, Structural)]
pub enum SixTestStage {
    Begin,
    /// Waiting for the capture of the current window.
    Capturing,
    /// Waiting for the captured placements to be saved.
    Saving,
    /// Waiting for the move of the current window.
    Moving,
    Done,
}

/// The test over `count` windows; `current` is the window under way.
#[derive(Debug, Clone, Copy, PartialEq, Eq, Structural)]
pub struct SixTestRun {
    pub count: usize,
    pub current: usize,
    pub stage: SixTestStage,
}

/// What the application reports back.
#[derive(Debug)]
pub enum SixTestEvent {
    Start,
    /// Outcome of capturing the current window.
    Captured(Result<(), String>),
    /// Outcome of saving the captured placements.
    Saved(Result<(), String>),
    /// Outcome of moving the current window.
    Moved(Result<(), String>),
}

/// What the application is asked to do next.
#[derive(Debug)]
pub enum SixTestAction {
    /// Capture window `index`.
    Capture(usize),
    /// Save the placements of every captured window.
    SavePlacements,
    /// Move window `index` to its target.
    Move(usize),
    /// Fail with `error`; nothing was changed.
    Fail(String),
    /// Restore the windows in the order of `restore`, forget the saved
    /// placements of the test, and fail with `error` and what the restores
    /// reported.
    RollBack { restore: Vec<usize>, error: String },
    /// Every window was moved.
    Finish,
}

impl SixTestRun {
    /// The current window is one of the `count` windows while the test runs.
    pub open spec fn wf(self) -> bool {
        match self.stage {
            SixTestStage::Begin => self.current == 0,
            SixTestStage::Saving => self.current == 0 && self.count > 0,
            SixTestStage::Capturing | SixTestStage::Moving => self.current < self.count,
            SixTestStage::Done => true,
        }
    }

    /// A test over `count` windows, not yet begun.
    pub fn new(count: usize) -> (r: SixTestRun)
        ensures
            r == six_test_start(count),
            r.wf(),
    {
        SixTestRun { count, current: 0, stage: SixTestStage::Begin }
    }
}

/// The test over `count` windows before it begins.
pub open spec fn six_test_start(count: usize) -> SixTestRun {
    SixTestRun { count, current: 0, stage: SixTestStage::Begin }
}

/// The next state when the awaited event reports success.
pub open spec fn on_success(s: SixTestRun) -> SixTestRun {
    match s.stage {
        SixTestStage::Begin => if s.count == 0 {
            at(s, SixTestStage::Done, 0)
        } else {
            at(s, SixTestStage::Capturing, 0)
        },
        SixTestStage::Capturing => if s.current + 1 < s.count {
            at(s, SixTestStage::Capturing, s.current + 1)
        } else {
            at(s, SixTestStage::Saving, 0)
        },
        SixTestStage::Saving => at(s, SixTestStage::Moving, 0),
        SixTestStage::Moving => if s.current + 1 < s.count {
            at(s, SixTestStage::Moving, s.current + 1)
        } else {
            at(s, SixTestStage::Done, s.current as int)
        },
        SixTestStage::Done => s,
    }
}

/// What is asked next when the awaited event reports success.
pub open spec fn success_action(s: SixTestRun) -> SixTestAction {
    match s.stage {
        SixTestStage::Begin => if s.count == 0 {
            SixTestAction::Finish
        } else {
            SixTestAction::Capture(0)
        },
        SixTestStage::Capturing => if s.current + 1 < s.count {
            SixTestAction::Capture((s.current + 1) as usize)
        } else {
            SixTestAction::SavePlacements
        },
        SixTestStage::Saving => SixTestAction::Move(0),
        SixTestStage::Moving => if s.current + 1 < s.count {
            SixTestAction::Move((s.current + 1) as usize)
        } else {
            SixTestAction::Finish
        },
        SixTestStage::Done => SixTestAction::Finish,
    }
}

/// The state after `k` awaited events, each reporting success.
pub open spec fn after_successes(s: SixTestRun, k: nat) -> SixTestRun
    decreases k,
{
    if k == 0 {
        s
    } else {
        on_success(after_successes(s, (k - 1) as nat))
    }
}

/// The state `s` at window `current` of stage `stage`.
pub open spec fn at(s: SixTestRun, stage: SixTestStage, current: int) -> SixTestRun {
    SixTestRun { stage, current: current as usize, ..s }
}

/// Every captured window, the last one first.
pub open spec fn restore_order(count: nat) -> Seq<usize> {
    Seq::new(count, |k: int| (count - 1 - k) as usize)
}

/// `a` fails with `error` and nothing to undo.
pub open spec fn fails_with(a: SixTestAction, error: Seq<char>) -> bool {
    a matches SixTestAction::Fail(e) && e@ == error
}

/// `a` restores every window, the last one first, and fails with `error`.
pub open spec fn rolls_back(a: SixTestAction, count: nat, error: Seq<char>) -> bool {
    a matches SixTestAction::RollBack { restore, error: e } && restore@ == restore_order(count) && e@ == error
}

/// The event the stage waits for, successful.
pub open spec fn went_well(stage: SixTestStage, e: SixTestEvent) -> bool {
    match stage {
        SixTestStage::Begin => e is Start,
        SixTestStage::Capturing => e matches SixTestEvent::Captured(Ok(_)),
        SixTestStage::Saving => e matches SixTestEvent::Saved(Ok(_)),
        SixTestStage::Moving => e matches SixTestEvent::Moved(Ok(_)),
        SixTestStage::Done => false,
    }
}

/// The error text of an event the test does not wait for.
pub open spec fn six_out_of_step_text() -> Seq<char> {
    "six-window position test is out of step"@
}

fn restore_list(count: usize) -> (r: Vec<usize>)
    ensures
        r@ == restore_order(count as nat),
{
    let mut out: Vec<usize> = Vec::new();
    let mut k: usize = count;
    while k > 0
        invariant
            k <= count,
            out@ == restore_order(count as nat).take(count - k),
        decreases k,
    {
        k = k - 1;
        out.push(k);
        assert(restore_order(count as nat).take(count - k) =~= restore_order(count as nat).take(
            count - k - 1,
        ).push(k));
    }
    assert(restore_order(count as nat).take(count as int) =~= restore_order(count as nat));
    out
}

fn out_of_step() -> (r: String)
    ensures
        r@ == six_out_of_step_text(),
{
    proof {
        reveal_strlit("six-window position test is out of step");
    }
    String::from_str("six-window position test is out of step")
}

/// One step of the test: from the state and what the application reports,
/// the next state and what to do next.
///
/// - `Start` captures the first window (or finishes at once with none).
/// - Each capture is followed by the next one; after the last, the
///   placements are saved, then the first window is moved.
/// - Each move is followed by the next one; after the last, the test
///   succeeds.
/// - A failed capture or save fails the test with its error; nothing was
///   moved yet.
/// - A failed move restores every captured window, the last one first,
///   and fails the test with the move's error.
/// - An event the stage does not wait for fails the test, and rolls it back
///   once moves have begun.
pub fn six_test_step(state: SixTestRun, event: SixTestEvent) -> (r: (SixTestRun, SixTestAction))
    requires
        state.wf(),
    ensures
        r.0.wf(),
        r.0.count == state.count,
        // every awaited success, in one clause
        went_well(state.stage, event) ==> (r.0 == on_success(state) && r.1 == success_action(state)),
        // going on
        went_well(state.stage, event) && state.stage == SixTestStage::Begin ==> (if state.count == 0 {
            r.0 == at(state, SixTestStage::Done, 0) && r.1 == SixTestAction::Finish
        } else {
            r.0 == at(state, SixTestStage::Capturing, 0) && r.1 == SixTestAction::Capture(0)
        }),
        went_well(state.stage, event) && state.stage == SixTestStage::Capturing ==> (if state.current + 1
            < state.count {
            r.0 == at(state, SixTestStage::Capturing, state.current + 1) && r.1 == SixTestAction::Capture(
                (state.current + 1) as usize,
            )
        } else {
            r.0 == at(state, SixTestStage::Saving, 0) && r.1 == SixTestAction::SavePlacements
        }),
        went_well(state.stage, event) && state.stage == SixTestStage::Saving ==> (r.0 == at(
            state,
            SixTestStage::Moving,
            0,
        ) && r.1 == SixTestAction::Move(0)),
        went_well(state.stage, event) && state.stage == SixTestStage::Moving ==> (if state.current + 1
            < state.count {
            r.0 == at(state, SixTestStage::Moving, state.current + 1) && r.1 == SixTestAction::Move(
                (state.current + 1) as usize,
            )
        } else {
            r.0 == at(state, SixTestStage::Done, state.current as int) && r.1 == SixTestAction::Finish
        }),
        // failures
        event matches SixTestEvent::Captured(Err(e)) ==> (state.stage == SixTestStage::Capturing ==> r.0
            == at(state, SixTestStage::Done, state.current as int) && fails_with(r.1, e@)),
        event matches SixTestEvent::Saved(Err(e)) ==> (state.stage == SixTestStage::Saving ==> r.0 == at(
            state,
            SixTestStage::Done,
            0,
        ) && fails_with(r.1, e@)),
        event matches SixTestEvent::Moved(Err(e)) ==> (state.stage == SixTestStage::Moving ==> r.0 == at(
            state,
            SixTestStage::Done,
            state.current as int,
        ) && rolls_back(r.1, state.count as nat, e@)),
        // anything else
        !went_well(state.stage, event) && !(event matches SixTestEvent::Captured(Err(_)) && state.stage
            == SixTestStage::Capturing) && !(event matches SixTestEvent::Saved(Err(_)) && state.stage
            == SixTestStage::Saving) && !(event matches SixTestEvent::Moved(Err(_)) && state.stage
            == SixTestStage::Moving) ==> (r.0 == at(state, SixTestStage::Done, state.current as int)
            && if state.stage == SixTestStage::Moving {
            rolls_back(r.1, state.count as nat, six_out_of_step_text())
        } else {
            fails_with(r.1, six_out_of_step_text())
        }),
{
    let done = SixTestRun { stage: SixTestStage::Done, ..state };
    match (state.stage, event) {
        (SixTestStage::Begin, SixTestEvent::Start) => {
            if state.count == 0 {
                (SixTestRun { stage: SixTestStage::Done, current: 0, ..state }, SixTestAction::Finish)
            } else {
                (SixTestRun { stage: SixTestStage::Capturing, current: 0, ..state }, SixTestAction::Capture(0))
            }
        },
        (SixTestStage::Capturing, SixTestEvent::Captured(outcome)) => match outcome {
            Ok(()) => if state.current + 1 < state.count {
                (
                    SixTestRun { current: state.current + 1, ..state },
                    SixTestAction::Capture(state.current + 1),
                )
            } else {
                (SixTestRun { stage: SixTestStage::Saving, current: 0, ..state }, SixTestAction::SavePlacements)
            },
            Err(e) => (done, SixTestAction::Fail(e)),
        },
        (SixTestStage::Saving, SixTestEvent::Saved(outcome)) => match outcome {
            Ok(()) => (SixTestRun { stage: SixTestStage::Moving, current: 0, ..state }, SixTestAction::Move(0)),
            Err(e) => (done, SixTestAction::Fail(e)),
        },
        (SixTestStage::Moving, SixTestEvent::Moved(outcome)) => match outcome {
            Ok(()) => if state.current + 1 < state.count {
                (SixTestRun { current: state.current + 1, ..state }, SixTestAction::Move(state.current + 1))
            } else {
                (done, SixTestAction::Finish)
            },
            Err(error) => (done, SixTestAction::RollBack { restore: restore_list(state.count), error }),
        },
        (SixTestStage::Moving, _) => (
            done,
            SixTestAction::RollBack { restore: restore_list(state.count), error: out_of_step() },
        ),
        _ => (done, SixTestAction::Fail(out_of_step())),
    }
}

proof fn lemma_six_test_progress(n: usize, i: int)
    requires
        0 <= i < n,
    ensures
        after_successes(six_test_start(n), (i + 1) as nat) == (SixTestRun {
            count: n,
            current: i as usize,
            stage: SixTestStage::Capturing,
        }),
    decreases i,
{
    let s = six_test_start(n);
    if i > 0 {
        lemma_six_test_progress(n, i - 1);
    }
    assert(after_successes(s, (i + 1) as nat) == on_success(after_successes(s, i as nat)));
}

proof fn lemma_six_test_moves(n: usize, i: int)
    requires
        0 <= i < n,
    ensures
        after_successes(six_test_start(n), (n + 1) as nat) == (SixTestRun {
            count: n,
            current: 0,
            stage: SixTestStage::Saving,
        }),
        after_successes(six_test_start(n), (n + 2 + i) as nat) == (SixTestRun {
            count: n,
            current: i as usize,
            stage: SixTestStage::Moving,
        }),
    decreases i,
{
    let s = six_test_start(n);
    lemma_six_test_progress(n, n - 1);
    assert(after_successes(s, (n + 1) as nat) == on_success(after_successes(s, n as nat)));
    if i > 0 {
        lemma_six_test_moves(n, i - 1);
    }
    assert(after_successes(s, (n + 2 + i) as nat) == on_success(after_successes(s, (n + 1 + i) as nat)));
}

/// A six-window test in which every capture, save and move succeeds captures
/// every window in order, then saves the placements, then moves every window
/// in order, and ends after the `2 * count + 2` awaited events with nothing
/// left to do.
pub proof fn lemma_successful_six_test_moves_every_window(n: usize, i: int)
    requires
        0 <= i < n,
    ensures
        success_action(six_test_start(n)) == SixTestAction::Capture(0),
        success_action(after_successes(six_test_start(n), (i + 1) as nat)) == (if i + 1 < n {
            SixTestAction::Capture((i + 1) as usize)
        } else {
            SixTestAction::SavePlacements
        }),
        success_action(after_successes(six_test_start(n), (n + 1) as nat)) == SixTestAction::Move(0),
        success_action(after_successes(six_test_start(n), (n + 2 + i) as nat)) == (if i + 1 < n {
            SixTestAction::Move((i + 1) as usize)
        } else {
            SixTestAction::Finish
        }),
        after_successes(six_test_start(n), (2 * n + 2) as nat).stage == SixTestStage::Done,
{
    lemma_six_test_progress(n, i);
    lemma_six_test_moves(n, i);
    lemma_six_test_moves(n, n - 1);
    let s = six_test_start(n);
    assert(after_successes(s, (2 * n + 2) as nat) == on_success(after_successes(s, (2 * n + 1) as nat)));
}

} // verus!
