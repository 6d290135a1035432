use ggo_launcher::six_test::{six_test_step, SixTestAction, SixTestEvent, SixTestRun, SixTestStage};

fn step(run: &mut SixTestRun, event: SixTestEvent) -> SixTestAction {
    let (next, action) = six_test_step(*run, event);
    *run = next;
    action
}

#[test]
fn six_test_captures_all_saves_then_moves_all() {
    let mut run = SixTestRun::new(2);
    assert!(matches!(step(&mut run, SixTestEvent::Start), SixTestAction::Capture(0)));
    assert!(matches!(step(&mut run, SixTestEvent::Captured(Ok(()))), SixTestAction::Capture(1)));
    assert!(matches!(step(&mut run, SixTestEvent::Captured(Ok(()))), SixTestAction::SavePlacements));
    assert!(matches!(step(&mut run, SixTestEvent::Saved(Ok(()))), SixTestAction::Move(0)));
    assert!(matches!(step(&mut run, SixTestEvent::Moved(Ok(()))), SixTestAction::Move(1)));
    assert!(matches!(step(&mut run, SixTestEvent::Moved(Ok(()))), SixTestAction::Finish));
    assert_eq!(run.stage, SixTestStage::Done);
}

#[test]
fn six_test_capture_failure_undoes_nothing() {
    let mut run = SixTestRun::new(6);
    step(&mut run, SixTestEvent::Start);
    step(&mut run, SixTestEvent::Captured(Ok(())));
    match step(&mut run, SixTestEvent::Captured(Err("no window".to_string()))) {
        SixTestAction::Fail(error) => assert_eq!(error, "no window"),
        other => panic!("unexpected {other:?}"),
    }
}

#[test]
fn six_test_move_failure_restores_every_window_last_first() {
    let mut run = SixTestRun::new(6);
    step(&mut run, SixTestEvent::Start);
    for _ in 0..6 {
        step(&mut run, SixTestEvent::Captured(Ok(())));
    }
    step(&mut run, SixTestEvent::Saved(Ok(())));
    step(&mut run, SixTestEvent::Moved(Ok(())));
    match step(&mut run, SixTestEvent::Moved(Err("SetWindowPos failed".to_string()))) {
        SixTestAction::RollBack { restore, error } => {
            assert_eq!(restore, vec![5, 4, 3, 2, 1, 0]);
            assert_eq!(error, "SetWindowPos failed");
        }
        other => panic!("unexpected {other:?}"),
    }
    assert_eq!(run.stage, SixTestStage::Done);
}

#[test]
fn six_test_out_of_step_event_fails() {
    let mut run = SixTestRun::new(6);
    match step(&mut run, SixTestEvent::Moved(Ok(()))) {
        SixTestAction::Fail(error) => assert_eq!(error, "six-window position test is out of step"),
        other => panic!("unexpected {other:?}"),
    }
}
