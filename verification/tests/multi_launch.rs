use ggo_launcher::multi_launch::{multi_launch_step, LaunchAction, LaunchEvent, LaunchRun, LaunchStage};

fn step(run: &mut LaunchRun, event: LaunchEvent) -> LaunchAction {
    let (next, action) = multi_launch_step(*run, event);
    *run = next;
    action
}

#[test]
fn every_step_is_prepared_then_spawned_with_a_delay_between_spawns() {
    let mut run = LaunchRun::new(2);
    assert!(matches!(step(&mut run, LaunchEvent::Start), LaunchAction::Prepare(0)));
    assert!(matches!(step(&mut run, LaunchEvent::Prepared(Ok(()))), LaunchAction::Spawn(0)));
    assert!(matches!(step(&mut run, LaunchEvent::Spawned(Ok(()))), LaunchAction::Sleep));
    assert!(matches!(step(&mut run, LaunchEvent::Slept), LaunchAction::Prepare(1)));
    assert!(matches!(step(&mut run, LaunchEvent::Prepared(Ok(()))), LaunchAction::Spawn(1)));
    assert!(matches!(step(&mut run, LaunchEvent::Spawned(Ok(()))), LaunchAction::Finish { launched: 2 }));
    assert_eq!(run.stage, LaunchStage::Done);
    assert_eq!(run.launched, 2);
}

#[test]
fn an_empty_plan_finishes_without_spawning() {
    let mut run = LaunchRun::new(0);
    assert!(matches!(step(&mut run, LaunchEvent::Start), LaunchAction::Finish { launched: 0 }));
}

#[test]
fn a_failed_preparation_releases_the_rest_without_cancelling() {
    let mut run = LaunchRun::new(3);
    step(&mut run, LaunchEvent::Start);
    step(&mut run, LaunchEvent::Prepared(Ok(())));
    step(&mut run, LaunchEvent::Spawned(Ok(())));
    step(&mut run, LaunchEvent::Slept);
    match step(&mut run, LaunchEvent::Prepared(Err("pipe busy".to_string()))) {
        LaunchAction::Abort { cancel_broker_session, release_from, error } => {
            assert!(!cancel_broker_session);
            assert_eq!(release_from, 1);
            assert_eq!(error, "CE IPC 세션 준비 실패: pipe busy");
        }
        other => panic!("unexpected {other:?}"),
    }
    assert_eq!(run.launched, 1);
}

#[test]
fn a_failed_spawn_cancels_the_session_and_releases_the_rest() {
    let mut run = LaunchRun::new(2);
    step(&mut run, LaunchEvent::Start);
    step(&mut run, LaunchEvent::Prepared(Ok(())));
    match step(&mut run, LaunchEvent::Spawned(Err("no exe".to_string()))) {
        LaunchAction::Abort { cancel_broker_session, release_from, error } => {
            assert!(cancel_broker_session);
            assert_eq!(release_from, 0);
            assert_eq!(error, "no exe");
        }
        other => panic!("unexpected {other:?}"),
    }
}

#[test]
fn an_out_of_step_event_aborts() {
    let mut run = LaunchRun::new(1);
    step(&mut run, LaunchEvent::Start);
    match step(&mut run, LaunchEvent::Slept) {
        LaunchAction::Abort { cancel_broker_session, release_from, error } => {
            assert!(!cancel_broker_session);
            assert_eq!(release_from, 0);
            assert_eq!(error, "MULTI LOGIN 실행 순서가 어긋났습니다.");
        }
        other => panic!("unexpected {other:?}"),
    }
}
