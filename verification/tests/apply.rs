use ggo_launcher::apply::{
    apply_step, original_overwrite_guard, ApplyAction, ApplyEvent, ApplyFailure, ApplyStage, ApplyState,
    Cleanup,
};

fn step(state: &mut ApplyState, event: ApplyEvent) -> ApplyAction {
    let (next, action) = apply_step(state, event);
    *state = next;
    action
}

fn finish(action: ApplyAction) -> (Vec<Cleanup>, Result<(), ApplyFailure>) {
    match action {
        ApplyAction::Finish(c, r) => (c, r),
        other => panic!("expected Finish, got {other:?}"),
    }
}

#[test]
fn original_folder_is_refused_without_confirmation() {
    assert_eq!(
        original_overwrite_guard(true, false).unwrap_err(),
        "ORIGINAL_CUO_BLOCKED: 원본 ClassicUO 폴더로 감지됨. UI 확인을 거친 뒤 다시 시도하세요."
    );
    assert!(original_overwrite_guard(true, true).is_ok());
    assert!(original_overwrite_guard(false, false).is_ok());
    assert!(original_overwrite_guard(false, true).is_ok());
}

#[test]
fn swap_with_nothing_to_do_succeeds_at_once() {
    let mut s = ApplyState::new(0);
    let (cleanups, result) = finish(step(&mut s, ApplyEvent::Start));
    assert!(cleanups.is_empty());
    assert!(result.is_ok());
    assert_eq!(s.stage, ApplyStage::Done);
}

#[test]
fn successful_swap_backs_up_places_and_drops_backups() {
    let mut s = ApplyState::new(2);
    assert!(matches!(step(&mut s, ApplyEvent::Start), ApplyAction::CheckDest(0)));
    assert!(matches!(step(&mut s, ApplyEvent::DestExists(true)), ApplyAction::BackUp(0)));
    assert!(matches!(step(&mut s, ApplyEvent::Renamed(Ok(()))), ApplyAction::PutInPlace(0)));
    assert!(matches!(step(&mut s, ApplyEvent::Renamed(Ok(()))), ApplyAction::CheckDest(1)));
    assert!(matches!(step(&mut s, ApplyEvent::DestExists(false)), ApplyAction::PutInPlace(1)));
    let (cleanups, result) = finish(step(&mut s, ApplyEvent::Renamed(Ok(()))));
    assert!(result.is_ok());
    assert_eq!(
        cleanups,
        vec![
            Cleanup::DropBackup { index: 0, has_backup: true },
            Cleanup::DropBackup { index: 1, has_backup: false },
        ]
    );
    assert_eq!(s.backups, vec![true, false]);
}

#[test]
fn failed_placement_restores_everything_newest_first() {
    let mut s = ApplyState::new(3);
    step(&mut s, ApplyEvent::Start);
    step(&mut s, ApplyEvent::DestExists(true));
    step(&mut s, ApplyEvent::Renamed(Ok(())));
    step(&mut s, ApplyEvent::Renamed(Ok(())));
    step(&mut s, ApplyEvent::DestExists(false));
    step(&mut s, ApplyEvent::Renamed(Ok(())));
    assert!(matches!(step(&mut s, ApplyEvent::DestExists(true)), ApplyAction::BackUp(2)));
    assert!(matches!(step(&mut s, ApplyEvent::Renamed(Ok(()))), ApplyAction::PutInPlace(2)));
    let (cleanups, result) = finish(step(&mut s, ApplyEvent::Renamed(Err("locked".to_string()))));
    assert_eq!(
        cleanups,
        vec![
            Cleanup::RestoreBackup(2),
            Cleanup::Revert { index: 1, has_backup: false },
            Cleanup::Revert { index: 0, has_backup: true },
            Cleanup::RemoveStaged(0),
            Cleanup::RemoveStaged(1),
            Cleanup::RemoveStaged(2),
        ]
    );
    match result {
        Err(ApplyFailure::PlaceFailed { index, error }) => {
            assert_eq!(index, 2);
            assert_eq!(error, "locked");
        }
        other => panic!("unexpected {other:?}"),
    }
    assert_eq!(s.stage, ApplyStage::Done);
}

#[test]
fn failed_backup_reverts_placed_files_and_removes_staged_copies() {
    let mut s = ApplyState::new(2);
    step(&mut s, ApplyEvent::Start);
    step(&mut s, ApplyEvent::DestExists(false));
    step(&mut s, ApplyEvent::Renamed(Ok(())));
    step(&mut s, ApplyEvent::DestExists(true));
    let (cleanups, result) = finish(step(&mut s, ApplyEvent::Renamed(Err("busy".to_string()))));
    assert_eq!(
        cleanups,
        vec![
            Cleanup::Revert { index: 0, has_backup: false },
            Cleanup::RemoveStaged(0),
            Cleanup::RemoveStaged(1),
        ]
    );
    assert!(matches!(result, Err(ApplyFailure::BackupFailed { index: 1, .. })));
}

#[test]
fn out_of_step_events_abort_and_a_finished_swap_stays_finished() {
    let mut s = ApplyState::new(1);
    step(&mut s, ApplyEvent::Start);
    let (cleanups, result) = finish(step(&mut s, ApplyEvent::Renamed(Ok(()))));
    assert_eq!(cleanups, vec![Cleanup::RemoveStaged(0)]);
    assert!(matches!(result, Err(ApplyFailure::Unexpected)));
    let (cleanups, result) = finish(step(&mut s, ApplyEvent::Start));
    assert!(cleanups.is_empty());
    assert!(matches!(result, Err(ApplyFailure::Unexpected)));
}
