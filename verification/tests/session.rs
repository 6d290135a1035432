use ggo_launcher::session::{AccountStateCounts, RuntimeSessionId, SessionRegistry};

const SPAWN_MS: u64 = 1_700_000_000_000;

fn register(registry: &mut SessionRegistry, account: &str, pid: u32) -> RuntimeSessionId {
    registry.register("profile-a", account, pid, Ok(133_000_000_000), SPAWN_MS).unwrap()
}

#[test]
fn duplicate_accounts_keep_distinct_runtime_sessions() {
    let mut registry = SessionRegistry::new();
    let first = register(&mut registry, "account-a", 100);
    let second = register(&mut registry, "account-a", 101);

    let snapshot = registry.snapshot(Vec::new());
    assert_ne!(first, second);
    assert_eq!(snapshot.active_sessions.len(), 2);
    assert!(snapshot
        .warnings
        .iter()
        .any(|warning| warning.code == "duplicate_account"
            && warning.runtime_session_ids == vec![first, second]));
}

#[test]
fn reservations_make_repeated_multi_plans_idempotent() {
    let mut registry = SessionRegistry::new();
    let accounts = vec!["account-a".to_string(), "account-b".to_string()];

    assert_eq!(registry.reserve_missing_accounts("profile-a", &accounts).unwrap(), accounts);
    assert!(registry.reserve_missing_accounts("profile-a", &accounts).unwrap().is_empty());
    assert_eq!(
        registry.account_states("profile-a", &accounts),
        AccountStateCounts { selected: 2, pending: 2, ..AccountStateCounts::default() }
    );
}

#[test]
fn successful_spawn_promotes_reservation_and_failed_spawn_can_release_it() {
    let mut registry = SessionRegistry::new();
    let accounts = vec!["account-a".to_string(), "account-b".to_string()];
    registry.reserve_missing_accounts("profile-a", &accounts).unwrap();

    register(&mut registry, "account-a", 100);
    registry.release_reservation("profile-a", "account-b");

    assert_eq!(
        registry.account_states("profile-a", &accounts),
        AccountStateCounts { selected: 2, active: 1, missing: 1, ..AccountStateCounts::default() }
    );
}

#[test]
fn returns_identity_only_while_runtime_session_is_active() {
    let mut registry = SessionRegistry::new();
    let pid: u32 = 4321;
    let runtime_session_id = register(&mut registry, "account-a", pid);

    let identity = registry.active_process_identity(runtime_session_id).unwrap();
    assert_eq!(identity.runtime_session_id, runtime_session_id);
    assert_eq!(identity.pid, pid);
    assert!(identity.process_creation_time_filetime_100ns.is_some());

    assert!(registry.record_exit(runtime_session_id, None, false, SPAWN_MS + 5));
    assert!(registry.active_process_identity(runtime_session_id).is_err());
}

#[test]
fn exited_child_moves_to_recent_exit_on_snapshot() {
    let mut registry = SessionRegistry::new();
    let runtime_session_id = register(&mut registry, "account-a", 77);
    assert!(registry.record_exit(runtime_session_id, Some(7), false, SPAWN_MS + 100));

    let snapshot = registry.snapshot(Vec::new());
    assert!(snapshot.active_sessions.is_empty());
    assert_eq!(snapshot.recent_exits.len(), 1);
    assert_eq!(snapshot.recent_exits[0].runtime_session_id, runtime_session_id);
    assert_eq!(snapshot.recent_exits[0].exit_code, Some(7));
    assert_eq!(
        registry.account_states("profile-a", &["account-a".to_string()]),
        AccountStateCounts { selected: 1, missing: 1, ..AccountStateCounts::default() }
    );
}

#[test]
fn records_elevated_fallback_without_credentials_or_arguments() {
    let mut registry = SessionRegistry::new();
    registry.reserve_missing_accounts("profile-a", &["account-a".to_string()]).unwrap();
    registry.record_untracked_elevated_fallback("profile-a", Some("account-a"), SPAWN_MS);

    let snapshot = registry.snapshot(Vec::new());
    assert_eq!(snapshot.untracked_launches.len(), 1);
    assert_eq!(snapshot.untracked_launches[0].code, "untracked_elevated_fallback");
    assert_eq!(snapshot.untracked_launches[0].account_id.as_deref(), Some("account-a"));
    assert_eq!(
        registry.account_states("profile-a", &["account-a".to_string()]),
        AccountStateCounts { selected: 1, untracked: 1, ..AccountStateCounts::default() }
    );
}

#[test]
fn runtime_session_ids_count_up_from_one() {
    let mut registry = SessionRegistry::new();
    assert_eq!(register(&mut registry, "a", 1), RuntimeSessionId(1));
    assert_eq!(register(&mut registry, "b", 2), RuntimeSessionId(2));
}

#[test]
fn exiting_an_unknown_session_changes_nothing() {
    let mut registry = SessionRegistry::new();
    register(&mut registry, "account-a", 5);
    assert!(!registry.record_exit(RuntimeSessionId(99), Some(0), true, SPAWN_MS));
    assert_eq!(registry.snapshot(Vec::new()).active_sessions.len(), 1);
}

#[test]
fn creation_time_error_is_kept_in_diagnostics() {
    let mut registry = SessionRegistry::new();
    let id = registry
        .register("profile-a", "account-a", 9, Err("access denied".to_string()), SPAWN_MS)
        .unwrap();
    let snapshot = registry.snapshot(Vec::new());
    assert_eq!(snapshot.active_sessions[0].runtime_session_id, id);
    assert!(snapshot.active_sessions[0].process_creation_time_filetime_100ns.is_none());
    assert_eq!(
        snapshot.active_sessions[0].process_creation_time_error.as_deref(),
        Some("access denied")
    );
    assert!(registry.active_process_identity(id).unwrap().process_creation_time_filetime_100ns.is_none());
}

#[test]
fn repeated_reservation_of_an_active_account_reserves_nothing() {
    let mut registry = SessionRegistry::new();
    register(&mut registry, "account-a", 3);
    assert!(registry
        .reserve_missing_accounts("profile-a", &["account-a".to_string()])
        .unwrap()
        .is_empty());
}
