use ggo_launcher::broker::{
    constant_time_eq, hex_encode, parse_client_status, party_status_due, require_connection,
    take_line, BrokerEntry, BrokerMessage, BrokerSessions, ConnectionIdentity, ExpectedSession,
    GroupControlAction, GroupControlWork, JsonScalar,
};

const CLIENT_PID: u32 = 4242;

fn session() -> ExpectedSession {
    ExpectedSession {
        profile_id: "profile-a".to_string(),
        account_id: "account-a".to_string(),
        hud_leader: true,
        hud_order: 0,
        managed_z_order: None,
        bootstrap_token: "secret-token".to_string(),
        expected_pid: Some(CLIENT_PID),
        expected_process_creation_time: None,
        connected: false,
        window_ready: false,
        managed_tile_active: false,
        hwnd: None,
        hwnd_generation: None,
        reconnect_count: 0,
        connection_id: None,
        pipe_handle: None,
        pending_apply_layout: false,
        pending_group_control_result: None,
        group_control_in_flight: false,
        latest_status: None,
        last_status_received_at_ms: None,
        last_error: None,
    }
}

fn sessions_with(leader: ExpectedSession) -> BrokerSessions {
    BrokerSessions {
        entries: vec![BrokerEntry { launch_session_id: "session-a".to_string(), session: leader }],
        next_connection_id: 1,
    }
}

fn sessions() -> BrokerSessions {
    sessions_with(session())
}

fn get<'a>(sessions: &'a BrokerSessions, id: &str) -> &'a ExpectedSession {
    &sessions.entries.iter().find(|e| e.launch_session_id == id).unwrap().session
}

fn get_mut<'a>(sessions: &'a mut BrokerSessions, id: &str) -> &'a mut ExpectedSession {
    &mut sessions.entries.iter_mut().find(|e| e.launch_session_id == id).unwrap().session
}

fn text(s: &str) -> JsonScalar {
    JsonScalar::Str(s.to_string())
}

fn message(kind: &str, payload: Vec<(&str, JsonScalar)>) -> BrokerMessage {
    BrokerMessage {
        message_type: Some(kind.to_string()),
        message_id: None,
        payload: Some(payload.into_iter().map(|(k, v)| (k.to_string(), v)).collect()),
    }
}

fn hello(token: &str) -> BrokerMessage {
    message(
        "hello",
        vec![
            ("launch_session_id", text("session-a")),
            ("profile_id", text("profile-a")),
            ("account_id", text("account-a")),
            ("bootstrap_token", text(token)),
        ],
    )
}

fn client_status_message(in_game: bool) -> BrokerMessage {
    message(
        "client_status",
        vec![
            ("in_game", JsonScalar::Bool(in_game)),
            ("character_name", text("GGOImblue")),
            ("hits", JsonScalar::UInt(92)),
            ("hits_max", JsonScalar::UInt(100)),
            ("mana", JsonScalar::UInt(80)),
            ("mana_max", JsonScalar::UInt(100)),
            ("stamina", JsonScalar::UInt(75)),
            ("stamina_max", JsonScalar::UInt(100)),
            ("weight", JsonScalar::UInt(374)),
            ("weight_max", JsonScalar::UInt(456)),
            ("backpack_items", JsonScalar::UInt(34)),
            ("backpack_max", JsonScalar::UInt(125)),
            ("poisoned", JsonScalar::Bool(false)),
            ("paralyzed", JsonScalar::Bool(false)),
            ("dead", JsonScalar::Bool(false)),
        ],
    )
}

fn group_control_message(action: &str) -> BrokerMessage {
    let mut m = message("group_control_request", vec![("action", text(action))]);
    m.message_id = Some("ce-group-1".to_string());
    m
}

fn peer(account_id: &str, order: u8, status_at_ms: u64) -> ExpectedSession {
    let mut s = session();
    s.account_id = account_id.to_string();
    s.hud_leader = false;
    s.hud_order = order;
    s.connected = true;
    s.latest_status = parse_client_status(&client_status_message(true)).unwrap();
    s.last_status_received_at_ms = Some(status_at_ms);
    s
}

fn push(sessions: &mut BrokerSessions, id: &str, s: ExpectedSession) {
    sessions.entries.push(BrokerEntry { launch_session_id: id.to_string(), session: s });
}

#[test]
fn hello_requires_matching_token_and_os_pipe_pid() {
    let s = sessions();
    assert_eq!(s.validate_hello(CLIENT_PID, &hello("secret-token"), Ok(0)).unwrap(), "session-a");
    assert!(s.validate_hello(CLIENT_PID, &hello("wrong-token"), Ok(0)).unwrap_err().contains("token"));
    assert!(s
        .validate_hello(CLIENT_PID + 1, &hello("secret-token"), Ok(0))
        .unwrap_err()
        .contains("PID"));
}

#[test]
fn token_comparison_does_not_accept_prefixes() {
    assert!(constant_time_eq(b"same", b"same"));
    assert!(!constant_time_eq(b"same", b"same-longer"));
    assert!(!constant_time_eq(b"same", b"diff"));
}

#[test]
fn replaced_connection_cannot_update_status_or_issue_commands_even_with_reused_handle() {
    let current = ConnectionIdentity { id: 8, handle: 123 };
    let old = ConnectionIdentity { id: 7, handle: 123 };
    let mut expected = sessions();
    {
        let s = get_mut(&mut expected, "session-a");
        s.connected = true;
        s.connection_id = Some(current.id);
        s.pipe_handle = Some(current.handle);
    }
    expected.next_connection_id = 9;
    expected.record_client_status("session-a", current, &client_status_message(true), 1_000).unwrap();
    assert!(expected
        .record_client_status("session-a", old, &client_status_message(false), 2_000)
        .is_err());
    assert!(expected
        .queue_group_control("session-a", old, &group_control_message("close_secondary"))
        .is_err());
    expected.set_session_error("session-a", old, "old error".to_string());
    let s = get(&expected, "session-a");
    assert!(s.latest_status.is_some());
    assert!(!s.group_control_in_flight);
    assert!(s.last_error.is_none());
    assert!(require_connection(s, ConnectionIdentity { id: 8, handle: 999 }).is_err());
}

#[test]
fn client_status_uses_ingame_payload_and_out_of_game_clears_it() {
    let status = parse_client_status(&client_status_message(true)).unwrap().unwrap();
    assert_eq!(status.character_name, "GGOImblue");
    assert_eq!(status.backpack_items, Some(34));
    assert!(parse_client_status(&client_status_message(false)).unwrap().is_none());

    let mut invalid = client_status_message(true);
    for (k, v) in invalid.payload.as_mut().unwrap().iter_mut() {
        if k == "hits" {
            *v = JsonScalar::UInt(1_000_001);
        }
    }
    assert!(parse_client_status(&invalid).unwrap_err().contains("hits"));
}

#[test]
fn party_status_excludes_leader_orders_peers_and_marks_only_stale_rows() {
    let now: u64 = 100_000;
    let mut expected = sessions();
    {
        let leader = get_mut(&mut expected, "session-a");
        leader.connected = true;
        leader.latest_status = parse_client_status(&client_status_message(true)).unwrap();
        leader.last_status_received_at_ms = Some(now);
    }
    push(&mut expected, "session-late", peer("account-late", 2, now - 4_000));
    push(&mut expected, "session-first", peer("account-first", 1, now - 1_000));
    push(&mut expected, "session-expired", peer("account-expired", 3, now - 10_000));

    let members = expected.collect_party_status_members("session-a", now).unwrap();
    assert_eq!(members.len(), 3);
    assert_eq!(members[0].account_id, "account-first");
    assert!(!members[0].attention);
    assert_eq!(members[1].account_id, "account-late");
    assert!(members[1].attention);
    assert_eq!(members[2].account_id, "account-expired");
    assert!(members[2].attention);
}

#[test]
fn group_control_requires_the_leader_and_allows_only_group_window_actions() {
    let mut expected = sessions();
    {
        let leader = get_mut(&mut expected, "session-a");
        leader.connected = true;
        leader.connection_id = Some(7);
    }
    let work = expected
        .begin_group_control("session-a", &group_control_message("restore_preset"))
        .unwrap();
    assert_eq!(work.action, GroupControlAction::RestorePreset);
    assert_eq!(work.connection_id, 7);
    assert!(get(&expected, "session-a").group_control_in_flight);
    assert_eq!(GroupControlAction::parse("group_raise"), Some(GroupControlAction::GroupRaise));
    assert_eq!(
        GroupControlAction::parse("close_secondary"),
        Some(GroupControlAction::CloseSecondary)
    );

    let mut nonleader = sessions();
    {
        let s = get_mut(&mut nonleader, "session-a");
        s.hud_leader = false;
        s.connected = true;
        s.connection_id = Some(8);
    }
    assert!(nonleader
        .begin_group_control("session-a", &group_control_message("minimize"))
        .unwrap_err()
        .contains("leader"));

    let mut invalid = sessions();
    assert!(invalid
        .begin_group_control("session-a", &group_control_message("close"))
        .unwrap_err()
        .contains("unsupported"));
}

#[test]
fn group_control_targets_only_active_managed_peers_in_the_leader_profile() {
    let now: u64 = 50_000;
    let mut expected = sessions();
    {
        let leader = get_mut(&mut expected, "session-a");
        leader.window_ready = true;
        leader.managed_tile_active = true;
    }

    let mut managed = peer("managed", 2, now);
    managed.window_ready = true;
    managed.managed_tile_active = true;
    managed.managed_z_order = Some(4);
    managed.expected_pid = Some(22);
    managed.expected_process_creation_time = Some(2200);
    managed.hwnd = Some(222);
    managed.hwnd_generation = Some(2);
    push(&mut expected, "session-managed", managed);

    let mut broken_managed = peer("broken-managed", 3, now);
    broken_managed.window_ready = true;
    broken_managed.managed_tile_active = true;
    broken_managed.managed_z_order = Some(0);
    broken_managed.expected_pid = Some(23);
    push(&mut expected, "session-broken-managed", broken_managed);

    let mut bard = peer("bard", 1, now);
    bard.window_ready = true;
    bard.managed_tile_active = false;
    push(&mut expected, "session-bard", bard);

    let mut other_profile = peer("other-profile", 4, now);
    other_profile.profile_id = "profile-b".to_string();
    other_profile.window_ready = true;
    other_profile.managed_tile_active = true;
    push(&mut expected, "session-other-profile", other_profile);

    let mut stopped = peer("stopped", 5, now);
    stopped.connected = false;
    stopped.window_ready = true;
    stopped.managed_tile_active = true;
    push(&mut expected, "session-stopped", stopped);

    let targets = expected.collect_managed_group_targets("session-a").unwrap();
    assert_eq!(targets.len(), 2);
    assert_eq!(targets[0].account_id, "broken-managed");
    assert!(targets[0].target.is_err());
    assert_eq!(targets[1].account_id, "managed");
    assert!(targets[1].target.is_ok());
    let launcher_targets = expected.collect_profile_managed_group_targets("profile-a");
    assert_eq!(
        launcher_targets.iter().map(|t| &t.account_id).collect::<Vec<_>>(),
        targets.iter().map(|t| &t.account_id).collect::<Vec<_>>()
    );
}

#[test]
fn group_control_result_is_a_safe_noop_and_never_crosses_reconnections() {
    let mut expected = sessions();
    {
        let leader = get_mut(&mut expected, "session-a");
        leader.connected = true;
        leader.connection_id = Some(7);
        leader.group_control_in_flight = true;
    }
    let work = GroupControlWork {
        correlation_id: "ce-group-1".to_string(),
        connection_id: 7,
        action: GroupControlAction::Minimize,
    };

    expected.queue_group_control_result("session-a", &work, 0, 0, 0, Vec::new(), 1_000);
    {
        let leader = get(&expected, "session-a");
        assert!(!leader.group_control_in_flight);
        let result = leader.pending_group_control_result.as_ref().unwrap();
        assert_eq!(result.target_count, 0);
        assert_eq!(result.failed_count, 0);
    }

    {
        let leader = get_mut(&mut expected, "session-a");
        leader.connection_id = Some(8);
        leader.group_control_in_flight = true;
        leader.pending_group_control_result = None;
    }
    expected.queue_group_control_result("session-a", &work, 1, 1, 0, Vec::new(), 2_000);

    let leader = get(&expected, "session-a");
    assert!(!leader.group_control_in_flight);
    assert!(leader.pending_group_control_result.is_none());
}

#[test]
fn layout_request_is_queued_without_writing_from_the_caller() {
    let mut expected = sessions();
    {
        let s = get_mut(&mut expected, "session-a");
        s.connected = true;
        s.pipe_handle = Some(123);
    }
    expected.request_apply_layout("profile-a", "account-a").unwrap();
    assert!(get(&expected, "session-a").pending_apply_layout);
}

fn message_type(line: &[u8]) -> Option<String> {
    let value: serde_json::Value = serde_json::from_slice(line).unwrap();
    value.get("type").and_then(|t| t.as_str()).map(|s| s.to_string())
}

#[test]
fn polling_reader_preserves_and_drains_complete_buffered_lines() {
    let mut pending: Vec<u8> = b"{\"type\":\"ping\"}\n{\"type\":\"window_ready\"}\n".to_vec();
    assert_eq!(message_type(&take_line(&mut pending).unwrap()), Some("ping".to_string()));
    assert_eq!(message_type(&take_line(&mut pending).unwrap()), Some("window_ready".to_string()));
    assert!(take_line(&mut pending).is_none());
}

#[test]
fn take_line_keeps_an_incomplete_tail() {
    let mut pending: Vec<u8> = b"abc\nde".to_vec();
    assert_eq!(take_line(&mut pending).unwrap(), b"abc".to_vec());
    assert_eq!(pending, b"de".to_vec());
    assert!(take_line(&mut pending).is_none());
    assert_eq!(pending, b"de".to_vec());
}

#[test]
fn hex_encoding_is_lowercase_two_digits_per_byte() {
    assert_eq!(hex_encode(&[0x00, 0x0f, 0xa5, 0xff]), "000fa5ff");
    assert_eq!(hex_encode(&[]), "");
}

#[test]
fn group_actions_round_trip_through_their_names() {
    for action in [
        GroupControlAction::RestorePreset,
        GroupControlAction::GroupRaise,
        GroupControlAction::Minimize,
        GroupControlAction::CloseSecondary,
    ] {
        assert_eq!(GroupControlAction::parse(action.as_str()), Some(action));
    }
    assert_eq!(GroupControlAction::parse("close"), None);
}

#[test]
fn party_status_is_due_after_the_refresh_interval() {
    assert!(!party_status_due(1_000, 1_000));
    assert!(party_status_due(10_000, 0));
}

#[test]
fn prepared_session_replaces_the_earlier_one_and_hexes_the_random_bytes() {
    let mut s = BrokerSessions::new();
    let first = s.prepare_session("pipe", "profile-a", "account-a", true, 0, None, &[1, 2], &[0xab]);
    assert_eq!(first.launch_session_id, "0102");
    assert_eq!(first.bootstrap_token, "ab");
    assert_eq!(first.pipe_name, "pipe");
    let second = s.prepare_session("pipe", "profile-a", "account-a", true, 0, None, &[3], &[4]);
    assert_eq!(second.launch_session_id, "03");
    assert_eq!(s.entries.len(), 1);
    assert_eq!(s.entries[0].launch_session_id, "03");
}

#[test]
fn reconnect_makes_the_earlier_connection_stale() {
    let mut s = sessions();
    let first = s.authenticate("session-a", 10).unwrap();
    let second = s.authenticate("session-a", 10).unwrap();
    assert_ne!(first.id, second.id);
    assert!(require_connection(get(&s, "session-a"), first).is_err());
    assert!(require_connection(get(&s, "session-a"), second).is_ok());
    s.close_connection("session-a", second);
    assert!(!get(&s, "session-a").connected);
    assert!(require_connection(get(&s, "session-a"), second).is_err());
}
