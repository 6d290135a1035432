use ggo_launcher::launcher::{
    build_cuo_args, check_secondary_slots, explain_win_error, group_member_step, GroupMemberStep, hud_leader_account_id, is_account_multi_enabled,
    managed_tile_plan_from_available, managed_tiles_for_accounts, managed_tile_value,
    multi_launch_plan, q, secondary_group_plan, selected_multi_accounts, GroupStepOutcome,
    group_control_result,
};
use ggo_launcher::broker::{BrokerWindowTarget, GroupControlAction};
use ggo_launcher::layout::SignedRect;
use ggo_launcher::multiclient::{measurable_monitors, ManagedTile};
use ggo_launcher::profile::{
    Account, EncryptionType, Profile, SecondaryLayoutPreset, SecondarySlot, ServerConfig,
};
use ggo_launcher::windows::{MonitorDescriptor, MonitorEnumeration};

fn account(id: &str, slot: Option<SecondarySlot>) -> Account {
    Account {
        id: id.to_string(),
        username: id.to_string(),
        password_encrypted: String::new(),
        character_name: None,
        display_name: None,
        multi_enabled: Some(true),
        secondary_slot: slot,
    }
}

fn no_monitors() -> Result<MonitorEnumeration, String> {
    Err("monitors must not be needed".to_string())
}

fn profile_with(accounts: Vec<Account>) -> Profile {
    Profile {
        id: "p".to_string(),
        name: "p".to_string(),
        uo_path: "C:\\UO".to_string(),
        cuo_path: None,
        server: ServerConfig {
            address: "play.example".to_string(),
            port: 2593,
            encryption: EncryptionType::Auto,
            accounts,
            active_account_id: None,
            username: String::new(),
            password_encrypted: String::new(),
        },
        client_version: None,
        secondary_layout_preset: SecondaryLayoutPreset::TwoByTwo,
    }
}

#[test]
fn duplicate_managed_slots_fail_before_monitor_resolution() {
    let first = account("first", Some(SecondarySlot::R0c0));
    let second = account("second", Some(SecondarySlot::R0c0));

    let error = managed_tiles_for_accounts(&[&first, &second], SecondaryLayoutPreset::TwoByTwo, no_monitors())
        .unwrap_err();

    assert!(error.contains("r0c0"));
    assert!(error.contains("중복"));
}

#[test]
fn accounts_without_slots_do_not_require_a_secondary_monitor() {
    let first = account("first", None);
    let second = account("second", None);

    let tiles = managed_tiles_for_accounts(&[&first, &second], SecondaryLayoutPreset::TwoByTwo, no_monitors())
        .unwrap();

    assert_eq!(tiles.tiles, vec![None, None]);
    assert!(tiles.warning.is_none());
}

#[test]
fn hud_leader_and_member_order_do_not_depend_on_window_slots() {
    let first = account("main", Some(SecondarySlot::R1c1));
    let second = account("bard", None);

    assert_eq!(hud_leader_account_id(&[&first, &second]), Some("main"));
    assert_eq!(hud_leader_account_id(&[&second, &first]), Some("bard"));
}

#[test]
fn missing_secondary_monitor_falls_back_to_unmanaged_without_losing_slots() {
    let first = account("first", Some(SecondarySlot::R0c0));
    let second = account("second", None);

    let plan = managed_tile_plan_from_available(&[&first, &second], None);

    assert_eq!(plan.tiles, vec![None, None]);
    assert!(plan.warning.as_deref().unwrap().contains("자동 배치를 적용하지 않았습니다"));
}

#[test]
fn center_slot_requires_the_center_preset() {
    let center = account("center", Some(SecondarySlot::Center));

    let error = managed_tiles_for_accounts(&[&center], SecondaryLayoutPreset::TwoByTwo, no_monitors())
        .unwrap_err();

    assert!(error.contains("center"));
    assert!(error.contains("사용할 수 없습니다"));
}

#[test]
fn managed_tile_argument_preserves_negative_coordinates() {
    let value = managed_tile_value(ManagedTile { left: -1920, top: 243, width: 960, height: 516 });

    assert_eq!(value, "x=-1920;y=243;w=960;h=516");
    assert!(!value.starts_with('-'));
}

fn monitor(name: &str, primary: bool, area: SignedRect) -> MonitorDescriptor {
    MonitorDescriptor { device_name: name.to_string(), is_primary: primary, monitor_rect: area, work_area: area }
}

#[test]
fn slots_get_the_tiles_of_the_largest_secondary_monitor() {
    let first = account("first", Some(SecondarySlot::R1c1));
    let second = account("second", None);
    let monitors = Ok(MonitorEnumeration {
        monitors: vec![
            monitor("\\\\.\\DISPLAY1", true, SignedRect { left: 0, top: 0, right: 1920, bottom: 1080 }),
            monitor("\\\\.\\DISPLAY2", false, SignedRect { left: -1920, top: 0, right: 0, bottom: 1040 }),
        ],
        warnings: Vec::new(),
    });
    let plan = managed_tiles_for_accounts(&[&first, &second], SecondaryLayoutPreset::TwoByTwo, monitors).unwrap();
    assert_eq!(plan.tiles, vec![Some(ManagedTile { left: -960, top: 520, width: 960, height: 520 }), None]);
    assert!(plan.warning.is_none());
}

#[test]
fn no_secondary_monitor_leaves_windows_unplaced_with_a_warning() {
    let first = account("first", Some(SecondarySlot::R0c0));
    let monitors = Ok(MonitorEnumeration {
        monitors: vec![monitor("\\\\.\\DISPLAY1", true, SignedRect { left: 0, top: 0, right: 1920, bottom: 1080 })],
        warnings: Vec::new(),
    });
    let plan = managed_tiles_for_accounts(&[&first], SecondaryLayoutPreset::TwoByTwo, monitors).unwrap();
    assert_eq!(plan.tiles, vec![None]);
    assert!(plan.warning.is_some());
}

#[test]
fn monitor_enumeration_errors_are_reported_when_slots_are_used() {
    let first = account("first", Some(SecondarySlot::R0c0));
    let error = managed_tiles_for_accounts(&[&first], SecondaryLayoutPreset::TwoByTwo, Err("boom".to_string()))
        .unwrap_err();
    assert_eq!(error, "boom");
}

#[test]
fn multi_selection_takes_the_first_six_enabled_accounts() {
    let mut accounts: Vec<Account> = (0..9).map(|i| account(&format!("a{i}"), None)).collect();
    accounts[1].multi_enabled = Some(false);
    accounts[7].multi_enabled = None;
    let profile = profile_with(accounts);
    let ids: Vec<&str> = selected_multi_accounts(&profile).iter().map(|a| a.id.as_str()).collect();
    assert_eq!(ids, vec!["a0", "a2", "a3", "a4", "a5", "a6"]);
    let mut legacy = account("x", None);
    legacy.multi_enabled = None;
    assert!(is_account_multi_enabled(&legacy, 5));
    assert!(!is_account_multi_enabled(&legacy, 6));
}

#[test]
fn quoting_follows_command_line_to_argv_rules() {
    assert_eq!(q("plain"), "plain");
    assert_eq!(q("has space"), "\"has space\"");
    assert_eq!(q("C:\\Program Files\\UO\\"), "\"C:\\Program Files\\UO\\\\\"");
    assert_eq!(q("say \"hi\""), "\"say \\\"hi\\\"\"");
    assert_eq!(q("a\\\\\"b"), "\"a\\\\\\\\\\\"b\"");
    assert_eq!(q("a\\b c"), "\"a\\b c\"");
}

#[test]
fn cuo_arguments_follow_the_launcher_format() {
    let mut a = account("acct", None);
    a.username = " hero ".to_string();
    a.password_encrypted = "dpapi:AAAA".to_string();
    a.character_name = Some("Lord British".to_string());
    let profile = profile_with(vec![a.clone()]);
    let args = build_cuo_args(&profile, "C:\\plugins\\Razor.dll", Some(&a), "pw 1", None);
    assert_eq!(
        args,
        "-uopath C:\\UO -ip play.example -port 2593 -account hero -password \"pw 1\" \
         -lastcharactername \"Lord British\" -saveaccount False -autologin True -reconnect False \
         -reconnect_time 1000 -music True -music_volume 50 -skiploginscreen -profiler False \
         -use_verdata False -encryption 0 -force_driver 3 -plugins C:\\plugins\\Razor.dll \
         -shard_type 0 -skipupdate"
    );
}

#[test]
fn cuo_arguments_log_in_an_account_without_a_character_name() {
    let mut a = account("acct", None);
    a.username = "hero".to_string();
    a.password_encrypted = "dpapi:AAAA".to_string();
    a.character_name = None;
    let profile = profile_with(vec![a.clone()]);
    let args = build_cuo_args(&profile, "p.dll", Some(&a), "pw", None);
    assert!(args.contains("-account hero -password pw -saveaccount False -autologin True"));
    assert!(!args.contains("-lastcharactername"));
    let mut nameless = a.clone();
    nameless.username = "  ".to_string();
    let args = build_cuo_args(&profile, "p.dll", Some(&nameless), "pw", None);
    assert!(args.contains("-autologin False"));
    assert!(!args.contains("-account"));
}

#[test]
fn cuo_arguments_without_account_keep_autologin_off_and_add_the_tile() {
    let profile = profile_with(Vec::new());
    let args = build_cuo_args(
        &profile,
        "p.dll",
        None,
        "",
        Some(ManagedTile { left: 1, top: 2, width: 3, height: 4 }),
    );
    assert!(args.contains("-autologin False"));
    assert!(args.contains("-ggo_managed_tile x=1;y=2;w=3;h=4 -plugins p.dll"));
    assert!(!args.contains("-account"));
}

#[test]
fn group_plan_excludes_the_leader_and_orders_by_slot() {
    let profile = profile_with(vec![
        account("leader", Some(SecondarySlot::R0c0)),
        account("c", Some(SecondarySlot::Center)),
        account("b", Some(SecondarySlot::R1c0)),
        account("none", None),
    ]);
    let (action, members) = secondary_group_plan(&profile, "group_raise").unwrap();
    assert_eq!(action, GroupControlAction::GroupRaise);
    let ids: Vec<&str> = members.iter().map(|a| a.id.as_str()).collect();
    assert_eq!(ids, vec!["b", "c"]);
    assert!(secondary_group_plan(&profile, "explode").unwrap_err().contains("explode"));
    let lonely = profile_with(vec![account("leader", Some(SecondarySlot::R0c0))]);
    assert!(secondary_group_plan(&lonely, "minimize").is_err());
}

#[test]
fn group_result_counts_each_status() {
    let b = account("b", Some(SecondarySlot::R1c0));
    let c = account("c", Some(SecondarySlot::Center));
    let result = group_control_result(
        GroupControlAction::Minimize,
        &[&b, &c],
        vec![GroupStepOutcome::Pending("not ready".to_string()), GroupStepOutcome::Failed("gone".to_string())],
    );
    assert_eq!(result.action, "minimize");
    assert_eq!(result.pending_count, 1);
    assert_eq!(result.failed_count, 1);
    assert_eq!(result.succeeded_count, 0);
    assert_eq!(result.accounts[0].slot, "r1c0");
    assert_eq!(result.accounts[1].status, "failed");
}

#[test]
fn launch_plan_skips_running_accounts_and_starts_the_center_last() {
    let a = account("a", Some(SecondarySlot::Center));
    let b = account("b", Some(SecondarySlot::R0c0));
    let c = account("c", None);
    let tiles = vec![None, Some(ManagedTile { left: 0, top: 0, width: 1, height: 1 }), None];
    let plan = multi_launch_plan(&[&a, &b, &c], &tiles, &["a".to_string(), "b".to_string()]);
    let order: Vec<usize> = plan.iter().map(|s| s.index).collect();
    assert_eq!(order, vec![1, 0]);
    assert!(plan[1].hud_leader);
    assert_eq!(plan[0].hud_order, 1);
    assert_eq!(plan[0].managed_z_order, Some(0));
    assert_eq!(plan[1].managed_z_order, Some(4));
}

#[test]
fn windows_error_codes_are_explained() {
    assert!(explain_win_error(5).contains("ERROR_ACCESS_DENIED"));
    assert_eq!(explain_win_error(42), "원인 미상");
}

#[test]
fn launch_selection_needs_profile_plugin_and_cuo_folder() {
    let mut with_dir = profile_with(vec![]);
    with_dir.id = "b".to_string();
    with_dir.cuo_path = Some("  C:\\CUO  ".to_string());
    let mut no_dir = profile_with(vec![]);
    no_dir.id = "a".to_string();
    no_dir.cuo_path = Some("   ".to_string());
    let plugin = |path: &str, enabled: bool| ggo_launcher::settings::PluginEntry { path: path.to_string(), enabled, display_name: None };
    let s = ggo_launcher::settings::Settings {
        profiles: vec![no_dir, with_dir],
        plugins: vec![plugin("off.dll", false), plugin("on.dll", true), plugin("also.dll", true)],
        ..ggo_launcher::settings::Settings::default()
    };
    assert_eq!(ggo_launcher::launcher::select_launch(&s, "b"), Ok((1, 1, "C:\\CUO".to_string())));
    assert_eq!(ggo_launcher::launcher::select_launch(&s, "zz"), Err("프로필 zz 못 찾음".to_string()));
    assert_eq!(
        ggo_launcher::launcher::select_launch(&s, "a"),
        Err("CUO 경로가 비어있습니다. Edit Profile에서 설정해주세요.".to_string())
    );
    let none = ggo_launcher::settings::Settings { profiles: s.profiles.clone(), ..ggo_launcher::settings::Settings::default() };
    assert_eq!(
        ggo_launcher::launcher::select_launch(&none, "b"),
        Err("선택된 플러그인이 없습니다. 플러그인을 먼저 등록/선택해주세요.".to_string())
    );
}

/// Reads one argument as CommandLineToArgvW treats backslashes and quotes.
fn argv_read(cs: &[char]) -> (String, usize) {
    let mut out = String::new();
    let mut quoted = false;
    let mut pending = 0usize;
    let mut i = 0usize;
    while i < cs.len() {
        let c = cs[i];
        if c == '\\' {
            pending += 1;
        } else if c == '"' {
            out.extend(std::iter::repeat('\\').take(pending / 2));
            if pending % 2 == 0 {
                quoted = !quoted;
            } else {
                out.push('"');
            }
            pending = 0;
        } else if !quoted && (c == ' ' || c == '\t') {
            break;
        } else {
            out.extend(std::iter::repeat('\\').take(pending));
            out.push(c);
            pending = 0;
        }
        i += 1;
    }
    out.extend(std::iter::repeat('\\').take(pending));
    (out, i)
}

#[test]
fn quoted_arguments_read_back_unchanged() {
    for s in ["plain", "has space", "C:\\Program Files\\UO\\", "say \"hi\"", "a\\\\\"b", "\\\\", "tab\there", "\"", "x\\"] {
        let quoted: Vec<char> = q(s).chars().collect();
        assert_eq!(argv_read(&quoted), (s.to_string(), quoted.len()), "argument {s:?}");
    }
}

#[test]
fn hud_roles_do_not_change_with_window_slots() {
    let with_slots = [account("a", Some(SecondarySlot::R0c0)), account("b", Some(SecondarySlot::Center)), account("a", None)];
    let without = [account("a", None), account("b", None), account("a", None)];
    let tiles = vec![None, None, None];
    let reserved = vec!["a".to_string(), "b".to_string()];
    let p1 = multi_launch_plan(&[&with_slots[0], &with_slots[1], &with_slots[2]], &tiles, &reserved);
    let p2 = multi_launch_plan(&[&without[0], &without[1], &without[2]], &tiles, &reserved);
    let roles = |p: &[ggo_launcher::launcher::LaunchStep]| {
        let mut r: Vec<(usize, bool, u8)> = p.iter().map(|s| (s.index, s.hud_leader, s.hud_order)).collect();
        r.sort();
        r
    };
    assert_eq!(roles(&p1), roles(&p2));
    assert_eq!(roles(&p1), vec![(0, true, 0), (1, false, 1), (2, true, 0)]);
}

#[test]
fn slot_checks_tell_whether_monitors_are_needed() {
    let first = account("first", Some(SecondarySlot::R0c0));
    let second = account("second", None);
    assert_eq!(check_secondary_slots(&[&first, &second], SecondaryLayoutPreset::TwoByTwo), Ok(true));
    assert_eq!(check_secondary_slots(&[&second], SecondaryLayoutPreset::TwoByTwo), Ok(false));
    let twin = account("twin", Some(SecondarySlot::R0c0));
    assert!(check_secondary_slots(&[&first, &twin], SecondaryLayoutPreset::TwoByTwo)
        .unwrap_err()
        .contains("중복"));
}

#[test]
fn monitors_too_large_to_measure_are_refused() {
    let small = SignedRect { left: 0, top: 0, right: 1920, bottom: 1080 };
    let huge = SignedRect { left: i32::MIN, top: i32::MIN, right: i32::MAX, bottom: i32::MAX };
    let fine = MonitorEnumeration { monitors: vec![monitor("A", true, small)], warnings: Vec::new() };
    assert_eq!(measurable_monitors(Ok(fine.clone())), Ok(fine));
    let too_big = MonitorEnumeration {
        monitors: vec![monitor("A", true, small), monitor("B", false, huge)],
        warnings: Vec::new(),
    };
    assert_eq!(
        measurable_monitors(Ok(too_big)).unwrap_err(),
        "monitor work area is too large to measure"
    );
    assert_eq!(measurable_monitors(Err("boom".to_string())).unwrap_err(), "boom");
}

#[test]
fn group_members_without_a_window_target_are_pending() {
    let target = BrokerWindowTarget { pid: 7, process_creation_time: 9, hwnd_value: 0x10, hwnd_generation: 1 };
    match group_member_step(GroupControlAction::Minimize, Err("not ready".to_string())) {
        GroupMemberStep::Pending(m) => assert_eq!(m, "not ready"),
        other => panic!("unexpected {other:?}"),
    }
    match group_member_step(GroupControlAction::RestorePreset, Ok(target)) {
        GroupMemberStep::Operate { target: t, reapply_tile } => {
            assert_eq!(t, target);
            assert!(reapply_tile);
        }
        other => panic!("unexpected {other:?}"),
    }
    match group_member_step(GroupControlAction::GroupRaise, Ok(target)) {
        GroupMemberStep::Operate { reapply_tile, .. } => assert!(!reapply_tile),
        other => panic!("unexpected {other:?}"),
    }
}
