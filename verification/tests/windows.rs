use ggo_launcher::layout::SignedRect;
use ggo_launcher::windows::{
    client_rect_at, filetime_value, game_window_exclusion_reason, has_client_area, known_dpi,
    lists_window_candidate, minimized_from_show_cmd, minimized_state_reached, monitors_by_device_name,
    outer_rect_size, poll_again, position_only_rect, position_reached, rect_reached, window_inspection_status,
    MonitorDescriptor,
};

#[test]
fn selects_sdl_app_by_class_and_owner_not_mutable_title() {
    assert_eq!(game_window_exclusion_reason("SDL_app", false), None);
    assert_eq!(game_window_exclusion_reason("SDL_app", true), Some("owned_window"));
    assert_eq!(
        game_window_exclusion_reason("WindowsForms10.Window.208.app", false),
        Some("class_not_sdl_app")
    );
}

#[test]
fn refuses_unverified_mismatched_or_ambiguous_window_identity() {
    assert_eq!(window_inspection_status(None, 1), "process_identity_unverified");
    assert_eq!(window_inspection_status(Some(false), 1), "process_identity_mismatch");
    assert_eq!(window_inspection_status(Some(true), 0), "pending_game_window");
    assert_eq!(window_inspection_status(Some(true), 1), "ready");
    assert_eq!(window_inspection_status(Some(true), 2), "ambiguous_game_windows");
}

fn rect(left: i32, top: i32, right: i32, bottom: i32) -> SignedRect {
    SignedRect { left, top, right, bottom }
}

#[test]
fn monitors_are_listed_by_device_name() {
    let m = |name: &str, primary: bool| MonitorDescriptor {
        device_name: name.to_string(),
        is_primary: primary,
        monitor_rect: rect(0, 0, 1, 1),
        work_area: rect(0, 0, 1, 1),
    };
    let sorted = monitors_by_device_name(vec![m("\\\\.\\DISPLAY2", false), m("\\\\.\\DISPLAY1", true), m("\\\\.\\DISPLAY10", false)]);
    let names: Vec<&str> = sorted.iter().map(|d| d.device_name.as_str()).collect();
    assert_eq!(names, vec!["\\\\.\\DISPLAY1", "\\\\.\\DISPLAY10", "\\\\.\\DISPLAY2"]);
    assert!(sorted[0].is_primary);
}

#[test]
fn outer_rect_sizes_must_fit_and_be_positive() {
    assert_eq!(outer_rect_size(rect(10, 20, 110, 70)), Ok((100, 50)));
    assert_eq!(
        outer_rect_size(rect(10, 20, 10, 70)).unwrap_err(),
        "requested outer rect must be positive: 0x50"
    );
    assert_eq!(
        outer_rect_size(rect(10, 20, 5, 10)).unwrap_err(),
        "requested outer rect must be positive: -5x-10"
    );
    assert_eq!(
        outer_rect_size(rect(i32::MIN, 0, i32::MAX, 10)).unwrap_err(),
        "requested window width is outside i32"
    );
    assert_eq!(
        outer_rect_size(rect(0, i32::MIN, 10, i32::MAX)).unwrap_err(),
        "requested window height is outside i32"
    );
}

#[test]
fn position_only_moves_keep_the_saved_size() {
    assert_eq!(position_only_rect(rect(0, 0, 800, 600), -100, 50), Ok(rect(-100, 50, 700, 650)));
    assert_eq!(
        position_only_rect(rect(0, 0, 800, 600), i32::MAX - 10, 0).unwrap_err(),
        "requested right coordinate is outside i32"
    );
    assert_eq!(
        position_only_rect(rect(0, 0, 800, 600), 0, i32::MAX - 10).unwrap_err(),
        "requested bottom coordinate is outside i32"
    );
    assert_eq!(
        position_only_rect(rect(i32::MIN, 0, i32::MAX, 10), 0, 0).unwrap_err(),
        "saved window width is outside i32"
    );
    assert_eq!(
        position_only_rect(rect(0, i32::MIN, 10, i32::MAX), 0, 0).unwrap_err(),
        "saved window height is outside i32"
    );
}

#[test]
fn filetimes_combine_high_and_low_words() {
    assert_eq!(filetime_value(0, 5), 5);
    assert_eq!(filetime_value(1, 0), 1 << 32);
    assert_eq!(filetime_value(0x01DA_0000, 0xFFFF_FFFF), (0x01DA_0000u64 << 32) | 0xFFFF_FFFF);
}

#[test]
fn hidden_windows_are_listed_only_when_eligible_or_winforms() {
    assert!(lists_window_candidate(true, false, "SDL_app"));
    assert!(lists_window_candidate(false, true, "Other"));
    assert!(lists_window_candidate(false, false, "WindowsForms10.Window.8.app.0.1"));
    assert!(!lists_window_candidate(false, false, "WindowsForms10"));
    assert!(!lists_window_candidate(false, false, "IME"));
}

#[test]
fn window_state_readings_are_mapped() {
    assert_eq!(minimized_from_show_cmd(Some(2)), Some(true));
    assert_eq!(minimized_from_show_cmd(Some(6)), Some(true));
    assert_eq!(minimized_from_show_cmd(Some(7)), Some(true));
    assert_eq!(minimized_from_show_cmd(Some(1)), Some(false));
    assert_eq!(minimized_from_show_cmd(None), None);
    assert_eq!(known_dpi(0), None);
    assert_eq!(known_dpi(96), Some(96));
    assert!(minimized_state_reached(Some(true), true));
    assert!(!minimized_state_reached(Some(false), true));
    assert!(!minimized_state_reached(None, false));
}

#[test]
fn client_rects_are_placed_at_their_screen_origin() {
    assert!(has_client_area(rect(0, 0, 10, 10)));
    assert!(!has_client_area(rect(0, 0, 0, 10)));
    assert_eq!(client_rect_at(100, 50, rect(0, 0, 640, 480)), Some(rect(100, 50, 740, 530)));
    assert_eq!(client_rect_at(i32::MAX - 5, 0, rect(0, 0, 640, 480)), None);
    assert_eq!(client_rect_at(0, i32::MAX - 5, rect(0, 0, 640, 480)), None);
}

#[test]
fn waits_poll_at_most_twenty_times_until_reached() {
    assert!(poll_again(0, false));
    assert!(poll_again(19, false));
    assert!(!poll_again(20, false));
    assert!(!poll_again(3, true));
    let target = rect(1, 2, 3, 4);
    assert!(rect_reached(Some(target), target));
    assert!(!rect_reached(Some(rect(1, 2, 3, 5)), target));
    assert!(!rect_reached(None, target));
    assert!(position_reached(Some(rect(1, 2, 30, 40)), 1, 2));
    assert!(!position_reached(Some(rect(1, 3, 30, 40)), 1, 2));
}
