//! Event-stream addressing, reconnection pauses, menus and the window toggle.
use dsh_thin_desktop::events::{events_url, forwards_envelope, initial_backoff_ms, next_backoff_ms};
use dsh_thin_desktop::window::{
    hides_on_close, menu_action, toggle_action, tray_menu_action, MenuAction, ToggleAction,
};

#[test]
fn events_url_switches_scheme() {
    assert_eq!(events_url("http://127.0.0.1:3080"), "ws://127.0.0.1:3080/api/events.mux");
    assert_eq!(events_url("https://example.org"), "wss://example.org/api/events.mux");
    assert_eq!(events_url("127.0.0.1:3080"), "127.0.0.1:3080/api/events.mux");
}

#[test]
fn backoff_doubles_up_to_fifteen_seconds() {
    let mut b = initial_backoff_ms();
    let mut seen = vec![b];
    for _ in 0..7 {
        b = next_backoff_ms(b);
        seen.push(b);
    }
    assert_eq!(seen, vec![500, 1000, 2000, 4000, 8000, 15000, 15000, 15000]);
    assert_eq!(next_backoff_ms(7500), 15000);
    assert_eq!(next_backoff_ms(7501), 15000);
    assert_eq!(next_backoff_ms(u64::MAX), 15000);
    assert_eq!(next_backoff_ms(0), 0);
}

#[test]
fn only_server_requests_are_forwarded() {
    assert!(forwards_envelope("server-request"));
    assert!(!forwards_envelope("server-response"));
    assert!(!forwards_envelope(""));
}

#[test]
fn menu_bar_actions() {
    assert_eq!(menu_action("reload"), MenuAction::Reload);
    assert_eq!(menu_action("restart"), MenuAction::RestartBackend);
    assert_eq!(menu_action("devtools"), MenuAction::ToggleDevtools);
    assert_eq!(menu_action("quit"), MenuAction::Quit);
    assert_eq!(menu_action("tray-show-hide"), MenuAction::Nothing);
}

#[test]
fn tray_menu_actions() {
    assert_eq!(tray_menu_action("tray-show-hide"), MenuAction::ToggleWindow);
    assert_eq!(tray_menu_action("reload"), MenuAction::Reload);
    assert_eq!(tray_menu_action("restart"), MenuAction::RestartBackend);
    assert_eq!(tray_menu_action("quit"), MenuAction::Quit);
    assert_eq!(tray_menu_action("devtools"), MenuAction::Nothing);
}

#[test]
fn close_hides_only_main_window() {
    assert!(hides_on_close("main"));
    assert!(!hides_on_close("about"));
}

#[test]
fn toggle_hides_visible_window_only() {
    assert_eq!(toggle_action(Some(true)), ToggleAction::Hide);
    assert_eq!(toggle_action(Some(false)), ToggleAction::ShowAndFocus);
    assert_eq!(toggle_action(None), ToggleAction::ShowAndFocus);
}

fn visible_after(action: ToggleAction) -> bool {
    matches!(action, ToggleAction::ShowAndFocus)
}

#[test]
fn two_toggles_restore_visibility() {
    for start in [true, false] {
        let once = visible_after(toggle_action(Some(start)));
        assert_eq!(once, !start);
        let twice = visible_after(toggle_action(Some(once)));
        assert_eq!(twice, start);
    }
}
