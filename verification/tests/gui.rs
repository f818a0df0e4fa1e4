use fever::gui::{
    check_grab_focus_state, check_gui_state, handle_escape, is_menu_action_click_bait,
    process_global_actions, spawn_menu_fx, toggle_debug_overlay, toggle_window_mode, update_mute_ui,
    update_pause_ui, EscapeResponse, GlobalActions, GuiState, MenuActionKind, WindowModeKind,
};
use fever::states::{OverlayState, PauseState};

#[test]
fn gui_defaults_and_effects() {
    let s = GuiState::default();
    assert!(s.show_skybox && s.show_inspector);
    assert!(!s.show_status && !s.show_fps && !s.show_help && !s.show_dev_info && !s.show_inspector_always);
    let e = check_gui_state(&s, OverlayState::Hidden);
    assert!(!e.fps_enabled && !e.status_visible && e.skybox_enabled);
    let e = check_gui_state(&s, OverlayState::DebugGuiVisible);
    assert!(e.fps_enabled);
}

#[test]
fn grab_follows_last_request() {
    let d = check_grab_focus_state(false, &vec![true], OverlayState::Hidden, &vec![]);
    assert_eq!(d.grab, Some(true));
    assert!(d.was_grabbed);
    let d = check_grab_focus_state(true, &vec![true], OverlayState::MainMenu, &vec![]);
    assert_eq!(d.grab, Some(false));
    assert!(d.save_options && !d.was_grabbed);
    let d = check_grab_focus_state(true, &vec![false], OverlayState::Hidden, &vec![true, false]);
    assert_eq!(d.grab, Some(false));
    let d = check_grab_focus_state(false, &vec![false], OverlayState::Hidden, &vec![false, true]);
    assert_eq!(d.grab, Some(true));
    let d = check_grab_focus_state(true, &vec![], OverlayState::Hidden, &vec![]);
    assert_eq!(d.grab, None);
    assert!(d.was_grabbed && !d.save_options);
}

#[test]
fn indicators_update_only_on_change() {
    let paused = PauseState::new(true);
    assert_eq!(update_pause_ui(&paused, " "), Some("\u{1F6AB}".to_string()));
    assert_eq!(update_pause_ui(&paused, "\u{1F6AB}"), None);
    assert_eq!(update_pause_ui(&PauseState::new(false), "\u{1F6AB}"), Some(" ".to_string()));
    assert_eq!(update_mute_ui(true, ""), Some("\u{1F508}".to_string()));
    assert_eq!(update_mute_ui(false, " "), None);
}

#[test]
fn escape_outside_menus() {
    assert_eq!(handle_escape(OverlayState::Hidden, false, 1), EscapeResponse::OpenEscapeMenu);
    assert_eq!(handle_escape(OverlayState::Hidden, false, 3), EscapeResponse::OpenEscapeMenu);
    assert_eq!(handle_escape(OverlayState::DebugGuiVisible, false, 1), EscapeResponse::Hide);
    assert_eq!(handle_escape(OverlayState::EscapeMenu, false, 1), EscapeResponse::Ignore);
    assert_eq!(handle_escape(OverlayState::Hidden, true, 1), EscapeResponse::Ignore);
    assert_eq!(handle_escape(OverlayState::Hidden, false, 0), EscapeResponse::Ignore);
    assert_eq!(handle_escape(OverlayState::Loading, false, 1), EscapeResponse::Ignore);
}

#[test]
fn global_toggles() {
    let mut pause = PauseState::new(false);
    let all = GlobalActions { toggle_pause: true, toggle_debug_ui: true, toggle_full_screen: true, toggle_mute: true };
    let e = process_global_actions(all, OverlayState::Hidden, &mut pause, Some(WindowModeKind::Windowed), false);
    assert!(pause.user_paused);
    assert_eq!(e.overlay, Some(OverlayState::DebugGuiVisible));
    assert_eq!(e.window_mode, Some(WindowModeKind::BorderlessFullscreen));
    assert!(e.muted);
    let none = GlobalActions { toggle_pause: false, toggle_debug_ui: false, toggle_full_screen: false, toggle_mute: false };
    let e = process_global_actions(none, OverlayState::MainMenu, &mut pause, None, true);
    assert!(pause.user_paused);
    assert_eq!(e.overlay, None);
    assert_eq!(e.window_mode, None);
    assert!(e.muted);
    assert_eq!(toggle_debug_overlay(toggle_debug_overlay(OverlayState::Hidden)), OverlayState::Hidden);
    assert_eq!(toggle_debug_overlay(OverlayState::MainMenu), OverlayState::MainMenu);
    assert_eq!(toggle_window_mode(WindowModeKind::Fullscreen), WindowModeKind::Windowed);
}

#[test]
fn click_bait_menu_actions() {
    assert!(!is_menu_action_click_bait(MenuActionKind::Activate));
    assert!(is_menu_action_click_bait(MenuActionKind::Navigate));
    assert!(is_menu_action_click_bait(MenuActionKind::Next));
    assert!(is_menu_action_click_bait(MenuActionKind::Reset));
    assert!(is_menu_action_click_bait(MenuActionKind::Previous));
    assert!(!is_menu_action_click_bait(MenuActionKind::Slide));
    assert!(spawn_menu_fx(&vec![MenuActionKind::Activate, MenuActionKind::Next]));
    assert!(!spawn_menu_fx(&vec![MenuActionKind::Slide, MenuActionKind::Activate]));
    assert!(!spawn_menu_fx(&vec![]));
}
