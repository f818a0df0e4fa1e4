use vstd::prelude::*;

use crate::states::{OverlayState, PauseState};
use crate::text::str_eq;

verus! {

/// Which parts of the user interface are shown.
#[derive(Debug, Clone, Copy, PartialEq, Eq, Structural)]
pub struct GuiState {
    pub show_status: bool,
    pub show_fps: bool,
    pub show_skybox: bool,
    pub show_inspector: bool,
    pub show_inspector_always: bool,
    pub show_help: bool,
    pub show_dev_info: bool,
}

impl Default for GuiState {
    /// Only the skybox and the inspector are shown at first.
    fn default() -> (s: Self)
        ensures
            s == (GuiState {
                show_status: false,
                show_fps: false,
                show_skybox: true,
                show_inspector: true,
                show_inspector_always: false,
                show_help: false,
                show_dev_info: false,
            }),
    {
        GuiState {
            show_status: false,
            show_fps: false,
            show_skybox: true,
            show_inspector: true,
            show_inspector_always: false,
            show_help: false,
            show_dev_info: false,
        }
    }
}

/// What the GUI state switches on and off elsewhere.
#[derive(Debug, Clone, Copy, PartialEq, Eq, Structural)]
pub struct GuiEffects {
    /// The frame-rate overlay.
    pub fps_enabled: bool,
    /// The status area.
    pub status_visible: bool,
    /// Every skybox.
    pub skybox_enabled: bool,
}

/// The frame-rate overlay is on when asked for or while the debug overlay
/// is up; the status area and skyboxes follow their flags.
pub fn check_gui_state(state: &GuiState, overlay: OverlayState) -> (e: GuiEffects)
    ensures
        e.fps_enabled == (state.show_fps || overlay is DebugGuiVisible),
        e.status_visible == state.show_status,
        e.skybox_enabled == state.show_skybox,
{
    GuiEffects {
        fps_enabled: state.show_fps || overlay.is_debug(),
        status_visible: state.show_status,
        skybox_enabled: state.show_skybox,
    }
}

/// The grab wanted after this frame's focus changes (a window that loses
/// focus releases the cursor, one that gains it grabs it only with no
/// overlay up) and explicit grab requests, the last of these winning.
pub open spec fn spec_desired_grab(focus: Seq<bool>, overlay: OverlayState, grabs: Seq<bool>) -> Option<bool> {
    if grabs.len() > 0 {
        Some(grabs.last())
    } else if focus.len() > 0 {
        Some(focus.last() && overlay is Hidden)
    } else {
        None
    }
}

/// The last grab request of the frame decides; without one, the last focus
/// change does: losing focus releases the cursor, and gaining it grabs the
/// cursor only when no overlay is up; with neither, nothing changes.
pub proof fn lemma_grab_follows_focus_and_requests(focus: Seq<bool>, overlay: OverlayState, grabs: Seq<bool>)
    ensures
        grabs.len() > 0 ==> spec_desired_grab(focus, overlay, grabs) == Some(grabs[grabs.len() - 1]),
        grabs.len() == 0 && focus.len() > 0 ==> (spec_desired_grab(focus, overlay, grabs) == Some(true)
            <==> focus[focus.len() - 1] && overlay == OverlayState::Hidden),
        grabs.len() == 0 && focus.len() > 0 ==> spec_desired_grab(focus, overlay, grabs) is Some,
        grabs.len() == 0 && focus.len() > 0 && !focus[focus.len() - 1] ==> spec_desired_grab(focus, overlay, grabs)
            == Some(false),
        grabs.len() == 0 && focus.len() > 0 && overlay != OverlayState::Hidden ==> spec_desired_grab(focus, overlay, grabs)
            == Some(false),
        grabs.len() == 0 && focus.len() == 0 ==> spec_desired_grab(focus, overlay, grabs) is None,
{
}

/// Outcome of the cursor grab check.
#[derive(Debug, Clone, Copy, PartialEq, Eq, Structural)]
pub struct GrabDecision {
    /// Grab (true) or release (false) the cursor, if anything changed.
    pub grab: Option<bool>,
    /// Whether the cursor counts as grabbed afterwards.
    pub was_grabbed: bool,
    /// Remember the cursor options before releasing a grabbed cursor.
    pub save_options: bool,
}

/// Apply focus changes and grab requests to the cursor grab.
pub fn check_grab_focus_state(was_grabbed: bool, focus: &Vec<bool>, overlay: OverlayState, grabs: &Vec<bool>) -> (d: GrabDecision)
    ensures
        d.grab == spec_desired_grab(focus@, overlay, grabs@),
        d.grab == Some(true) ==> d.was_grabbed && !d.save_options,
        d.grab == Some(false) ==> !d.was_grabbed && d.save_options == was_grabbed,
        d.grab is None ==> d.was_grabbed == was_grabbed && !d.save_options,
{
    let mut desired: Option<bool> = None;
    let mut i: usize = 0;
    while i < focus.len()
        invariant
            i <= focus@.len(),
            desired == (if i == 0 {
                None::<bool>
            } else {
                Some(focus@[i - 1] && overlay is Hidden)
            }),
        decreases focus@.len() - i,
    {
        if !focus[i] {
            desired = Some(false);
        } else {
            desired = Some(overlay == OverlayState::Hidden);
        }
        i = i + 1;
    }
    let mut k: usize = 0;
    while k < grabs.len()
        invariant
            k <= grabs@.len(),
            i == focus@.len(),
            k == 0 ==> desired == (if i == 0 {
                None::<bool>
            } else {
                Some(focus@[i - 1] && overlay is Hidden)
            }),
            k > 0 ==> desired == Some(grabs@[k - 1]),
        decreases grabs@.len() - k,
    {
        desired = Some(grabs[k]);
        k = k + 1;
    }
    match desired {
        Some(true) => GrabDecision { grab: Some(true), was_grabbed: true, save_options: false },
        Some(false) => GrabDecision { grab: Some(false), was_grabbed: false, save_options: was_grabbed },
        None => GrabDecision { grab: None, was_grabbed, save_options: false },
    }
}

/// The new text of an indicator showing `icon` when `on`, or `None` when
/// the shown text is already right.
fn indicator(on: bool, icon: &str, current: &str) -> (r: Option<String>)
    ensures
        match r {
            Some(t) => t@ == (if on {
                icon@
            } else {
                " "@
            }) && current@ != t@,
            None => current@ == (if on {
                icon@
            } else {
                " "@
            }),
        },
{
    let new_text = if on {
        icon
    } else {
        " "
    };
    if str_eq(new_text, current) {
        None
    } else {
        Some(new_text.to_owned())
    }
}

/// The pause indicator: a "no entry" sign while paused, else blank.
pub fn update_pause_ui(paused: &PauseState, current: &str) -> (r: Option<String>)
    ensures
        match r {
            Some(t) => t@ == (if paused.user_paused || paused.menu_paused {
                "\u{1F6AB}"@
            } else {
                " "@
            }) && current@ != t@,
            None => current@ == (if paused.user_paused || paused.menu_paused {
                "\u{1F6AB}"@
            } else {
                " "@
            }),
        },
{
    indicator(paused.is_paused(), "\u{1F6AB}", current)
}

/// The mute indicator: a speaker while muted, else blank.
pub fn update_mute_ui(muted: bool, current: &str) -> (r: Option<String>)
    ensures
        match r {
            Some(t) => t@ == (if muted {
                "\u{1F508}"@
            } else {
                " "@
            }) && current@ != t@,
            None => current@ == (if muted {
                "\u{1F508}"@
            } else {
                " "@
            }),
        },
{
    indicator(muted, "\u{1F508}", current)
}

/// What an Escape press does outside the menus.
#[derive(Debug, Clone, Copy, PartialEq, Eq, Structural)]
pub enum EscapeResponse {
    Ignore,
    /// Clear the menu history and open the escape menu.
    OpenEscapeMenu,
    /// Ask the menu to go back.
    GoBack,
    /// Close the debug overlay.
    Hide,
}

pub open spec fn spec_escape(overlay: OverlayState) -> EscapeResponse {
    match overlay {
        OverlayState::Hidden => EscapeResponse::OpenEscapeMenu,
        OverlayState::EscapeMenu => EscapeResponse::GoBack,
        OverlayState::DebugGuiVisible => EscapeResponse::Hide,
        _ => EscapeResponse::Ignore,
    }
}

/// The response to Escape: none inside the menus, while a "go back" is
/// pending, or without a press; else by the overlay.
pub open spec fn spec_handled_escape(overlay: OverlayState, going_back: bool, escape_presses: usize) -> EscapeResponse {
    if overlay.spec_is_menu() || going_back || escape_presses == 0 {
        EscapeResponse::Ignore
    } else {
        spec_escape(overlay)
    }
}

/// Handle Escape, which is handled differently outside and inside menus:
/// the menus (the escape menu among them) handle it themselves, and nothing
/// happens while a "go back" is pending. Several presses in one frame act
/// as one.
pub fn handle_escape(overlay: OverlayState, going_back: bool, escape_presses: usize) -> (r: EscapeResponse)
    ensures
        r == spec_handled_escape(overlay, going_back, escape_presses),
{
    if overlay.is_menu() {
        return EscapeResponse::Ignore;
    }
    if going_back {
        return EscapeResponse::Ignore;
    }
    if escape_presses == 0 {
        return EscapeResponse::Ignore;
    }
    match overlay {
        OverlayState::Hidden => EscapeResponse::OpenEscapeMenu,
        OverlayState::EscapeMenu => EscapeResponse::GoBack,
        OverlayState::DebugGuiVisible => EscapeResponse::Hide,
        _ => EscapeResponse::Ignore,
    }
}

/// How the primary window is shown.
#[derive(Debug, Clone, Copy, PartialEq, Eq, Structural)]
pub enum WindowModeKind {
    Windowed,
    BorderlessFullscreen,
    Fullscreen,
}

pub open spec fn spec_toggle_window(mode: WindowModeKind) -> WindowModeKind {
    match mode {
        WindowModeKind::Windowed => WindowModeKind::BorderlessFullscreen,
        _ => WindowModeKind::Windowed,
    }
}

pub open spec fn spec_toggle_debug(overlay: OverlayState) -> OverlayState {
    match overlay {
        OverlayState::Hidden => OverlayState::DebugGuiVisible,
        OverlayState::DebugGuiVisible => OverlayState::Hidden,
        other => other,
    }
}

/// The full-screen toggle: a window goes borderless full screen, and any
/// full-screen window goes back to a window.
pub fn toggle_window_mode(mode: WindowModeKind) -> (r: WindowModeKind)
    ensures
        r == spec_toggle_window(mode),
{
    match mode {
        WindowModeKind::Windowed => WindowModeKind::BorderlessFullscreen,
        WindowModeKind::BorderlessFullscreen => WindowModeKind::Windowed,
        WindowModeKind::Fullscreen => WindowModeKind::Windowed,
    }
}

/// The debug UI toggle: the debug overlay opens over no overlay and closes
/// back to none; other overlays stay.
pub fn toggle_debug_overlay(overlay: OverlayState) -> (r: OverlayState)
    ensures
        r == spec_toggle_debug(overlay),
{
    match overlay {
        OverlayState::Hidden => OverlayState::DebugGuiVisible,
        OverlayState::DebugGuiVisible => OverlayState::Hidden,
        current => current,
    }
}

/// Global actions pressed this frame.
#[derive(Debug, Clone, Copy, PartialEq, Eq, Structural)]
pub struct GlobalActions {
    pub toggle_pause: bool,
    pub toggle_debug_ui: bool,
    pub toggle_full_screen: bool,
    pub toggle_mute: bool,
}

/// What the global actions change.
#[derive(Debug, Clone, Copy, PartialEq, Eq, Structural)]
pub struct GlobalEffects {
    /// The overlay to set (it is set, possibly to itself, whenever the debug
    /// toggle was pressed).
    pub overlay: Option<OverlayState>,
    /// The new mode of the primary window, if there is one to change.
    pub window_mode: Option<WindowModeKind>,
    /// The main bus's mute flag.
    pub muted: bool,
}

/// Process actions, sampling actions globally: pause, debug UI, full
/// screen and mute toggles.
pub fn process_global_actions(
    actions: GlobalActions,
    overlay: OverlayState,
    pause: &mut PauseState,
    window_mode: Option<WindowModeKind>,
    muted: bool,
) -> (e: GlobalEffects)
    ensures
        final(pause).user_paused == (old(pause).user_paused != actions.toggle_pause),
        final(pause).menu_paused == old(pause).menu_paused,
        e.overlay == if actions.toggle_debug_ui {
            Some(spec_toggle_debug(overlay))
        } else {
            None::<OverlayState>
        },
        e.window_mode == if actions.toggle_full_screen && window_mode is Some {
            Some(spec_toggle_window(window_mode->0))
        } else {
            None::<WindowModeKind>
        },
        e.muted == (muted != actions.toggle_mute),
{
    if actions.toggle_pause {
        let paused = !pause.is_user_paused();
        pause.set_user_paused(paused);
    }
    let new_overlay = if actions.toggle_debug_ui {
        Some(toggle_debug_overlay(overlay))
    } else {
        None
    };
    let new_mode = match window_mode {
        Some(mode) => if actions.toggle_full_screen {
            Some(toggle_window_mode(mode))
        } else {
            None
        },
        None => None,
    };
    let new_muted = if actions.toggle_mute {
        !muted
    } else {
        muted
    };
    GlobalEffects { overlay: new_overlay, window_mode: new_mode, muted: new_muted }
}

/// Pressing the debug UI toggle twice returns to the overlay one started
/// with; pressing the full-screen toggle twice returns a window to a
/// window, and any full-screen mode to borderless full screen.
pub proof fn lemma_toggles_undo(overlay: OverlayState, mode: WindowModeKind)
    ensures
        spec_toggle_debug(spec_toggle_debug(overlay)) == overlay,
        mode is Windowed ==> spec_toggle_window(spec_toggle_window(mode)) == mode,
        !(mode is Windowed) ==> spec_toggle_window(spec_toggle_window(mode))
            == WindowModeKind::BorderlessFullscreen,
{
}

/// The debug toggle only ever moves between no overlay and the debug
/// overlay, always changing which of the two is up, and leaves any other
/// overlay alone; the full-screen toggle makes a window full screen and
/// any full-screen window a window, always changing the mode.
pub proof fn lemma_toggles_flip(overlay: OverlayState, mode: WindowModeKind)
    ensures
        (overlay is Hidden || overlay is DebugGuiVisible) ==> spec_toggle_debug(overlay) != overlay && (
        spec_toggle_debug(overlay) is Hidden || spec_toggle_debug(overlay) is DebugGuiVisible),
        !(overlay is Hidden || overlay is DebugGuiVisible) ==> spec_toggle_debug(overlay) == overlay,
        spec_toggle_window(mode) != mode,
        (spec_toggle_window(mode) is Windowed) <==> !(mode is Windowed),
        !(spec_toggle_window(mode) is Fullscreen),
{
}

/// Escape does something only outside the menus, with no "go back"
/// pending and at least one press; then it opens the escape menu over no
/// overlay and closes the debug overlay, and does nothing over the other
/// overlays.
pub proof fn lemma_escape_outside_menus(overlay: OverlayState, going_back: bool, presses: usize)
    ensures
        (overlay.spec_is_menu() || going_back || presses == 0) ==> spec_handled_escape(overlay, going_back, presses)
            == EscapeResponse::Ignore,
        spec_handled_escape(overlay, going_back, presses) == EscapeResponse::OpenEscapeMenu <==> (overlay is Hidden
            && !going_back && presses > 0),
        spec_handled_escape(overlay, going_back, presses) == EscapeResponse::Hide <==> (overlay is DebugGuiVisible
            && !going_back && presses > 0),
        spec_handled_escape(overlay, going_back, presses) != EscapeResponse::GoBack,
{
}

/// Kinds of menu action messages.
#[derive(Debug, Clone, Copy, PartialEq, Eq, Structural)]
pub enum MenuActionKind {
    Activate,
    Navigate,
    Next,
    Reset,
    Previous,
    Slide,
}

pub open spec fn spec_click_bait(kind: MenuActionKind) -> bool {
    kind is Navigate || kind is Next || kind is Reset || kind is Previous
}

/// Menu actions that deserve a click sound: moving around and stepping
/// values, not activating or sliding.
pub fn is_menu_action_click_bait(event: MenuActionKind) -> (b: bool)
    ensures
        b == spec_click_bait(event),
{
    match event {
        MenuActionKind::Activate => false,
        MenuActionKind::Navigate | MenuActionKind::Next | MenuActionKind::Reset
        | MenuActionKind::Previous => true,
        MenuActionKind::Slide => false,
    }
}

/// Whether this frame's menu actions call for the click sound.
pub fn spawn_menu_fx(events: &Vec<MenuActionKind>) -> (b: bool)
    ensures
        b == exists|i: int| 0 <= i < events@.len() && spec_click_bait(#[trigger] events@[i]),
{
    let mut i: usize = 0;
    while i < events.len()
        invariant
            i <= events@.len(),
            forall|j: int| 0 <= j < i ==> !spec_click_bait(#[trigger] events@[j]),
        decreases events@.len() - i,
    {
        if is_menu_action_click_bait(events[i]) {
            return true;
        }
        i = i + 1;
    }
    false
}

} // verus!

