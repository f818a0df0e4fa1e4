use vstd::prelude::*;

verus! {

/// State machine for overall program behavior.
#[derive(Debug, Clone, Copy, PartialEq, Eq, Structural)]
pub enum ProgramState {
    /// State before initial assets loaded.
    Initializing,
    /// State when starting fresh, assets loaded.
    New,
    /// Transitional state when re-loading.
    LoadingSave,
    /// The main menu, shown to decide how to enter, or after exiting.
    LaunchMenu,
    /// Some aspect of the game is active, possibly paused or behind a menu.
    InGame,
    /// Every level was won.
    Completed,
    /// Startup failed (e.g. assets could not be loaded).
    Error,
}

/// While the program state is in game, the modes the player can be in.
#[derive(Debug, Clone, Copy, PartialEq, Eq, Structural)]
pub enum GameplayState {
    Inactive,
    /// Initial state when starting fresh.
    New,
    /// Transitional state when re-loading.
    LoadingSave,
    /// Loading the assets for the mode.
    AssetsLoading,
    /// Assets for the mode are loaded; continue to the appropriate state.
    AssetsLoaded,
    /// A level is being spawned.
    Setup,
    /// Game in progress.
    Playing,
    /// The game is over.
    Done,
}

/// The 2D overlay state.
#[derive(Debug, Clone, Copy, PartialEq, Eq, Structural)]
pub enum OverlayState {
    /// No overlay.
    Hidden,
    /// Loading assets or levels.
    Loading,
    /// Main menu is up at startup.
    MainMenu,
    /// Escape Menu is up during gameplay.
    EscapeMenu,
    /// Game menu is up.
    GameMenu,
    /// Options menu is up.
    OptionsMenu,
    /// Audio menu is up.
    AudioMenu,
    /// Video menu is up.
    VideoMenu,
    /// Control menu is up.
    ControlsMenu,
    /// egui controls are up.
    DebugGuiVisible,
    /// "You won" screen after the last level.
    GameOverScreen,
    /// Installation error screen.
    ErrorScreen,
}

impl OverlayState {
    pub open spec fn spec_is_menu(self) -> bool {
        self is MainMenu || self is GameMenu || self is OptionsMenu || self is AudioMenu
            || self is VideoMenu || self is ControlsMenu || self is EscapeMenu
    }

    pub fn is_hidden(&self) -> (b: bool)
        ensures
            b == (*self is Hidden),
    {
        *self == OverlayState::Hidden
    }

    pub fn is_menu(&self) -> (b: bool)
        ensures
            b == self.spec_is_menu(),
    {
        *self == OverlayState::MainMenu || *self == OverlayState::GameMenu || *self
            == OverlayState::OptionsMenu || *self == OverlayState::AudioMenu || *self
            == OverlayState::VideoMenu || *self == OverlayState::ControlsMenu || *self
            == OverlayState::EscapeMenu
    }

    pub fn is_debug(&self) -> (b: bool)
        ensures
            b == (*self is DebugGuiVisible),
    {
        *self == OverlayState::DebugGuiVisible
    }
}

/// An overlay is at most one of hidden, a menu, or the debug overlay.
pub proof fn lemma_overlay_kinds_exclusive(o: OverlayState)
    ensures
        !(o is Hidden && o.spec_is_menu()),
        !(o is Hidden && o is DebugGuiVisible),
        !(o.spec_is_menu() && o is DebugGuiVisible),
{
}

/// Pause flags: the user's own pause and the pause held while a menu or
/// loading screen is up.
#[derive(Debug, Clone, Copy, PartialEq, Eq, Structural)]
pub struct PauseState {
    pub user_paused: bool,
    pub menu_paused: bool,
}

impl PauseState {
    /// A pause state whose user pause is `paused` and with no menu pause.
    pub fn new(paused: bool) -> (s: Self)
        ensures
            s.user_paused == paused,
            !s.menu_paused,
    {
        PauseState { user_paused: paused, menu_paused: false }
    }

    /// Whether any pause flag is set.
    pub fn is_paused(&self) -> (b: bool)
        ensures
            b == (self.user_paused || self.menu_paused),
    {
        self.user_paused || self.menu_paused
    }

    pub fn is_user_paused(&self) -> (b: bool)
        ensures
            b == self.user_paused,
    {
        self.user_paused
    }

    pub fn is_menu_paused(&self) -> (b: bool)
        ensures
            b == self.menu_paused,
    {
        self.menu_paused
    }

    pub fn set_user_paused(&mut self, paused: bool)
        ensures
            final(self).user_paused == paused,
            final(self).menu_paused == old(self).menu_paused,
    {
        self.user_paused = paused;
    }

    pub fn set_menu_paused(&mut self, paused: bool)
        ensures
            final(self).menu_paused == paused,
            final(self).user_paused == old(self).user_paused,
    {
        self.menu_paused = paused;
    }
}

/// Run condition: whether any field in the pause state is set.
pub fn is_paused(paused: &PauseState) -> (b: bool)
    ensures
        b == (paused.user_paused || paused.menu_paused),
{
    paused.is_paused()
}

/// Run condition: whether the user pause is set.
pub fn is_user_paused(paused: &PauseState) -> (b: bool)
    ensures
        b == paused.user_paused,
{
    paused.is_user_paused()
}

/// Run condition: whether the menu pause is set.
pub fn is_menu_paused(paused: &PauseState) -> (b: bool)
    ensures
        b == paused.menu_paused,
{
    paused.is_menu_paused()
}

/// Run condition: the program is in game.
pub fn is_game_active(program_state: ProgramState) -> (b: bool)
    ensures
        b == (program_state is InGame),
{
    program_state == ProgramState::InGame
}

/// Run condition: a menu overlay is up.
pub fn is_in_menu(overlay: OverlayState) -> (b: bool)
    ensures
        b == overlay.spec_is_menu(),
{
    overlay.is_menu()
}

/// The program is asked to exit once no window is left open.
pub fn check_windows_closed(open_windows: usize) -> (exit: bool)
    ensures
        exit == (open_windows == 0),
{
    open_windows == 0
}

} // verus!

