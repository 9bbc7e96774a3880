//! The application's screens: a root `Screen` node, the `IsPaused` sub-state
//! that exists while the game is being played, and the `PauseState`
//! sub-state that exists while the game is paused.

use vstd::prelude::*;
use crate::node::{Binding, NodeId, Request, Variant};

verus! {

/// The node of the main screen state.
pub const SCREEN: NodeId = 0;

/// The node that says whether the game is paused.
pub const IS_PAUSED: NodeId = 1;

/// The node that says which pause menu is shown.
pub const PAUSE_STATE: NodeId = 2;

/// The game's main screen states.
#[derive(Clone, Copy, Debug, PartialEq, Eq, Hash, Structural)]
pub enum Screen {
    Splash,
    Loading,
    Title,
    Credits,
    Playing,
    Settings,
}

/// Whether the game is paused. A sub-state of the `Playing` screen.
#[derive(Clone, Copy, Debug, PartialEq, Eq, Hash, Structural)]
pub enum IsPaused {
    Running,
    Paused,
}

/// Which menu the paused game shows. A sub-state of `IsPaused::Paused`.
#[derive(Clone, Copy, Debug, PartialEq, Eq, Hash, Structural)]
pub enum PauseState {
    PauseMenu,
    SettingsMenu,
}

impl Default for Screen {
    fn default() -> (s: Screen)
        ensures
            s == Screen::Splash,
    {
        Screen::Splash
    }
}

impl Default for IsPaused {
    fn default() -> (s: IsPaused)
        ensures
            s == IsPaused::Running,
    {
        IsPaused::Running
    }
}

impl Default for PauseState {
    fn default() -> (s: PauseState)
        ensures
            s == PauseState::PauseMenu,
    {
        PauseState::PauseMenu
    }
}

impl Screen {
    /// The number this value has inside the hierarchy.
    pub open spec fn code(self) -> Variant {
        match self {
            Screen::Splash => 0,
            Screen::Loading => 1,
            Screen::Title => 2,
            Screen::Credits => 3,
            Screen::Playing => 4,
            Screen::Settings => 5,
        }
    }

    /// The number this value has inside the hierarchy.
    pub fn index(self) -> (v: Variant)
        ensures
            v == self.code(),
    {
        match self {
            Screen::Splash => 0,
            Screen::Loading => 1,
            Screen::Title => 2,
            Screen::Credits => 3,
            Screen::Playing => 4,
            Screen::Settings => 5,
        }
    }

    /// The value with number `v`; numbers past the last value stand for the
    /// last value.
    pub open spec fn decode(v: Variant) -> Screen {
        if v == 0 {
            Screen::Splash
        } else if v == 1 {
            Screen::Loading
        } else if v == 2 {
            Screen::Title
        } else if v == 3 {
            Screen::Credits
        } else if v == 4 {
            Screen::Playing
        } else {
            Screen::Settings
        }
    }

    /// The value with number `v`, if there is one.
    pub fn from_index(v: Variant) -> (s: Option<Screen>)
        ensures
            s == if v < 6 {
                Some(Screen::decode(v))
            } else {
                None
            },
            s matches Some(x) ==> x.code() == v,
    {
        match v {
            0 => Some(Screen::Splash),
            1 => Some(Screen::Loading),
            2 => Some(Screen::Title),
            3 => Some(Screen::Credits),
            4 => Some(Screen::Playing),
            5 => Some(Screen::Settings),
            _ => None,
        }
    }
}

impl IsPaused {
    /// The number this value has inside the hierarchy.
    pub open spec fn code(self) -> Variant {
        match self {
            IsPaused::Running => 0,
            IsPaused::Paused => 1,
        }
    }

    /// The number this value has inside the hierarchy.
    pub fn index(self) -> (v: Variant)
        ensures
            v == self.code(),
    {
        match self {
            IsPaused::Running => 0,
            IsPaused::Paused => 1,
        }
    }

    /// The value with number `v`; numbers past the last value stand for the
    /// last value.
    pub open spec fn decode(v: Variant) -> IsPaused {
        if v == 0 {
            IsPaused::Running
        } else {
            IsPaused::Paused
        }
    }

    /// The value with number `v`, if there is one.
    pub fn from_index(v: Variant) -> (s: Option<IsPaused>)
        ensures
            s == if v < 2 {
                Some(IsPaused::decode(v))
            } else {
                None
            },
            s matches Some(x) ==> x.code() == v,
    {
        match v {
            0 => Some(IsPaused::Running),
            1 => Some(IsPaused::Paused),
            _ => None,
        }
    }
}

impl PauseState {
    /// The number this value has inside the hierarchy.
    pub open spec fn code(self) -> Variant {
        match self {
            PauseState::PauseMenu => 0,
            PauseState::SettingsMenu => 1,
        }
    }

    /// The number this value has inside the hierarchy.
    pub fn index(self) -> (v: Variant)
        ensures
            v == self.code(),
    {
        match self {
            PauseState::PauseMenu => 0,
            PauseState::SettingsMenu => 1,
        }
    }

    /// The value with number `v`; numbers past the last value stand for the
    /// last value.
    pub open spec fn decode(v: Variant) -> PauseState {
        if v == 0 {
            PauseState::PauseMenu
        } else {
            PauseState::SettingsMenu
        }
    }

    /// The value with number `v`, if there is one.
    pub fn from_index(v: Variant) -> (s: Option<PauseState>)
        ensures
            s == if v < 2 {
                Some(PauseState::decode(v))
            } else {
                None
            },
            s matches Some(x) ==> x.code() == v,
    {
        match v {
            0 => Some(PauseState::PauseMenu),
            1 => Some(PauseState::SettingsMenu),
            _ => None,
        }
    }
}

/// A request on one of the three nodes, by its typed value.
#[derive(Clone, Copy, Debug, PartialEq, Eq, Hash, Structural)]
pub enum StateRequest {
    Screen(Screen),
    IsPaused(IsPaused),
    PauseState(PauseState),
}

/// Whether `r` names one of the three nodes and one of that node's values.
pub open spec fn valid_request(r: Request) -> bool {
    ||| r.node == SCREEN && r.value < 6
    ||| r.node == IS_PAUSED && r.value < 2
    ||| r.node == PAUSE_STATE && r.value < 2
}

impl StateRequest {
    /// The same request by node and number.
    pub open spec fn plain(self) -> Request {
        match self {
            StateRequest::Screen(s) => Request { node: SCREEN, value: s.code() },
            StateRequest::IsPaused(s) => Request { node: IS_PAUSED, value: s.code() },
            StateRequest::PauseState(s) => Request { node: PAUSE_STATE, value: s.code() },
        }
    }

    /// The same request by node and number.
    pub fn to_request(self) -> (r: Request)
        ensures
            r == self.plain(),
            valid_request(r),
    {
        match self {
            StateRequest::Screen(s) => Request { node: SCREEN, value: s.index() },
            StateRequest::IsPaused(s) => Request { node: IS_PAUSED, value: s.index() },
            StateRequest::PauseState(s) => Request { node: PAUSE_STATE, value: s.index() },
        }
    }

    /// The typed form of `r`, if `r` names one of the three nodes and one of
    /// its values.
    pub fn from_request(r: Request) -> (typed: Option<StateRequest>)
        ensures
            typed is Some <==> valid_request(r),
            typed matches Some(t) ==> t.plain() == r,
    {
        if r.node == SCREEN {
            match Screen::from_index(r.value) {
                Some(s) => Some(StateRequest::Screen(s)),
                None => None,
            }
        } else if r.node == IS_PAUSED {
            match IsPaused::from_index(r.value) {
                Some(s) => Some(StateRequest::IsPaused(s)),
                None => None,
            }
        } else if r.node == PAUSE_STATE {
            match PauseState::from_index(r.value) {
                Some(s) => Some(StateRequest::PauseState(s)),
                None => None,
            }
        } else {
            None
        }
    }
}

/// What the pause key asks for, given the current pause menu.
///
/// Not paused: pause. On the pause menu: resume (which also takes the pause
/// menu away). On the settings menu: go back one level to the pause menu,
/// without resuming.
pub open spec fn toggled(current_pause_state: Option<PauseState>) -> StateRequest {
    match current_pause_state {
        None => StateRequest::IsPaused(IsPaused::Paused),
        Some(PauseState::PauseMenu) => StateRequest::IsPaused(IsPaused::Running),
        Some(PauseState::SettingsMenu) => StateRequest::PauseState(PauseState::PauseMenu),
    }
}

/// What the pause key asks for, given the current pause menu.
pub fn toggle_pause(current_pause_state: Option<PauseState>) -> (request: StateRequest)
    ensures
        request == toggled(current_pause_state),
{
    match current_pause_state {
        Some(pause_state) => match pause_state {
            PauseState::PauseMenu => StateRequest::IsPaused(IsPaused::Running),
            PauseState::SettingsMenu => StateRequest::PauseState(PauseState::PauseMenu),
        },
        None => StateRequest::IsPaused(IsPaused::Paused),
    }
}

/// What leaving the settings asks for: back to the pause menu where a pause
/// menu state is present, else back to the title screen.
pub open spec fn settings_exit(pause_state: Option<PauseState>) -> StateRequest {
    match pause_state {
        Some(_) => StateRequest::PauseState(PauseState::PauseMenu),
        None => StateRequest::Screen(Screen::Title),
    }
}

/// What leaving the settings asks for, given the current pause menu state.
pub fn exit_settings(pause_state: Option<PauseState>) -> (request: StateRequest)
    ensures
        request == settings_exit(pause_state),
{
    match pause_state {
        Some(_) => StateRequest::PauseState(PauseState::PauseMenu),
        None => StateRequest::Screen(Screen::Title),
    }
}

/// What the pause menu's exit button asks for.
pub fn trigger_return_to_title() -> (request: StateRequest)
    ensures
        request == StateRequest::Screen(Screen::Title),
{
    StateRequest::Screen(Screen::Title)
}

/// What the pause menu's resume button asks for.
pub fn trigger_unpause_game() -> (request: StateRequest)
    ensures
        request == StateRequest::IsPaused(IsPaused::Running),
{
    StateRequest::IsPaused(IsPaused::Running)
}

/// What the pause menu's settings button asks for.
pub fn trigger_settings_menu() -> (request: StateRequest)
    ensures
        request == StateRequest::PauseState(PauseState::SettingsMenu),
{
    StateRequest::PauseState(PauseState::SettingsMenu)
}

/// What the end of loading asks for.
pub fn loading_finished() -> (request: StateRequest)
    ensures
        request == StateRequest::Screen(Screen::Title),
{
    StateRequest::Screen(Screen::Title)
}

/// The binding of the settings' back button: one binding for both places the
/// settings appear in, resolved when the button is pressed.
pub open spec fn exit_settings_binding() -> Binding {
    Binding::Contextual {
        probe: PAUSE_STATE,
        if_present: settings_exit(Some(PauseState::SettingsMenu)).plain(),
        if_absent: settings_exit(None).plain(),
    }
}

/// The binding of the settings' back button.
pub fn trigger_exit_settings() -> (binding: Binding)
    ensures
        binding == exit_settings_binding(),
{
    Binding::Contextual {
        probe: PAUSE_STATE,
        if_present: exit_settings(Some(PauseState::SettingsMenu)).to_request(),
        if_absent: exit_settings(None).to_request(),
    }
}

} // verus!
