//! The interactive objects the application's screens are made of.
//!
//! Each menu is a small tree: a root that carries the scope tag, and below it
//! a header and the buttons, every button bound to what pressing it asks
//! for. Leaving the tagged state value destroys the whole tree.

use vstd::prelude::*;
use crate::node::{Binding, NodeId, ObjectId, ScopeTag, Variant};
use crate::registry::{cleaned, spawned, ObjectInfo, Registry, Scene};
use crate::screens::{
    exit_settings_binding,
    trigger_exit_settings,
    trigger_return_to_title,
    trigger_settings_menu,
    trigger_unpause_game,
    IsPaused,
    PauseState,
    Screen,
    StateRequest,
    PAUSE_STATE,
    SCREEN,
};

verus! {

/// The objects of the pause menu.
#[derive(Clone, Copy, Debug, PartialEq, Eq)]
pub struct PauseMenu {
    pub root: ObjectId,
    pub panel: ObjectId,
    pub header: ObjectId,
    pub resume: ObjectId,
    pub settings: ObjectId,
    pub exit: ObjectId,
}

/// The objects of the settings, as a menu or as a screen.
#[derive(Clone, Copy, Debug, PartialEq, Eq)]
pub struct SettingsUi {
    pub root: ObjectId,
    pub header: ObjectId,
    pub back: ObjectId,
}

/// The scope of the pause menu.
pub open spec fn pause_menu_scope() -> ScopeTag {
    ScopeTag { node: PAUSE_STATE, variant: PauseState::PauseMenu.code() }
}

/// The scope of the settings shown as a menu over the paused game.
pub open spec fn settings_menu_scope() -> ScopeTag {
    ScopeTag { node: PAUSE_STATE, variant: PauseState::SettingsMenu.code() }
}

/// The scope of the settings shown as a screen of their own.
pub open spec fn settings_screen_scope() -> ScopeTag {
    ScopeTag { node: SCREEN, variant: Screen::Settings.code() }
}

/// The scene with a pause menu appended: a root tagged for
/// `PauseState::PauseMenu`, a panel below it, and in the panel a header and
/// the buttons to resume, to open the settings and to return to the title.
pub open spec fn with_pause_menu(s: Scene) -> Scene {
    let root = s.info.len() as usize;
    let panel = (s.info.len() + 1) as usize;
    Scene {
        info: s.info + seq![
            ObjectInfo { owner: None, tag: Some(pause_menu_scope()), binding: None },
            ObjectInfo { owner: Some(root), tag: None, binding: None },
            ObjectInfo { owner: Some(panel), tag: None, binding: None },
            ObjectInfo {
                owner: Some(panel),
                tag: None,
                binding: Some(Binding::Fixed(StateRequest::IsPaused(IsPaused::Running).plain())),
            },
            ObjectInfo {
                owner: Some(panel),
                tag: None,
                binding: Some(
                    Binding::Fixed(StateRequest::PauseState(PauseState::SettingsMenu).plain()),
                ),
            },
            ObjectInfo {
                owner: Some(panel),
                tag: None,
                binding: Some(Binding::Fixed(StateRequest::Screen(Screen::Title).plain())),
            },
        ],
        live: s.live + seq![true, true, true, true, true, true],
    }
}

/// The scene with the settings appended: a root tagged `tag`, and below it a
/// header and the back button.
pub open spec fn with_settings(s: Scene, tag: ScopeTag) -> Scene {
    let root = s.info.len() as usize;
    Scene {
        info: s.info + seq![
            ObjectInfo { owner: None, tag: Some(tag), binding: None },
            ObjectInfo { owner: Some(root), tag: None, binding: None },
            ObjectInfo { owner: Some(root), tag: None, binding: Some(exit_settings_binding()) },
        ],
        live: s.live + seq![true, true, true],
    }
}

/// The scene after the entry hook of `(node, value)`: the pause menu on
/// entering `PauseState::PauseMenu`, the settings on entering
/// `PauseState::SettingsMenu` or `Screen::Settings`, and nothing new
/// otherwise.
pub open spec fn entered(s: Scene, node: NodeId, value: Variant) -> Scene {
    let scope = ScopeTag { node, variant: value };
    if scope == pause_menu_scope() {
        with_pause_menu(s)
    } else if scope == settings_menu_scope() || scope == settings_screen_scope() {
        with_settings(s, scope)
    } else {
        s
    }
}

/// The scene after the exit hook of `(node, value)`: leaving either pause
/// menu destroys that menu; no other value has an exit hook that touches
/// objects.
pub open spec fn exited(s: Scene, node: NodeId, value: Variant) -> Scene {
    let scope = ScopeTag { node, variant: value };
    if scope == pause_menu_scope() || scope == settings_menu_scope() {
        cleaned(s, scope)
    } else {
        s
    }
}

/// Spawns the pause menu.
pub fn spawn_pause_menu(registry: &mut Registry) -> (menu: PauseMenu)
    requires
        old(registry).wf(),
    ensures
        final(registry).wf(),
        final(registry)@ == with_pause_menu(old(registry)@),
        menu.root == old(registry)@.info.len(),
        menu.panel == menu.root + 1,
        menu.header == menu.root + 2,
        menu.resume == menu.root + 3,
        menu.settings == menu.root + 4,
        menu.exit == menu.root + 5,
{
    let root = registry.spawn(None, None).unwrap();
    registry.tag(root, PAUSE_STATE, PauseState::PauseMenu.index());
    let panel = registry.spawn(Some(root), None).unwrap();
    let header = registry.spawn(Some(panel), None).unwrap();
    let resume = registry.spawn(
        Some(panel),
        Some(Binding::Fixed(trigger_unpause_game().to_request())),
    ).unwrap();
    let settings = registry.spawn(
        Some(panel),
        Some(Binding::Fixed(trigger_settings_menu().to_request())),
    ).unwrap();
    let exit = registry.spawn(
        Some(panel),
        Some(Binding::Fixed(trigger_return_to_title().to_request())),
    ).unwrap();
    proof {
        assert(registry@.info =~= with_pause_menu(old(registry)@).info);
        assert(registry@.live =~= with_pause_menu(old(registry)@).live);
    }
    PauseMenu { root, panel, header, resume, settings, exit }
}

/// Spawns the header and the back button of the settings below `root`.
fn spawn_settings_ui_elements(registry: &mut Registry, root: ObjectId) -> (ui: SettingsUi)
    requires
        old(registry).wf(),
        root < old(registry)@.live.len(),
        old(registry)@.live[root as int],
    ensures
        final(registry).wf(),
        final(registry)@ == spawned(
            spawned(old(registry)@, Some(root), None),
            Some(root),
            Some(exit_settings_binding()),
        ),
        ui.root == root,
        ui.header == old(registry)@.info.len(),
        ui.back == old(registry)@.info.len() + 1,
{
    let header = registry.spawn(Some(root), None).unwrap();
    let back = registry.spawn(Some(root), Some(trigger_exit_settings())).unwrap();
    SettingsUi { root, header, back }
}

/// Shows the settings as a menu over the paused game.
pub fn show_settings_menu(registry: &mut Registry) -> (ui: SettingsUi)
    requires
        old(registry).wf(),
    ensures
        final(registry).wf(),
        final(registry)@ == with_settings(old(registry)@, settings_menu_scope()),
        ui.root == old(registry)@.info.len(),
        ui.header == ui.root + 1,
        ui.back == ui.root + 2,
{
    let root = registry.spawn(None, None).unwrap();
    registry.tag(root, PAUSE_STATE, PauseState::SettingsMenu.index());
    let ui = spawn_settings_ui_elements(registry, root);
    proof {
        let goal = with_settings(old(registry)@, settings_menu_scope());
        assert(registry@.info =~= goal.info);
        assert(registry@.live =~= goal.live);
    }
    ui
}

/// Shows the settings as a screen of their own.
pub fn show_settings_screen(registry: &mut Registry) -> (ui: SettingsUi)
    requires
        old(registry).wf(),
    ensures
        final(registry).wf(),
        final(registry)@ == with_settings(old(registry)@, settings_screen_scope()),
        ui.root == old(registry)@.info.len(),
        ui.header == ui.root + 1,
        ui.back == ui.root + 2,
{
    let root = registry.spawn(None, None).unwrap();
    registry.tag(root, SCREEN, Screen::Settings.index());
    let ui = spawn_settings_ui_elements(registry, root);
    proof {
        let goal = with_settings(old(registry)@, settings_screen_scope());
        assert(registry@.info =~= goal.info);
        assert(registry@.live =~= goal.live);
    }
    ui
}

/// Destroys every pause menu that is alive.
pub fn despawn_pause_menus(registry: &mut Registry)
    requires
        old(registry).wf(),
    ensures
        final(registry).wf(),
        final(registry)@ == cleaned(old(registry)@, pause_menu_scope()),
{
    registry.cleanup(PAUSE_STATE, PauseState::PauseMenu.index());
}

/// Destroys every settings menu that is alive. The settings screen is not a
/// menu: it goes when the `Settings` screen is left.
pub fn despawn_settings_menu(registry: &mut Registry)
    requires
        old(registry).wf(),
    ensures
        final(registry).wf(),
        final(registry)@ == cleaned(old(registry)@, settings_menu_scope()),
{
    registry.cleanup(PAUSE_STATE, PauseState::SettingsMenu.index());
}

/// Runs the exit hook of `(node, value)`.
pub fn exit(registry: &mut Registry, node: NodeId, value: Variant)
    requires
        old(registry).wf(),
    ensures
        final(registry).wf(),
        final(registry)@ == exited(old(registry)@, node, value),
{
    if node == PAUSE_STATE && value == PauseState::PauseMenu.index() {
        despawn_pause_menus(registry);
    } else if node == PAUSE_STATE && value == PauseState::SettingsMenu.index() {
        despawn_settings_menu(registry);
    }
}

/// Runs the entry hook of `(node, value)`.
pub fn enter(registry: &mut Registry, node: NodeId, value: Variant)
    requires
        old(registry).wf(),
    ensures
        final(registry).wf(),
        final(registry)@ == entered(old(registry)@, node, value),
{
    if node == PAUSE_STATE && value == PauseState::PauseMenu.index() {
        spawn_pause_menu(registry);
    } else if node == PAUSE_STATE && value == PauseState::SettingsMenu.index() {
        show_settings_menu(registry);
    } else if node == SCREEN && value == Screen::Settings.index() {
        show_settings_screen(registry);
    }
}

} // verus!
