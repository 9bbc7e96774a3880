use screen_states::node::Request;
use screen_states::screens::{
    exit_settings, loading_finished, toggle_pause, trigger_return_to_title,
    trigger_settings_menu, trigger_unpause_game, IsPaused, PauseState, Screen, StateRequest,
    IS_PAUSED, PAUSE_STATE, SCREEN,
};

#[test]
fn defaults_are_the_first_values() {
    assert_eq!(Screen::default(), Screen::Splash);
    assert_eq!(IsPaused::default(), IsPaused::Running);
    assert_eq!(PauseState::default(), PauseState::PauseMenu);
}

#[test]
fn screen_numbers_round_trip() {
    let all = [
        Screen::Splash,
        Screen::Loading,
        Screen::Title,
        Screen::Credits,
        Screen::Playing,
        Screen::Settings,
    ];
    for (i, s) in all.iter().enumerate() {
        assert_eq!(s.index() as usize, i);
        assert_eq!(Screen::from_index(i as u8), Some(*s));
    }
    assert_eq!(Screen::from_index(6), None);
    assert_eq!(Screen::from_index(255), None);
}

#[test]
fn pause_numbers_round_trip() {
    assert_eq!(IsPaused::Running.index(), 0);
    assert_eq!(IsPaused::Paused.index(), 1);
    assert_eq!(IsPaused::from_index(0), Some(IsPaused::Running));
    assert_eq!(IsPaused::from_index(1), Some(IsPaused::Paused));
    assert_eq!(IsPaused::from_index(2), None);
    assert_eq!(PauseState::PauseMenu.index(), 0);
    assert_eq!(PauseState::SettingsMenu.index(), 1);
    assert_eq!(PauseState::from_index(0), Some(PauseState::PauseMenu));
    assert_eq!(PauseState::from_index(1), Some(PauseState::SettingsMenu));
    assert_eq!(PauseState::from_index(2), None);
}

#[test]
fn node_numbers_are_in_hierarchy_order() {
    assert_eq!(SCREEN, 0);
    assert_eq!(IS_PAUSED, 1);
    assert_eq!(PAUSE_STATE, 2);
}

#[test]
fn typed_requests_round_trip() {
    let cases = [
        (StateRequest::Screen(Screen::Title), Request { node: 0, value: 2 }),
        (StateRequest::Screen(Screen::Settings), Request { node: 0, value: 5 }),
        (StateRequest::IsPaused(IsPaused::Paused), Request { node: 1, value: 1 }),
        (StateRequest::PauseState(PauseState::SettingsMenu), Request { node: 2, value: 1 }),
    ];
    for (typed, plain) in cases {
        assert_eq!(typed.to_request(), plain);
        assert_eq!(StateRequest::from_request(plain), Some(typed));
    }
}

#[test]
fn requests_outside_the_screens_have_no_typed_form() {
    assert_eq!(StateRequest::from_request(Request { node: 0, value: 6 }), None);
    assert_eq!(StateRequest::from_request(Request { node: 1, value: 2 }), None);
    assert_eq!(StateRequest::from_request(Request { node: 2, value: 2 }), None);
    assert_eq!(StateRequest::from_request(Request { node: 3, value: 0 }), None);
}

#[test]
fn toggle_when_not_paused_pauses() {
    assert_eq!(toggle_pause(None), StateRequest::IsPaused(IsPaused::Paused));
}

#[test]
fn toggle_on_pause_menu_resumes() {
    assert_eq!(
        toggle_pause(Some(PauseState::PauseMenu)),
        StateRequest::IsPaused(IsPaused::Running)
    );
}

#[test]
fn toggle_on_settings_menu_pops_one_level() {
    assert_eq!(
        toggle_pause(Some(PauseState::SettingsMenu)),
        StateRequest::PauseState(PauseState::PauseMenu)
    );
}

#[test]
fn exit_settings_branches_on_context() {
    assert_eq!(exit_settings(None), StateRequest::Screen(Screen::Title));
    assert_eq!(
        exit_settings(Some(PauseState::SettingsMenu)),
        StateRequest::PauseState(PauseState::PauseMenu)
    );
    assert_eq!(
        exit_settings(Some(PauseState::PauseMenu)),
        StateRequest::PauseState(PauseState::PauseMenu)
    );
}

#[test]
fn button_triggers() {
    assert_eq!(trigger_return_to_title(), StateRequest::Screen(Screen::Title));
    assert_eq!(trigger_unpause_game(), StateRequest::IsPaused(IsPaused::Running));
    assert_eq!(trigger_settings_menu(), StateRequest::PauseState(PauseState::SettingsMenu));
    assert_eq!(loading_finished(), StateRequest::Screen(Screen::Title));
}
