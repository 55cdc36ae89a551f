use spellcaster::components::screen_change::ScreenChange;
use spellcaster::screen::{requested_action_of, ScreenAction, ScreenManager};

fn change(screen: &str, action: &str) -> ScreenChange {
    let mut c = ScreenChange::new();
    c.set(screen.to_string(), action.to_string());
    c
}

#[test]
fn start_swaps_to_registered_screen() {
    let mut m = ScreenManager::new();
    m.add_state("play".to_string());
    m.add_state("menu".to_string());
    assert!(!m.restart_current_state());
    assert_eq!(m.process_state_change(&change("menu", "start")), ScreenAction::Start);
    assert_eq!(m.update(), "menu");
    assert!(m.restart_current_state());
}

#[test]
fn empty_requests_do_nothing() {
    let mut m = ScreenManager::new();
    m.add_state("play".to_string());
    assert!(m.swap_state("play".to_string()));
    assert_eq!(m.process_state_change(&change("", "start")), ScreenAction::Nothing);
    assert_eq!(m.process_state_change(&change("menu", "")), ScreenAction::Nothing);
    assert_eq!(m.update(), "play");
}

#[test]
fn restart_and_custom_keep_current() {
    let mut m = ScreenManager::new();
    m.add_state("play".to_string());
    assert!(m.swap_state("play".to_string()));
    assert_eq!(m.process_state_change(&change("play", "restart")), ScreenAction::Restart);
    assert_eq!(m.process_state_change(&change("play", "pause")), ScreenAction::Custom);
    assert_eq!(m.update(), "play");
    assert!(!m.restart_next_frame);
}

#[test]
fn requested_actions() {
    assert_eq!(requested_action_of(&change("play", "restart")), ScreenAction::Restart);
    assert_eq!(requested_action_of(&change("play", "start")), ScreenAction::Start);
    assert_eq!(requested_action_of(&change("play", "jump")), ScreenAction::Custom);
    assert_eq!(requested_action_of(&change("", "jump")), ScreenAction::Nothing);
    let m = ScreenManager::new();
    assert_eq!(m.current_state(), "");
}

#[test]
fn swap_to_unregistered_screen_makes_it_current() {
    let mut m = ScreenManager::new();
    m.add_state("play".to_string());
    assert!(!m.swap_state("menu".to_string()));
    assert_eq!(m.current_state(), "menu");
    assert!(!m.restart_current_state());
    assert_eq!(m.process_state_change(&change("credits", "start")), ScreenAction::Start);
    assert_eq!(m.current_state(), "credits");
}
