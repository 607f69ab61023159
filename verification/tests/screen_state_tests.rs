use inkgraph::screen_state::{ScreenState, ScreenStateMachine};

#[test]
fn test_initial_state() {
    let sm = ScreenStateMachine::new();
    assert!(matches!(sm.state(), ScreenState::WaitingForBattle));
}

#[test]
fn test_battle_start_transition() {
    let mut sm = ScreenStateMachine::new();
    assert!(sm.on_battle_started("match-001".to_string()));
    assert!(matches!(sm.state(), ScreenState::InGame { .. }));
}

#[test]
fn test_no_double_battle_start() {
    let mut sm = ScreenStateMachine::new();
    sm.on_battle_started("match-001".to_string());
    assert!(!sm.on_battle_started("match-002".to_string()));
}

#[test]
fn test_result_detected_returns_id_stays_ingame() {
    let mut sm = ScreenStateMachine::new();
    sm.on_battle_started("match-001".to_string());
    let id = sm.on_result_detected();
    assert_eq!(id.as_deref(), Some("match-001"));
    assert!(matches!(sm.state(), ScreenState::InGame { .. }));
}

#[test]
fn test_result_detected_without_ingame() {
    let mut sm = ScreenStateMachine::new();
    assert!(sm.on_result_detected().is_none());
    assert!(matches!(sm.state(), ScreenState::WaitingForBattle));
}

#[test]
fn test_battle_start_cooldown() {
    let mut sm = ScreenStateMachine::new();
    assert!(sm.on_battle_started("match-001".to_string()));
    assert!(matches!(sm.state(), ScreenState::InGame { .. }));
    assert!(!sm.on_battle_started("match-002".to_string()));
    assert!(matches!(sm.state(), ScreenState::InGame { .. }));
}

// ---------------------------------------------------------------------------
// Laws on concrete values
// ---------------------------------------------------------------------------

#[test]
fn battle_lasts_until_timeout() {
    let mut sm = ScreenStateMachine::new();
    assert!(sm.on_battle_started_at("m".to_string(), 0));
    sm.tick_timeouts_at(900_999);
    assert_eq!(sm.on_result_detected().as_deref(), Some("m"));
    sm.tick_timeouts_at(901_000);
    assert!(matches!(sm.state(), ScreenState::WaitingForBattle));
    assert!(sm.on_result_detected().is_none());
}

#[test]
fn restart_after_cooldown_replaces_battle() {
    let mut sm = ScreenStateMachine::new();
    assert!(sm.on_battle_started_at("a".to_string(), 1_000));
    assert!(!sm.on_battle_started_at("b".to_string(), 20_999));
    assert_eq!(sm.on_result_detected().as_deref(), Some("a"));
    assert!(sm.on_battle_started_at("b".to_string(), 21_000));
    assert_eq!(sm.on_result_detected().as_deref(), Some("b"));
}

#[test]
fn x_match_extraction_only_from_result_screen() {
    let mut sm = ScreenStateMachine::new();
    assert!(sm.on_result_extracted_x_match_at(5).is_none());
    assert!(matches!(sm.state(), ScreenState::WaitingForBattle));
    assert_eq!(sm.state().name(), "WaitingForBattle");
}

#[test]
fn default_machine_waits_for_battle() {
    let sm = ScreenStateMachine::default();
    assert!(matches!(sm.state(), ScreenState::WaitingForBattle));
}

#[test]
fn clock_readings_never_go_back() {
    let mut sm = ScreenStateMachine::new();
    let first = sm.now_millis();
    let second = sm.now_millis();
    assert!(second >= first);
    assert!(matches!(sm.state(), ScreenState::WaitingForBattle));
}

#[test]
fn fresh_battle_survives_a_tick() {
    let mut sm = ScreenStateMachine::new();
    assert!(sm.on_battle_started("match-001".to_string()));
    sm.tick_timeouts();
    assert!(matches!(sm.state(), ScreenState::InGame { .. }));
}

#[test]
fn machine_stays_waiting_or_in_game() {
    let mut sm = ScreenStateMachine::new();
    assert!(sm.on_result_detected().is_none());
    assert!(sm.on_result_extracted_x_match().is_none());
    assert!(sm.on_battle_started("m-1".to_string()));
    sm.tick_timeouts();
    assert!(sm.on_result_extracted_x_match().is_none());
    assert!(matches!(sm.state(), ScreenState::InGame { .. }));
}
