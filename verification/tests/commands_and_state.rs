use faux_show_backend::commands::{Command, InternalServiceNotification, InternalState, VoiceControlState};
use faux_show_backend::mqtt::{auto_tab_command, monitor_switch_messages, monitor_switch_reply};
use faux_show_backend::voice_session::{restart_delay_seconds, session_ended_command, session_started_command};

#[test]
fn voice_control_state_codes() {
    assert_eq!(VoiceControlState::NotEnabled.to_i32(), 0);
    assert_eq!(VoiceControlState::ListeningForWakeword.to_i32(), 1);
    assert_eq!(VoiceControlState::StreamingToWhisper.to_i32(), 2);
}

#[test]
fn voice_control_state_round_trip() {
    for state in [
        VoiceControlState::NotEnabled,
        VoiceControlState::ListeningForWakeword,
        VoiceControlState::StreamingToWhisper,
    ] {
        assert_eq!(VoiceControlState::from_i32(state.to_i32()), Ok(state));
    }
}

#[test]
fn voice_control_state_rejects_unknown_codes() {
    assert_eq!(VoiceControlState::from_i32(3), Err(3));
    assert_eq!(VoiceControlState::from_i32(-1), Err(-1));
    assert_eq!(VoiceControlState::from_i32(i32::MAX), Err(i32::MAX));
}

#[test]
fn hub_state_starts_disconnected_and_awake() {
    let state = InternalState::initial();
    assert!(!state.front_end_connected);
    assert!(!state.sleeping);
    assert!(!state.voice_control_wanted());
}

#[test]
fn notifications_set_their_own_flag() {
    let mut state = InternalState::initial();
    state.apply(InternalServiceNotification::FrontendConnected(true));
    assert_eq!(state, InternalState { front_end_connected: true, sleeping: false });
    assert!(state.voice_control_wanted());
    state.apply(InternalServiceNotification::Sleep(true));
    assert_eq!(state, InternalState { front_end_connected: true, sleeping: true });
    assert!(!state.voice_control_wanted());
    state.apply(InternalServiceNotification::Sleep(true));
    assert_eq!(state, InternalState { front_end_connected: true, sleeping: true });
    state.apply(InternalServiceNotification::FrontendConnected(false));
    assert_eq!(state, InternalState { front_end_connected: false, sleeping: true });
}

#[test]
fn notifications_commute() {
    let mut a = InternalState::initial();
    a.apply(InternalServiceNotification::FrontendConnected(true));
    a.apply(InternalServiceNotification::Sleep(true));
    let mut b = InternalState::initial();
    b.apply(InternalServiceNotification::Sleep(true));
    b.apply(InternalServiceNotification::FrontendConnected(true));
    assert_eq!(a, b);
}

#[test]
fn monitor_switch_sends_screen_command_and_sleep_notification() {
    let (command, notification) = monitor_switch_messages(true);
    assert_eq!(command, Command::SetScreenState(true));
    assert_eq!(notification, InternalServiceNotification::Sleep(true));
    let (command, notification) = monitor_switch_messages(false);
    assert_eq!(command, Command::SetScreenState(false));
    assert_eq!(notification, InternalServiceNotification::Sleep(false));
}

#[test]
fn monitor_switch_confirms_only_when_switched() {
    assert_eq!(monitor_switch_reply(true, true), Some(true));
    assert_eq!(monitor_switch_reply(false, true), Some(false));
    assert_eq!(monitor_switch_reply(true, false), None);
}

#[test]
fn auto_tab_control_opens_the_named_page() {
    let text = "https://www.example.com".to_string();
    assert_eq!(auto_tab_command(&text), Command::AutoTab("https://www.example.com".to_string()));
}

#[test]
fn session_commands_and_restart_delays() {
    assert_eq!(session_started_command(), Command::SetVoiceControlState(VoiceControlState::ListeningForWakeword));
    assert_eq!(session_ended_command(), Command::SetVoiceControlState(VoiceControlState::NotEnabled));
    assert_eq!(restart_delay_seconds(true), 1);
    assert_eq!(restart_delay_seconds(false), 10);
}
