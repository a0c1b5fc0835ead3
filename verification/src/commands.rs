//! Commands sent to the kiosk front end and the notifications and state
//! shared between the backend services.

use vstd::prelude::*;

verus! {

/// Payload for switching the dashboard page.
pub struct ChangeDashData {
    pub url: String,
}

/// Whether voice control is running and what it is currently doing.
#[derive(PartialEq, Eq, Structural, Debug, Clone, Copy)]
pub enum VoiceControlState {
    NotEnabled,
    ListeningForWakeword,
    StreamingToWhisper,
}

/// The integer that stands for a voice control state on the wire.
pub open spec fn voice_state_code(state: VoiceControlState) -> i32 {
    match state {
        VoiceControlState::NotEnabled => 0,
        VoiceControlState::ListeningForWakeword => 1,
        VoiceControlState::StreamingToWhisper => 2,
    }
}

/// The voice control state a wire integer stands for, if any.
pub open spec fn voice_state_from_code(code: i32) -> Option<VoiceControlState> {
    if code == 0 {
        Some(VoiceControlState::NotEnabled)
    } else if code == 1 {
        Some(VoiceControlState::ListeningForWakeword)
    } else if code == 2 {
        Some(VoiceControlState::StreamingToWhisper)
    } else {
        None
    }
}

impl VoiceControlState {
    /// The integer used on the wire for this state.
    pub fn to_i32(&self) -> (code: i32)
        ensures
            code == voice_state_code(*self),
    {
        match self {
            VoiceControlState::NotEnabled => 0,
            VoiceControlState::ListeningForWakeword => 1,
            VoiceControlState::StreamingToWhisper => 2,
        }
    }

    /// Reads a state back from its wire integer; any other integer is
    /// refused and handed back as the error.
    pub fn from_i32(code: i32) -> (result: Result<VoiceControlState, i32>)
        ensures
            result == match voice_state_from_code(code) {
                Some(s) => Ok::<VoiceControlState, i32>(s),
                None => Err(code),
            },
    {
        match code {
            0 => Ok(VoiceControlState::NotEnabled),
            1 => Ok(VoiceControlState::ListeningForWakeword),
            2 => Ok(VoiceControlState::StreamingToWhisper),
            other => Err(other),
        }
    }
}

/// Decoding the wire integer of a state gives the state back, and every
/// integer that decodes is the code of the state it decodes to.
pub proof fn lemma_voice_state_round_trip(state: VoiceControlState, code: i32)
    ensures
        voice_state_from_code(voice_state_code(state)) == Some(state),
        voice_state_from_code(code) matches Some(s) ==> voice_state_code(s) == code,
{
}

/// The wire integers are fixed: 0 for not enabled, 1 for listening for the
/// wakeword, 2 for streaming; no other integer names a state.
pub proof fn lemma_voice_state_codes(code: i32)
    ensures
        voice_state_code(VoiceControlState::NotEnabled) == 0,
        voice_state_code(VoiceControlState::ListeningForWakeword) == 1,
        voice_state_code(VoiceControlState::StreamingToWhisper) == 2,
        voice_state_from_code(0) == Some(VoiceControlState::NotEnabled),
        voice_state_from_code(1) == Some(VoiceControlState::ListeningForWakeword),
        voice_state_from_code(2) == Some(VoiceControlState::StreamingToWhisper),
        (code < 0 || code > 2) ==> voice_state_from_code(code) is None,
{
}

/// A command delivered to the kiosk front end, or received from outside.
#[derive(PartialEq, Eq, Debug, Clone)]
pub enum Command {
    /// Open the page at the given address.
    AutoTab(String),
    /// The key the front end uses for the photo service.
    PhotoprismKey(String),
    /// Turn the screen on (`true`) or off (`false`).
    SetScreenState(bool),
    /// Show the current voice control state.
    SetVoiceControlState(VoiceControlState),
}

/// A change reported by one of the services.
#[derive(PartialEq, Eq, Structural, Debug, Clone, Copy)]
pub enum InternalServiceNotification {
    /// The front end connected (`true`) or disconnected (`false`).
    FrontendConnected(bool),
    /// The display went to sleep (`true`) or woke up (`false`).
    Sleep(bool),
}

/// The state that the communication hub keeps and broadcasts.
#[derive(PartialEq, Eq, Structural, Debug, Clone, Copy)]
pub struct InternalState {
    pub front_end_connected: bool,
    pub sleeping: bool,
}

/// The state after a notification: each notification sets its own flag
/// and leaves the other one as it was.
pub open spec fn state_after(state: InternalState, n: InternalServiceNotification) -> InternalState {
    match n {
        InternalServiceNotification::FrontendConnected(c) => InternalState {
            front_end_connected: c,
            sleeping: state.sleeping,
        },
        InternalServiceNotification::Sleep(s) => InternalState {
            front_end_connected: state.front_end_connected,
            sleeping: s,
        },
    }
}

impl InternalState {
    /// The state the hub starts with: no front end, not sleeping.
    pub fn initial() -> (state: InternalState)
        ensures
            !state.front_end_connected,
            !state.sleeping,
    {
        InternalState { front_end_connected: false, sleeping: false }
    }

    /// Records a notification in the state.
    pub fn apply(&mut self, notification: InternalServiceNotification)
        ensures
            *final(self) == state_after(*old(self), notification),
    {
        match notification {
            InternalServiceNotification::FrontendConnected(connected) => {
                self.front_end_connected = connected;
            },
            InternalServiceNotification::Sleep(sleeping) => {
                self.sleeping = sleeping;
            },
        }
    }

    /// Voice control runs only while a front end is connected and the
    /// display is awake.
    pub fn voice_control_wanted(&self) -> (wanted: bool)
        ensures
            wanted == (self.front_end_connected && !self.sleeping),
    {
        self.front_end_connected && !self.sleeping
    }
}

/// The latest notification of each kind decides the state: reporting the
/// same notification twice changes nothing more than reporting it once.
pub proof fn lemma_notification_idempotent(state: InternalState, n: InternalServiceNotification)
    ensures
        state_after(state_after(state, n), n) == state_after(state, n),
{
}

/// A connection change and a sleep change do not interfere: applying them
/// in either order gives the same state.
pub proof fn lemma_notifications_commute(state: InternalState, connected: bool, sleeping: bool)
    ensures
        state_after(state_after(state, InternalServiceNotification::FrontendConnected(connected)),
            InternalServiceNotification::Sleep(sleeping))
            == state_after(state_after(state, InternalServiceNotification::Sleep(sleeping)),
            InternalServiceNotification::FrontendConnected(connected)),
{
}

/// Each notification sets exactly its own flag to the reported value.
pub proof fn lemma_notification_sets_flag(state: InternalState, n: InternalServiceNotification)
    ensures
        n matches InternalServiceNotification::FrontendConnected(c) ==> (
            state_after(state, n).front_end_connected == c
            && state_after(state, n).sleeping == state.sleeping),
        n matches InternalServiceNotification::Sleep(s) ==> (
            state_after(state, n).sleeping == s
            && state_after(state, n).front_end_connected == state.front_end_connected),
{
}

} // verus!
