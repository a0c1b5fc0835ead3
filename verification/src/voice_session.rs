//! The voice-control session: when the audio is streamed to the speech
//! recogniser, when streaming stops, and what the display is told.

use vstd::prelude::*;
use crate::commands::{Command, VoiceControlState};

verus! {

/// How long audio is streamed to the speech recogniser after a wakeword,
/// in nanoseconds (ten seconds).
pub const STREAM_AFTER_DETECTION_NANOS: u128 = 10_000_000_000;

/// Whether audio goes to the speech recogniser, and when the wakeword that
/// started it was heard (nanoseconds since the Unix epoch).
#[derive(PartialEq, Eq, Structural, Debug, Clone, Copy)]
pub struct WakewordWhisperState {
    pub whisper_stream_enabled: bool,
    pub last_wakeword_detection: Option<u128>,
}

/// Not streaming, no wakeword pending.
pub open spec fn idle_state() -> WakewordWhisperState {
    WakewordWhisperState { whisper_stream_enabled: false, last_wakeword_detection: None }
}

/// The moment after which streaming stops: ten seconds after the
/// wakeword, or the Unix epoch itself when that moment cannot be
/// represented.
pub open spec fn stream_deadline(detection: u128) -> u128 {
    if detection + STREAM_AFTER_DETECTION_NANOS <= u128::MAX {
        (detection + STREAM_AFTER_DETECTION_NANOS) as u128
    } else {
        0
    }
}

/// Whether a streaming state has outlived its window at time `now`.
pub open spec fn window_elapsed(state: WakewordWhisperState, now: u128) -> bool {
    state.whisper_stream_enabled && match state.last_wakeword_detection {
        Some(t) => now > stream_deadline(t),
        None => false,
    }
}

/// What one audio callback decides.
pub struct AudioStep {
    /// The session state after the callback.
    pub state: WakewordWhisperState,
    /// Whether this callback's samples go to the speech recogniser.
    pub stream_audio: bool,
    /// The commands for the display, in the order they are sent.
    pub commands: Vec<Command>,
}

/// The state, streaming decision and display commands of an audio
/// callback: a new wakeword starts streaming (with the latest detection
/// time); then, if streaming, the samples are sent, and streaming stops
/// once its window has elapsed.
pub open spec fn audio_step(
    state: WakewordWhisperState,
    wakeword_changed: bool,
    latest_detection: Option<u128>,
    now: u128,
) -> (WakewordWhisperState, bool, Seq<Command>) {
    let started = if wakeword_changed {
        WakewordWhisperState { whisper_stream_enabled: true, last_wakeword_detection: latest_detection }
    } else {
        state
    };
    let start_commands = if wakeword_changed {
        seq![Command::SetVoiceControlState(VoiceControlState::StreamingToWhisper)]
    } else {
        Seq::empty()
    };
    if window_elapsed(started, now) {
        (
            idle_state(),
            true,
            start_commands.push(Command::SetVoiceControlState(VoiceControlState::ListeningForWakeword)),
        )
    } else {
        (started, started.whisper_stream_enabled, start_commands)
    }
}

impl WakewordWhisperState {
    /// The state a session starts in: not streaming.
    pub fn idle() -> (state: WakewordWhisperState)
        ensures
            state == idle_state(),
    {
        WakewordWhisperState { whisper_stream_enabled: false, last_wakeword_detection: None }
    }

    /// Whether streaming has outlived its window at time `now`.
    pub fn window_elapsed(&self, now: u128) -> (elapsed: bool)
        ensures
            elapsed == window_elapsed(*self, now),
    {
        if !self.whisper_stream_enabled {
            return false;
        }
        match self.last_wakeword_detection {
            Some(t) => {
                let deadline = match t.checked_add(STREAM_AFTER_DETECTION_NANOS) {
                    Some(d) => d,
                    None => 0,
                };
                now > deadline
            },
            None => false,
        }
    }

    /// Decides one audio callback. `wakeword_changed` tells whether a new
    /// wakeword was reported since the last callback, `latest_detection`
    /// is the time of the latest one, and `now` is the current time.
    pub fn on_audio(&self, wakeword_changed: bool, latest_detection: Option<u128>, now: u128) -> (step: AudioStep)
        ensures
            (step.state, step.stream_audio, step.commands@) == audio_step(
                *self,
                wakeword_changed,
                latest_detection,
                now,
            ),
    {
        let mut commands: Vec<Command> = Vec::new();
        let started = if wakeword_changed {
            commands.push(Command::SetVoiceControlState(VoiceControlState::StreamingToWhisper));
            WakewordWhisperState { whisper_stream_enabled: true, last_wakeword_detection: latest_detection }
        } else {
            *self
        };
        if started.window_elapsed(now) {
            commands.push(Command::SetVoiceControlState(VoiceControlState::ListeningForWakeword));
            let step = AudioStep { state: WakewordWhisperState::idle(), stream_audio: true, commands };
            assert(step.commands@ =~= audio_step(*self, wakeword_changed, latest_detection, now).2);
            step
        } else {
            let step = AudioStep { state: started, stream_audio: started.whisper_stream_enabled, commands };
            assert(step.commands@ =~= audio_step(*self, wakeword_changed, latest_detection, now).2);
            step
        }
    }

    /// Decides what happens when a transcription matched a voice command:
    /// streaming stops and the display shows that the wakeword is awaited
    /// again.
    pub fn on_command_matched(&self) -> (step: (WakewordWhisperState, Command))
        ensures
            step.0 == idle_state(),
            step.1 == Command::SetVoiceControlState(VoiceControlState::ListeningForWakeword),
    {
        (WakewordWhisperState::idle(), Command::SetVoiceControlState(VoiceControlState::ListeningForWakeword))
    }
}

/// What the display is told when a voice session starts listening.
pub fn session_started_command() -> (command: Command)
    ensures
        command == Command::SetVoiceControlState(VoiceControlState::ListeningForWakeword),
{
    Command::SetVoiceControlState(VoiceControlState::ListeningForWakeword)
}

/// What the display is told when a voice session has ended.
pub fn session_ended_command() -> (command: Command)
    ensures
        command == Command::SetVoiceControlState(VoiceControlState::NotEnabled),
{
    Command::SetVoiceControlState(VoiceControlState::NotEnabled)
}

/// Seconds to wait before restarting a voice session: one after it ended
/// normally, ten after it failed.
pub fn restart_delay_seconds(ended_normally: bool) -> (seconds: u64)
    ensures
        seconds == if ended_normally { 1u64 } else { 10u64 },
{
    if ended_normally { 1 } else { 10 }
}

/// A wakeword heard at `t` starts streaming, and as long as its window has
/// not elapsed the samples go to the speech recogniser; once the window has
/// elapsed, the next callback stops streaming and the display shows that
/// the wakeword is awaited again.
pub proof fn lemma_wakeword_opens_window(state: WakewordWhisperState, t: u128, now: u128, later: u128)
    requires
        t + STREAM_AFTER_DETECTION_NANOS <= u128::MAX,
    ensures
        now <= t + STREAM_AFTER_DETECTION_NANOS ==> {
            let s = audio_step(state, true, Some(t), now);
            &&& s.0 == WakewordWhisperState { whisper_stream_enabled: true, last_wakeword_detection: Some(t) }
            &&& s.1
            &&& s.2 == seq![Command::SetVoiceControlState(VoiceControlState::StreamingToWhisper)]
        },
        later > t + STREAM_AFTER_DETECTION_NANOS ==> {
            let open = WakewordWhisperState { whisper_stream_enabled: true, last_wakeword_detection: Some(t) };
            let s = audio_step(open, false, Some(t), later);
            &&& s.0 == idle_state()
            &&& s.2 == seq![Command::SetVoiceControlState(VoiceControlState::ListeningForWakeword)]
        },
{
    let s = audio_step(
        WakewordWhisperState { whisper_stream_enabled: true, last_wakeword_detection: Some(t) },
        false,
        Some(t),
        later,
    );
    assert(Seq::<Command>::empty().push(Command::SetVoiceControlState(VoiceControlState::ListeningForWakeword))
        =~= seq![Command::SetVoiceControlState(VoiceControlState::ListeningForWakeword)]);
}

/// A callback's samples go to the speech recogniser exactly when a session
/// is streaming at that callback: one that was already streaming, or one
/// that a new wakeword starts. While the window of a wakeword heard at `t`
/// is open, a callback without a new wakeword streams its samples and
/// changes nothing; and streaming never survives a callback after the
/// window.
pub proof fn lemma_streaming_decision(
    state: WakewordWhisperState,
    wakeword_changed: bool,
    latest: Option<u128>,
    t: u128,
    now: u128,
)
    ensures
        audio_step(state, wakeword_changed, latest, now).1 == (wakeword_changed || state.whisper_stream_enabled),
        (t + STREAM_AFTER_DETECTION_NANOS <= u128::MAX && now <= t + STREAM_AFTER_DETECTION_NANOS) ==> audio_step(
            WakewordWhisperState { whisper_stream_enabled: true, last_wakeword_detection: Some(t) },
            false,
            latest,
            now,
        ) == (
            WakewordWhisperState { whisper_stream_enabled: true, last_wakeword_detection: Some(t) },
            true,
            Seq::<Command>::empty(),
        ),
        (t + STREAM_AFTER_DETECTION_NANOS <= u128::MAX && now > t + STREAM_AFTER_DETECTION_NANOS) ==> !audio_step(
            WakewordWhisperState { whisper_stream_enabled: true, last_wakeword_detection: Some(t) },
            false,
            latest,
            now,
        ).0.whisper_stream_enabled,
{
}

/// Without a new wakeword, audio is streamed only while a session is
/// already streaming, and a session that is not streaming stays so.
pub proof fn lemma_no_wakeword_no_stream(state: WakewordWhisperState, latest: Option<u128>, now: u128)
    requires
        !state.whisper_stream_enabled,
    ensures
        audio_step(state, false, latest, now) == (state, false, Seq::<Command>::empty()),
{
}

} // verus!
