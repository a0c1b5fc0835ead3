use faux_show_backend::audio::{AudioChunker, AUDIO_BUFFER_SIZE, AUDIO_STEP_SIZE, CHUNK_SIZE};
use faux_show_backend::commands::{Command, VoiceControlState};
use faux_show_backend::voice_session::{WakewordWhisperState, STREAM_AFTER_DETECTION_NANOS};

fn ramp(from: usize, len: usize) -> Vec<i16> {
    (from..from + len).map(|i| (i % 30000) as i16).collect()
}

#[test]
fn chunk_sizes() {
    assert_eq!(CHUNK_SIZE, 32000);
    assert_eq!(AUDIO_STEP_SIZE, 16000);
    assert_eq!(AUDIO_BUFFER_SIZE, 64000);
}

#[test]
fn no_chunk_until_more_than_a_chunk_is_buffered() {
    let mut chunker = AudioChunker::new();
    assert!(chunker.push_samples(&ramp(0, CHUNK_SIZE)).is_empty());
    assert_eq!(chunker.pending_len(), CHUNK_SIZE);
    let chunks = chunker.push_samples(&ramp(CHUNK_SIZE, 1));
    assert_eq!(chunks.len(), 1);
    assert_eq!(chunks[0], ramp(0, CHUNK_SIZE));
    assert_eq!(chunker.pending_len(), CHUNK_SIZE + 1 - AUDIO_STEP_SIZE);
}

#[test]
fn consecutive_chunks_overlap_by_half() {
    let mut chunker = AudioChunker::new();
    let chunks = chunker.push_samples(&ramp(0, 60000));
    assert_eq!(chunks.len(), 2);
    assert_eq!(chunks[0], ramp(0, CHUNK_SIZE));
    assert_eq!(chunks[1], ramp(AUDIO_STEP_SIZE, CHUNK_SIZE));
    assert_eq!(chunks[0][AUDIO_STEP_SIZE..], chunks[1][..CHUNK_SIZE - AUDIO_STEP_SIZE]);
    assert_eq!(chunker.pending_len(), 60000 - 2 * AUDIO_STEP_SIZE);
}

#[test]
fn oldest_samples_beyond_capacity_are_dropped() {
    let mut chunker = AudioChunker::new();
    let chunks = chunker.push_samples(&ramp(0, 70000));
    // Only the newest 64000 samples are kept, starting at sample 6000.
    assert_eq!(chunks.len(), 2);
    assert_eq!(chunks[0], ramp(6000, CHUNK_SIZE));
    assert_eq!(chunks[1], ramp(6000 + AUDIO_STEP_SIZE, CHUNK_SIZE));
    assert!(chunker.pending_len() <= CHUNK_SIZE);
}

#[test]
fn wakeword_starts_streaming() {
    let idle = WakewordWhisperState::idle();
    let step = idle.on_audio(true, Some(1_000), 2_000);
    assert!(step.stream_audio);
    assert_eq!(step.state, WakewordWhisperState { whisper_stream_enabled: true, last_wakeword_detection: Some(1_000) });
    assert_eq!(step.commands, vec![Command::SetVoiceControlState(VoiceControlState::StreamingToWhisper)]);
}

#[test]
fn streaming_stops_after_the_window() {
    let open = WakewordWhisperState { whisper_stream_enabled: true, last_wakeword_detection: Some(1_000) };
    let at_deadline = open.on_audio(false, Some(1_000), 1_000 + STREAM_AFTER_DETECTION_NANOS);
    assert!(at_deadline.stream_audio);
    assert_eq!(at_deadline.state, open);
    assert!(at_deadline.commands.is_empty());
    let after = open.on_audio(false, Some(1_000), 1_001 + STREAM_AFTER_DETECTION_NANOS);
    assert!(after.stream_audio);
    assert_eq!(after.state, WakewordWhisperState::idle());
    assert_eq!(after.commands, vec![Command::SetVoiceControlState(VoiceControlState::ListeningForWakeword)]);
}

#[test]
fn idle_session_streams_nothing() {
    let step = WakewordWhisperState::idle().on_audio(false, None, 5);
    assert!(!step.stream_audio);
    assert_eq!(step.state, WakewordWhisperState::idle());
    assert!(step.commands.is_empty());
}

#[test]
fn unrepresentable_deadline_counts_as_the_epoch() {
    let late = WakewordWhisperState { whisper_stream_enabled: true, last_wakeword_detection: Some(u128::MAX) };
    assert!(late.window_elapsed(1));
    assert!(!late.window_elapsed(0));
}

#[test]
fn a_matched_command_ends_streaming() {
    let open = WakewordWhisperState { whisper_stream_enabled: true, last_wakeword_detection: Some(7) };
    let (state, command) = open.on_command_matched();
    assert_eq!(state, WakewordWhisperState::idle());
    assert_eq!(command, Command::SetVoiceControlState(VoiceControlState::ListeningForWakeword));
}
