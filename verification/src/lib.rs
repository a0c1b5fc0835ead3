//! Verified core of the Faux Show smart-display backend: the commands that
//! flow between the services, the internal state, voice-command matching,
//! audio chunking for wakeword detection, and the request routing rules.

pub mod audio;
pub mod commands;
pub mod config;
pub mod device;
pub mod mqtt;
pub mod services;
pub mod text;
pub mod voice_command;
pub mod voice_session;
