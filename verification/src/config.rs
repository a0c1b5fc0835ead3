//! Start-up settings of the backend: credentials, directories, ports,
//! the MQTT device description and the speech-recogniser configuration.

use vstd::prelude::*;
use crate::mqtt::MQTTConfiguration;
use crate::text::{lowercase, same_text, to_lowercase_of};

verus! {

/// Credentials for the external service.
#[derive(Debug, Clone)]
pub struct Auth {
    pub user: String,
    pub password: String,
}

impl Auth {
    /// Whether presented credentials are these: both the user and the
    /// password must be equal.
    pub fn matches(&self, presented: &Auth) -> (accepted: bool)
        ensures
            accepted == (self.user@ == presented.user@ && self.password@ == presented.password@),
    {
        same_text(self.user.as_str(), presented.user.as_str()) && same_text(
            self.password.as_str(),
            presented.password.as_str(),
        )
    }
}

/// Everything the services need to start.
#[derive(Debug)]
pub struct InitializationParameters {
    pub internal_service_static_directory: String,
    pub config_static_directory: String,
    pub internal_port: u16,
    pub external_port: u16,
    pub auth: Auth,
    pub kiosk_uid: u64,
    pub mqtt_config: MQTTConfiguration,
    pub photoprism_key: String,
    pub whisper_server_url: String,
    pub wakeword_onnx_file: String,
}

impl InitializationParameters {
    /// Gathers the start-up settings.
    pub fn new(
        internal_service_static_directory: &str,
        config_static_directory: &str,
        internal_port: u16,
        external_port: u16,
        auth: Auth,
        kiosk_uid: u64,
        mqtt_config: MQTTConfiguration,
        photoprism_key: String,
        whisper_server_url: String,
        wakeword_onnx_file: String,
    ) -> (params: InitializationParameters)
        ensures
            params.internal_service_static_directory@ == internal_service_static_directory@,
            params.config_static_directory@ == config_static_directory@,
            params.internal_port == internal_port,
            params.external_port == external_port,
            params.auth == auth,
            params.kiosk_uid == kiosk_uid,
            params.mqtt_config == mqtt_config,
            params.photoprism_key == photoprism_key,
            params.whisper_server_url == whisper_server_url,
            params.wakeword_onnx_file == wakeword_onnx_file,
    {
        InitializationParameters {
            internal_service_static_directory: internal_service_static_directory.to_owned(),
            config_static_directory: config_static_directory.to_owned(),
            internal_port,
            external_port,
            auth,
            kiosk_uid,
            mqtt_config,
            photoprism_key,
            whisper_server_url,
            wakeword_onnx_file,
        }
    }
}

/// Directories and ports for one way of running the backend.
pub struct Deployment {
    pub internal_service_static_directory: String,
    pub config_static_directory: String,
    pub internal_port: u16,
    pub external_port: u16,
}

/// The internal service's port in both modes.
pub const PROD_INTERNAL_PORT: u16 = 30125;

/// The external service's port in production.
pub const PROD_EXTERNAL_PORT: u16 = 443;

/// The external service's port in development.
pub const DEV_EXTERNAL_PORT: u16 = 8443;

/// The directories and ports of development mode (the front end's build
/// output next to the sources) or of production mode (under `/var/www`).
pub fn deployment(dev_mode: bool) -> (d: Deployment)
    ensures
        dev_mode ==> d.internal_service_static_directory@ == "../frontend/build"@
            && d.config_static_directory@ == "../dev"@
            && d.internal_port == PROD_INTERNAL_PORT
            && d.external_port == DEV_EXTERNAL_PORT,
        !dev_mode ==> d.internal_service_static_directory@ == "/var/www/internal"@
            && d.config_static_directory@ == "/var/www/config"@
            && d.internal_port == PROD_INTERNAL_PORT
            && d.external_port == PROD_EXTERNAL_PORT,
{
    if dev_mode {
        Deployment {
            internal_service_static_directory: "../frontend/build".to_owned(),
            config_static_directory: "../dev".to_owned(),
            internal_port: PROD_INTERNAL_PORT,
            external_port: DEV_EXTERNAL_PORT,
        }
    } else {
        Deployment {
            internal_service_static_directory: "/var/www/internal".to_owned(),
            config_static_directory: "/var/www/config".to_owned(),
            internal_port: PROD_INTERNAL_PORT,
            external_port: PROD_EXTERNAL_PORT,
        }
    }
}

/// Development mode is asked for by the value `true`, in any letter case.
pub fn dev_mode_requested(value: &str) -> (dev: bool)
    ensures
        dev == (lowercase(value@) == "true"@),
{
    let lower = to_lowercase_of(value);
    same_text(lower.as_str(), "true")
}

/// The configuration sent to the speech recogniser when streaming starts.
#[derive(Debug, Clone)]
pub struct LivekitConfig {
    pub uid: String,
    pub language: String,
    pub model: String,
    pub use_vad: bool,
    pub task: String,
    pub audio_format: String,
    pub word_timestamps: bool,
    pub hotwords: String,
}

impl LivekitConfig {
    /// English transcription with the base model, voice activity
    /// detection, 32-bit float samples and per-word timing, no hot words.
    pub fn transcription() -> (config: LivekitConfig)
        ensures
            config.uid@ == "faux_show_client"@,
            config.language@ == "en"@,
            config.model@ == "base"@,
            config.use_vad,
            config.task@ == "transcribe"@,
            config.audio_format@ == "float32"@,
            config.word_timestamps,
            config.hotwords@ == ""@,
    {
        LivekitConfig {
            uid: "faux_show_client".to_owned(),
            language: "en".to_owned(),
            model: "base".to_owned(),
            use_vad: true,
            task: "transcribe".to_owned(),
            audio_format: "float32".to_owned(),
            word_timestamps: true,
            hotwords: "".to_owned(),
        }
    }
}

} // verus!
