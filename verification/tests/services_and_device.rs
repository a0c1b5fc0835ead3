use faux_show_backend::commands::{Command, VoiceControlState};
use faux_show_backend::config::{deployment, dev_mode_requested, Auth, InitializationParameters, LivekitConfig};
use faux_show_backend::device::{kiosk_runtime_dir, screen_commands, screen_state_argument, ScreenError};
use faux_show_backend::mqtt::MQTTConfiguration;
use faux_show_backend::services::{
    decide_method, form_messages, initial_front_end_command, route_external_command, route_static_get,
    ExternalCommandRoute, InternalHTTPService, MethodDecision, RequestMethod, SinkRegistry, StaticRoute,
};

fn params() -> InitializationParameters {
    InitializationParameters::new(
        "../frontend/build",
        "../dev",
        30125,
        8443,
        Auth { user: "u".to_string(), password: "p".to_string() },
        1000,
        MQTTConfiguration::for_device("kiosk", "Kiosk", "homeassistant"),
        "key".to_string(),
        "ws://127.0.0.1:9090".to_string(),
        "hey.onnx".to_string(),
    )
}

#[test]
fn initialization_parameters_keep_their_values() {
    let p = params();
    assert_eq!(p.internal_service_static_directory, "../frontend/build");
    assert_eq!(p.config_static_directory, "../dev");
    assert_eq!(p.internal_port, 30125);
    assert_eq!(p.external_port, 8443);
    assert_eq!(p.kiosk_uid, 1000);
    assert_eq!(p.photoprism_key, "key");
    assert_eq!(p.whisper_server_url, "ws://127.0.0.1:9090");
    assert_eq!(p.wakeword_onnx_file, "hey.onnx");
    let service = InternalHTTPService::new(&p);
    assert_eq!(service.internal_service_static_directory, "../frontend/build");
}

#[test]
fn mqtt_configuration_for_a_device() {
    let c = MQTTConfiguration::for_device("kiosk", "Kiosk", "homeassistant");
    assert_eq!(c.id, "kiosk");
    assert_eq!(c.name, "Kiosk");
    assert_eq!(c.origin_name, "Tyler Moore");
    assert_eq!(c.origin_sw, "0.1.0");
    assert_eq!(c.client_id, "kiosk_client");
    assert_eq!(c.server_url, "10.10.10.10");
    assert_eq!(c.server_port, 1883);
    assert_eq!(c.object_id, "kiosk");
    assert_eq!(c.discovery_prefix, "homeassistant");
}

#[test]
fn deployments() {
    let dev = deployment(true);
    assert_eq!(dev.internal_service_static_directory, "../frontend/build");
    assert_eq!(dev.config_static_directory, "../dev");
    assert_eq!((dev.internal_port, dev.external_port), (30125, 8443));
    let prod = deployment(false);
    assert_eq!(prod.internal_service_static_directory, "/var/www/internal");
    assert_eq!(prod.config_static_directory, "/var/www/config");
    assert_eq!((prod.internal_port, prod.external_port), (30125, 443));
    assert!(dev_mode_requested("true"));
    assert!(dev_mode_requested("TRUE"));
    assert!(!dev_mode_requested("yes"));
    assert!(!dev_mode_requested(" true"));
}

#[test]
fn credentials_must_match_exactly() {
    let auth = Auth { user: "admin".to_string(), password: "pw".to_string() };
    assert!(auth.matches(&Auth { user: "admin".to_string(), password: "pw".to_string() }));
    assert!(!auth.matches(&Auth { user: "admin".to_string(), password: "PW".to_string() }));
    assert!(!auth.matches(&Auth { user: "root".to_string(), password: "pw".to_string() }));
}

#[test]
fn speech_recogniser_configuration() {
    let c = LivekitConfig::transcription();
    assert_eq!(c.uid, "faux_show_client");
    assert_eq!(c.language, "en");
    assert_eq!(c.model, "base");
    assert!(c.use_vad);
    assert_eq!(c.task, "transcribe");
    assert_eq!(c.audio_format, "float32");
    assert!(c.word_timestamps);
    assert_eq!(c.hotwords, "");
}

#[test]
fn static_routes() {
    assert_eq!(route_static_get("/config/tabs.json"), StaticRoute::Config("/tabs.json".to_string()));
    assert_eq!(route_static_get("/config"), StaticRoute::Config("".to_string()));
    assert_eq!(route_static_get("/configuration"), StaticRoute::Config("uration".to_string()));
    assert_eq!(route_static_get("/index.html"), StaticRoute::Base("/index.html".to_string()));
    assert_eq!(route_static_get("/conf"), StaticRoute::Base("/conf".to_string()));
}

#[test]
fn first_command_on_a_connection_is_the_photo_key() {
    assert_eq!(initial_front_end_command(&"abc".to_string()), Command::PhotoprismKey("abc".to_string()));
}

#[test]
fn sinks_get_the_smallest_free_key() {
    let mut registry = SinkRegistry::new();
    assert_eq!(registry.register(), (0, true));
    assert_eq!(registry.register(), (1, false));
    assert_eq!(registry.register(), (2, false));
    assert_eq!(registry.len(), 3);
    assert!(!registry.unregister(1));
    assert_eq!(registry.register(), (1, true));
    assert!(!registry.unregister(0));
    assert!(!registry.unregister(1));
    assert!(!registry.unregister(2));
    assert_eq!(registry.len(), 0);
}

#[test]
fn last_sink_stops_the_handler() {
    let mut registry = SinkRegistry::new();
    let (key, start) = registry.register();
    assert!(start);
    assert!(registry.unregister(key));
    assert_eq!(registry.register(), (key, true));
}

#[test]
fn form_messages_in_order() {
    let body = b"message=%7B%22AutoTab%22%3A%22https%3A%2F%2Fwww.example.com%22%7D&other=1&message=%7B%22SetScreenState%22%3Atrue%7D";
    assert_eq!(
        form_messages(body),
        vec![
            "{\"AutoTab\":\"https://www.example.com\"}".to_string(),
            "{\"SetScreenState\":true}".to_string()
        ]
    );
}

#[test]
fn only_literal_message_names_count() {
    assert_eq!(form_messages(b"messag%65=x&message+=y&Message=z"), Vec::<String>::new());
    assert_eq!(form_messages(b""), Vec::<String>::new());
    assert_eq!(form_messages(b"&&message=a+b"), vec!["a b".to_string()]);
}

#[test]
fn external_commands_are_routed() {
    assert_eq!(route_external_command(&Command::AutoTab("x".to_string())), ExternalCommandRoute::ForwardToFrontEnd);
    assert_eq!(route_external_command(&Command::SetScreenState(false)), ExternalCommandRoute::SetScreen(false));
    assert_eq!(route_external_command(&Command::PhotoprismKey("k".to_string())), ExternalCommandRoute::Refuse);
    assert_eq!(
        route_external_command(&Command::SetVoiceControlState(VoiceControlState::NotEnabled)),
        ExternalCommandRoute::Refuse
    );
}

#[test]
fn methods() {
    assert_eq!(decide_method(RequestMethod::Post), MethodDecision::HandlePost);
    assert_eq!(decide_method(RequestMethod::Get), MethodDecision::HandleGet);
    assert_eq!(decide_method(RequestMethod::Other), MethodDecision::BadRequest);
}

#[test]
fn screen_switching_commands() {
    assert_eq!(screen_state_argument(true), "--on");
    assert_eq!(screen_state_argument(false), "--off");
    assert_eq!(kiosk_runtime_dir(1000), "/run/user/1000");
    let report = b"HDMI-A-2 \"Dell\"\n  Enabled: yes\nHDMI-A-1 \"LG\"";
    assert_eq!(
        screen_commands(report, true),
        Ok(vec![
            "wlr-randr --output HDMI-A-1 --on".to_string(),
            "wlr-randr --output HDMI-A-2 --on".to_string()
        ])
    );
    assert_eq!(screen_commands(b"DP-1", false), Ok(vec![]));
    assert_eq!(
        screen_commands(b"HDMI-A-2", false),
        Ok(vec!["wlr-randr --output HDMI-A-2 --off".to_string()])
    );
    assert_eq!(screen_commands(&[0xff, 0xfe], true), Err(ScreenError::ReportNotUtf8));
}
