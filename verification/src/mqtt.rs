//! The device's presence on the MQTT broker: its description and what its
//! switch and text controls do when Home Assistant changes them.

use vstd::prelude::*;
use crate::commands::{Command, InternalServiceNotification};

verus! {

/// How the device presents itself to the MQTT broker.
#[derive(Debug, Clone)]
pub struct MQTTConfiguration {
    pub id: String,
    pub name: String,
    pub origin_name: String,
    pub origin_sw: String,
    pub client_id: String,
    pub server_url: String,
    pub server_port: u16,
    pub object_id: String,
    pub discovery_prefix: String,
}

impl MQTTConfiguration {
    /// The configuration for a device with the given id and name: the
    /// client id is the device id followed by `_client`, the object id is
    /// the device id, and the broker is the home server on port 1883.
    pub fn for_device(id: &str, name: &str, discovery_prefix: &str) -> (config: MQTTConfiguration)
        ensures
            config.id@ == id@,
            config.name@ == name@,
            config.origin_name@ == "Tyler Moore"@,
            config.origin_sw@ == "0.1.0"@,
            config.client_id@ == id@ + "_client"@,
            config.server_url@ == "10.10.10.10"@,
            config.server_port == 1883,
            config.object_id@ == id@,
            config.discovery_prefix@ == discovery_prefix@,
    {
        let mut client_id = id.to_owned();
        client_id.append("_client");
        MQTTConfiguration {
            id: id.to_owned(),
            name: name.to_owned(),
            origin_name: "Tyler Moore".to_owned(),
            origin_sw: "0.1.0".to_owned(),
            client_id,
            server_url: "10.10.10.10".to_owned(),
            server_port: 1883,
            object_id: id.to_owned(),
            discovery_prefix: discovery_prefix.to_owned(),
        }
    }
}

/// What the monitor switch reports when Home Assistant sets it: the
/// screen command for the front end and the notification for the other
/// services (which carries the switch position as the sleep flag).
pub fn monitor_switch_messages(screen_on: bool) -> (messages: (Command, InternalServiceNotification))
    ensures
        messages.0 == Command::SetScreenState(screen_on),
        messages.1 == InternalServiceNotification::Sleep(screen_on),
{
    (Command::SetScreenState(screen_on), InternalServiceNotification::Sleep(screen_on))
}

/// The switch position confirmed back to Home Assistant: the requested one
/// when the screen could be switched, none otherwise.
pub fn monitor_switch_reply(screen_on: bool, switched: bool) -> (reply: Option<bool>)
    ensures
        reply == if switched { Some(screen_on) } else { None::<bool> },
{
    if switched { Some(screen_on) } else { None }
}

/// The command the auto-tab text control sends: open the page it names.
pub fn auto_tab_command(tab_config: &String) -> (command: Command)
    ensures
        command == Command::AutoTab(*tab_config),
{
    Command::AutoTab(tab_config.clone())
}

} // verus!
