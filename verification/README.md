# Faux Show backend

The backend of a home smart display: a kiosk front end, an authenticated
external command endpoint, a Home Assistant (MQTT) device and voice control
with wakeword detection and a streaming speech recogniser.

- `src/` is the verified library (Verus): the commands and shared state,
  voice-command matching, audio chunking, the voice-session state machine,
  request routing, form decoding, display switching rules and start-up
  settings. Each public function states its result in its contract; the
  laws that relate functions are public proof functions.
- `tests/` exercises the library on concrete values.
- `app/` is the program around it: environment, HTTP and WebSocket
  services, MQTT, audio capture, the wakeword model and the floating-point
  scoring of voice-command matches.
