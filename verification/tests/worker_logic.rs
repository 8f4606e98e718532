use wayplover::control::{ControlState, History, Signal, control_step, handle_input, process_chord};
use wayplover::dictionary::{Dictionary, NewEntry};
use wayplover::emitter::{KEY_SPACE, KEY_BACKSPACE, KEY_LEFTCTRL};
use wayplover::steno::{Chord, Command};
use wayplover::workers::{
    Config, DeviceAction, DeviceControl, DeviceState, OperatorKey, device_opened, device_step,
};

#[test]
fn reconnect_while_disconnected_resumes_frame_reads() {
    // a disconnected worker receiving Reconnect asks for the port
    let (state, action) = device_step(
        DeviceState::Disconnected,
        Some(DeviceControl::Reconnect("/dev/ttyACM0")),
    );
    assert_eq!(state, DeviceState::Disconnected);
    assert!(matches!(action, DeviceAction::OpenPort("/dev/ttyACM0")));
    // a successful open reconnects it
    let state = device_opened(true);
    assert_eq!(state, DeviceState::Connected);
    // and with no pending control it reads frames again
    let (state, action) = device_step(state, None);
    assert_eq!(state, DeviceState::Connected);
    assert!(matches!(action, DeviceAction::ReadFrame));
}

#[test]
fn failed_open_keeps_waiting() {
    let state = device_opened(false);
    assert_eq!(state, DeviceState::Disconnected);
    let (state, action) = device_step(state, None);
    assert_eq!(state, DeviceState::Disconnected);
    assert!(matches!(action, DeviceAction::Wait));
}

#[test]
fn shutdown_and_disconnect_controls() {
    let (state, action) = device_step(DeviceState::Connected, Some(DeviceControl::Shutdown));
    assert_eq!(state, DeviceState::Stopped);
    assert!(matches!(action, DeviceAction::Exit));
    let (state, action) = device_step(DeviceState::Connected, Some(DeviceControl::Disconnect));
    assert_eq!(state, DeviceState::Disconnected);
    assert!(matches!(action, DeviceAction::ClosePort));
    let (state, action) = device_step(DeviceState::Connected, Some(DeviceControl::Disable));
    assert_eq!(state, DeviceState::Connected);
    assert!(matches!(action, DeviceAction::Wait));
}

#[test]
fn control_machine_idles_then_terminates() {
    assert_eq!(control_step(ControlState::Idle, None), ControlState::Idle);
    let s = control_step(ControlState::Idle, Some(Signal::Shutdown));
    assert_eq!(s, ControlState::ShutdownRequested);
    let s = control_step(s, None);
    assert_eq!(s, ControlState::Terminated);
    assert_eq!(control_step(s, Some(Signal::Shutdown)), ControlState::Terminated);
}

#[test]
fn operator_keys_drive_the_loop() {
    let mut buffer: Vec<char> = Vec::new();
    let (sig, controls) = handle_input(&mut buffer, OperatorKey::Ctrl('c'));
    assert_eq!(sig, Some(Signal::Shutdown));
    assert!(controls.is_empty());
    let (sig, controls) = handle_input(&mut buffer, OperatorKey::Ctrl('r'));
    assert_eq!(sig, None);
    assert_eq!(controls.len(), 2);
    assert!(matches!(controls[0], DeviceControl::Disconnect));
    assert!(matches!(controls[1], DeviceControl::Reconnect("/dev/ttyACM0")));
    let (sig, _) = handle_input(&mut buffer, OperatorKey::Char('s'));
    assert_eq!(sig, None);
    handle_input(&mut buffer, OperatorKey::Char('t'));
    assert_eq!(buffer, vec!['s', 't']);
    handle_input(&mut buffer, OperatorKey::Backspace);
    assert_eq!(buffer, vec!['s']);
    handle_input(&mut buffer, OperatorKey::Esc);
    assert!(buffer.is_empty());
    handle_input(&mut buffer, OperatorKey::Backspace);
    assert!(buffer.is_empty());
    handle_input(&mut buffer, OperatorKey::Other);
    assert!(buffer.is_empty());
}

#[test]
fn history_starts_over_past_its_bound() {
    let mut h: History<i32> = History::new(Vec::new(), 2);
    h.push(1);
    h.push(2);
    h.push(3);
    assert_eq!(h.items, vec![1, 2, 3]);
    h.push(4);
    assert_eq!(h.items, vec![4]);
    h.replace(vec![7, 8]);
    assert_eq!(h.items, vec![7, 8]);
    assert_eq!(h.max_size, 2);
}

#[test]
fn default_config_matches_the_device_defaults() {
    let c = Config::default();
    assert_eq!(c.tick_rate, 250);
    assert_eq!(c.port, "/dev/ttyACM0");
    assert!(c.settle > 0);
}

#[test]
fn process_chord_round_trip() {
    let mut dict = Dictionary::new();
    dict.add(NewEntry { chord: "STO".to_string(), translation: "so".to_string() });
    let chord = Chord::new(vec!["S-", "T-", "O-"]);
    let (cmd, events) = process_chord(&chord, &mut dict);
    match cmd {
        Command::Output(t) => assert_eq!(t, "so"),
        _ => panic!("expected an output command"),
    }
    // ordinary output: exactly one trailing space, no backspace
    let spaces = events.iter().filter(|e| e.code == KEY_SPACE && e.press).count();
    let backspaces = events.iter().filter(|e| e.code == KEY_BACKSPACE && e.press).count();
    assert_eq!(spaces, 1);
    assert_eq!(backspaces, 0);
    assert_eq!(events[events.len() - 2].code, KEY_SPACE);
    assert!(events[events.len() - 2].press);
    assert!(!events[events.len() - 1].press);
}

#[test]
fn process_chord_delete_round_trip() {
    let mut dict = Dictionary::new();
    let star = Chord::new(vec!["*"]);
    let (cmd, events) = process_chord(&star, &mut dict);
    assert!(matches!(cmd, Command::Delete));
    assert_eq!(events.len(), 4);
    assert_eq!(events[0].code, KEY_LEFTCTRL);
    assert!(events.iter().all(|e| e.code != KEY_SPACE));
}
