use wayplover::emitter::{
    KeyEvent, create_stream, emit_events, emit_sequence,
    KEY_A, KEY_B, KEY_BACKSPACE, KEY_LEFTCTRL, KEY_LEFTSHIFT, KEY_SPACE,
};
use wayplover::steno::ActionSymbol;

fn press(code: u16) -> KeyEvent {
    KeyEvent { code, press: true }
}

fn release(code: u16) -> KeyEvent {
    KeyEvent { code, press: false }
}

#[test]
fn plain_output_gets_one_trailing_space() {
    let events = emit_events(ActionSymbol::Noop, "ab");
    assert_eq!(events, vec![
        press(KEY_A), release(KEY_A),
        press(KEY_B), release(KEY_B),
        press(KEY_SPACE), release(KEY_SPACE),
    ]);
    let spaces = events.iter().filter(|e| e.code == KEY_SPACE && e.press).count();
    assert_eq!(spaces, 1);
}

#[test]
fn suffix_removes_the_old_separator_before_typing() {
    let events = emit_events(ActionSymbol::Suffix, "b");
    assert_eq!(events, vec![
        press(KEY_BACKSPACE), release(KEY_BACKSPACE),
        press(KEY_B), release(KEY_B),
        press(KEY_SPACE), release(KEY_SPACE),
    ]);
    // one backspace cancels the separator of the previous output, one new
    // separator follows: no net separator is added
    let spaces = events.iter().filter(|e| e.code == KEY_SPACE && e.press).count();
    let backspaces = events.iter().filter(|e| e.code == KEY_BACKSPACE && e.press).count();
    assert_eq!(spaces, 1);
    assert_eq!(backspaces, 1);
}

#[test]
fn delete_holds_control_and_adds_no_space() {
    let events = emit_events(ActionSymbol::Delete, "");
    assert_eq!(events, vec![
        press(KEY_LEFTCTRL),
        press(KEY_BACKSPACE), release(KEY_BACKSPACE),
        release(KEY_LEFTCTRL),
    ]);
    assert!(events.iter().all(|e| e.code != KEY_SPACE));
}

#[test]
fn final_modifier_combination_suppresses_the_space() {
    let events = emit_events(ActionSymbol::Noop, "A");
    assert_eq!(events, vec![
        press(KEY_LEFTSHIFT),
        press(KEY_A), release(KEY_A),
        release(KEY_LEFTSHIFT),
    ]);
}

#[test]
fn inner_modifier_combination_keeps_the_trailing_space() {
    let events = emit_events(ActionSymbol::Noop, "Ab");
    assert_eq!(events, vec![
        press(KEY_LEFTSHIFT),
        press(KEY_A), release(KEY_A),
        release(KEY_LEFTSHIFT),
        press(KEY_B), release(KEY_B),
        press(KEY_SPACE), release(KEY_SPACE),
    ]);
}

#[test]
fn unmapped_characters_are_dropped() {
    let with_noise = emit_events(ActionSymbol::Noop, "a!b");
    let without = emit_events(ActionSymbol::Noop, "ab");
    assert_eq!(with_noise, without);
}

#[test]
fn create_stream_prefixes_the_action_keys() {
    assert_eq!(create_stream(ActionSymbol::Noop, "ab"), vec![KEY_A, KEY_B]);
    assert_eq!(create_stream(ActionSymbol::Suffix, "b"), vec![KEY_BACKSPACE, KEY_B]);
    assert_eq!(create_stream(ActionSymbol::Delete, ""), vec![KEY_LEFTCTRL, KEY_BACKSPACE]);
    assert_eq!(create_stream(ActionSymbol::Glue, "a"), vec![KEY_A]);
    assert_eq!(create_stream(ActionSymbol::Noop, "A"), vec![KEY_LEFTSHIFT, KEY_A]);
}

#[test]
fn empty_stream_emits_nothing() {
    let events = emit_sequence(&Vec::new());
    assert!(events.is_empty());
}
