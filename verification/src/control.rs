//! The control loop's decision logic.
//!
//! The control loop polls the workers, feeds chords through the
//! dictionary, the command interpreter and the emitter, and reacts to
//! operator keys. Its decisions are pure functions here: the thread that
//! polls channels and emits events lives with the process around this
//! crate.

use vstd::prelude::*;
use crate::dictionary::{Dictionary, resolve_spec};
use crate::emitter::{KeyEvent, emission, stream_keys, emit_events};
use crate::steno::{ActionSymbol, Chord, Command, CommandModel, plain_view};
use crate::workers::{DeviceControl, OperatorKey};

verus! {

/// What an operator key asks the control loop to do to the process.
#[derive(Clone, Copy, Debug, PartialEq, Eq, Structural)]
pub enum Signal {
    Shutdown,
}

/// The control loop's lifecycle: idle until a shutdown is requested, then
/// terminated after the bounded grace period.
#[derive(Clone, Copy, Debug, PartialEq, Eq, Structural)]
pub enum ControlState {
    Idle,
    ShutdownRequested,
    Terminated,
}

/// One turn of the control-state machine: a shutdown signal leaves the
/// idle state, and a requested shutdown terminates on the following turn,
/// after the grace period in which the workers observe their shutdown
/// messages.
pub open spec fn control_step_spec(state: ControlState, sig: Option<Signal>) -> ControlState {
    match state {
        ControlState::Idle => match sig {
            Some(Signal::Shutdown) => ControlState::ShutdownRequested,
            None => ControlState::Idle,
        },
        ControlState::ShutdownRequested => ControlState::Terminated,
        ControlState::Terminated => ControlState::Terminated,
    }
}

/// Advances the control-state machine by one turn.
pub fn control_step(state: ControlState, sig: Option<Signal>) -> (r: ControlState)
    ensures
        r == control_step_spec(state, sig),
{
    match state {
        ControlState::Idle => match sig {
            Some(Signal::Shutdown) => ControlState::ShutdownRequested,
            None => ControlState::Idle,
        },
        ControlState::ShutdownRequested => ControlState::Terminated,
        ControlState::Terminated => ControlState::Terminated,
    }
}

/// Reacts to one operator key: control-c requests shutdown, control-r asks
/// the device worker to drop and reopen its handle at the default path,
/// and the remaining keys edit the interactive lookup buffer.
pub fn handle_input(buffer: &mut Vec<char>, key: OperatorKey)
    -> (r: (Option<Signal>, Vec<DeviceControl>))
    ensures
        match key {
            OperatorKey::Ctrl(c) => {
                &&& final(buffer)@ == old(buffer)@
                &&& if c == 'c' {
                    r.0 == Some(Signal::Shutdown) && r.1@.len() == 0
                } else if c == 'r' {
                    &&& r.0 is None
                    &&& r.1@.len() == 2
                    &&& r.1@[0] is Disconnect
                    &&& r.1@[1] matches DeviceControl::Reconnect(p) && p@ == "/dev/ttyACM0"@
                } else {
                    r.0 is None && r.1@.len() == 0
                }
            },
            OperatorKey::Char(c) => r.0 is None && r.1@.len() == 0
                && final(buffer)@ == old(buffer)@.push(c),
            OperatorKey::Backspace => r.0 is None && r.1@.len() == 0
                && final(buffer)@ == if old(buffer)@.len() == 0 {
                    old(buffer)@
                } else {
                    old(buffer)@.drop_last()
                },
            OperatorKey::Esc => r.0 is None && r.1@.len() == 0 && final(buffer)@.len() == 0,
            OperatorKey::Other => r.0 is None && r.1@.len() == 0
                && final(buffer)@ == old(buffer)@,
        },
{
    match key {
        OperatorKey::Ctrl(c) => {
            if c == 'c' {
                (Some(Signal::Shutdown), Vec::new())
            } else if c == 'r' {
                let mut controls: Vec<DeviceControl> = Vec::new();
                controls.push(DeviceControl::Disconnect);
                controls.push(DeviceControl::Reconnect("/dev/ttyACM0"));
                (None, controls)
            } else {
                (None, Vec::new())
            }
        }
        OperatorKey::Char(c) => {
            buffer.push(c);
            (None, Vec::new())
        }
        OperatorKey::Backspace => {
            let _ = buffer.pop();
            (None, Vec::new())
        }
        OperatorKey::Esc => {
            buffer.clear();
            (None, Vec::new())
        }
        OperatorKey::Other => (None, Vec::new()),
    }
}

/// A bounded history of rendered values: one panel's backing store.
pub struct History<T> {
    pub items: Vec<T>,
    pub max_size: usize,
}

impl<T> History<T> {
    /// A history over the given items, holding at most `max_size` of them
    /// before it starts over.
    pub fn new(items: Vec<T>, max_size: usize) -> (h: History<T>)
        ensures
            h.items == items,
            h.max_size == max_size,
    {
        History { items, max_size }
    }

    /// Records one value; once the history has outgrown its bound it
    /// starts over from this value.
    pub fn push(&mut self, item: T)
        ensures
            final(self).max_size == old(self).max_size,
            final(self).items@ == if old(self).items@.len() > old(self).max_size {
                seq![item]
            } else {
                old(self).items@.push(item)
            },
    {
        if self.items.len() > self.max_size {
            self.items.clear();
        }
        self.items.push(item);
    }

    /// Replaces the recorded values wholesale.
    pub fn replace(&mut self, items: Vec<T>)
        ensures
            final(self).max_size == old(self).max_size,
            final(self).items == items,
    {
        self.items = items;
    }
}

/// The emitter's action symbol for a resolved command.
pub open spec fn symbol_of(c: CommandModel) -> ActionSymbol {
    match c {
        CommandModel::Append(_) => ActionSymbol::Suffix,
        CommandModel::Output(_) => ActionSymbol::Noop,
        CommandModel::Error(_) => ActionSymbol::Noop,
        CommandModel::Delete => ActionSymbol::Delete,
    }
}

/// The literal text of a resolved command.
pub open spec fn text_of(c: CommandModel) -> Seq<char> {
    match c {
        CommandModel::Append(t) => t,
        CommandModel::Output(t) => t,
        CommandModel::Error(t) => t,
        CommandModel::Delete => Seq::empty(),
    }
}

/// Round trip from a resolved stroke to its key events. With literal text
/// of ordinary word characters, an `Output` — and the echoed text of an
/// unresolved stroke — receives exactly one auto-inserted trailing
/// separator space and no backspace; an `Append` first removes the
/// separator of the preceding output with one backspace and then adds
/// exactly one new separator, so the separator count on screen does not
/// change; a `Delete` emits no separator at all.
pub proof fn lemma_round_trip_separators(
    flat: Seq<char>,
    es: Seq<(Seq<char>, Seq<char>)>,
    glue: Option<Seq<char>>,
)
    requires
        text_of(resolve_spec(flat, es, glue).0).len() > 0
            || resolve_spec(flat, es, glue).0 is Delete,
        forall|i: int| 0 <= i < text_of(resolve_spec(flat, es, glue).0).len()
            ==> crate::emitter::plain_char(#[trigger] text_of(resolve_spec(flat, es, glue).0)[i]),
    ensures
        ({
            let step = resolve_spec(flat, es, glue).0;
            let evs = emission(stream_keys(symbol_of(step), text_of(step)));
            match step {
                CommandModel::Output(_) | CommandModel::Error(_) => {
                    &&& crate::emitter::count_presses(evs, crate::emitter::KEY_SPACE) == 1
                    &&& crate::emitter::count_presses(evs, crate::emitter::KEY_BACKSPACE) == 0
                    &&& evs[evs.len() - 2] == crate::emitter::press(crate::emitter::KEY_SPACE)
                },
                CommandModel::Append(_) => {
                    &&& crate::emitter::count_presses(evs, crate::emitter::KEY_SPACE) == 1
                    &&& crate::emitter::count_presses(evs, crate::emitter::KEY_BACKSPACE) == 1
                    &&& evs[0] == crate::emitter::press(crate::emitter::KEY_BACKSPACE)
                },
                CommandModel::Delete => {
                    crate::emitter::count_presses(evs, crate::emitter::KEY_SPACE) == 0
                },
            }
        }),
{
    let step = resolve_spec(flat, es, glue).0;
    match step {
        CommandModel::Output(_) | CommandModel::Error(_) => {
            crate::emitter::lemma_output_trailing_space(text_of(step));
        }
        CommandModel::Append(_) => {
            crate::emitter::lemma_append_glues_without_extra_space(text_of(step));
        }
        CommandModel::Delete => {
            assert(text_of(step) =~= Seq::<char>::empty());
            crate::emitter::lemma_delete_no_trailing_space();
        }
    }
}

/// One full translation step: resolves the chord against the dictionary
/// and expands the resolved command into the timed key-event stream. The
/// command comes back beside the events so a front end can render the
/// stroke, the command, and the chord without re-deriving them.
pub fn process_chord(chord: &Chord, dict: &mut Dictionary) -> (r: (Command, Vec<KeyEvent>))
    ensures
        final(dict).entries_view() == old(dict).entries_view(),
        ({
            let step = resolve_spec(
                plain_view(chord@),
                old(dict).strokes(),
                old(dict).glue_memory(),
            );
            &&& r.0@ == step.0
            &&& final(dict).glue_memory() == step.1
            &&& r.1@ == emission(stream_keys(symbol_of(step.0), text_of(step.0)))
        }),
{
    let cmd = chord.resolve(dict);
    let (sym, text) = cmd.as_text();
    let events = emit_events(sym, text.as_str());
    (cmd, events)
}

} // verus!
