//! The worker protocol: the capability surface of the concurrently
//! scheduled workers, and the decision logic of the device worker.
//!
//! Each worker owns one I/O resource on its own thread and talks to the
//! control loop through typed channels. The decisions a worker takes —
//! which state it enters and which action it performs for each control
//! message — are pure functions here; the thread loops that carry them out
//! live with the process around this crate.

use vstd::prelude::*;
use vstd::string::*;
use crate::steno::{Chord, canonical_keys, raw_frame_keys};

verus! {

/// What drives each worker: the poll tick, the serial device path, and the
/// settle interval enforced between virtual key events. The settle interval
/// must stay above zero: the virtual-device backend coalesces or drops
/// events that arrive without a pause.
#[derive(Debug)]
pub struct Config {
    /// Poll interval of the control loop, in milliseconds.
    pub tick_rate: u64,
    /// Path of the serial device that delivers raw frames.
    pub port: String,
    /// Pause after each emitted key event, in milliseconds.
    pub settle: u64,
}

impl Clone for Config {
    /// A clone carries the same configuration.
    fn clone(&self) -> (r: Self)
        ensures
            r.tick_rate == self.tick_rate,
            r.port@ == self.port@,
            r.settle == self.settle,
    {
        Config { tick_rate: self.tick_rate, port: self.port.clone(), settle: self.settle }
    }
}

impl Default for Config {
    fn default() -> (c: Config)
        ensures
            c.tick_rate == 250,
            c.port@ == "/dev/ttyACM0"@,
            c.settle == 1,
    {
        Config { tick_rate: 250, port: "/dev/ttyACM0".to_owned(), settle: 1 }
    }
}

/// The capability every worker offers: start it, send it a control
/// message, poll its status channel without blocking, and ask it to shut
/// down cooperatively.
pub trait Worker<In, Out>: Sized {
    fn start(c: Config) -> Self;

    fn send(&self, e: In);

    fn recv(&self) -> Option<Out>;

    fn shutdown(&self);
}

/// Shuts a worker down through its own cooperative shutdown entry.
pub trait Shutdown<In, Out> {
    fn shutdown<T: Worker<In, Out>>(worker: &T) {
        worker.shutdown();
    }
}

/// Control messages of the window worker.
pub enum InputControl {
    Shutdown,
}

/// An operator key observed by the window worker.
#[derive(Clone, Copy, Debug, PartialEq, Eq, Structural)]
pub enum OperatorKey {
    Ctrl(char),
    Char(char),
    Backspace,
    Esc,
    Other,
}

/// Status messages of the window worker.
#[derive(Clone, Copy, Debug, PartialEq, Eq, Structural)]
pub enum InputStatus {
    Input(OperatorKey),
}

/// Feedback tones of the optional audio worker.
#[derive(Clone, Copy, Debug, PartialEq, Eq, Structural)]
pub enum Sound {
    Error,
    Success,
}

/// Control messages of the device worker.
#[derive(Clone, Copy, Debug)]
pub enum DeviceControl {
    Disable,
    Enable,
    Reconnect(&'static str),
    Disconnect,
    Shutdown,
}

/// Status messages of the device worker.
#[derive(Debug)]
pub enum DeviceStatus {
    Input(Chord),
    Disconnected,
}

/// The connection state of the device worker.
#[derive(Clone, Copy, Debug, PartialEq, Eq, Structural)]
pub enum DeviceState {
    Connected,
    Disconnected,
    Stopped,
}

/// What the device worker does next in one loop turn.
#[derive(Clone, Copy, Debug)]
pub enum DeviceAction {
    /// Try to open the serial handle at this path.
    OpenPort(&'static str),
    /// Release the serial handle.
    ClosePort,
    /// Attempt one frame read; a failed read is transient and retried.
    ReadFrame,
    /// Sleep briefly, then poll the control channel again.
    Wait,
    /// Leave the worker loop.
    Exit,
}

/// The device worker's decision for one loop turn: a shutdown exits, a
/// disconnect releases the handle and enters the retry-wait state, a
/// reconnect asks for the handle to be reopened, and without a pending
/// control message a connected worker reads one frame while a disconnected
/// one keeps waiting.
pub open spec fn device_step_spec(
    state: DeviceState,
    control: Option<DeviceControl>,
) -> (DeviceState, DeviceAction) {
    match control {
        Some(DeviceControl::Shutdown) => (DeviceState::Stopped, DeviceAction::Exit),
        Some(DeviceControl::Disconnect) => (DeviceState::Disconnected, DeviceAction::ClosePort),
        Some(DeviceControl::Reconnect(p)) => (state, DeviceAction::OpenPort(p)),
        Some(DeviceControl::Disable) => (state, DeviceAction::Wait),
        Some(DeviceControl::Enable) => (state, DeviceAction::Wait),
        None => match state {
            DeviceState::Connected => (DeviceState::Connected, DeviceAction::ReadFrame),
            DeviceState::Disconnected => (DeviceState::Disconnected, DeviceAction::Wait),
            DeviceState::Stopped => (DeviceState::Stopped, DeviceAction::Exit),
        },
    }
}

/// Decides the device worker's next state and action for one loop turn.
pub fn device_step(state: DeviceState, control: Option<DeviceControl>)
    -> (r: (DeviceState, DeviceAction))
    ensures
        r == device_step_spec(state, control),
{
    match control {
        Some(DeviceControl::Shutdown) => (DeviceState::Stopped, DeviceAction::Exit),
        Some(DeviceControl::Disconnect) => (DeviceState::Disconnected, DeviceAction::ClosePort),
        Some(DeviceControl::Reconnect(p)) => (state, DeviceAction::OpenPort(p)),
        Some(DeviceControl::Disable) => (state, DeviceAction::Wait),
        Some(DeviceControl::Enable) => (state, DeviceAction::Wait),
        None => match state {
            DeviceState::Connected => (DeviceState::Connected, DeviceAction::ReadFrame),
            DeviceState::Disconnected => (DeviceState::Disconnected, DeviceAction::Wait),
            DeviceState::Stopped => (DeviceState::Stopped, DeviceAction::Exit),
        },
    }
}

/// The state the device worker enters after an attempted open.
pub open spec fn device_opened_spec(ok: bool) -> DeviceState {
    if ok { DeviceState::Connected } else { DeviceState::Disconnected }
}

/// Records the outcome of an attempted open: success connects the worker,
/// failure leaves it waiting for the next reconnect request.
pub fn device_opened(ok: bool) -> (r: DeviceState)
    ensures
        r == device_opened_spec(ok),
{
    if ok { DeviceState::Connected } else { DeviceState::Disconnected }
}

/// Decodes one raw frame into its canonical chord, or `None` for a frame
/// whose keys canonicalize to the empty chord: an empty chord is never
/// forwarded downstream.
pub fn device_frame(frame: &[u8; 6]) -> (r: Option<Chord>)
    ensures
        match r {
            Some(c) => c@ == canonical_keys(raw_frame_keys(frame@)) && c@.len() > 0,
            None => canonical_keys(raw_frame_keys(frame@)).len() == 0,
        },
{
    let keys = crate::steno::decode_frame(frame);
    let chord = Chord::new(keys);
    if chord.is_empty() {
        None
    } else {
        Some(chord)
    }
}

/// A `Reconnect` received while disconnected asks for the handle to be
/// reopened; a successful open reconnects the worker; and a connected
/// worker with no pending control goes back to reading frames, so chord
/// production resumes without operator intervention.
pub proof fn lemma_reconnect_resumes(p: &'static str)
    ensures
        device_step_spec(DeviceState::Disconnected, Some(DeviceControl::Reconnect(p)))
            == (DeviceState::Disconnected, DeviceAction::OpenPort(p)),
        device_opened_spec(true) == DeviceState::Connected,
        device_step_spec(DeviceState::Connected, None)
            == (DeviceState::Connected, DeviceAction::ReadFrame),
{
}

} // verus!
