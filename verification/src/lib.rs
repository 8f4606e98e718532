//! Real-time stenography translation engine.
//!
//! The engine decodes raw serial frames from a steno keyboard into canonical
//! chords, resolves them against a dictionary into output commands, and turns
//! those commands into ordered virtual-keystroke sequences. The surrounding
//! process (serial I/O, terminal input, the virtual keyboard device) lives
//! outside this crate and drives it through plain values.

pub mod control;
pub mod dictionary;
pub mod emitter;
pub mod steno;
pub mod text;
pub mod utils;
pub mod workers;
