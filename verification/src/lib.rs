//! Voice engine of a polyphonic, MIDI-driven synthesizer.
//!
//! MIDI bytes become messages, messages strike and release the voices of a
//! pool, and each voice's envelope and oscillator phase say what the voice
//! adds to a frame of output. Everything here works on integers: time is a
//! count of samples, and levels, phases and points are fixed-point numbers in
//! millionths. Sines and cosines, and the audio and MIDI devices, live with
//! the caller.

pub mod engine;
pub mod fixed_point;
pub mod maths;
pub mod opts;
pub mod oscillator;
pub mod pool;
pub mod ports;
pub mod synthesis;
pub mod util;
pub mod vec2;
