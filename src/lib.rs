//! Core logic of a waveform seek bar: peak normalisation, bar layout,
//! the fade-out / fade-in animation driven by a frame clock, and the
//! mapping of pointer and keyboard input to playback positions; beside it,
//! the decisions of the playback backend and of the presence reporter.
//!
//! Fractions in `[0, 1]` are held in fixed point, with `UNIT` standing for one.

pub mod fixed;
pub mod peaks;
pub mod animation;
pub mod waveform;
pub mod input;
pub mod layout;
pub mod playback;
