//! Real-time tempo estimation on a fixed-point audio envelope.
//!
//! The analyser takes batches of 16-bit samples (the band-passed signal and
//! the raw one) and returns at most one estimate per batch. All arithmetic is
//! on integers: tempos are in tenths of a beat per minute, confidences, ratios
//! and energies in parts per million, clock readings in milliseconds and the
//! beat offset in microseconds.

pub mod analyzer;
pub mod button;
pub mod correlation;
pub mod midi;
pub mod multirate;
pub mod restart;
pub mod ring;
pub mod smoother;
pub mod uevent;
pub mod window;

