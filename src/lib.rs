//! A polyphonic additive organ engine in fixed point.
//!
//! Samples are `i32` values with `sample::ONE` standing for full scale, gains
//! are `u32` values in units of `1 / sample::LEVEL_ONE`, frequencies are `u64`
//! values in units of `1 / oscillator::FREQ_ONE` Hz, and an oscillator's
//! phase is a `u32` accumulator over one cycle. The waveform (one cycle of a
//! sine, sampled) and the frequency of each note come in as tables.

pub mod sample;
pub mod env;
pub mod oscillator;
pub mod mixer;
pub mod message;
pub mod config;
pub mod voice;
pub mod multi;
pub mod handoff;
