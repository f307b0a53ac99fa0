//! Voice management, block scheduling and parameter identifiers of a
//! three-oscillator polyphonic synthesizer.

pub mod fallback;
pub mod rng;
pub mod voices;
pub mod wave;
pub mod blocks;
pub mod modulation;
pub mod laws;
