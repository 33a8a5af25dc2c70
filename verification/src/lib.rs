//! Decoder for a cassette-style audio encoding: a zero-crossing detector, a
//! pulse-width classifier, and a framing state machine recover bit sequences
//! from a buffer of signed samples.

pub mod bitio;
pub mod decoder;
pub mod laws;
pub mod model;
