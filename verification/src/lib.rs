//! Signal processing for an NDIR (non-dispersive infrared) gas sensor:
//! rail detection and median-of-5 spike rejection on raw ADC channels,
//! the lamp ON/OFF pairing state machine with baseline accumulation, and
//! the integer side of the fixed-decimal log formatting.

pub mod filter;
pub mod report;
pub mod sensor;
