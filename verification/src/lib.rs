//! Verified decision logic for a battery-powered AHT20 temperature/humidity
//! sensor node: the AHT20 frame decoding and CRC check, the measurement
//! sequence as a state machine, battery divider arithmetic, per-cycle sample
//! folding, and the bench diagnostics (bus scan, rail-polarity verdict).
pub mod aht20;
pub mod battery;
pub mod sensors;
pub mod bus;
pub mod diagnostic;
