//! Sensor communication and presentation core of a portable air-quality
//! monitor: checksummed command frames, response decoding, fixed-point
//! compensation ticks, colour gradients and fixed-width display text.

pub mod logic;
pub mod peripherals;
pub mod wire;
