//! Drivers, and the capabilities they need from the hardware.

pub mod bus;
pub mod button;
pub mod led;
pub mod scd30;
pub mod sgp40;
